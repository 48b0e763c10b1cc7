//! Name objects: `/` followed by regular characters, some of which may be
//! written as `#` and two more bytes.

use vstd::prelude::*;
use crate::error::agrees;
use crate::error::unexpected;
use crate::error::ParseError;
use crate::error::Parsed;
use crate::lexical::is_regular;
use crate::lexical::is_regular_char;
use crate::lexical::split;
use crate::serialize::BinSerialize;

verus! {

pub const SOLIDUS: u8 = 0x2F;

pub const NUMBER_SIGN: u8 = 0x23;

/// One character of a name, as it was written.
#[derive(Clone, Copy, Debug, PartialEq, Eq, Structural)]
pub enum NameObjectChar {
    /// A byte that stands for itself.
    Regular(u8),
    /// The two bytes that followed a `#`.
    NumberSignPrefixed(u8, u8),
}

impl View for NameObjectChar {
    type V = NameObjectChar;

    open spec fn view(&self) -> NameObjectChar {
        *self
    }
}

impl NameObjectChar {
    pub open spec fn bytes(self) -> Seq<u8> {
        match self {
            NameObjectChar::Regular(c) => seq![c],
            NameObjectChar::NumberSignPrefixed(n1, n2) => seq![NUMBER_SIGN, n1, n2],
        }
    }

    /// A character that stands for itself is a regular character other than
    /// `#`.
    pub open spec fn wf(self) -> bool {
        match self {
            NameObjectChar::Regular(c) => is_regular(c) && c != NUMBER_SIGN,
            NameObjectChar::NumberSignPrefixed(_, _) => true,
        }
    }
}

impl BinSerialize for NameObjectChar {
    open spec fn serialized(&self) -> Seq<u8> {
        self.bytes()
    }

    fn serialize_to(&self, buf: &mut Vec<u8>) {
        match self {
            NameObjectChar::Regular(c) => {
                buf.push(*c);
            },
            NameObjectChar::NumberSignPrefixed(n1, n2) => {
                buf.push(NUMBER_SIGN);
                buf.push(*n1);
                buf.push(*n2);
            },
        }
        assert(buf@ == old(buf)@ + self.bytes());
    }
}

/// The bytes of a run of name characters, one after the other.
pub open spec fn name_chars_bytes(chars: Seq<NameObjectChar>) -> Seq<u8>
    decreases chars.len(),
{
    if chars.len() == 0 {
        Seq::empty()
    } else {
        name_chars_bytes(chars.drop_last()) + chars.last().bytes()
    }
}

/// A character more adds its bytes.
pub proof fn lemma_name_chars_bytes_push(chars: Seq<NameObjectChar>, c: NameObjectChar)
    ensures
        name_chars_bytes(chars.push(c)) == name_chars_bytes(chars) + c.bytes(),
{
    assert(chars.push(c).drop_last() =~= chars);
}

/// A name: the characters that follow the `/`.
#[derive(Debug, PartialEq, Eq)]
pub struct NameObject {
    pub chars: Vec<NameObjectChar>,
}

/// The view of `NameObject` in contracts: the same fields, with sequences in
/// place of vectors.
pub struct NameObjectView {
    pub chars: Seq<NameObjectChar>,
}

impl View for NameObject {
    type V = NameObjectView;

    open spec fn view(&self) -> NameObjectView {
        NameObjectView { chars: self.chars@ }
    }
}

impl NameObjectView {
    pub open spec fn bytes(self) -> Seq<u8> {
        seq![SOLIDUS] + name_chars_bytes(self.chars)
    }

    pub open spec fn wf(self) -> bool {
        forall|k: int| 0 <= k < self.chars.len() ==> (#[trigger] self.chars[k]).wf()
    }
}

impl BinSerialize for NameObject {
    open spec fn serialized(&self) -> Seq<u8> {
        self@.bytes()
    }

    fn serialize_to(&self, buf: &mut Vec<u8>) {
        buf.push(SOLIDUS);
        let mut k: usize = 0;
        while k < self.chars.len()
            invariant
                k <= self.chars.len(),
                buf@ == old(buf)@ + seq![SOLIDUS] + name_chars_bytes(self.chars@.take(k as int)),
            decreases self.chars.len() - k,
        {
            self.chars[k].serialize_to(buf);
            proof {
                let done = self.chars@.take(k as int);
                assert(self.chars@.take(k + 1) =~= done.push(self.chars@[k as int]));
                lemma_name_chars_bytes_push(done, self.chars@[k as int]);
            }
            k += 1;
        }
        assert(self.chars@.take(k as int) =~= self.chars@);
        assert(buf@ == old(buf)@ + self@.bytes());
    }
}

/// The scan of a name after its `/`.
///
/// `t` is the input after the `/`, `acc` holds the characters found so far
/// and `j` is the byte to look at next. The name ends before the first byte
/// that is whitespace or a delimiter, or at the end of the input. A `#` takes
/// the two bytes after it, whatever they are; where fewer than two follow,
/// the scan fails at the `#`.
pub open spec fn name_scan(t: Seq<u8>, acc: Seq<NameObjectChar>, j: int) -> Parsed<
    Seq<NameObjectChar>,
>
    decreases t.len() - j,
{
    if j < 0 || j >= t.len() || !is_regular(t[j]) {
        Ok((t.skip(j), acc))
    } else if t[j] == NUMBER_SIGN {
        if j + 3 > t.len() {
            Err(unexpected(t.skip(j)))
        } else {
            name_scan(t, acc.push(NameObjectChar::NumberSignPrefixed(t[j + 1], t[j + 2])), j + 3)
        }
    } else {
        name_scan(t, acc.push(NameObjectChar::Regular(t[j])), j + 1)
    }
}

/// A name: `/`, then the scan of its characters.
#[verifier::opaque]
pub open spec fn spec_object_name(s: Seq<u8>) -> Parsed<NameObjectView> {
    if s.len() > 0 && s[0] == SOLIDUS {
        match name_scan(s.skip(1), Seq::empty(), 0) {
            Ok((rest, chars)) => Ok((rest, NameObjectView { chars })),
            Err(e) => Err(e),
        }
    } else {
        Err(unexpected(s))
    }
}

/// The characters that the scan adds to `acc` stand for what it takes from
/// `t`, and each of them is well-formed.
proof fn lemma_name_scan_round_trip(t: Seq<u8>, acc: Seq<NameObjectChar>, j: int)
    requires
        0 <= j <= t.len(),
        name_chars_bytes(acc) == t.take(j),
        forall|k: int| 0 <= k < acc.len() ==> (#[trigger] acc[k]).wf(),
    ensures
        name_scan(t, acc, j) matches Ok((rest, chars)) ==> name_chars_bytes(chars) + rest == t && (
        forall|k: int| 0 <= k < chars.len() ==> (#[trigger] chars[k]).wf()) && (rest.len() > 0
            ==> !is_regular(rest[0])),
    decreases t.len() - j,
{
    if j >= t.len() || !is_regular(t[j]) {
        assert(t.take(j) + t.skip(j) =~= t);
    } else if t[j] == NUMBER_SIGN {
        if j + 3 <= t.len() {
            let c = NameObjectChar::NumberSignPrefixed(t[j + 1], t[j + 2]);
            lemma_name_chars_bytes_push(acc, c);
            assert(t.take(j) + c.bytes() =~= t.take(j + 3));
            lemma_name_scan_round_trip(t, acc.push(c), j + 3);
        }
    } else {
        let c = NameObjectChar::Regular(t[j]);
        lemma_name_chars_bytes_push(acc, c);
        assert(t.take(j) + c.bytes() =~= t.take(j + 1));
        lemma_name_scan_round_trip(t, acc.push(c), j + 1);
    }
}

/// What the name parser read is what its result writes; the name is
/// well-formed, and it ends where no regular character follows.
pub proof fn lemma_name_round_trip(s: Seq<u8>)
    ensures
        spec_object_name(s) matches Ok((rest, v)) ==> v.bytes() + rest == s && v.wf() && rest.len()
            < s.len() && (rest.len() > 0 ==> !is_regular(rest[0])),
{
    reveal(spec_object_name);
    if s.len() > 0 && s[0] == SOLIDUS {
        let t = s.skip(1);
        assert(name_chars_bytes(Seq::empty()) =~= t.take(0));
        lemma_name_scan_round_trip(t, Seq::empty(), 0);
        if let Ok((rest, chars)) = name_scan(t, Seq::empty(), 0) {
            assert(seq![SOLIDUS] + name_chars_bytes(chars) + rest =~= seq![SOLIDUS] + (
            name_chars_bytes(chars) + rest));
            assert(seq![SOLIDUS] + t =~= s);
        }
    }
}

/// Parses a name. Bytes outside printable ASCII are taken as they are.
pub fn object_name(input: &[u8]) -> (r: Result<(&[u8], NameObject), ParseError>)
    ensures
        agrees(r, spec_object_name(input@)),
        r matches Ok((rest, node)) ==> node@.bytes() + rest@ == input@ && node@.wf(),
        r matches Err(e) ==> e.remaining <= input@.len(),
{
    proof {
        lemma_name_round_trip(input@);
        reveal(spec_object_name);
    }
    if input.len() == 0 || input[0] != SOLIDUS {
        return Err(ParseError::unexpected_at(input));
    }
    let (_, body) = split(input, 1);
    let ghost t = body@;
    let mut chars: Vec<NameObjectChar> = Vec::new();
    let mut j: usize = 0;
    while j < body.len() && is_regular_char(body[j])
        invariant
            input@.len() > 0,
            input@[0] == SOLIDUS,
            t == input@.skip(1),
            body@ == t,
            j <= body.len(),
            name_scan(t, Seq::empty(), 0) == name_scan(t, chars@, j as int),
        decreases body.len() - j,
    {
        proof {
            reveal(spec_object_name);
        }
        let c: u8 = body[j];
        if c == NUMBER_SIGN {
            if body.len() - j < 3 {
                let (_, tail) = split(body, j);
                return Err(ParseError::unexpected_at(tail));
            }
            chars.push(NameObjectChar::NumberSignPrefixed(body[j + 1], body[j + 2]));
            j += 3;
        } else {
            chars.push(NameObjectChar::Regular(c));
            j += 1;
        }
    }
    let (_, rest) = split(body, j);
    Ok((rest, NameObject { chars }))
}

} // verus!
