//! String objects: literal strings in parentheses and hexadecimal strings in
//! angle brackets.

use vstd::prelude::*;
use vstd::slice::slice_subrange;
use vstd::slice::slice_to_vec;
use crate::error::agrees;
use crate::error::unexpected;
use crate::error::Missing;
use crate::error::ParseError;
use crate::error::ParseErrorKind;
use crate::error::Parsed;
use crate::lexical::eol_len;
use crate::lexical::is_hex_string;
use crate::lexical::is_hex_string_char;
use crate::lexical::is_octal_digit;
use crate::lexical::is_octal_digit_char;
use crate::lexical::split;
use crate::lexical::CARRIAGE_RETURN;
use crate::lexical::LINE_FEED;
use crate::serialize::write_all;
use crate::serialize::BinSerialize;

verus! {

pub const LEFT_PAREN: u8 = 0x28;

pub const RIGHT_PAREN: u8 = 0x29;

pub const BACKSLASH: u8 = 0x5C;

pub const LESS_THAN: u8 = 0x3C;

pub const GREATER_THAN: u8 = 0x3E;

/// A stretch of a literal string: bytes that stand for themselves, or what
/// followed one backslash.
#[derive(Debug, PartialEq, Eq)]
pub enum LiteralStringPart {
    /// Bytes without a backslash.
    Regular(Vec<u8>),
    /// The bytes of an escape, without the backslash that introduced them.
    Escaped(Vec<u8>),
}

/// The view of `LiteralStringPart` in contracts: the same variants, with sequences in
/// place of vectors.
pub enum LiteralStringPartView {
    Regular(Seq<u8>),
    Escaped(Seq<u8>),
}

impl View for LiteralStringPart {
    type V = LiteralStringPartView;

    open spec fn view(&self) -> LiteralStringPartView {
        match self {
            LiteralStringPart::Regular(b) => LiteralStringPartView::Regular(b@),
            LiteralStringPart::Escaped(b) => LiteralStringPartView::Escaped(b@),
        }
    }
}

impl LiteralStringPartView {
    pub open spec fn bytes(self) -> Seq<u8> {
        match self {
            LiteralStringPartView::Regular(b) => b,
            LiteralStringPartView::Escaped(b) => seq![BACKSLASH] + b,
        }
    }
}

/// The bytes of a run of parts, one after the other.
pub open spec fn literal_parts_bytes(parts: Seq<LiteralStringPartView>) -> Seq<u8>
    decreases parts.len(),
{
    if parts.len() == 0 {
        Seq::empty()
    } else {
        literal_parts_bytes(parts.drop_last()) + parts.last().bytes()
    }
}

/// A part more adds its bytes.
pub proof fn lemma_literal_parts_bytes_push(
    parts: Seq<LiteralStringPartView>,
    part: LiteralStringPartView,
)
    ensures
        literal_parts_bytes(parts.push(part)) == literal_parts_bytes(parts) + part.bytes(),
{
    assert(parts.push(part).drop_last() =~= parts);
}

/// A literal string: what stands between `(` and the `)` that closes it.
#[derive(Debug, PartialEq, Eq)]
pub struct LiteralString {
    pub parts: Vec<LiteralStringPart>,
}

/// The view of `LiteralString` in contracts: the same fields, with sequences in
/// place of vectors.
pub struct LiteralStringView {
    pub parts: Seq<LiteralStringPartView>,
}

/// The views of the parts of a literal string.
pub open spec fn literal_parts_view(parts: Seq<LiteralStringPart>) -> Seq<LiteralStringPartView> {
    parts.map_values(|p: LiteralStringPart| p@)
}

impl View for LiteralString {
    type V = LiteralStringView;

    open spec fn view(&self) -> LiteralStringView {
        LiteralStringView { parts: literal_parts_view(self.parts@) }
    }
}

/// What a byte adds to the number of open parentheses.
pub open spec fn paren_step(c: u8) -> int {
    if c == LEFT_PAREN {
        1
    } else if c == RIGHT_PAREN {
        -1
    } else {
        0
    }
}

/// The number of parentheses that `s` opens, less the number that it closes.
pub open spec fn paren_balance(s: Seq<u8>) -> int
    decreases s.len(),
{
    if s.len() == 0 {
        0
    } else {
        paren_balance(s.drop_last()) + paren_step(s.last())
    }
}

/// Whether the parentheses of `s` are balanced: it closes none that it has
/// not opened, and leaves none open.
pub open spec fn balanced(s: Seq<u8>) -> bool {
    &&& paren_balance(s) == 0
    &&& forall|k: int| 0 <= k <= s.len() ==> paren_balance(#[trigger] s.take(k)) >= 0
}

/// The regular bytes of a run of parts, one after the other.
pub open spec fn regular_bytes(parts: Seq<LiteralStringPartView>) -> Seq<u8>
    decreases parts.len(),
{
    if parts.len() == 0 {
        Seq::empty()
    } else {
        regular_bytes(parts.drop_last()) + match parts.last() {
            LiteralStringPartView::Regular(b) => b,
            LiteralStringPartView::Escaped(_) => Seq::empty(),
        }
    }
}

impl LiteralStringView {
    pub open spec fn bytes(self) -> Seq<u8> {
        seq![LEFT_PAREN] + literal_parts_bytes(self.parts) + seq![RIGHT_PAREN]
    }

    /// The regular parts, taken together, have balanced parentheses: none of
    /// them needs an escape.
    pub open spec fn wf(self) -> bool {
        balanced(regular_bytes(self.parts))
    }
}

impl BinSerialize for LiteralStringPart {
    open spec fn serialized(&self) -> Seq<u8> {
        self@.bytes()
    }

    fn serialize_to(&self, buf: &mut Vec<u8>) {
        match self {
            LiteralStringPart::Regular(b) => {
                write_all(buf, b.as_slice());
            },
            LiteralStringPart::Escaped(b) => {
                buf.push(BACKSLASH);
                write_all(buf, b.as_slice());
                assert(buf@ == old(buf)@ + (seq![BACKSLASH] + b@));
            },
        }
    }
}

impl BinSerialize for LiteralString {
    open spec fn serialized(&self) -> Seq<u8> {
        self@.bytes()
    }

    fn serialize_to(&self, buf: &mut Vec<u8>) {
        buf.push(LEFT_PAREN);
        let mut k: usize = 0;
        while k < self.parts.len()
            invariant
                k <= self.parts.len(),
                buf@ == old(buf)@ + seq![LEFT_PAREN] + literal_parts_bytes(
                    literal_parts_view(self.parts@.take(k as int)),
                ),
            decreases self.parts.len() - k,
        {
            self.parts[k].serialize_to(buf);
            proof {
                let done = self.parts@.take(k as int);
                assert(self.parts@.take(k + 1) =~= done.push(self.parts@[k as int]));
                assert(literal_parts_view(done.push(self.parts@[k as int])) =~= literal_parts_view(
                    done,
                ).push(self.parts@[k as int]@));
                lemma_literal_parts_bytes_push(literal_parts_view(done), self.parts@[k as int]@);
            }
            k += 1;
        }
        buf.push(RIGHT_PAREN);
        assert(self.parts@.take(k as int) =~= self.parts@);
        assert(buf@ == old(buf)@ + self@.bytes());
    }
}

/// The eight bytes that make a one-byte escape: `n r t b f ( ) \`.
pub open spec fn is_escape_char(c: u8) -> bool {
    c == 0x6E || c == 0x72 || c == 0x74 || c == 0x62 || c == 0x66 || c == LEFT_PAREN || c
        == RIGHT_PAREN || c == BACKSLASH
}

/// How many octal digits `s` begins with, three at most.
pub open spec fn octal_run(s: Seq<u8>) -> int {
    if s.len() > 0 && is_octal_digit(s[0]) {
        if s.len() > 1 && is_octal_digit(s[1]) {
            if s.len() > 2 && is_octal_digit(s[2]) {
                3
            } else {
                2
            }
        } else {
            1
        }
    } else {
        0
    }
}

/// The length of the escape that `s` begins with, `s` being what follows a
/// backslash: a one-byte escape, else a line end, else one to three octal
/// digits, else nothing.
pub open spec fn escape_len(s: Seq<u8>) -> int {
    if s.len() > 0 && is_escape_char(s[0]) {
        1
    } else if eol_len(s, 0) > 0 {
        eol_len(s, 0)
    } else {
        octal_run(s)
    }
}

/// What follows a backslash: the unread rest and the bytes of the escape.
pub open spec fn spec_escaped_part(s: Seq<u8>) -> (Seq<u8>, Seq<u8>) {
    (s.skip(escape_len(s)), s.take(escape_len(s)))
}

/// Reads the escape that follows a backslash; `input` begins after the
/// backslash. The escape may be empty, and this never fails.
pub fn escaped_part(input: &[u8]) -> (r: Result<(&[u8], &[u8]), ParseError>)
    ensures
        r matches Ok((rest, escape)) && (rest@, escape@) == spec_escaped_part(input@),
        r matches Ok((rest, escape)) && escape@ + rest@ == input@,
{
    let len: usize = input.len();
    let n: usize = if len == 0 {
        0
    } else {
        let c: u8 = input[0];
        if c == 0x6E || c == 0x72 || c == 0x74 || c == 0x62 || c == 0x66 || c == LEFT_PAREN || c
            == RIGHT_PAREN || c == BACKSLASH {
            1
        } else if c == CARRIAGE_RETURN {
            if len > 1 && input[1] == LINE_FEED {
                2
            } else {
                1
            }
        } else if c == LINE_FEED {
            1
        } else if is_octal_digit_char(c) {
            if len > 1 && is_octal_digit_char(input[1]) {
                if len > 2 && is_octal_digit_char(input[2]) {
                    3
                } else {
                    2
                }
            } else {
                1
            }
        } else {
            0
        }
    };
    let (escape, rest) = split(input, n);
    assert(escape@ + rest@ =~= input@);
    Ok((rest, escape))
}

/// The parts found so far, and the pending stretch of regular bytes from `i`
/// to `j` as one more part if it is not empty.
pub open spec fn with_pending(
    acc: Seq<LiteralStringPartView>,
    t: Seq<u8>,
    i: int,
    j: int,
) -> Seq<LiteralStringPartView> {
    if i < j {
        acc.push(LiteralStringPartView::Regular(t.subrange(i, j)))
    } else {
        acc
    }
}

/// The scan of a literal string after its opening parenthesis.
///
/// `t` is the input after the `(`; `acc` holds the parts found so far; the
/// bytes from `i` to `j` are regular bytes that no part holds yet; `j` is the
/// byte to look at next; `depth` counts the parentheses that are open.
/// The string ends at the `)` that brings the depth to zero. If the input
/// ends first, the scan fails as incomplete, with the depth it had reached.
pub open spec fn literal_scan(
    t: Seq<u8>,
    acc: Seq<LiteralStringPartView>,
    i: int,
    j: int,
    depth: nat,
) -> Parsed<Seq<LiteralStringPartView>>
    decreases t.len() - j,
{
    if j < 0 || j >= t.len() {
        Err(
            ParseError {
                kind: ParseErrorKind::Incomplete(
                    Missing::ClosingParenthesis { depth: depth as usize },
                ),
                remaining: 0,
            },
        )
    } else if t[j] == BACKSLASH {
        let n = escape_len(t.skip(j + 1));
        let escape = LiteralStringPartView::Escaped(t.skip(j + 1).take(n));
        literal_scan(t, with_pending(acc, t, i, j).push(escape), j + 1 + n, j + 1 + n, depth)
    } else if t[j] == LEFT_PAREN {
        literal_scan(t, acc, i, j + 1, depth + 1)
    } else if t[j] == RIGHT_PAREN {
        if depth <= 1 {
            Ok((t.skip(j + 1), with_pending(acc, t, i, j)))
        } else {
            literal_scan(t, acc, i, j + 1, (depth - 1) as nat)
        }
    } else {
        literal_scan(t, acc, i, j + 1, depth)
    }
}

/// A literal string: `(`, then the scan up to the `)` that matches it.
#[verifier::opaque]
pub open spec fn spec_object_literal_string(s: Seq<u8>) -> Parsed<LiteralStringView> {
    if s.len() > 0 && s[0] == LEFT_PAREN {
        match literal_scan(s.skip(1), Seq::empty(), 0, 0, 1) {
            Ok((rest, parts)) => Ok((rest, LiteralStringView { parts })),
            Err(e) => Err(e),
        }
    } else {
        Err(unexpected(s))
    }
}

/// The parts that the scan adds to `acc` stand for what it takes from `t`.
proof fn lemma_literal_scan_round_trip(
    t: Seq<u8>,
    acc: Seq<LiteralStringPartView>,
    i: int,
    j: int,
    depth: nat,
)
    requires
        0 <= i <= j <= t.len(),
        literal_parts_bytes(acc) == t.take(i),
    ensures
        literal_scan(t, acc, i, j, depth) matches Ok((rest, parts)) ==> literal_parts_bytes(parts)
            + seq![RIGHT_PAREN] + rest == t && rest.len() < t.len(),
    decreases t.len() - j,
{
    let pending = with_pending(acc, t, i, j);
    assert(literal_parts_bytes(pending) == t.take(j)) by {
        if i < j {
            lemma_literal_parts_bytes_push(acc, LiteralStringPartView::Regular(t.subrange(i, j)));
            assert(t.take(i) + t.subrange(i, j) =~= t.take(j));
        } else {
            assert(t.take(i) =~= t.take(j));
        }
    }
    if j < t.len() {
        if t[j] == BACKSLASH {
            let n = escape_len(t.skip(j + 1));
            let escape = LiteralStringPartView::Escaped(t.skip(j + 1).take(n));
            lemma_literal_parts_bytes_push(pending, escape);
            assert(t.take(j) + (seq![BACKSLASH] + t.skip(j + 1).take(n)) =~= t.take(j + 1 + n));
            lemma_literal_scan_round_trip(t, pending.push(escape), j + 1 + n, j + 1 + n, depth);
        } else if t[j] == LEFT_PAREN {
            lemma_literal_scan_round_trip(t, acc, i, j + 1, depth + 1);
        } else if t[j] == RIGHT_PAREN {
            if depth <= 1 {
                assert(t.take(j) + seq![RIGHT_PAREN] + t.skip(j + 1) =~= t);
            } else {
                lemma_literal_scan_round_trip(t, acc, i, j + 1, (depth - 1) as nat);
            }
        } else {
            lemma_literal_scan_round_trip(t, acc, i, j + 1, depth);
        }
    }
}

/// Whether every prefix of `s` opens at least as many parentheses as it
/// closes.
pub open spec fn never_negative(s: Seq<u8>) -> bool {
    forall|k: int| 0 <= k <= s.len() ==> paren_balance(#[trigger] s.take(k)) >= 0
}

/// A byte more keeps the count of open parentheses from going negative
/// where it does not close more than are open.
proof fn lemma_never_negative_push(s: Seq<u8>, c: u8)
    requires
        never_negative(s),
        paren_balance(s) + paren_step(c) >= 0,
    ensures
        never_negative(s.push(c)),
        paren_balance(s.push(c)) == paren_balance(s) + paren_step(c),
{
    let p = s.push(c);
    assert(p.drop_last() =~= s);
    assert forall|k: int| 0 <= k <= p.len() implies paren_balance(#[trigger] p.take(k)) >= 0 by {
        if k <= s.len() {
            assert(p.take(k) =~= s.take(k));
        } else {
            assert(p.take(k) =~= p);
        }
    }
}

/// A part more adds its bytes where it is regular, and nothing where it is
/// an escape.
proof fn lemma_regular_bytes_push(parts: Seq<LiteralStringPartView>, part: LiteralStringPartView)
    ensures
        regular_bytes(parts.push(part)) == regular_bytes(parts) + match part {
            LiteralStringPartView::Regular(b) => b,
            LiteralStringPartView::Escaped(_) => Seq::empty(),
        },
{
    assert(parts.push(part).drop_last() =~= parts);
}

/// The regular bytes of what the scan gives have balanced parentheses: the
/// depth is one more than the balance of the regular bytes seen so far.
proof fn lemma_literal_scan_balanced(
    t: Seq<u8>,
    acc: Seq<LiteralStringPartView>,
    i: int,
    j: int,
    depth: nat,
)
    requires
        0 <= i <= j <= t.len(),
        depth == 1 + paren_balance(regular_bytes(acc) + t.subrange(i, j)),
        never_negative(regular_bytes(acc) + t.subrange(i, j)),
    ensures
        literal_scan(t, acc, i, j, depth) matches Ok((_, parts)) ==> balanced(regular_bytes(parts)),
    decreases t.len() - j,
{
    let seen = regular_bytes(acc) + t.subrange(i, j);
    let pending = with_pending(acc, t, i, j);
    assert(seen.take(seen.len() as int) =~= seen);
    assert(regular_bytes(pending) == seen) by {
        if i < j {
            lemma_regular_bytes_push(acc, LiteralStringPartView::Regular(t.subrange(i, j)));
        } else {
            assert(seen =~= regular_bytes(acc));
        }
    }
    if j < t.len() {
        if t[j] == BACKSLASH {
            let n = escape_len(t.skip(j + 1));
            let escape = LiteralStringPartView::Escaped(t.skip(j + 1).take(n));
            lemma_regular_bytes_push(pending, escape);
            let next = j + 1 + n;
            assert(regular_bytes(pending.push(escape)) + t.subrange(next, next) =~= seen);
            lemma_literal_scan_balanced(t, pending.push(escape), next, next, depth);
        } else {
            let c = t[j];
            assert(regular_bytes(acc) + t.subrange(i, j + 1) =~= seen.push(c));
            if c == LEFT_PAREN {
                lemma_never_negative_push(seen, c);
                lemma_literal_scan_balanced(t, acc, i, j + 1, depth + 1);
            } else if c == RIGHT_PAREN {
                if depth > 1 {
                    lemma_never_negative_push(seen, c);
                    lemma_literal_scan_balanced(t, acc, i, j + 1, (depth - 1) as nat);
                }
            } else {
                lemma_never_negative_push(seen, c);
                lemma_literal_scan_balanced(t, acc, i, j + 1, depth);
            }
        }
    }
}

/// What the literal-string parser read is what its result writes, and the
/// regular parts of the result have balanced parentheses.
pub proof fn lemma_literal_string_round_trip(s: Seq<u8>)
    ensures
        spec_object_literal_string(s) matches Ok((rest, v)) ==> v.bytes() + rest == s && v.wf()
            && rest.len() < s.len(),
{
    reveal(spec_object_literal_string);
    if s.len() > 0 && s[0] == LEFT_PAREN {
        let t = s.skip(1);
        assert(literal_parts_bytes(Seq::empty()) =~= t.take(0));
        lemma_literal_scan_round_trip(t, Seq::empty(), 0, 0, 1);
        assert(regular_bytes(Seq::empty()) + t.subrange(0, 0) =~= Seq::<u8>::empty());
        assert(never_negative(Seq::<u8>::empty())) by {
            assert forall|k: int| 0 <= k <= 0 implies paren_balance(
                #[trigger] Seq::<u8>::empty().take(k),
            ) >= 0 by {
                assert(Seq::<u8>::empty().take(k) =~= Seq::<u8>::empty());
            }
        }
        lemma_literal_scan_balanced(t, Seq::empty(), 0, 0, 1);
        if let Ok((rest, parts)) = literal_scan(t, Seq::empty(), 0, 0, 1) {
            assert(seq![LEFT_PAREN] + literal_parts_bytes(parts) + seq![RIGHT_PAREN] + rest
                =~= seq![LEFT_PAREN] + (literal_parts_bytes(parts) + seq![RIGHT_PAREN] + rest));
            assert(seq![LEFT_PAREN] + t =~= s);
        }
    }
}

/// Parses a literal string, from `(` to the `)` that balances it, keeping
/// track of nested parentheses and of backslash escapes.
pub fn object_literal_string(input: &[u8]) -> (r: Result<(&[u8], LiteralString), ParseError>)
    ensures
        agrees(r, spec_object_literal_string(input@)),
        r matches Ok((rest, node)) ==> node@.bytes() + rest@ == input@ && node@.wf(),
        r matches Err(e) ==> e.remaining <= input@.len(),
{
    proof {
        lemma_literal_string_round_trip(input@);
        reveal(spec_object_literal_string);
    }
    if input.len() == 0 || input[0] != LEFT_PAREN {
        return Err(ParseError::unexpected_at(input));
    }
    let (_, body) = split(input, 1);
    let ghost t = body@;
    let mut parts: Vec<LiteralStringPart> = Vec::new();
    let mut depth: usize = 1;
    let mut i: usize = 0;
    let mut j: usize = 0;
    assert(literal_parts_view(parts@) =~= Seq::empty());
    while j < body.len()
        invariant
            input@.len() > 0,
            input@[0] == LEFT_PAREN,
            t == input@.skip(1),
            body@ == t,
            body.len() < usize::MAX,
            i <= j <= body.len(),
            1 <= depth <= j + 1,
            literal_scan(t, Seq::empty(), 0, 0, 1) == literal_scan(
                t,
                literal_parts_view(parts@),
                i as int,
                j as int,
                depth as nat,
            ),
        decreases body.len() - j,
    {
        proof {
            reveal(spec_object_literal_string);
            lemma_literal_string_round_trip(input@);
        }
        let c: u8 = body[j];
        if c == BACKSLASH {
            let ghost before = literal_parts_view(parts@);
            if i < j {
                let regular = slice_to_vec(slice_subrange(body, i, j));
                parts.push(LiteralStringPart::Regular(regular));
            }
            assert(literal_parts_view(parts@) =~= with_pending(before, t, i as int, j as int));
            let ghost pending = literal_parts_view(parts@);
            j += 1;
            let (_, tail) = split(body, j);
            let (_, escape) = escaped_part(tail)?;
            parts.push(LiteralStringPart::Escaped(slice_to_vec(escape)));
            assert(literal_parts_view(parts@) =~= pending.push(
                LiteralStringPartView::Escaped(escape@),
            ));
            j += escape.len();
            i = j;
        } else if c == LEFT_PAREN {
            depth += 1;
            j += 1;
        } else if c == RIGHT_PAREN {
            depth -= 1;
            if depth == 0 {
                let ghost before = literal_parts_view(parts@);
                if i < j {
                    let regular = slice_to_vec(slice_subrange(body, i, j));
                    parts.push(LiteralStringPart::Regular(regular));
                }
                assert(literal_parts_view(parts@) =~= with_pending(before, t, i as int, j as int));
                let (_, rest) = split(body, j + 1);
                return Ok((rest, LiteralString { parts }));
            }
            j += 1;
        } else {
            j += 1;
        }
    }
    Err(
        ParseError {
            kind: ParseErrorKind::Incomplete(Missing::ClosingParenthesis { depth }),
            remaining: 0,
        },
    )
}

/// A hexadecimal string: what stands between `<` and `>`, whitespace
/// included.
#[derive(Debug, PartialEq, Eq)]
pub struct HexadecimalString {
    pub chars: Vec<u8>,
}

/// The view of `HexadecimalString` in contracts: the same fields, with sequences in
/// place of vectors.
pub struct HexadecimalStringView {
    pub chars: Seq<u8>,
}

impl View for HexadecimalString {
    type V = HexadecimalStringView;

    open spec fn view(&self) -> HexadecimalStringView {
        HexadecimalStringView { chars: self.chars@ }
    }
}

impl HexadecimalStringView {
    pub open spec fn bytes(self) -> Seq<u8> {
        seq![LESS_THAN] + self.chars + seq![GREATER_THAN]
    }

    /// Hexadecimal digits and whitespace only.
    pub open spec fn wf(self) -> bool {
        forall|k: int| 0 <= k < self.chars.len() ==> is_hex_string(#[trigger] self.chars[k])
    }
}

impl BinSerialize for HexadecimalString {
    open spec fn serialized(&self) -> Seq<u8> {
        self@.bytes()
    }

    fn serialize_to(&self, buf: &mut Vec<u8>) {
        buf.push(LESS_THAN);
        write_all(buf, self.chars.as_slice());
        buf.push(GREATER_THAN);
        assert(buf@ == old(buf)@ + self@.bytes());
    }
}

/// The end of the run of hexadecimal digits and whitespace that starts at
/// `i`.
pub open spec fn hex_string_end(s: Seq<u8>, i: int) -> int
    decreases s.len() - i,
{
    if 0 <= i < s.len() && is_hex_string(s[i]) {
        hex_string_end(s, i + 1)
    } else {
        i
    }
}

pub proof fn lemma_hex_string_end(s: Seq<u8>, i: int)
    requires
        0 <= i <= s.len(),
    ensures
        i <= hex_string_end(s, i) <= s.len(),
        forall|k: int| i <= k < hex_string_end(s, i) ==> is_hex_string(#[trigger] s[k]),
    decreases s.len() - i,
{
    if i < s.len() && is_hex_string(s[i]) {
        lemma_hex_string_end(s, i + 1);
    }
}

/// `<`, hexadecimal digits and whitespace, `>`. Where the `<` is missing the
/// failure is at the start; where the `>` is missing it is at the byte that
/// should have been the `>`.
#[verifier::opaque]
pub open spec fn spec_object_hexadecimal_string(s: Seq<u8>) -> Parsed<HexadecimalStringView> {
    if s.len() > 0 && s[0] == LESS_THAN {
        let n = hex_string_end(s, 1);
        if n < s.len() && s[n] == GREATER_THAN {
            Ok((s.skip(n + 1), HexadecimalStringView { chars: s.subrange(1, n) }))
        } else {
            Err(unexpected(s.skip(n)))
        }
    } else {
        Err(unexpected(s))
    }
}

pub proof fn lemma_hexadecimal_string_round_trip(s: Seq<u8>)
    ensures
        spec_object_hexadecimal_string(s) matches Ok((rest, v)) ==> v.bytes() + rest == s && v.wf()
            && rest.len() < s.len(),
{
    reveal(spec_object_hexadecimal_string);
    if s.len() > 0 {
        lemma_hex_string_end(s, 1);
        if let Ok((rest, v)) = spec_object_hexadecimal_string(s) {
            assert(v.bytes() + rest =~= s);
        }
    }
}

/// Parses a hexadecimal string.
pub fn object_hexadecimal_string(input: &[u8]) -> (r: Result<
    (&[u8], HexadecimalString),
    ParseError,
>)
    ensures
        agrees(r, spec_object_hexadecimal_string(input@)),
        r matches Ok((rest, node)) ==> node@.bytes() + rest@ == input@ && node@.wf(),
        r matches Err(e) ==> e.remaining <= input@.len(),
{
    proof {
        lemma_hexadecimal_string_round_trip(input@);
        reveal(spec_object_hexadecimal_string);
    }
    if input.len() == 0 || input[0] != LESS_THAN {
        return Err(ParseError::unexpected_at(input));
    }
    let mut n: usize = 1;
    while n < input.len() && is_hex_string_char(input[n])
        invariant
            1 <= n <= input.len(),
            hex_string_end(input@, 1) == hex_string_end(input@, n as int),
        decreases input.len() - n,
    {
        n += 1;
    }
    if n >= input.len() || input[n] != GREATER_THAN {
        let (_, tail) = split(input, n);
        return Err(ParseError::unexpected_at(tail));
    }
    let chars = slice_to_vec(slice_subrange(input, 1, n));
    let (_, rest) = split(input, n + 1);
    Ok((rest, HexadecimalString { chars }))
}

/// A literal string or a hexadecimal string.
#[derive(Debug, PartialEq, Eq)]
pub enum StringObject {
    Literal(LiteralString),
    Hex(HexadecimalString),
}

/// The view of `StringObject` in contracts: the same variants, with sequences in
/// place of vectors.
pub enum StringObjectView {
    Literal(LiteralStringView),
    Hex(HexadecimalStringView),
}

impl View for StringObject {
    type V = StringObjectView;

    open spec fn view(&self) -> StringObjectView {
        match self {
            StringObject::Literal(s) => StringObjectView::Literal(s@),
            StringObject::Hex(h) => StringObjectView::Hex(h@),
        }
    }
}

impl StringObjectView {
    pub open spec fn bytes(self) -> Seq<u8> {
        match self {
            StringObjectView::Literal(s) => s.bytes(),
            StringObjectView::Hex(h) => h.bytes(),
        }
    }

    pub open spec fn wf(self) -> bool {
        match self {
            StringObjectView::Literal(s) => s.wf(),
            StringObjectView::Hex(h) => h.wf(),
        }
    }
}

impl BinSerialize for StringObject {
    open spec fn serialized(&self) -> Seq<u8> {
        self@.bytes()
    }

    fn serialize_to(&self, buf: &mut Vec<u8>) {
        match self {
            StringObject::Literal(s) => s.serialize_to(buf),
            StringObject::Hex(h) => h.serialize_to(buf),
        }
    }
}

/// A literal string where the input begins with `(`; else a hexadecimal
/// string. An incomplete literal string is final: the other form is not
/// tried, as it could not match either.
#[verifier::opaque]
pub open spec fn spec_object_string(s: Seq<u8>) -> Parsed<StringObjectView> {
    match spec_object_literal_string(s) {
        Ok((rest, v)) => Ok((rest, StringObjectView::Literal(v))),
        Err(e) => if e.recoverable() {
            match spec_object_hexadecimal_string(s) {
                Ok((rest, v)) => Ok((rest, StringObjectView::Hex(v))),
                Err(e) => Err(e),
            }
        } else {
            Err(e)
        },
    }
}

pub proof fn lemma_string_round_trip(s: Seq<u8>)
    ensures
        spec_object_string(s) matches Ok((rest, v)) ==> v.bytes() + rest == s && v.wf()
            && rest.len() < s.len(),
{
    reveal(spec_object_string);
    lemma_literal_string_round_trip(s);
    lemma_hexadecimal_string_round_trip(s);
}

/// Parses a string object of either form.
pub fn object_string(input: &[u8]) -> (r: Result<(&[u8], StringObject), ParseError>)
    ensures
        agrees(r, spec_object_string(input@)),
        r matches Ok((rest, node)) ==> node@.bytes() + rest@ == input@ && node@.wf(),
        r matches Err(e) ==> e.remaining <= input@.len(),
{
    proof {
        lemma_string_round_trip(input@);
        reveal(spec_object_string);
    }
    match object_literal_string(input) {
        Ok((rest, s)) => Ok((rest, StringObject::Literal(s))),
        Err(e) => {
            if e.is_recoverable() {
                let (rest, h) = object_hexadecimal_string(input)?;
                Ok((rest, StringObject::Hex(h)))
            } else {
                Err(e)
            }
        },
    }
}

} // verus!
