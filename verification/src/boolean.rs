//! Boolean objects: the keywords `true` and `false`.

use vstd::prelude::*;
use crate::error::agrees;
use crate::error::unexpected;
use crate::error::ParseError;
use crate::error::Parsed;
use crate::lexical::split;
use crate::lexical::starts_with;
use crate::lexical::tag;
use crate::serialize::write_all;
use crate::serialize::BinSerialize;

verus! {

pub const TRUE: [u8; 4] = [0x74, 0x72, 0x75, 0x65];

pub const FALSE: [u8; 5] = [0x66, 0x61, 0x6C, 0x73, 0x65];

#[derive(Clone, Copy, Debug, PartialEq, Eq, Structural)]
pub enum BooleanObject {
    True,
    False,
}

impl View for BooleanObject {
    type V = BooleanObject;

    open spec fn view(&self) -> BooleanObject {
        *self
    }
}

impl BooleanObject {
    /// The keyword that stands for this value.
    pub open spec fn bytes(self) -> Seq<u8> {
        match self {
            BooleanObject::True => TRUE@,
            BooleanObject::False => FALSE@,
        }
    }
}

impl BinSerialize for BooleanObject {
    open spec fn serialized(&self) -> Seq<u8> {
        self.bytes()
    }

    fn serialize_to(&self, buf: &mut Vec<u8>) {
        match self {
            BooleanObject::True => write_all(buf, &TRUE),
            BooleanObject::False => write_all(buf, &FALSE),
        }
    }
}

/// The keyword `true` or the keyword `false`; anything else fails.
#[verifier::opaque]
pub open spec fn spec_object_boolean(s: Seq<u8>) -> Parsed<BooleanObject> {
    if starts_with(s, TRUE@) {
        Ok((s.skip(4), BooleanObject::True))
    } else if starts_with(s, FALSE@) {
        Ok((s.skip(5), BooleanObject::False))
    } else {
        Err(unexpected(s))
    }
}

/// What the boolean parser read is what its result writes.
pub proof fn lemma_boolean_round_trip(s: Seq<u8>)
    ensures
        spec_object_boolean(s) matches Ok((rest, v)) ==> v.bytes() + rest == s && rest.len()
            < s.len(),
{
    reveal(spec_object_boolean);
    if let Ok((rest, v)) = spec_object_boolean(s) {
        assert(v.bytes() + rest =~= s);
    }
}

/// Parses `true` or `false` at the start of `input`.
pub fn object_boolean(input: &[u8]) -> (r: Result<(&[u8], BooleanObject), ParseError>)
    ensures
        agrees(r, spec_object_boolean(input@)),
        r matches Ok((rest, node)) ==> node@.bytes() + rest@ == input@,
        r matches Err(e) ==> e.remaining <= input@.len(),
{
    proof {
        lemma_boolean_round_trip(input@);
        reveal(spec_object_boolean);
    }
    if tag(input, &TRUE) {
        let (_, rest) = split(input, 4);
        Ok((rest, BooleanObject::True))
    } else if tag(input, &FALSE) {
        let (_, rest) = split(input, 5);
        Ok((rest, BooleanObject::False))
    } else {
        Err(ParseError::unexpected_at(input))
    }
}

} // verus!
