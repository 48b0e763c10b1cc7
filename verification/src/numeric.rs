//! Numeric objects: integers and reals, kept as the sign and the digits that
//! were written, so that leading zeros and an explicit `+` survive.

use vstd::prelude::*;
use vstd::slice::slice_to_vec;
use crate::error::agrees;
use crate::error::unexpected;
use crate::error::ParseError;
use crate::error::Parsed;
use crate::lexical::count_digits;
use crate::lexical::digits_end;
use crate::lexical::is_digit;
use crate::lexical::lemma_digits_end;
use crate::lexical::split;
use crate::serialize::write_all;
use crate::serialize::BinSerialize;

verus! {

pub const PLUS: u8 = 0x2B;

pub const MINUS: u8 = 0x2D;

pub const DOT: u8 = 0x2E;

/// Whether a number was written with `+`, with `-`, or with neither.
#[derive(Clone, Copy, Debug, PartialEq, Eq, Structural)]
pub enum Sign {
    Plus,
    Minus,
    NoSign,
}

impl View for Sign {
    type V = Sign;

    open spec fn view(&self) -> Sign {
        *self
    }
}

impl Sign {
    pub open spec fn bytes(self) -> Seq<u8> {
        match self {
            Sign::Plus => seq![PLUS],
            Sign::Minus => seq![MINUS],
            Sign::NoSign => Seq::empty(),
        }
    }
}

impl BinSerialize for Sign {
    open spec fn serialized(&self) -> Seq<u8> {
        self.bytes()
    }

    fn serialize_to(&self, buf: &mut Vec<u8>) {
        match self {
            Sign::Plus => {
                buf.push(PLUS);
            },
            Sign::Minus => {
                buf.push(MINUS);
            },
            Sign::NoSign => {},
        }
        assert(buf@ == old(buf)@ + self.bytes());
    }
}

/// An optional `+` or `-`. This never fails.
pub open spec fn spec_parse_sign(s: Seq<u8>) -> (Seq<u8>, Sign) {
    if s.len() > 0 && s[0] == PLUS {
        (s.skip(1), Sign::Plus)
    } else if s.len() > 0 && s[0] == MINUS {
        (s.skip(1), Sign::Minus)
    } else {
        (s, Sign::NoSign)
    }
}

/// Consumes a `+` or a `-` if the input begins with one. This never fails.
pub fn parse_sign(input: &[u8]) -> (r: Result<(&[u8], Sign), ParseError>)
    ensures
        r matches Ok((rest, sign)) && (rest@, sign) == spec_parse_sign(input@),
        r matches Ok((rest, sign)) && sign.bytes() + rest@ == input@,
{
    if input.len() > 0 && input[0] == PLUS {
        let (_, rest) = split(input, 1);
        assert(Sign::Plus.bytes() + rest@ =~= input@);
        Ok((rest, Sign::Plus))
    } else if input.len() > 0 && input[0] == MINUS {
        let (_, rest) = split(input, 1);
        assert(Sign::Minus.bytes() + rest@ =~= input@);
        Ok((rest, Sign::Minus))
    } else {
        assert(Sign::NoSign.bytes() + input@ =~= input@);
        Ok((input, Sign::NoSign))
    }
}

/// An integer as written: its sign and its digits.
#[derive(Debug, PartialEq, Eq)]
pub struct Integer {
    pub sign: Sign,
    pub digits: Vec<u8>,
}

/// The view of `Integer` in contracts: the same fields, with sequences in
/// place of vectors.
pub struct IntegerView {
    pub sign: Sign,
    pub digits: Seq<u8>,
}

impl View for Integer {
    type V = IntegerView;

    open spec fn view(&self) -> IntegerView {
        IntegerView { sign: self.sign, digits: self.digits@ }
    }
}

impl IntegerView {
    pub open spec fn bytes(self) -> Seq<u8> {
        self.sign.bytes() + self.digits
    }

    /// At least one byte, and digits only.
    pub open spec fn wf(self) -> bool {
        &&& self.digits.len() > 0
        &&& forall|k: int| 0 <= k < self.digits.len() ==> is_digit(#[trigger] self.digits[k])
    }
}

impl BinSerialize for Integer {
    open spec fn serialized(&self) -> Seq<u8> {
        self@.bytes()
    }

    fn serialize_to(&self, buf: &mut Vec<u8>) {
        self.sign.serialize_to(buf);
        write_all(buf, self.digits.as_slice());
        assert(buf@ == old(buf)@ + self@.bytes());
    }
}

/// A sign, then one or more digits.
#[verifier::opaque]
pub open spec fn spec_object_numeric_integer(s: Seq<u8>) -> Parsed<IntegerView> {
    let (r, sign) = spec_parse_sign(s);
    let n = digits_end(r, 0);
    if n == 0 {
        Err(unexpected(r))
    } else {
        Ok((r.skip(n), IntegerView { sign, digits: r.take(n) }))
    }
}

/// One or more digits, with no sign before them.
#[verifier::opaque]
pub open spec fn spec_integer_without_sign(s: Seq<u8>) -> Parsed<IntegerView> {
    let n = digits_end(s, 0);
    if n == 0 {
        Err(unexpected(s))
    } else {
        Ok((s.skip(n), IntegerView { sign: Sign::NoSign, digits: s.take(n) }))
    }
}

/// What the integer parser read is what its result writes, and the result is
/// well-formed.
pub proof fn lemma_integer_round_trip(s: Seq<u8>)
    ensures
        spec_object_numeric_integer(s) matches Ok((rest, v)) ==> v.bytes() + rest == s && v.wf()
            && rest.len() < s.len(),
        spec_integer_without_sign(s) matches Ok((rest, v)) ==> v.bytes() + rest == s && v.wf()
            && rest.len() < s.len() && v.sign == Sign::NoSign,
{
    reveal(spec_object_numeric_integer);
    reveal(spec_integer_without_sign);
    let (r, sign) = spec_parse_sign(s);
    lemma_digits_end(r, 0);
    lemma_digits_end(s, 0);
    assert(sign.bytes() + r =~= s);
    if let Ok((rest, v)) = spec_object_numeric_integer(s) {
        assert(v.bytes() + rest =~= sign.bytes() + r);
    }
    if let Ok((rest, v)) = spec_integer_without_sign(s) {
        assert(v.bytes() + rest =~= s);
    }
}

/// Parses an integer with an optional sign.
pub fn object_numeric_integer(input: &[u8]) -> (r: Result<(&[u8], Integer), ParseError>)
    ensures
        agrees(r, spec_object_numeric_integer(input@)),
        r matches Ok((rest, node)) ==> node@.bytes() + rest@ == input@ && node@.wf(),
        r matches Err(e) ==> e.remaining <= input@.len(),
{
    proof {
        lemma_integer_round_trip(input@);
        reveal(spec_object_numeric_integer);
    }
    let (input, sign) = parse_sign(input)?;
    let n = count_digits(input);
    if n == 0 {
        return Err(ParseError::unexpected_at(input));
    }
    let (digits, rest) = split(input, n);
    Ok((rest, Integer { sign, digits: slice_to_vec(digits) }))
}

/// Parses an integer that has no sign.
pub fn integer_without_sign(input: &[u8]) -> (r: Result<(&[u8], Integer), ParseError>)
    ensures
        agrees(r, spec_integer_without_sign(input@)),
        r matches Ok((rest, node)) ==> node@.bytes() + rest@ == input@ && node@.wf(),
        r matches Err(e) ==> e.remaining <= input@.len(),
{
    proof {
        lemma_integer_round_trip(input@);
        reveal(spec_integer_without_sign);
    }
    let n = count_digits(input);
    if n == 0 {
        return Err(ParseError::unexpected_at(input));
    }
    let (digits, rest) = split(input, n);
    Ok((rest, Integer { sign: Sign::NoSign, digits: slice_to_vec(digits) }))
}

/// A real as written: its sign, the digits before the point and the digits
/// after it.
#[derive(Debug, PartialEq, Eq)]
pub struct Real {
    pub sign: Sign,
    pub digits_before: Vec<u8>,
    pub digits_after: Vec<u8>,
}

/// The view of `Real` in contracts: the same fields, with sequences in
/// place of vectors.
pub struct RealView {
    pub sign: Sign,
    pub digits_before: Seq<u8>,
    pub digits_after: Seq<u8>,
}

impl View for Real {
    type V = RealView;

    open spec fn view(&self) -> RealView {
        RealView {
            sign: self.sign,
            digits_before: self.digits_before@,
            digits_after: self.digits_after@,
        }
    }
}

impl RealView {
    pub open spec fn bytes(self) -> Seq<u8> {
        self.sign.bytes() + self.digits_before + seq![DOT] + self.digits_after
    }

    /// Digits only on both sides of the point, and at least one digit in all.
    pub open spec fn wf(self) -> bool {
        &&& self.digits_before.len() + self.digits_after.len() > 0
        &&& forall|k: int|
            0 <= k < self.digits_before.len() ==> is_digit(#[trigger] self.digits_before[k])
        &&& forall|k: int|
            0 <= k < self.digits_after.len() ==> is_digit(#[trigger] self.digits_after[k])
    }
}

impl BinSerialize for Real {
    open spec fn serialized(&self) -> Seq<u8> {
        self@.bytes()
    }

    fn serialize_to(&self, buf: &mut Vec<u8>) {
        self.sign.serialize_to(buf);
        write_all(buf, self.digits_before.as_slice());
        buf.push(DOT);
        write_all(buf, self.digits_after.as_slice());
        assert(buf@ == old(buf)@ + self@.bytes());
    }
}

/// A sign, digits, a point, digits. Either run of digits may be empty, but
/// not both. Where no point follows the first run, the failure is at the
/// byte that should have been the point.
#[verifier::opaque]
pub open spec fn spec_object_numeric_real(s: Seq<u8>) -> Parsed<RealView> {
    let (r, sign) = spec_parse_sign(s);
    let n = digits_end(r, 0);
    if n < r.len() && r[n] == DOT {
        let m = digits_end(r, n + 1);
        if n == 0 && m == 1 {
            Err(unexpected(r))
        } else {
            Ok(
                (
                    r.skip(m),
                    RealView { sign, digits_before: r.take(n), digits_after: r.subrange(n + 1, m) },
                ),
            )
        }
    } else {
        Err(unexpected(r.skip(n)))
    }
}

/// What the parser of reals read is what its result writes, and the result
/// is well-formed.
pub proof fn lemma_real_round_trip(s: Seq<u8>)
    ensures
        spec_object_numeric_real(s) matches Ok((rest, v)) ==> v.bytes() + rest == s && v.wf()
            && rest.len() < s.len(),
{
    reveal(spec_object_numeric_real);
    let (r, sign) = spec_parse_sign(s);
    lemma_digits_end(r, 0);
    let n = digits_end(r, 0);
    assert(sign.bytes() + r =~= s);
    if let Ok((rest, v)) = spec_object_numeric_real(s) {
        lemma_digits_end(r, n + 1);
        assert(v.bytes() + rest =~= sign.bytes() + r);
    }
}

/// Parses a real number.
pub fn object_numeric_real(input: &[u8]) -> (r: Result<(&[u8], Real), ParseError>)
    ensures
        agrees(r, spec_object_numeric_real(input@)),
        r matches Ok((rest, node)) ==> node@.bytes() + rest@ == input@ && node@.wf(),
        r matches Err(e) ==> e.remaining <= input@.len(),
{
    proof {
        lemma_real_round_trip(input@);
        reveal(spec_object_numeric_real);
    }
    let (input, sign) = parse_sign(input)?;
    let n = count_digits(input);
    let (before, tail) = split(input, n);
    if tail.len() == 0 || tail[0] != DOT {
        return Err(ParseError::unexpected_at(tail));
    }
    let (_, tail) = split(tail, 1);
    let m = count_digits(tail);
    proof {
        lemma_digits_shift(input@, (n + 1) as int);
        assert(input@.skip(n as int).skip(1) =~= input@.skip(n + 1));
    }
    if n == 0 && m == 0 {
        return Err(ParseError::unexpected_at(input));
    }
    let (after, rest) = split(tail, m);
    proof {
        assert(rest@ =~= input@.skip(n + 1 + m));
        assert(after@ =~= input@.subrange(n + 1, n + 1 + m));
    }
    Ok(
        (
            rest,
            Real { sign, digits_before: slice_to_vec(before), digits_after: slice_to_vec(after) },
        ),
    )
}

/// The run of digits from `i` on is the run that the suffix from `i` begins
/// with.
pub proof fn lemma_digits_shift(s: Seq<u8>, i: int)
    requires
        0 <= i <= s.len(),
    ensures
        digits_end(s, i) == i + digits_end(s.skip(i), 0),
{
    lemma_digits_shift_from(s, i, 0);
}

/// The same, for a run that starts `k` bytes into the suffix.
proof fn lemma_digits_shift_from(s: Seq<u8>, i: int, k: int)
    requires
        0 <= i <= s.len(),
        0 <= k <= s.len() - i,
    ensures
        digits_end(s, i + k) == i + digits_end(s.skip(i), k),
    decreases s.len() - i - k,
{
    if i + k < s.len() && is_digit(s[i + k]) {
        lemma_digits_shift_from(s, i, k + 1);
    }
}

/// An integer or a real.
#[derive(Debug, PartialEq, Eq)]
pub enum NumericObject {
    Integer(Integer),
    Real(Real),
}

/// The view of `NumericObject` in contracts: the same variants, with sequences in
/// place of vectors.
pub enum NumericObjectView {
    Integer(IntegerView),
    Real(RealView),
}

impl View for NumericObject {
    type V = NumericObjectView;

    open spec fn view(&self) -> NumericObjectView {
        match self {
            NumericObject::Integer(i) => NumericObjectView::Integer(i@),
            NumericObject::Real(r) => NumericObjectView::Real(r@),
        }
    }
}

impl NumericObjectView {
    pub open spec fn bytes(self) -> Seq<u8> {
        match self {
            NumericObjectView::Integer(i) => i.bytes(),
            NumericObjectView::Real(r) => r.bytes(),
        }
    }

    pub open spec fn wf(self) -> bool {
        match self {
            NumericObjectView::Integer(i) => i.wf(),
            NumericObjectView::Real(r) => r.wf(),
        }
    }
}

impl BinSerialize for NumericObject {
    open spec fn serialized(&self) -> Seq<u8> {
        self@.bytes()
    }

    fn serialize_to(&self, buf: &mut Vec<u8>) {
        match self {
            NumericObject::Integer(i) => i.serialize_to(buf),
            NumericObject::Real(r) => r.serialize_to(buf),
        }
    }
}

/// A real where the input is one, else an integer; the failure is that of
/// the integer.
#[verifier::opaque]
pub open spec fn spec_object_numeric(s: Seq<u8>) -> Parsed<NumericObjectView> {
    match spec_object_numeric_real(s) {
        Ok((rest, r)) => Ok((rest, NumericObjectView::Real(r))),
        Err(_) => match spec_object_numeric_integer(s) {
            Ok((rest, integer)) => Ok((rest, NumericObjectView::Integer(integer))),
            Err(e) => Err(e),
        },
    }
}

/// What the parser of numbers read is what its result writes, and the
/// result is well-formed.
pub proof fn lemma_numeric_round_trip(s: Seq<u8>)
    ensures
        spec_object_numeric(s) matches Ok((rest, v)) ==> v.bytes() + rest == s && v.wf()
            && rest.len() < s.len(),
{
    reveal(spec_object_numeric);
    lemma_real_round_trip(s);
    lemma_integer_round_trip(s);
}

/// Parses a number: a real if the input is one, else an integer.
pub fn object_numeric(input: &[u8]) -> (r: Result<(&[u8], NumericObject), ParseError>)
    ensures
        agrees(r, spec_object_numeric(input@)),
        r matches Ok((rest, node)) ==> node@.bytes() + rest@ == input@ && node@.wf(),
        r matches Err(e) ==> e.remaining <= input@.len(),
{
    proof {
        lemma_numeric_round_trip(input@);
        reveal(spec_object_numeric);
    }
    match object_numeric_real(input) {
        Ok((rest, r)) => Ok((rest, NumericObject::Real(r))),
        Err(_) => {
            let (rest, integer) = object_numeric_integer(input)?;
            Ok((rest, NumericObject::Integer(integer)))
        },
    }
}

} // verus!
