//! Parse errors.

use vstd::prelude::*;
use vstd::slice::slice_subrange;

verus! {

/// What an unfinished construct still lacked when the input ended.
#[derive(Clone, Copy, Debug, PartialEq, Eq, Structural)]
pub enum Missing {
    /// The closing parentheses of a literal string; `depth` of them were
    /// still open.
    ClosingParenthesis { depth: usize },
    /// The keyword `endstream` after the content of a stream.
    Endstream,
    /// The marker `%%EOF` at the end of a block.
    EofMarker,
}

/// Why a parser gave up.
#[derive(Clone, Copy, Debug, PartialEq, Eq, Structural)]
pub enum ParseErrorKind {
    /// The next bytes begin nothing that is acceptable at this point.
    UnexpectedToken,
    /// The input ended inside a construct that was not closed.
    Incomplete(Missing),
    /// A cross-reference section does not have the shape it must have.
    ShapeViolation,
    /// The literal `%%EOF` occurs after the last block that was parsed.
    PostEofContent,
}

/// A parse failure: its kind, and how much of the input was left unread at
/// the point of failure.
///
/// Every parser works on a suffix of the one buffer that the top-level call
/// was given, so `remaining` identifies a position in that buffer whichever
/// parser reports it. No parser reports more than the length of its input.
#[derive(Clone, Copy, Debug, PartialEq, Eq, Structural)]
pub struct ParseError {
    pub kind: ParseErrorKind,
    pub remaining: usize,
}

/// What a parser makes of an input, as a mathematical value: the unread rest
/// and the parsed node, or the failure.
pub type Parsed<V> = Result<(Seq<u8>, V), ParseError>;

/// The failure "nothing acceptable begins at `s`".
pub open spec fn unexpected(s: Seq<u8>) -> ParseError {
    ParseError { kind: ParseErrorKind::UnexpectedToken, remaining: s.len() as usize }
}

/// Whether an executable parse result is the one that the grammar gives.
pub open spec fn agrees<T: View>(r: Result<(&[u8], T), ParseError>, p: Parsed<T::V>) -> bool {
    match (r, p) {
        (Ok((rest, node)), Ok((spec_rest, spec_node))) => rest@ == spec_rest && node@ == spec_node,
        (Err(e), Err(spec_e)) => e == spec_e,
        _ => false,
    }
}

impl ParseError {
    /// Whether parsing may go on after this failure: an alternative tries
    /// its next branch, a repetition ends with what it has. The other
    /// failures end the whole parse: a literal string that is never closed,
    /// a cross-reference section of the wrong shape, and `%%EOF` after the
    /// last block.
    pub open spec fn recoverable(self) -> bool {
        match self.kind {
            ParseErrorKind::UnexpectedToken => true,
            ParseErrorKind::Incomplete(Missing::ClosingParenthesis { .. }) => false,
            ParseErrorKind::Incomplete(_) => true,
            ParseErrorKind::ShapeViolation => false,
            ParseErrorKind::PostEofContent => false,
        }
    }

    /// Whether parsing may go on after this failure.
    pub fn is_recoverable(&self) -> (b: bool)
        ensures
            b == self.recoverable(),
    {
        match self.kind {
            ParseErrorKind::UnexpectedToken => true,
            ParseErrorKind::Incomplete(Missing::ClosingParenthesis { .. }) => false,
            ParseErrorKind::Incomplete(_) => true,
            ParseErrorKind::ShapeViolation => false,
            ParseErrorKind::PostEofContent => false,
        }
    }

    /// A failure of the kind `UnexpectedToken` at the start of `input`.
    pub fn unexpected_at(input: &[u8]) -> (e: ParseError)
        ensures
            e == unexpected(input@),
    {
        ParseError { kind: ParseErrorKind::UnexpectedToken, remaining: input.len() }
    }

    /// The offset of the failure in a buffer of `total` bytes.
    pub open spec fn spec_offset(self, total: nat) -> nat {
        if self.remaining <= total {
            (total - self.remaining) as nat
        } else {
            0
        }
    }

    /// The offset of the first byte that was not parsed, in the buffer `input`
    /// that the failed call was given.
    pub fn offset(&self, input: &[u8]) -> (off: usize)
        ensures
            off == self.spec_offset(input@.len()),
            off <= input@.len(),
    {
        if self.remaining <= input.len() {
            input.len() - self.remaining
        } else {
            0
        }
    }

    /// What `prefix` gives: the bytes of `input` from the offset of the
    /// failure on, `max` of them at most.
    pub open spec fn spec_prefix(self, input: Seq<u8>, max: nat) -> Seq<u8> {
        let off = self.spec_offset(input.len());
        if max < input.len() - off {
            input.subrange(off as int, (off + max) as int)
        } else {
            input.skip(off as int)
        }
    }

    /// The first bytes that were not parsed: those of `input` from the offset
    /// of the failure on, `max` of them at most.
    pub fn prefix<'a>(&self, input: &'a [u8], max: usize) -> (p: &'a [u8])
        ensures
            p@ == self.spec_prefix(input@, max as nat),
            p@.len() <= max,
    {
        let off = self.offset(input);
        let end: usize = if max < input.len() - off {
            off + max
        } else {
            input.len()
        };
        slice_subrange(input, off, end)
    }
}

} // verus!
