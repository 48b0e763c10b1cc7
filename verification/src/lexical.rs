//! Character classes and the scanners for whitespace, comments, line ends
//! and fixed tokens.

use vstd::prelude::*;
use vstd::slice::slice_subrange;
use crate::error::unexpected;
use crate::error::ParseError;
use crate::error::Parsed;

verus! {

pub const NUL: u8 = 0x00;

pub const HORIZONTAL_TAB: u8 = 0x09;

pub const LINE_FEED: u8 = 0x0A;

pub const FORM_FEED: u8 = 0x0C;

pub const CARRIAGE_RETURN: u8 = 0x0D;

pub const SPACE: u8 = 0x20;

pub const PERCENT: u8 = 0x25;

/// The six whitespace characters: NUL, HT, LF, FF, CR, SP.
pub open spec fn is_white_space(c: u8) -> bool {
    c == NUL || c == HORIZONTAL_TAB || c == LINE_FEED || c == FORM_FEED || c == CARRIAGE_RETURN
        || c == SPACE
}

/// The ten delimiter characters `( ) < > [ ] { } / %`.
pub open spec fn is_delimiter(c: u8) -> bool {
    c == 0x28 || c == 0x29 || c == 0x3C || c == 0x3E || c == 0x5B || c == 0x5D || c == 0x7B || c
        == 0x7D || c == 0x2F || c == 0x25
}

/// A regular character is neither whitespace nor a delimiter.
pub open spec fn is_regular(c: u8) -> bool {
    !is_white_space(c) && !is_delimiter(c)
}

pub open spec fn is_digit(c: u8) -> bool {
    0x30 <= c <= 0x39
}

pub open spec fn is_octal_digit(c: u8) -> bool {
    0x30 <= c <= 0x37
}

pub open spec fn is_hex_digit(c: u8) -> bool {
    (0x30 <= c <= 0x39) || (0x61 <= c <= 0x66) || (0x41 <= c <= 0x46)
}

/// What may stand between the `<` and `>` of a hexadecimal string.
pub open spec fn is_hex_string(c: u8) -> bool {
    is_white_space(c) || is_hex_digit(c)
}

/// Whether `c` is one of the six whitespace characters.
pub fn is_white_space_char(c: u8) -> (b: bool)
    ensures
        b == is_white_space(c),
{
    c == SPACE || c == HORIZONTAL_TAB || c == CARRIAGE_RETURN || c == LINE_FEED || c == NUL || c
        == FORM_FEED
}

/// Whether `c` is one of the ten delimiter characters.
pub fn is_delimiter_char(c: u8) -> (b: bool)
    ensures
        b == is_delimiter(c),
{
    c == 0x28 || c == 0x29 || c == 0x3C || c == 0x3E || c == 0x5B || c == 0x5D || c == 0x7B || c
        == 0x7D || c == 0x2F || c == 0x25
}

/// Whether `c` is neither whitespace nor a delimiter.
pub fn is_regular_char(c: u8) -> (b: bool)
    ensures
        b == is_regular(c),
{
    !is_white_space_char(c) && !is_delimiter_char(c)
}

/// Whether `c` is a decimal digit.
pub fn is_digit_char(c: u8) -> (b: bool)
    ensures
        b == is_digit(c),
{
    0x30 <= c && c <= 0x39
}

/// Whether `c` is an octal digit.
pub fn is_octal_digit_char(c: u8) -> (b: bool)
    ensures
        b == is_octal_digit(c),
{
    0x30 <= c && c <= 0x37
}

/// Whether `c` may stand inside a hexadecimal string.
pub fn is_hex_string_char(c: u8) -> (b: bool)
    ensures
        b == is_hex_string(c),
{
    if is_white_space_char(c) {
        return true;
    }
    (0x30 <= c && c <= 0x39) || (0x61 <= c && c <= 0x66) || (0x41 <= c && c <= 0x46)
}

/// Whether `s` begins with the bytes of `t`.
pub open spec fn starts_with(s: Seq<u8>, t: Seq<u8>) -> bool {
    &&& t.len() <= s.len()
    &&& forall|k: int| 0 <= k < t.len() ==> s[k] == t[k]
}

/// Whether `s` holds the bytes of `t` from index `i` on.
pub open spec fn has_at(s: Seq<u8>, i: int, t: Seq<u8>) -> bool {
    &&& 0 <= i
    &&& i + t.len() <= s.len()
    &&& forall|k: int| 0 <= k < t.len() ==> s[i + k] == t[k]
}

/// Tests whether `input` begins with `token`.
pub fn tag(input: &[u8], token: &[u8]) -> (b: bool)
    ensures
        b == starts_with(input@, token@),
{
    if token.len() > input.len() {
        return false;
    }
    let mut k: usize = 0;
    while k < token.len()
        invariant
            k <= token.len(),
            token.len() <= input.len(),
            forall|j: int| 0 <= j < k ==> input@[j] == token@[j],
        decreases token.len() - k,
    {
        if input[k] != token[k] {
            return false;
        }
        k += 1;
    }
    true
}

/// Splits `input` after its first `n` bytes.
pub(crate) fn split(input: &[u8], n: usize) -> (r: (&[u8], &[u8]))
    requires
        n <= input@.len(),
    ensures
        r.0@ == input@.take(n as int),
        r.1@ == input@.skip(n as int),
{
    let head = slice_subrange(input, 0, n);
    let tail = slice_subrange(input, n, input.len());
    (head, tail)
}

/// Whether `t` occurs somewhere in `s`.
pub open spec fn occurs_in(t: Seq<u8>, s: Seq<u8>) -> bool {
    exists|k: int| has_at(s, k, t)
}

/// The index of the first occurrence of `t` in `s` at or after `i`, if there
/// is one.
pub open spec fn first_occurrence(s: Seq<u8>, t: Seq<u8>, i: int) -> Option<int>
    decreases s.len() - i,
{
    if i < 0 || i + t.len() > s.len() {
        None
    } else if has_at(s, i, t) {
        Some(i)
    } else {
        first_occurrence(s, t, i + 1)
    }
}

/// What `first_occurrence` finds is an occurrence, and none stands before it;
/// where it finds none, there is none.
pub proof fn lemma_first_occurrence(s: Seq<u8>, t: Seq<u8>, i: int)
    requires
        0 <= i,
    ensures
        match first_occurrence(s, t, i) {
            Some(k) => i <= k && has_at(s, k, t) && forall|j: int| i <= j < k ==> !has_at(s, j, t),
            None => forall|j: int| i <= j ==> !has_at(s, j, t),
        },
    decreases s.len() - i,
{
    if i + t.len() <= s.len() && !has_at(s, i, t) {
        lemma_first_occurrence(s, t, i + 1);
    }
}

/// What stands before the first occurrence of a non-empty `t` does not hold
/// `t`.
pub proof fn lemma_no_occurrence_before_first(s: Seq<u8>, t: Seq<u8>)
    requires
        t.len() > 0,
    ensures
        first_occurrence(s, t, 0) matches Some(k) ==> !occurs_in(t, s.take(k)),
        first_occurrence(s, t, 0) is None ==> !occurs_in(t, s),
{
    lemma_first_occurrence(s, t, 0);
    if let Some(k) = first_occurrence(s, t, 0) {
        assert forall|j: int| !has_at(s.take(k), j, t) by {
            if has_at(s.take(k), j, t) {
                assert(has_at(s, j, t));
            }
        }
    }
}

/// Finds the first occurrence of `token` in `input`.
pub fn find(input: &[u8], token: &[u8]) -> (r: Option<usize>)
    ensures
        match (r, first_occurrence(input@, token@, 0)) {
            (Some(k), Some(spec_k)) => k == spec_k && k + token@.len() <= input@.len(),
            (None, None) => true,
            _ => false,
        },
{
    if token.len() > input.len() {
        return None;
    }
    let last: usize = input.len() - token.len();
    let mut i: usize = 0;
    while i <= last
        invariant
            last == input.len() - token.len(),
            token.len() <= input.len(),
            i <= last + 1,
            first_occurrence(input@, token@, 0) == first_occurrence(input@, token@, i as int),
        decreases last + 1 - i,
    {
        let (_, tail) = split(input, i);
        if tag(tail, token) {
            assert(has_at(input@, i as int, token@));
            return Some(i);
        }
        assert(!has_at(input@, i as int, token@)) by {
            if has_at(input@, i as int, token@) {
                assert(starts_with(tail@, token@));
            }
        }
        i += 1;
    }
    None
}

/// The end of the run of digits that starts at `i`.
pub open spec fn digits_end(s: Seq<u8>, i: int) -> int
    decreases s.len() - i,
{
    if 0 <= i < s.len() && is_digit(s[i]) {
        digits_end(s, i + 1)
    } else {
        i
    }
}

/// A run of digits ends within the input, holds digits only, and no digit
/// follows it.
pub proof fn lemma_digits_end(s: Seq<u8>, i: int)
    requires
        0 <= i <= s.len(),
    ensures
        i <= digits_end(s, i) <= s.len(),
        forall|k: int| i <= k < digits_end(s, i) ==> is_digit(#[trigger] s[k]),
        digits_end(s, i) < s.len() ==> !is_digit(s[digits_end(s, i)]),
    decreases s.len() - i,
{
    if i < s.len() && is_digit(s[i]) {
        lemma_digits_end(s, i + 1);
    }
}

/// The number of digits that `input` begins with.
pub fn count_digits(input: &[u8]) -> (n: usize)
    ensures
        n == digits_end(input@, 0),
        n <= input@.len(),
{
    let mut i: usize = 0;
    while i < input.len() && is_digit_char(input[i])
        invariant
            i <= input.len(),
            digits_end(input@, 0) == digits_end(input@, i as int),
        decreases input.len() - i,
    {
        i += 1;
    }
    i
}

/// The end of the comment text that runs from `i`: the index of the next CR
/// or LF, or the end of the input.
pub open spec fn comment_end(s: Seq<u8>, i: int) -> int
    decreases s.len() - i,
{
    if 0 <= i < s.len() && s[i] != CARRIAGE_RETURN && s[i] != LINE_FEED {
        comment_end(s, i + 1)
    } else {
        i
    }
}

/// The text of a comment ends within the input.
pub proof fn lemma_comment_end(s: Seq<u8>, i: int)
    requires
        0 <= i <= s.len(),
    ensures
        i <= comment_end(s, i) <= s.len(),
    decreases s.len() - i,
{
    if i < s.len() && s[i] != CARRIAGE_RETURN && s[i] != LINE_FEED {
        lemma_comment_end(s, i + 1);
    }
}

/// The end of the maximal run of whitespace and comments that starts at `i`.
///
/// A comment runs from `%` to the next CR or LF; that line end is whitespace
/// and so belongs to the run as well.
pub open spec fn ws_end(s: Seq<u8>, i: int) -> int
    decreases s.len() - i,
{
    if 0 <= i < s.len() {
        if is_white_space(s[i]) {
            ws_end(s, i + 1)
        } else if s[i] == PERCENT {
            proof {
                lemma_comment_end(s, i + 1);
            }
            ws_end(s, comment_end(s, i + 1))
        } else {
            i
        }
    } else {
        i
    }
}

/// A run of whitespace and comments ends within the input, and neither
/// whitespace nor a comment follows it.
pub proof fn lemma_ws_end(s: Seq<u8>, i: int)
    requires
        0 <= i <= s.len(),
    ensures
        i <= ws_end(s, i) <= s.len(),
        ws_end(s, i) < s.len() ==> !is_white_space(s[ws_end(s, i)]) && s[ws_end(s, i)] != PERCENT,
        ws_end(s, ws_end(s, i)) == ws_end(s, i),
    decreases s.len() - i,
{
    if i < s.len() {
        if is_white_space(s[i]) {
            lemma_ws_end(s, i + 1);
        } else if s[i] == PERCENT {
            lemma_comment_end(s, i + 1);
            lemma_ws_end(s, comment_end(s, i + 1));
        }
    }
}

/// The whitespace-and-comments scanner: the unread rest, and the run that
/// the input begins with.
pub open spec fn spec_whitespace_and_comments(s: Seq<u8>) -> (Seq<u8>, Seq<u8>) {
    let n = ws_end(s, 0);
    (s.skip(n), s.take(n))
}

/// The same scanner, failing where the run is empty.
pub open spec fn spec_whitespace_and_comments_nonempty(s: Seq<u8>) -> Parsed<Seq<u8>> {
    if ws_end(s, 0) == 0 {
        Err(unexpected(s))
    } else {
        Ok(spec_whitespace_and_comments(s))
    }
}

/// The length of the maximal run of whitespace and comments that `input`
/// begins with.
pub fn count_whitespace_and_comments(input: &[u8]) -> (n: usize)
    ensures
        n == ws_end(input@, 0),
        n <= input@.len(),
{
    let mut i: usize = 0;
    loop
        invariant
            i <= input.len(),
            ws_end(input@, 0) == ws_end(input@, i as int),
        ensures
            i <= input.len(),
            ws_end(input@, 0) == i,
        decreases input.len() - i,
    {
        if i >= input.len() {
            break;
        }
        let c: u8 = input[i];
        if is_white_space_char(c) {
            i += 1;
        } else if c == PERCENT {
            i += 1;
            let ghost start: int = i as int;
            while i < input.len() && input[i] != CARRIAGE_RETURN && input[i] != LINE_FEED
                invariant
                    start <= i <= input.len(),
                    comment_end(input@, start) == comment_end(input@, i as int),
                decreases input.len() - i,
            {
                i += 1;
            }
        } else {
            break;
        }
    }
    i
}

/// Consumes a maximal run of whitespace and comments, which may be empty.
/// Returns the rest of the input and the run. This never fails.
pub fn whitespace_and_comments(input: &[u8]) -> (r: Result<(&[u8], &[u8]), ParseError>)
    ensures
        r matches Ok((rest, ws)) && (rest@, ws@) == spec_whitespace_and_comments(input@),
        r matches Ok((rest, ws)) && ws@ + rest@ == input@,
{
    let n = count_whitespace_and_comments(input);
    let (ws, rest) = split(input, n);
    assert(ws@ + rest@ =~= input@);
    Ok((rest, ws))
}

/// Consumes a maximal run of whitespace and comments, and fails if there is
/// none.
pub fn whitespace_and_comments_nonempty(input: &[u8]) -> (r: Result<(&[u8], &[u8]), ParseError>)
    ensures
        match (r, spec_whitespace_and_comments_nonempty(input@)) {
            (Ok((rest, ws)), Ok((spec_rest, spec_ws))) => rest@ == spec_rest && ws@ == spec_ws,
            (Err(e), Err(spec_e)) => e == spec_e,
            _ => false,
        },
        r matches Ok((rest, ws)) ==> ws@ + rest@ == input@,
        r matches Err(e) ==> e.remaining <= input@.len(),
{
    let n = count_whitespace_and_comments(input);
    if n == 0 {
        return Err(ParseError::unexpected_at(input));
    }
    let (ws, rest) = split(input, n);
    assert(ws@ + rest@ =~= input@);
    Ok((rest, ws))
}

/// The length of the line end that `s` holds at `i`: 2 for CR LF, 1 for a
/// lone CR or LF, 0 where there is none.
pub open spec fn eol_len(s: Seq<u8>, i: int) -> int {
    if 0 <= i < s.len() && s[i] == CARRIAGE_RETURN {
        if i + 1 < s.len() && s[i + 1] == LINE_FEED {
            2
        } else {
            1
        }
    } else if 0 <= i < s.len() && s[i] == LINE_FEED {
        1
    } else {
        0
    }
}

/// A line end: CR LF, CR or LF, in that order of preference.
pub open spec fn spec_eol_any(s: Seq<u8>) -> Parsed<Seq<u8>> {
    if eol_len(s, 0) == 0 {
        Err(unexpected(s))
    } else {
        Ok((s.skip(eol_len(s, 0)), s.take(eol_len(s, 0))))
    }
}

/// Consumes one line end: CR LF, else CR, else LF.
pub fn eol_any(input: &[u8]) -> (r: Result<(&[u8], &[u8]), ParseError>)
    ensures
        match (r, spec_eol_any(input@)) {
            (Ok((rest, eol)), Ok((spec_rest, spec_eol))) => rest@ == spec_rest && eol@ == spec_eol,
            (Err(e), Err(spec_e)) => e == spec_e,
            _ => false,
        },
        r matches Ok((rest, eol)) ==> eol@ + rest@ == input@,
        r matches Err(e) ==> e.remaining <= input@.len(),
{
    if input.len() == 0 {
        return Err(ParseError::unexpected_at(input));
    }
    let n: usize = if input[0] == CARRIAGE_RETURN {
        if input.len() > 1 && input[1] == LINE_FEED {
            2
        } else {
            1
        }
    } else if input[0] == LINE_FEED {
        1
    } else {
        return Err(ParseError::unexpected_at(input));
    };
    let (eol, rest) = split(input, n);
    assert(eol@ + rest@ =~= input@);
    Ok((rest, eol))
}

} // verus!
