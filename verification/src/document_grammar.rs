//! The grammar of the file structure: what each parser accepts and what it
//! makes of it.

use vstd::prelude::*;
use crate::document::BodyCrossrefTrailerView;
use crate::document::BodyPartView;
use crate::document::CrossReferenceEntryInUse;
use crate::document::CrossReferenceEntryView;
use crate::document::CrossReferenceSubsectionView;
use crate::document::CrossReferenceTableAndTrailerView;
use crate::document::CrossReferenceTableView;
use crate::document::ENDOBJ;
use crate::document::EOF_MARKER;
use crate::document::IndirectObjectDefinitionView;
use crate::document::LETTER_F;
use crate::document::LETTER_N;
use crate::document::OBJ;
use crate::document::PdfFileView;
use crate::document::STARTXREF;
use crate::document::StartxrefOffsetEofView;
use crate::document::TRAILER;
use crate::document::TrailerView;
use crate::document::XREF;
use crate::error::unexpected;
use crate::error::Missing;
use crate::error::ParseError;
use crate::error::ParseErrorKind;
use crate::error::Parsed;
use crate::grammar::spec_object;
use crate::grammar::spec_object_dictionary;
use crate::lexical::is_digit;
use crate::lexical::occurs_in;
use crate::lexical::spec_whitespace_and_comments;
use crate::lexical::starts_with;
use crate::lexical::CARRIAGE_RETURN;
use crate::lexical::LINE_FEED;
use crate::lexical::SPACE;
use crate::numeric::spec_integer_without_sign;

verus! {

/// An indirect object definition: an integer, whitespace, an integer,
/// whitespace, `obj`, whitespace, an object, whitespace, `endobj`. Neither
/// integer may have a sign.
#[verifier::opaque]
pub open spec fn spec_indirect_object_definition(s: Seq<u8>) -> Parsed<
    IndirectObjectDefinitionView,
> {
    match spec_integer_without_sign(s) {
        Err(e) => Err(e),
        Ok((r1, object_number)) => {
            let (r2, ws1) = spec_whitespace_and_comments(r1);
            match spec_integer_without_sign(r2) {
                Err(e) => Err(e),
                Ok((r3, generation_number)) => {
                    let (r4, ws2) = spec_whitespace_and_comments(r3);
                    if !starts_with(r4, OBJ@) {
                        Err(unexpected(r4))
                    } else {
                        let (r5, ws3) = spec_whitespace_and_comments(r4.skip(3));
                        match spec_object(r5) {
                            Err(e) => Err(e),
                            Ok((r6, object)) => {
                                let (r7, ws4) = spec_whitespace_and_comments(r6);
                                if !starts_with(r7, ENDOBJ@) {
                                    Err(unexpected(r7))
                                } else {
                                    Ok(
                                        (
                                            r7.skip(6),
                                            IndirectObjectDefinitionView {
                                                object_number,
                                                ws1,
                                                generation_number,
                                                ws2,
                                                ws3,
                                                object,
                                                ws4,
                                            },
                                        ),
                                    )
                                }
                            },
                        }
                    }
                },
            }
        },
    }
}

/// One part of a body: an object definition, else a run of whitespace and
/// comments, which may be empty.
#[verifier::opaque]
pub open spec fn spec_body_part(s: Seq<u8>) -> Parsed<BodyPartView> {
    match spec_indirect_object_definition(s) {
        Ok((rest, def)) => Ok((rest, BodyPartView::ObjDef(def))),
        Err(e) => if e.recoverable() {
            let (rest, ws) = spec_whitespace_and_comments(s);
            Ok((rest, BodyPartView::Whitespace(ws)))
        } else {
            Err(e)
        },
    }
}

/// The parts of a body, as many as there are: `acc` holds those found so
/// far. The body ends where the next part would be empty whitespace, and
/// where a part fails.
pub open spec fn body_scan(s: Seq<u8>, acc: Seq<BodyPartView>) -> (Seq<u8>, Seq<BodyPartView>)
    decreases s.len(),
{
    match spec_body_part(s) {
        Ok((rest, part)) => if part matches BodyPartView::Whitespace(w) && w.len() == 0 {
            (rest, acc)
        } else if rest.len() < s.len() {
            body_scan(rest, acc.push(part))
        } else {
            (s, acc)
        },
        Err(_) => (s, acc),
    }
}

/// Whether the `n` bytes of `s` from `i` on are digits.
pub open spec fn digits_at(s: Seq<u8>, i: int, n: int) -> bool {
    &&& 0 <= i
    &&& i + n <= s.len()
    &&& forall|k: int| i <= k < i + n ==> is_digit(#[trigger] s[k])
}

/// Whether `s` begins with a cross-reference entry: ten digits, a space,
/// five digits, a space, `n` or `f`, and two more bytes.
pub open spec fn entry_shape(s: Seq<u8>) -> bool {
    &&& s.len() >= 20
    &&& digits_at(s, 0, 10)
    &&& s[10] == SPACE
    &&& digits_at(s, 11, 5)
    &&& s[16] == SPACE
    &&& (s[17] == LETTER_N || s[17] == LETTER_F)
}

/// One cross-reference entry. Input that does not begin with ten digits is
/// no entry, and the failure is recoverable. Input that does, and then
/// departs from the layout of an entry, is a violation of shape.
#[verifier::opaque]
pub open spec fn spec_cross_reference_subsection_entry(s: Seq<u8>) -> Parsed<
    CrossReferenceEntryView,
> {
    if !digits_at(s, 0, 10) {
        Err(unexpected(s))
    } else if !entry_shape(s) {
        Err(ParseError { kind: ParseErrorKind::ShapeViolation, remaining: s.len() as usize })
    } else {
        Ok(
            (
                s.skip(20),
                CrossReferenceEntryView {
                    nnnnnnnnnn: s.subrange(0, 10),
                    ggggg: s.subrange(11, 16),
                    n_or_f: if s[17] == LETTER_N {
                        CrossReferenceEntryInUse::InUse
                    } else {
                        CrossReferenceEntryInUse::Free
                    },
                    eol: s.subrange(18, 20),
                },
            ),
        )
    }
}

/// The entries of a subsection, as many as there are: `acc` holds those
/// found so far.
pub open spec fn entries_scan(s: Seq<u8>, acc: Seq<CrossReferenceEntryView>) -> Parsed<
    Seq<CrossReferenceEntryView>,
>
    decreases s.len(),
{
    proof {
        reveal(spec_cross_reference_subsection_entry);
    }
    match spec_cross_reference_subsection_entry(s) {
        Ok((rest, entry)) => entries_scan(rest, acc.push(entry)),
        Err(e) => if e.recoverable() {
            Ok((s, acc))
        } else {
            Err(e)
        },
    }
}

/// The number that a run of decimal digits stands for. A byte that is no
/// digit counts as zero.
pub open spec fn digits_value(d: Seq<u8>) -> nat
    decreases d.len(),
{
    if d.len() == 0 {
        0
    } else {
        digits_value(d.drop_last()) * 10 + (if is_digit(d.last()) {
            (d.last() - 0x30) as nat
        } else {
            0
        })
    }
}

/// One subsection of a cross-reference table: the number of the first
/// object, one space, the number of entries, whitespace, and the entries.
/// Where the entries that follow are not as many as the header says, the
/// subsection violates the shape; that failure is reported at the start of
/// the subsection.
#[verifier::opaque]
pub open spec fn spec_cross_reference_subsection(s: Seq<u8>) -> Parsed<
    CrossReferenceSubsectionView,
> {
    match spec_integer_without_sign(s) {
        Err(e) => Err(e),
        Ok((r1, first_object_number)) => if !(r1.len() > 0 && r1[0] == SPACE) {
            Err(unexpected(r1))
        } else {
            match spec_integer_without_sign(r1.skip(1)) {
                Err(e) => Err(e),
                Ok((r2, number_of_entries)) => {
                    let (r3, ws) = spec_whitespace_and_comments(r2);
                    match entries_scan(r3, Seq::empty()) {
                        Err(e) => Err(e),
                        Ok((r4, entries)) => if digits_value(number_of_entries.digits)
                            != entries.len() {
                            Err(
                                ParseError {
                                    kind: ParseErrorKind::ShapeViolation,
                                    remaining: s.len() as usize,
                                },
                            )
                        } else {
                            Ok(
                                (
                                    r4,
                                    CrossReferenceSubsectionView {
                                        first_object_number,
                                        number_of_entries,
                                        ws,
                                        entries,
                                    },
                                ),
                            )
                        },
                    }
                },
            }
        },
    }
}

/// The subsections after the first, as many as there are: `acc` holds those
/// found so far.
pub open spec fn subsections_scan(s: Seq<u8>, acc: Seq<CrossReferenceSubsectionView>) -> Parsed<
    Seq<CrossReferenceSubsectionView>,
>
    decreases s.len(),
{
    match spec_cross_reference_subsection(s) {
        Ok((rest, subsection)) => if rest.len() < s.len() {
            subsections_scan(rest, acc.push(subsection))
        } else {
            Err(unexpected(s))
        },
        Err(e) => if e.recoverable() {
            Ok((s, acc))
        } else {
            Err(e)
        },
    }
}

/// A cross-reference table: `xref`, whitespace, one or more subsections,
/// whitespace.
#[verifier::opaque]
pub open spec fn spec_cross_reference_table(s: Seq<u8>) -> Parsed<CrossReferenceTableView> {
    if !starts_with(s, XREF@) {
        Err(unexpected(s))
    } else {
        let (r1, ws1) = spec_whitespace_and_comments(s.skip(4));
        match spec_cross_reference_subsection(r1) {
            Err(e) => Err(e),
            Ok((r2, first)) => if r2.len() >= r1.len() {
                Err(unexpected(r1))
            } else {
                match subsections_scan(r2, seq![first]) {
                    Err(e) => Err(e),
                    Ok((r3, subsections)) => {
                        let (r4, ws2) = spec_whitespace_and_comments(r3);
                        Ok((r4, CrossReferenceTableView { ws1, subsections, ws2 }))
                    },
                }
            },
        }
    }
}

/// The end of the run of spaces that starts at `i`.
pub open spec fn spaces_end(s: Seq<u8>, i: int) -> int
    decreases s.len() - i,
{
    if 0 <= i < s.len() && s[i] == SPACE {
        spaces_end(s, i + 1)
    } else {
        i
    }
}

/// The end of the run of CR and LF bytes that starts at `i`.
pub open spec fn line_ends_end(s: Seq<u8>, i: int) -> int
    decreases s.len() - i,
{
    if 0 <= i < s.len() && (s[i] == CARRIAGE_RETURN || s[i] == LINE_FEED) {
        line_ends_end(s, i + 1)
    } else {
        i
    }
}

/// What stands between the offset and `%%EOF`: spaces, then line ends. The
/// input must not end with the spaces.
#[verifier::opaque]
pub open spec fn spec_eol_markers_after_offset(s: Seq<u8>) -> Parsed<Seq<u8>> {
    let i = spaces_end(s, 0);
    if i >= s.len() {
        Err(unexpected(s.skip(i)))
    } else {
        let j = line_ends_end(s, i);
        Ok((s.skip(j), s.take(j)))
    }
}

/// The `startxref` block: `startxref`, whitespace, an integer without a
/// sign, spaces and line ends, `%%EOF`. Where the input ends before the
/// marker is complete, the block is incomplete.
#[verifier::opaque]
pub open spec fn spec_startxref_offset_eof(s: Seq<u8>) -> Parsed<StartxrefOffsetEofView> {
    if !starts_with(s, STARTXREF@) {
        Err(unexpected(s))
    } else {
        let (r1, ws3) = spec_whitespace_and_comments(s.skip(9));
        match spec_integer_without_sign(r1) {
            Err(e) => Err(e),
            Ok((r2, last_crossref_offset)) => match spec_eol_markers_after_offset(r2) {
                Err(e) => Err(e),
                Ok((r3, eol_marker)) => if starts_with(r3, EOF_MARKER@) {
                    Ok(
                        (
                            r3.skip(5),
                            StartxrefOffsetEofView { ws3, last_crossref_offset, eol_marker },
                        ),
                    )
                } else if starts_with(EOF_MARKER@, r3) {
                    Err(
                        ParseError {
                            kind: ParseErrorKind::Incomplete(Missing::EofMarker),
                            remaining: r3.len() as usize,
                        },
                    )
                } else {
                    Err(unexpected(r3))
                },
            },
        }
    }
}

/// A trailer: `trailer`, whitespace, a dictionary, whitespace.
#[verifier::opaque]
pub open spec fn spec_trailer(s: Seq<u8>) -> Parsed<TrailerView> {
    if !starts_with(s, TRAILER@) {
        Err(unexpected(s))
    } else {
        let (r1, ws1) = spec_whitespace_and_comments(s.skip(7));
        match spec_object_dictionary(r1) {
            Err(e) => Err(e),
            Ok((r2, dict)) => {
                let (r3, ws2) = spec_whitespace_and_comments(r2);
                Ok((r3, TrailerView { ws1, dict, ws2 }))
            },
        }
    }
}

/// A cross-reference table, then a trailer.
#[verifier::opaque]
pub open spec fn spec_cross_reference_table_and_trailer(s: Seq<u8>) -> Parsed<
    CrossReferenceTableAndTrailerView,
> {
    match spec_cross_reference_table(s) {
        Err(e) => Err(e),
        Ok((r1, cross_reference_table)) => match spec_trailer(r1) {
            Err(e) => Err(e),
            Ok((r2, trailer)) => Ok(
                (r2, CrossReferenceTableAndTrailerView { cross_reference_table, trailer }),
            ),
        },
    }
}

/// One section of a file: a body, a cross-reference table with its trailer
/// where the input has one, and a `startxref` block.
#[verifier::opaque]
pub open spec fn spec_body_crossref_trailer(s: Seq<u8>) -> Parsed<BodyCrossrefTrailerView> {
    let (r1, body) = body_scan(s, Seq::empty());
    match spec_cross_reference_table_and_trailer(r1) {
        Ok((r2, t)) => match spec_startxref_offset_eof(r2) {
            Err(e) => Err(e),
            Ok((r3, startxref_offset_eof)) => Ok(
                (
                    r3,
                    BodyCrossrefTrailerView {
                        body,
                        cross_reference_table_and_trailer: Some(t),
                        startxref_offset_eof,
                    },
                ),
            ),
        },
        Err(e) => if e.recoverable() {
            match spec_startxref_offset_eof(r1) {
                Err(e) => Err(e),
                Ok((r3, startxref_offset_eof)) => Ok(
                    (
                        r3,
                        BodyCrossrefTrailerView {
                            body,
                            cross_reference_table_and_trailer: None,
                            startxref_offset_eof,
                        },
                    ),
                ),
            }
        } else {
            Err(e)
        },
    }
}

/// The sections after the first, as many as there are: `acc` holds those
/// found so far.
pub open spec fn sections_scan(s: Seq<u8>, acc: Seq<BodyCrossrefTrailerView>) -> Parsed<
    Seq<BodyCrossrefTrailerView>,
>
    decreases s.len(),
{
    match spec_body_crossref_trailer(s) {
        Ok((rest, section)) => if rest.len() < s.len() {
            sections_scan(rest, acc.push(section))
        } else {
            Err(unexpected(s))
        },
        Err(e) => if e.recoverable() {
            Ok((s, acc))
        } else {
            Err(e)
        },
    }
}

/// A whole file: whitespace and comments, which hold the header line; one
/// or more sections; what follows, which must not hold `%%EOF`; of that the
/// whitespace and comments it begins with belong to the file.
#[verifier::opaque]
pub open spec fn spec_pdf_file(s: Seq<u8>) -> Parsed<PdfFileView> {
    let (r1, header) = spec_whitespace_and_comments(s);
    match spec_body_crossref_trailer(r1) {
        Err(e) => Err(e),
        Ok((r2, first)) => if r2.len() >= r1.len() {
            Err(unexpected(r1))
        } else {
            match sections_scan(r2, seq![first]) {
                Err(e) => Err(e),
                Ok((r3, body_crossref_trailers)) => if occurs_in(EOF_MARKER@, r3) {
                    Err(
                        ParseError {
                            kind: ParseErrorKind::PostEofContent,
                            remaining: r3.len() as usize,
                        },
                    )
                } else {
                    let (r4, post_eof) = spec_whitespace_and_comments(r3);
                    Ok((r4, PdfFileView { header, body_crossref_trailers, post_eof }))
                },
            }
        },
    }
}

} // verus!
