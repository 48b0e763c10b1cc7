//! The parsers for the file structure. Each does what the grammar says of
//! its input.

use vstd::prelude::*;
use vstd::slice::slice_to_vec;
use crate::document::body_view;
use crate::document::entries_view;
use crate::document::sections_view;
use crate::document::subsections_view;
use crate::document::BodyCrossrefTrailer;
use crate::document::BodyCrossrefTrailerView;
use crate::document::BodyPart;
use crate::document::BodyPartView;
use crate::document::CrossReferenceEntry;
use crate::document::CrossReferenceEntryInUse;
use crate::document::CrossReferenceEntryView;
use crate::document::CrossReferenceSubsection;
use crate::document::CrossReferenceSubsectionView;
use crate::document::CrossReferenceTable;
use crate::document::CrossReferenceTableAndTrailer;
use crate::document::ENDOBJ;
use crate::document::EOF_MARKER;
use crate::document::IndirectObjectDefinition;
use crate::document::LETTER_F;
use crate::document::LETTER_N;
use crate::document::OBJ;
use crate::document::PdfFile;
use crate::document::STARTXREF;
use crate::document::StartxrefOffsetEof;
use crate::document::TRAILER;
use crate::document::Trailer;
use crate::document::XREF;
use crate::document_grammar::body_scan;
use crate::document_grammar::digits_at;
use crate::document_grammar::digits_value;
use crate::document_grammar::entries_scan;
use crate::document_grammar::line_ends_end;
use crate::document_grammar::sections_scan;
use crate::document_grammar::spaces_end;
use crate::document_grammar::spec_body_crossref_trailer;
use crate::document_grammar::spec_body_part;
use crate::document_grammar::spec_cross_reference_subsection;
use crate::document_grammar::spec_cross_reference_subsection_entry;
use crate::document_grammar::spec_cross_reference_table;
use crate::document_grammar::spec_cross_reference_table_and_trailer;
use crate::document_grammar::spec_eol_markers_after_offset;
use crate::document_grammar::spec_indirect_object_definition;
use crate::document_grammar::spec_pdf_file;
use crate::document_grammar::spec_startxref_offset_eof;
use crate::document_grammar::spec_trailer;
use crate::document_grammar::subsections_scan;
use crate::document_round_trip::lemma_body_part_round_trip;
use crate::document_round_trip::lemma_cross_reference_table_round_trip;
use crate::document_round_trip::lemma_entry_round_trip;
use crate::document_round_trip::lemma_eol_markers_round_trip;
use crate::document_round_trip::lemma_indirect_object_definition_round_trip;
use crate::document_round_trip::lemma_section_round_trip;
use crate::document_round_trip::lemma_startxref_round_trip;
use crate::document_round_trip::lemma_subsection_round_trip;
use crate::document_round_trip::lemma_table_and_trailer_round_trip;
use crate::document_round_trip::lemma_trailer_round_trip;
use crate::document_round_trip::theorem_pdf_file_round_trip;
use crate::error::agrees;
use crate::error::Missing;
use crate::error::ParseError;
use crate::error::ParseErrorKind;
use crate::lexical::find;
use crate::lexical::is_digit;
use crate::lexical::is_digit_char;
use crate::lexical::is_white_space;
use crate::lexical::lemma_first_occurrence;
use crate::lexical::occurs_in;
use crate::lexical::split;
use crate::lexical::tag;
use crate::lexical::whitespace_and_comments;
use crate::lexical::CARRIAGE_RETURN;
use crate::lexical::LINE_FEED;
use crate::lexical::PERCENT;
use crate::lexical::SPACE;
use crate::numeric::integer_without_sign;
use crate::parser::object;
use crate::parser::object_dictionary;

verus! {

/// Parses the definition of an indirect object, from its object number to
/// `endobj`.
pub fn indirect_object_definition(input: &[u8]) -> (r: Result<
    (&[u8], IndirectObjectDefinition),
    ParseError,
>)
    ensures
        agrees(r, spec_indirect_object_definition(input@)),
        r matches Ok((rest, node)) ==> node@.bytes() + rest@ == input@ && node@.wf(),
        r matches Err(e) ==> e.remaining <= input@.len(),
{
    proof {
        lemma_indirect_object_definition_round_trip(input@);
        reveal(spec_indirect_object_definition);
    }
    let (input, object_number) = integer_without_sign(input)?;
    let (input, ws1) = whitespace_and_comments(input)?;
    let (input, generation_number) = integer_without_sign(input)?;
    let (input, ws2) = whitespace_and_comments(input)?;
    if !tag(input, &OBJ) {
        return Err(ParseError::unexpected_at(input));
    }
    let (_, input) = split(input, 3);
    let (input, ws3) = whitespace_and_comments(input)?;
    let (input, object) = object(input)?;
    let (input, ws4) = whitespace_and_comments(input)?;
    if !tag(input, &ENDOBJ) {
        return Err(ParseError::unexpected_at(input));
    }
    let (_, rest) = split(input, 6);
    Ok(
        (
            rest,
            IndirectObjectDefinition {
                object_number,
                ws1: slice_to_vec(ws1),
                generation_number,
                ws2: slice_to_vec(ws2),
                ws3: slice_to_vec(ws3),
                object,
                ws4: slice_to_vec(ws4),
            },
        ),
    )
}

/// Parses one part of a body: an object definition, else whitespace and
/// comments, of which there may be none.
pub fn body_part(input: &[u8]) -> (r: Result<(&[u8], BodyPart), ParseError>)
    ensures
        agrees(r, spec_body_part(input@)),
        r matches Ok((rest, node)) ==> node@.bytes() + rest@ == input@,
        r matches Err(e) ==> e.remaining <= input@.len(),
        r matches Ok((rest, node)) ==> node@.wf() || (node@ matches BodyPartView::Whitespace(w)
            && w.len() == 0),
{
    proof {
        lemma_body_part_round_trip(input@);
        reveal(spec_body_part);
    }
    match indirect_object_definition(input) {
        Ok((rest, def)) => Ok((rest, BodyPart::ObjDef(def))),
        Err(e) => {
            if e.is_recoverable() {
                let (rest, ws) = whitespace_and_comments(input)?;
                Ok((rest, BodyPart::Whitespace(slice_to_vec(ws))))
            } else {
                Err(e)
            }
        },
    }
}

/// Whether the `n` bytes of `input` from `from` on exist and are digits.
fn all_digits(input: &[u8], from: usize, n: usize) -> (b: bool)
    requires
        from + n <= usize::MAX,
    ensures
        b == digits_at(input@, from as int, n as int),
{
    if from + n > input.len() {
        return false;
    }
    let mut k: usize = from;
    while k < from + n
        invariant
            from <= k <= from + n <= input.len(),
            forall|j: int| from <= j < k ==> is_digit(#[trigger] input@[j]),
        decreases from + n - k,
    {
        if !is_digit_char(input[k]) {
            return false;
        }
        k += 1;
    }
    true
}

/// Parses one entry of a cross-reference table: exactly 20 bytes.
pub fn cross_reference_subsection_entry(input: &[u8]) -> (r: Result<
    (&[u8], CrossReferenceEntry),
    ParseError,
>)
    ensures
        agrees(r, spec_cross_reference_subsection_entry(input@)),
        r matches Ok((rest, node)) ==> node@.bytes() + rest@ == input@ && node@.wf(),
        r matches Err(e) ==> e.remaining <= input@.len(),
        r matches Ok((rest, node)) ==> node@.bytes().len() == 20,
{
    proof {
        reveal(spec_cross_reference_subsection_entry);
    }
    if !all_digits(input, 0, 10) {
        return Err(ParseError::unexpected_at(input));
    }
    if input.len() < 20 || input[10] != SPACE || !all_digits(input, 11, 5) || input[16] != SPACE
        || (input[17] != LETTER_N && input[17] != LETTER_F) {
        return Err(ParseError { kind: ParseErrorKind::ShapeViolation, remaining: input.len() });
    }
    let nnnnnnnnnn: [u8; 10] = [
        input[0],
        input[1],
        input[2],
        input[3],
        input[4],
        input[5],
        input[6],
        input[7],
        input[8],
        input[9],
    ];
    let ggggg: [u8; 5] = [input[11], input[12], input[13], input[14], input[15]];
    let n_or_f = if input[17] == LETTER_N {
        CrossReferenceEntryInUse::InUse
    } else {
        CrossReferenceEntryInUse::Free
    };
    let eol: [u8; 2] = [input[18], input[19]];
    let (_, rest) = split(input, 20);
    proof {
        assert(nnnnnnnnnn@ =~= input@.subrange(0, 10));
        assert(ggggg@ =~= input@.subrange(11, 16));
        assert(eol@ =~= input@.subrange(18, 20));
        lemma_entry_round_trip(input@);
    }
    Ok((rest, CrossReferenceEntry { nnnnnnnnnn, ggggg, n_or_f, eol }))
}

/// The value of a longer run of digits is no less than that of what it
/// begins with.
proof fn lemma_digits_value_prefix(d: Seq<u8>, k: int)
    requires
        0 <= k <= d.len(),
    ensures
        digits_value(d.take(k)) <= digits_value(d),
    decreases d.len() - k,
{
    if k < d.len() {
        lemma_digits_value_prefix(d, k + 1);
        assert(d.take(k + 1).drop_last() =~= d.take(k));
        assert(digits_value(d.take(k)) <= digits_value(d.take(k + 1))) by (nonlinear_arith)
            requires
                digits_value(d.take(k + 1)) >= digits_value(d.take(k)) * 10,
        ;
    } else {
        assert(d.take(k) =~= d);
    }
}

/// Whether the decimal digits `digits` stand for the number `n`.
pub fn digits_equal(digits: &[u8], n: usize) -> (b: bool)
    ensures
        b == (digits_value(digits@) == n),
{
    let mut value: usize = 0;
    let mut k: usize = 0;
    assert(digits@.take(0) =~= Seq::<u8>::empty());
    while k < digits.len()
        invariant
            k <= digits.len(),
            value == digits_value(digits@.take(k as int)),
        decreases digits.len() - k,
    {
        let c: u8 = digits[k];
        let digit: usize = if is_digit_char(c) {
            (c - 0x30) as usize
        } else {
            0
        };
        proof {
            assert(digits@.take(k + 1).drop_last() =~= digits@.take(k as int));
            assert(digits@.take(k + 1).last() == c);
            lemma_digits_value_prefix(digits@, k + 1);
        }
        if value > (usize::MAX - digit) / 10 {
            return false;
        }
        value = value * 10 + digit;
        k += 1;
    }
    assert(digits@.take(k as int) =~= digits@);
    value == n
}

/// Parses one subsection of a cross-reference table, and checks that it
/// holds as many entries as its header says.
pub fn cross_reference_subsection(input: &[u8]) -> (r: Result<
    (&[u8], CrossReferenceSubsection),
    ParseError,
>)
    ensures
        agrees(r, spec_cross_reference_subsection(input@)),
        r matches Ok((rest, node)) ==> node@.bytes() + rest@ == input@ && node@.wf(),
        r matches Err(e) ==> e.remaining <= input@.len(),
{
    proof {
        lemma_subsection_round_trip(input@);
        reveal(spec_cross_reference_subsection);
    }
    let (r1, first_object_number) = integer_without_sign(input)?;
    if r1.len() == 0 || r1[0] != SPACE {
        return Err(ParseError::unexpected_at(r1));
    }
    let (_, r1) = split(r1, 1);
    let (r2, number_of_entries) = integer_without_sign(r1)?;
    let (r3, ws) = whitespace_and_comments(r2)?;
    assert(r3@.len() <= r2@.len() <= r1@.len() <= input@.len());
    let mut entries: Vec<CrossReferenceEntry> = Vec::new();
    let mut cur: &[u8] = r3;
    let mut failure: Option<ParseError> = None;
    assert(entries_view(entries@) =~= Seq::empty());
    loop
        invariant_except_break
            failure is None,
            entries_scan(r3@, Seq::empty()) == entries_scan(cur@, entries_view(entries@)),
        invariant
            cur@.len() <= r3@.len(),
        ensures
            failure matches Some(e) ==> e.remaining <= r3@.len(),
            match failure {
                None => entries_scan(r3@, Seq::empty()) == Ok::<_, ParseError>(
                    (cur@, entries_view(entries@)),
                ),
                Some(e) => entries_scan(r3@, Seq::empty()) == Err::<
                    (Seq<u8>, Seq<CrossReferenceEntryView>),
                    _,
                >(e),
            },
        decreases cur@.len(),
    {
        match cross_reference_subsection_entry(cur) {
            Ok((rest, entry)) => {
                proof {
                    reveal(spec_cross_reference_subsection_entry);
                }
                assert(entries_view(entries@.push(entry)) =~= entries_view(entries@).push(entry@));
                entries.push(entry);
                cur = rest;
            },
            Err(e) => {
                if !e.is_recoverable() {
                    failure = Some(e);
                }
                break;
            },
        }
    }
    if let Some(e) = failure {
        return Err(e);
    }
    if !digits_equal(number_of_entries.digits.as_slice(), entries.len()) {
        return Err(ParseError { kind: ParseErrorKind::ShapeViolation, remaining: input.len() });
    }
    Ok(
        (
            cur,
            CrossReferenceSubsection {
                first_object_number,
                number_of_entries,
                ws: slice_to_vec(ws),
                entries,
            },
        ),
    )
}

/// Parses a cross-reference table: `xref` and one or more subsections.
pub fn cross_reference_table(input: &[u8]) -> (r: Result<
    (&[u8], CrossReferenceTable),
    ParseError,
>)
    ensures
        agrees(r, spec_cross_reference_table(input@)),
        r matches Ok((rest, node)) ==> node@.bytes() + rest@ == input@ && node@.wf(),
        r matches Err(e) ==> e.remaining <= input@.len(),
{
    proof {
        lemma_cross_reference_table_round_trip(input@);
        reveal(spec_cross_reference_table);
    }
    if !tag(input, &XREF) {
        return Err(ParseError::unexpected_at(input));
    }
    let (_, r0) = split(input, 4);
    let (r1, ws1) = whitespace_and_comments(r0)?;
    let (r2, first) = cross_reference_subsection(r1)?;
    if r2.len() >= r1.len() {
        return Err(ParseError::unexpected_at(r1));
    }
    let mut subsections: Vec<CrossReferenceSubsection> = Vec::new();
    let ghost first_view = first@;
    subsections.push(first);
    assert(subsections_view(subsections@) =~= seq![first_view]);
    let mut cur: &[u8] = r2;
    let mut failure: Option<ParseError> = None;
    loop
        invariant_except_break
            failure is None,
            subsections_scan(r2@, seq![first_view]) == subsections_scan(
                cur@,
                subsections_view(subsections@),
            ),
        invariant
            cur@.len() <= r2@.len(),
        ensures
            failure matches Some(e) ==> e.remaining <= r2@.len(),
            match failure {
                None => subsections_scan(r2@, seq![first_view]) == Ok::<_, ParseError>(
                    (cur@, subsections_view(subsections@)),
                ),
                Some(e) => subsections_scan(r2@, seq![first_view]) == Err::<
                    (Seq<u8>, Seq<CrossReferenceSubsectionView>),
                    _,
                >(e),
            },
        decreases cur@.len(),
    {
        match cross_reference_subsection(cur) {
            Ok((rest, subsection)) => {
                if rest.len() >= cur.len() {
                    failure = Some(ParseError::unexpected_at(cur));
                    break;
                }
                assert(subsections_view(subsections@.push(subsection)) =~= subsections_view(
                    subsections@,
                ).push(subsection@));
                subsections.push(subsection);
                cur = rest;
            },
            Err(e) => {
                if !e.is_recoverable() {
                    failure = Some(e);
                }
                break;
            },
        }
    }
    if let Some(e) = failure {
        return Err(e);
    }
    let (rest, ws2) = whitespace_and_comments(cur)?;
    Ok((rest, CrossReferenceTable { ws1: slice_to_vec(ws1), subsections, ws2: slice_to_vec(ws2) }))
}

/// Reads what stands between the offset and `%%EOF`: spaces, then line ends.
/// Fails where the input ends with the spaces.
pub fn eol_markers_after_offset(input: &[u8]) -> (r: Result<(&[u8], &[u8]), ParseError>)
    ensures
        agrees(r, spec_eol_markers_after_offset(input@)),
        r matches Err(e) ==> e.remaining <= input@.len(),
        r matches Ok((rest, eol)) ==> eol@ + rest@ == input@,
{
    proof {
        lemma_eol_markers_round_trip(input@);
        reveal(spec_eol_markers_after_offset);
    }
    let mut i: usize = 0;
    while i < input.len() && input[i] == SPACE
        invariant
            i <= input.len(),
            spaces_end(input@, 0) == spaces_end(input@, i as int),
        decreases input.len() - i,
    {
        i += 1;
    }
    if i >= input.len() {
        let (_, tail) = split(input, i);
        return Err(ParseError::unexpected_at(tail));
    }
    let ghost start: int = i as int;
    while i < input.len() && (input[i] == CARRIAGE_RETURN || input[i] == LINE_FEED)
        invariant
            start <= i <= input.len(),
            line_ends_end(input@, start) == line_ends_end(input@, i as int),
        decreases input.len() - i,
    {
        i += 1;
    }
    let (eol, rest) = split(input, i);
    Ok((rest, eol))
}

/// Parses the block that ends a section: `startxref`, the offset, `%%EOF`.
pub fn startxref_offset_eof(input: &[u8]) -> (r: Result<(&[u8], StartxrefOffsetEof), ParseError>)
    ensures
        agrees(r, spec_startxref_offset_eof(input@)),
        r matches Ok((rest, node)) ==> node@.bytes() + rest@ == input@ && node@.wf(),
        r matches Err(e) ==> e.remaining <= input@.len(),
{
    proof {
        lemma_startxref_round_trip(input@);
        reveal(spec_startxref_offset_eof);
    }
    if !tag(input, &STARTXREF) {
        return Err(ParseError::unexpected_at(input));
    }
    let (_, r0) = split(input, 9);
    let (r1, ws3) = whitespace_and_comments(r0)?;
    let (r2, last_crossref_offset) = integer_without_sign(r1)?;
    let (r3, eol_marker) = eol_markers_after_offset(r2)?;
    if !tag(r3, &EOF_MARKER) {
        if tag(&EOF_MARKER, r3) {
            return Err(
                ParseError {
                    kind: ParseErrorKind::Incomplete(Missing::EofMarker),
                    remaining: r3.len(),
                },
            );
        }
        return Err(ParseError::unexpected_at(r3));
    }
    let (_, rest) = split(r3, 5);
    Ok(
        (
            rest,
            StartxrefOffsetEof {
                ws3: slice_to_vec(ws3),
                last_crossref_offset,
                eol_marker: slice_to_vec(eol_marker),
            },
        ),
    )
}

/// Parses a trailer: `trailer` and its dictionary.
pub fn trailer(input: &[u8]) -> (r: Result<(&[u8], Trailer), ParseError>)
    ensures
        agrees(r, spec_trailer(input@)),
        r matches Ok((rest, node)) ==> node@.bytes() + rest@ == input@ && node@.wf(),
        r matches Err(e) ==> e.remaining <= input@.len(),
{
    proof {
        lemma_trailer_round_trip(input@);
        reveal(spec_trailer);
    }
    if !tag(input, &TRAILER) {
        return Err(ParseError::unexpected_at(input));
    }
    let (_, r0) = split(input, 7);
    let (r1, ws1) = whitespace_and_comments(r0)?;
    let (r2, dict) = object_dictionary(r1)?;
    let (r3, ws2) = whitespace_and_comments(r2)?;
    Ok((r3, Trailer { ws1: slice_to_vec(ws1), dict, ws2: slice_to_vec(ws2) }))
}

/// Parses a cross-reference table and the trailer that follows it.
pub fn cross_reference_table_and_trailer(input: &[u8]) -> (r: Result<
    (&[u8], CrossReferenceTableAndTrailer),
    ParseError,
>)
    ensures
        agrees(r, spec_cross_reference_table_and_trailer(input@)),
        r matches Ok((rest, node)) ==> node@.bytes() + rest@ == input@ && node@.wf(),
        r matches Err(e) ==> e.remaining <= input@.len(),
{
    proof {
        lemma_table_and_trailer_round_trip(input@);
        reveal(spec_cross_reference_table_and_trailer);
    }
    let (input, cross_reference_table) = cross_reference_table(input)?;
    let (input, trailer) = trailer(input)?;
    Ok((input, CrossReferenceTableAndTrailer { cross_reference_table, trailer }))
}

/// Parses one section of a file: the body, the cross-reference table and
/// trailer if the input has them, and the `startxref` block.
pub fn body_crossref_trailer(input: &[u8]) -> (r: Result<
    (&[u8], BodyCrossrefTrailer),
    ParseError,
>)
    ensures
        agrees(r, spec_body_crossref_trailer(input@)),
        r matches Ok((rest, node)) ==> node@.bytes() + rest@ == input@ && node@.wf(),
        r matches Err(e) ==> e.remaining <= input@.len(),
{
    proof {
        lemma_section_round_trip(input@);
        reveal(spec_body_crossref_trailer);
    }
    let mut body: Vec<BodyPart> = Vec::new();
    let mut cur: &[u8] = input;
    assert(body_view(body@) =~= Seq::empty());
    loop
        invariant_except_break
            body_scan(input@, Seq::empty()) == body_scan(cur@, body_view(body@)),
        invariant
            cur@.len() <= input@.len(),
        ensures
            body_scan(input@, Seq::empty()) == (cur@, body_view(body@)),
        decreases cur@.len(),
    {
        match body_part(cur) {
            Ok((left, part)) => {
                let nothing: bool = match &part {
                    BodyPart::Whitespace(w) => w.len() == 0,
                    BodyPart::ObjDef(_) => false,
                };
                if nothing {
                    cur = left;
                    break;
                }
                if left.len() >= cur.len() {
                    break;
                }
                assert(body_view(body@.push(part)) =~= body_view(body@).push(part@));
                body.push(part);
                cur = left;
            },
            Err(_) => {
                break;
            },
        }
    }
    let after_body: &[u8] = cur;
    let (cur, cross_reference_table_and_trailer) = match cross_reference_table_and_trailer(
        after_body,
    ) {
        Ok((rest, t)) => (rest, Some(t)),
        Err(e) => {
            if e.is_recoverable() {
                (after_body, None)
            } else {
                return Err(e);
            }
        },
    };
    let (rest, startxref_offset_eof) = startxref_offset_eof(cur)?;
    Ok(
        (
            rest,
            BodyCrossrefTrailer { body, cross_reference_table_and_trailer, startxref_offset_eof },
        ),
    )
}

/// Parses a whole file.
///
/// On success the result is the tree of the file and the input that was not
/// read. Writing the tree gives back, byte for byte, the input that was
/// read. The unread rest holds no `%%EOF` and begins neither with
/// whitespace nor with a comment.
pub fn pdf_file(input: &[u8]) -> (r: Result<(&[u8], PdfFile), ParseError>)
    ensures
        agrees(r, spec_pdf_file(input@)),
        r matches Err(e) ==> e.remaining <= input@.len(),
        r matches Ok((rest, file)) ==> {
            &&& file@.bytes() + rest@ == input@
            &&& file@.wf()
            &&& !occurs_in(EOF_MARKER@, file@.post_eof)
            &&& !occurs_in(EOF_MARKER@, rest@)
            &&& rest@.len() > 0 ==> !is_white_space(rest@[0]) && rest@[0] != PERCENT
        },
{
    proof {
        theorem_pdf_file_round_trip(input@);
        reveal(spec_pdf_file);
    }
    let (r1, header) = whitespace_and_comments(input)?;
    let (r2, first) = body_crossref_trailer(r1)?;
    if r2.len() >= r1.len() {
        return Err(ParseError::unexpected_at(r1));
    }
    let mut sections: Vec<BodyCrossrefTrailer> = Vec::new();
    let ghost first_view = first@;
    sections.push(first);
    assert(sections_view(sections@) =~= seq![first_view]);
    let mut cur: &[u8] = r2;
    let mut failure: Option<ParseError> = None;
    loop
        invariant_except_break
            failure is None,
            sections_scan(r2@, seq![first_view]) == sections_scan(cur@, sections_view(sections@)),
        invariant
            cur@.len() <= r2@.len(),
        ensures
            failure matches Some(e) ==> e.remaining <= r2@.len(),
            match failure {
                None => sections_scan(r2@, seq![first_view]) == Ok::<_, ParseError>(
                    (cur@, sections_view(sections@)),
                ),
                Some(e) => sections_scan(r2@, seq![first_view]) == Err::<
                    (Seq<u8>, Seq<BodyCrossrefTrailerView>),
                    _,
                >(e),
            },
        decreases cur@.len(),
    {
        match body_crossref_trailer(cur) {
            Ok((rest, section)) => {
                if rest.len() >= cur.len() {
                    failure = Some(ParseError::unexpected_at(cur));
                    break;
                }
                assert(sections_view(sections@.push(section)) =~= sections_view(sections@).push(
                    section@,
                ));
                sections.push(section);
                cur = rest;
            },
            Err(e) => {
                if !e.is_recoverable() {
                    failure = Some(e);
                }
                break;
            },
        }
    }
    if let Some(e) = failure {
        return Err(e);
    }
    proof {
        lemma_first_occurrence(cur@, EOF_MARKER@, 0);
    }
    if find(cur, &EOF_MARKER).is_some() {
        return Err(ParseError { kind: ParseErrorKind::PostEofContent, remaining: cur.len() });
    }
    let (rest, post_eof) = whitespace_and_comments(cur)?;
    Ok(
        (
            rest,
            PdfFile {
                header: slice_to_vec(header),
                body_crossref_trailers: sections,
                post_eof: slice_to_vec(post_eof),
            },
        ),
    )
}

} // verus!
