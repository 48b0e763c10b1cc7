//! Writing what was parsed gives back what was read: the proofs for the
//! grammar of the file structure, up to the theorem on whole files.

use vstd::prelude::*;
use crate::document::body_bytes;
use crate::document::body_wf;
use crate::document::entries_bytes;
use crate::document::entries_wf;
use crate::document::lemma_body_bytes_push;
use crate::document::lemma_entries_bytes_push;
use crate::document::lemma_sections_bytes_push;
use crate::document::lemma_subsections_bytes_push;
use crate::document::sections_bytes;
use crate::document::sections_wf;
use crate::document::subsections_bytes;
use crate::document::subsections_wf;
use crate::document::table_and_trailer_bytes;
use crate::document::BodyCrossrefTrailerView;
use crate::document::BodyPartView;
use crate::document::CrossReferenceEntryView;
use crate::document::CrossReferenceSubsectionView;
use crate::document::ENDOBJ;
use crate::document::EOF_MARKER;
use crate::document::OBJ;
use crate::document::PdfFileView;
use crate::document::STARTXREF;
use crate::document::TRAILER;
use crate::document::XREF;
use crate::document_grammar::body_scan;
use crate::document_grammar::entries_scan;
use crate::document_grammar::line_ends_end;
use crate::document_grammar::sections_scan;
use crate::document_grammar::spaces_end;
use crate::document_grammar::spec_body_crossref_trailer;
use crate::document_grammar::spec_body_part;
use crate::document_grammar::spec_cross_reference_subsection;
use crate::document_grammar::spec_cross_reference_subsection_entry;
use crate::document_grammar::spec_cross_reference_table;
use crate::document_grammar::spec_cross_reference_table_and_trailer;
use crate::document_grammar::spec_eol_markers_after_offset;
use crate::document_grammar::spec_indirect_object_definition;
use crate::document_grammar::spec_pdf_file;
use crate::document_grammar::spec_startxref_offset_eof;
use crate::document_grammar::spec_trailer;
use crate::document_grammar::subsections_scan;
use crate::grammar::spec_object;
use crate::grammar::spec_object_dictionary;
use crate::lexical::has_at;
use crate::lexical::is_white_space;
use crate::lexical::lemma_ws_end;
use crate::lexical::occurs_in;
use crate::lexical::spec_whitespace_and_comments;
use crate::lexical::ws_end;
use crate::lexical::CARRIAGE_RETURN;
use crate::lexical::LINE_FEED;
use crate::lexical::PERCENT;
use crate::lexical::SPACE;
use crate::numeric::lemma_integer_round_trip;
use crate::numeric::spec_integer_without_sign;
use crate::round_trip::lemma_join;
use crate::round_trip::lemma_object_dictionary_round_trip;
use crate::round_trip::lemma_object_round_trip;
use crate::round_trip::lemma_whitespace_round_trip;

verus! {

/// The definition of an indirect object is written as it was read.
pub proof fn lemma_indirect_object_definition_round_trip(s: Seq<u8>)
    ensures
        spec_indirect_object_definition(s) matches Ok((rest, v)) ==> v.bytes() + rest == s
            && v.wf() && rest.len() < s.len(),
{
    reveal(spec_indirect_object_definition);
    if let Ok((rest, v)) = spec_indirect_object_definition(s) {
        lemma_integer_round_trip(s);
        let (r1, _) = spec_integer_without_sign(s)->Ok_0;
        lemma_whitespace_round_trip(r1);
        let (r2, _) = spec_whitespace_and_comments(r1);
        lemma_integer_round_trip(r2);
        let (r3, _) = spec_integer_without_sign(r2)->Ok_0;
        lemma_whitespace_round_trip(r3);
        let (r4, _) = spec_whitespace_and_comments(r3);
        let r4b = r4.skip(3);
        assert(OBJ@ + r4b =~= r4);
        lemma_whitespace_round_trip(r4b);
        let (r5, _) = spec_whitespace_and_comments(r4b);
        lemma_object_round_trip(r5);
        let (r6, _) = spec_object(r5)->Ok_0;
        lemma_whitespace_round_trip(r6);
        let (r7, _) = spec_whitespace_and_comments(r6);
        assert(ENDOBJ@ + rest =~= r7);
        let head1 = v.object_number.bytes();
        let head2 = head1 + v.ws1;
        let head3 = head2 + v.generation_number.bytes();
        let head4 = head3 + v.ws2;
        let head5 = head4 + OBJ@;
        let head6 = head5 + v.ws3;
        let head7 = head6 + v.object.bytes();
        let head8 = head7 + v.ws4;
        lemma_join(head1, v.ws1, r2, r1);
        lemma_join(head2, v.generation_number.bytes(), r3, r2);
        lemma_join(head3, v.ws2, r4, r3);
        lemma_join(head4, OBJ@, r4b, r4);
        lemma_join(head5, v.ws3, r5, r4b);
        lemma_join(head6, v.object.bytes(), r6, r5);
        lemma_join(head7, v.ws4, r7, r6);
        lemma_join(head8, ENDOBJ@, rest, r7);
    }
}

/// A part of a body is written as it was read.
pub proof fn lemma_body_part_round_trip(s: Seq<u8>)
    ensures
        spec_body_part(s) matches Ok((rest, v)) ==> v.bytes() + rest == s && rest.len() <= s.len()
            && (v.wf() || (v matches BodyPartView::Whitespace(w) && w.len() == 0)),
{
    reveal(spec_body_part);
    lemma_indirect_object_definition_round_trip(s);
    lemma_whitespace_round_trip(s);
}

/// A body is written as it was read.
pub proof fn lemma_body_scan_round_trip(s: Seq<u8>, acc: Seq<BodyPartView>)
    requires
        body_wf(acc),
    ensures
        ({
            let (rest, parts) = body_scan(s, acc);
            body_bytes(parts) + rest == body_bytes(acc) + s && body_wf(parts) && rest.len()
                <= s.len()
        }),
    decreases s.len(),
{
    lemma_body_part_round_trip(s);
    if let Ok((r1, part)) = spec_body_part(s) {
        if part matches BodyPartView::Whitespace(w) && w.len() == 0 {
            assert(part.bytes() + r1 =~= r1);
        } else if r1.len() < s.len() {
            lemma_body_bytes_push(acc, part);
            lemma_body_scan_round_trip(r1, acc.push(part));
            lemma_join(body_bytes(acc), part.bytes(), r1, s);
        }
    }
}

/// A cross-reference entry is written as it was read, and is 20 bytes
/// long.
pub proof fn lemma_entry_round_trip(s: Seq<u8>)
    ensures
        spec_cross_reference_subsection_entry(s) matches Ok((rest, v)) ==> v.bytes() + rest == s
            && v.wf() && v.bytes().len() == 20 && rest.len() + 20 == s.len(),
{
    reveal(spec_cross_reference_subsection_entry);
    if let Ok((rest, v)) = spec_cross_reference_subsection_entry(s) {
        assert(v.bytes() + rest =~= s);
    }
}

/// The entries of a subsection are written as they were read.
pub proof fn lemma_entries_scan_round_trip(s: Seq<u8>, acc: Seq<CrossReferenceEntryView>)
    requires
        entries_wf(acc),
    ensures
        entries_scan(s, acc) matches Ok((rest, entries)) ==> entries_bytes(entries) + rest
            == entries_bytes(acc) + s && rest.len() <= s.len() && entries_wf(entries),
    decreases s.len(),
{
    lemma_entry_round_trip(s);
    if let Ok((r1, entry)) = spec_cross_reference_subsection_entry(s) {
        lemma_entries_bytes_push(acc, entry);
        lemma_entries_scan_round_trip(r1, acc.push(entry));
        lemma_join(entries_bytes(acc), entry.bytes(), r1, s);
    }
}

/// A subsection is written as it was read; it holds as many entries as its
/// header says, each of them 20 bytes long.
pub proof fn lemma_subsection_round_trip(s: Seq<u8>)
    ensures
        spec_cross_reference_subsection(s) matches Ok((rest, v)) ==> v.bytes() + rest == s
            && v.wf() && rest.len() < s.len(),
{
    reveal(spec_cross_reference_subsection);
    if let Ok((rest, v)) = spec_cross_reference_subsection(s) {
        lemma_integer_round_trip(s);
        let (r1, _) = spec_integer_without_sign(s)->Ok_0;
        let r1b = r1.skip(1);
        assert(seq![SPACE] + r1b =~= r1);
        lemma_integer_round_trip(r1b);
        let (r2, _) = spec_integer_without_sign(r1b)->Ok_0;
        lemma_whitespace_round_trip(r2);
        let (r3, _) = spec_whitespace_and_comments(r2);
        lemma_entries_scan_round_trip(r3, Seq::empty());
        assert(entries_bytes(Seq::empty()) + r3 =~= r3);
        let head1 = v.first_object_number.bytes();
        let head2 = head1 + seq![SPACE];
        let head3 = head2 + v.number_of_entries.bytes();
        let head4 = head3 + v.ws;
        lemma_join(head1, seq![SPACE], r1b, r1);
        lemma_join(head2, v.number_of_entries.bytes(), r2, r1b);
        lemma_join(head3, v.ws, r3, r2);
        lemma_join(head4, entries_bytes(v.entries), rest, r3);
    }
}

/// The subsections of a table are written as they were read.
pub proof fn lemma_subsections_scan_round_trip(s: Seq<u8>, acc: Seq<CrossReferenceSubsectionView>)
    requires
        acc.len() > 0,
        subsections_wf(acc),
    ensures
        subsections_scan(s, acc) matches Ok((rest, subsections)) ==> subsections_bytes(subsections)
            + rest == subsections_bytes(acc) + s && rest.len() <= s.len() && subsections.len() > 0
            && subsections_wf(subsections),
    decreases s.len(),
{
    lemma_subsection_round_trip(s);
    if let Ok((r1, subsection)) = spec_cross_reference_subsection(s) {
        if r1.len() < s.len() {
            lemma_subsections_bytes_push(acc, subsection);
            lemma_subsections_scan_round_trip(r1, acc.push(subsection));
            lemma_join(subsections_bytes(acc), subsection.bytes(), r1, s);
        }
    }
}

/// A cross-reference table is written as it was read.
pub proof fn lemma_cross_reference_table_round_trip(s: Seq<u8>)
    ensures
        spec_cross_reference_table(s) matches Ok((rest, v)) ==> v.bytes() + rest == s && v.wf()
            && rest.len() < s.len(),
{
    reveal(spec_cross_reference_table);
    if let Ok((rest, v)) = spec_cross_reference_table(s) {
        let r0 = s.skip(4);
        assert(XREF@ + r0 =~= s);
        lemma_whitespace_round_trip(r0);
        let (r1, _) = spec_whitespace_and_comments(r0);
        lemma_subsection_round_trip(r1);
        let (r2, first) = spec_cross_reference_subsection(r1)->Ok_0;
        lemma_subsections_bytes_push(Seq::empty(), first);
        assert(Seq::<CrossReferenceSubsectionView>::empty().push(first) =~= seq![first]);
        lemma_subsections_scan_round_trip(r2, seq![first]);
        let (r3, _) = subsections_scan(r2, seq![first])->Ok_0;
        lemma_whitespace_round_trip(r3);
        assert(subsections_bytes(Seq::empty()) + first.bytes() =~= first.bytes());
        lemma_join(first.bytes(), Seq::empty(), r2, r2);
        assert(first.bytes() + Seq::<u8>::empty() =~= first.bytes());
        let head1 = XREF@ + v.ws1;
        lemma_join(XREF@, v.ws1, r1, r0);
        lemma_join(head1, subsections_bytes(v.subsections), r3, r1);
        lemma_join(head1 + subsections_bytes(v.subsections), v.ws2, rest, r3);
    }
}

/// A run of spaces ends within the input.
pub proof fn lemma_spaces_end(s: Seq<u8>, i: int)
    requires
        0 <= i <= s.len(),
    ensures
        i <= spaces_end(s, i) <= s.len(),
    decreases s.len() - i,
{
    if i < s.len() && s[i] == SPACE {
        lemma_spaces_end(s, i + 1);
    }
}

/// A run of line ends ends within the input.
pub proof fn lemma_line_ends_end(s: Seq<u8>, i: int)
    requires
        0 <= i <= s.len(),
    ensures
        i <= line_ends_end(s, i) <= s.len(),
    decreases s.len() - i,
{
    if i < s.len() && (s[i] == CARRIAGE_RETURN || s[i]
        == LINE_FEED) {
        lemma_line_ends_end(s, i + 1);
    }
}

/// What stands between the offset and `%%EOF` is written as it was read.
pub proof fn lemma_eol_markers_round_trip(s: Seq<u8>)
    ensures
        spec_eol_markers_after_offset(s) matches Ok((rest, v)) ==> v + rest == s && rest.len()
            <= s.len(),
{
    reveal(spec_eol_markers_after_offset);
    lemma_spaces_end(s, 0);
    let i = spaces_end(s, 0);
    if i < s.len() {
        lemma_line_ends_end(s, i);
        let j = line_ends_end(s, i);
        assert(s.take(j) + s.skip(j) =~= s);
    }
}

/// Whether `s` ends with the bytes of `t`.
pub open spec fn ends_with(s: Seq<u8>, t: Seq<u8>) -> bool {
    has_at(s, s.len() - t.len(), t)
}

/// What ends with `t` still does so when something is put before it.
pub proof fn lemma_ends_with_prepend(a: Seq<u8>, b: Seq<u8>, t: Seq<u8>)
    requires
        ends_with(b, t),
    ensures
        ends_with(a + b, t),
{
    let s = a + b;
    assert forall|k: int| 0 <= k < t.len() implies s[s.len() - t.len() + k] == #[trigger] t[k] by {
        assert(s[a.len() + (b.len() - t.len() + k)] == b[b.len() - t.len() + k]);
    }
}

/// The `startxref` block is written as it was read, and its last bytes are
/// `%%EOF`.
pub proof fn lemma_startxref_round_trip(s: Seq<u8>)
    ensures
        spec_startxref_offset_eof(s) matches Ok((rest, v)) ==> v.bytes() + rest == s && v.wf()
            && rest.len() < s.len() && ends_with(v.bytes(), EOF_MARKER@),
{
    reveal(spec_startxref_offset_eof);
    if let Ok((rest, v)) = spec_startxref_offset_eof(s) {
        let r0 = s.skip(9);
        assert(STARTXREF@ + r0 =~= s);
        lemma_whitespace_round_trip(r0);
        let (r1, _) = spec_whitespace_and_comments(r0);
        lemma_integer_round_trip(r1);
        let (r2, _) = spec_integer_without_sign(r1)->Ok_0;
        lemma_eol_markers_round_trip(r2);
        let (r3, _) = spec_eol_markers_after_offset(r2)->Ok_0;
        assert(EOF_MARKER@ + rest =~= r3);
        let head1 = STARTXREF@ + v.ws3;
        let head2 = head1 + v.last_crossref_offset.bytes();
        let head3 = head2 + v.eol_marker;
        lemma_join(STARTXREF@, v.ws3, r1, r0);
        lemma_join(head1, v.last_crossref_offset.bytes(), r2, r1);
        lemma_join(head2, v.eol_marker, r3, r2);
        lemma_join(head3, EOF_MARKER@, rest, r3);
        assert(ends_with(EOF_MARKER@, EOF_MARKER@));
        lemma_ends_with_prepend(head3, EOF_MARKER@, EOF_MARKER@);
    }
}

/// A trailer is written as it was read.
pub proof fn lemma_trailer_round_trip(s: Seq<u8>)
    ensures
        spec_trailer(s) matches Ok((rest, v)) ==> v.bytes() + rest == s && v.wf() && rest.len()
            < s.len(),
{
    reveal(spec_trailer);
    if let Ok((rest, v)) = spec_trailer(s) {
        let r0 = s.skip(7);
        assert(TRAILER@ + r0 =~= s);
        lemma_whitespace_round_trip(r0);
        let (r1, _) = spec_whitespace_and_comments(r0);
        lemma_object_dictionary_round_trip(r1);
        let (r2, _) = spec_object_dictionary(r1)->Ok_0;
        lemma_whitespace_round_trip(r2);
        lemma_join(TRAILER@, v.ws1, r1, r0);
        lemma_join(TRAILER@ + v.ws1, v.dict.bytes(), r2, r1);
        lemma_join(TRAILER@ + v.ws1 + v.dict.bytes(), v.ws2, rest, r2);
    }
}

/// A table and its trailer are written as they were read.
pub proof fn lemma_table_and_trailer_round_trip(s: Seq<u8>)
    ensures
        spec_cross_reference_table_and_trailer(s) matches Ok((rest, v)) ==> v.bytes() + rest == s
            && v.wf() && rest.len() < s.len(),
{
    reveal(spec_cross_reference_table_and_trailer);
    if let Ok((rest, v)) = spec_cross_reference_table_and_trailer(s) {
        lemma_cross_reference_table_round_trip(s);
        let (r1, _) = spec_cross_reference_table(s)->Ok_0;
        lemma_trailer_round_trip(r1);
        lemma_join(v.cross_reference_table.bytes(), v.trailer.bytes(), rest, r1);
    }
}

/// A section is written as it was read, and its last bytes are `%%EOF`.
pub proof fn lemma_section_round_trip(s: Seq<u8>)
    ensures
        spec_body_crossref_trailer(s) matches Ok((rest, v)) ==> v.bytes() + rest == s && v.wf()
            && rest.len() < s.len() && ends_with(v.bytes(), EOF_MARKER@),
{
    reveal(spec_body_crossref_trailer);
    if let Ok((rest, v)) = spec_body_crossref_trailer(s) {
        lemma_body_scan_round_trip(s, Seq::empty());
        let (r1, body) = body_scan(s, Seq::empty());
        assert(body_bytes(Seq::empty()) + s =~= s);
        lemma_table_and_trailer_round_trip(r1);
        let r2 = match spec_cross_reference_table_and_trailer(r1) {
            Ok((r2, _)) => r2,
            Err(_) => r1,
        };
        let middle = table_and_trailer_bytes(v.cross_reference_table_and_trailer);
        assert(middle + r2 =~= r1);
        lemma_startxref_round_trip(r2);
        lemma_join(body_bytes(body), middle, r2, r1);
        lemma_join(body_bytes(body) + middle, v.startxref_offset_eof.bytes(), rest, r2);
        lemma_ends_with_prepend(
            body_bytes(body) + middle,
            v.startxref_offset_eof.bytes(),
            EOF_MARKER@,
        );
    }
}

/// The sections of a file are written as they were read.
pub proof fn lemma_sections_scan_round_trip(s: Seq<u8>, acc: Seq<BodyCrossrefTrailerView>)
    requires
        acc.len() > 0,
        sections_wf(acc),
    ensures
        sections_scan(s, acc) matches Ok((rest, sections)) ==> sections_bytes(sections) + rest
            == sections_bytes(acc) + s && rest.len() <= s.len() && sections.len() > 0
            && sections_wf(sections),
    decreases s.len(),
{
    lemma_section_round_trip(s);
    if let Ok((r1, section)) = spec_body_crossref_trailer(s) {
        if r1.len() < s.len() {
            lemma_sections_bytes_push(acc, section);
            lemma_sections_scan_round_trip(r1, acc.push(section));
            lemma_join(sections_bytes(acc), section.bytes(), r1, s);
        }
    }
}

/// What does not occur in a sequence occurs neither in what it begins with
/// nor in what it ends with.
pub proof fn lemma_no_occurrence_in_parts(s: Seq<u8>, t: Seq<u8>, n: int)
    requires
        0 <= n <= s.len(),
        !occurs_in(t, s),
    ensures
        !occurs_in(t, s.take(n)),
        !occurs_in(t, s.skip(n)),
{
    assert forall|k: int| !has_at(s.take(n), k, t) by {
        if has_at(s.take(n), k, t) {
            assert(has_at(s, k, t));
        }
    }
    assert forall|k: int| !has_at(s.skip(n), k, t) by {
        if has_at(s.skip(n), k, t) {
            assert forall|m: int| 0 <= m < t.len() implies s[n + k + m] == #[trigger] t[m] by {
                assert(s.skip(n)[k + m] == s[n + (k + m)]);
            }
            assert(has_at(s, n + k, t));
        }
    }
}

/// The round trip of a whole file.
///
/// If the grammar accepts `s` as a file, then: the bytes of the tree,
/// followed by the unread rest, are `s`; the tree has at least one section;
/// what the tree holds after the last section does not hold `%%EOF`, nor
/// does the unread rest; and the unread rest begins neither with whitespace
/// nor with a comment.
pub proof fn theorem_pdf_file_round_trip(s: Seq<u8>)
    ensures
        spec_pdf_file(s) matches Ok((rest, file)) ==> {
            &&& file.bytes() + rest == s
            &&& file.wf()
            &&& !occurs_in(EOF_MARKER@, file.post_eof)
            &&& !occurs_in(EOF_MARKER@, rest)
            &&& rest.len() > 0 ==> !is_white_space(rest[0]) && rest[0] != PERCENT
        },
{
    reveal(spec_pdf_file);
    if let Ok((rest, file)) = spec_pdf_file(s) {
        lemma_whitespace_round_trip(s);
        let (r1, header) = spec_whitespace_and_comments(s);
        lemma_section_round_trip(r1);
        let (r2, first) = spec_body_crossref_trailer(r1)->Ok_0;
        lemma_sections_bytes_push(Seq::empty(), first);
        assert(Seq::<BodyCrossrefTrailerView>::empty().push(first) =~= seq![first]);
        lemma_sections_scan_round_trip(r2, seq![first]);
        let (r3, sections) = sections_scan(r2, seq![first])->Ok_0;
        lemma_whitespace_round_trip(r3);
        lemma_ws_end(r3, 0);
        lemma_no_occurrence_in_parts(r3, EOF_MARKER@, ws_end(r3, 0));
        assert(sections_bytes(Seq::empty()) + first.bytes() =~= first.bytes());
        lemma_join(header, first.bytes(), r2, r1);
        assert(sections_bytes(sections) + r3 == first.bytes() + r2);
        assert(header + sections_bytes(sections) + r3 =~= header + (sections_bytes(sections) + r3));
        lemma_join(header + sections_bytes(sections), file.post_eof, rest, r3);
    }
}

/// Where the grammar accepts `s` as a file and leaves nothing unread, the
/// bytes of the tree are `s`.
pub proof fn theorem_complete_file_round_trip(s: Seq<u8>)
    requires
        spec_pdf_file(s) matches Ok((rest, _)) && rest.len() == 0,
    ensures
        spec_pdf_file(s) matches Ok((_, file)) && file.bytes() == s,
{
    theorem_pdf_file_round_trip(s);
    let (rest, file) = spec_pdf_file(s)->Ok_0;
    assert(file.bytes() + rest =~= file.bytes());
}

/// In a file with at least one section, what is written before the bytes
/// that follow the last section ends with `%%EOF`.
pub proof fn lemma_file_ends_with_eof_marker(file: PdfFileView)
    requires
        file.body_crossref_trailers.len() > 0,
    ensures
        ends_with(file.header + sections_bytes(file.body_crossref_trailers), EOF_MARKER@),
{
    let sections = file.body_crossref_trailers;
    let last = sections.last();
    let block = last.startxref_offset_eof;
    let before = STARTXREF@ + block.ws3 + block.last_crossref_offset.bytes() + block.eol_marker;
    assert(ends_with(EOF_MARKER@, EOF_MARKER@));
    lemma_ends_with_prepend(before, EOF_MARKER@, EOF_MARKER@);
    lemma_ends_with_prepend(
        body_bytes(last.body) + table_and_trailer_bytes(last.cross_reference_table_and_trailer),
        block.bytes(),
        EOF_MARKER@,
    );
    lemma_ends_with_prepend(sections_bytes(sections.drop_last()), last.bytes(), EOF_MARKER@);
    lemma_ends_with_prepend(file.header, sections_bytes(sections), EOF_MARKER@);
}

} // verus!
