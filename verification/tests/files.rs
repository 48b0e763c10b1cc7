use pdf_explorer::document::BodyCrossrefTrailer;
use pdf_explorer::document::BodyPart;
use pdf_explorer::document::CrossReferenceEntry;
use pdf_explorer::document::CrossReferenceEntryInUse;
use pdf_explorer::document::CrossReferenceSubsection;
use pdf_explorer::document::CrossReferenceTable;
use pdf_explorer::document::IndirectObjectDefinition;
use pdf_explorer::document::PdfFile;
use pdf_explorer::document::StartxrefOffsetEof;
use pdf_explorer::document_parser::body_crossref_trailer;
use pdf_explorer::document_parser::body_part;
use pdf_explorer::document_parser::cross_reference_subsection;
use pdf_explorer::document_parser::cross_reference_subsection_entry;
use pdf_explorer::document_parser::cross_reference_table;
use pdf_explorer::document_parser::cross_reference_table_and_trailer;
use pdf_explorer::document_parser::digits_equal;
use pdf_explorer::document_parser::eol_markers_after_offset;
use pdf_explorer::document_parser::indirect_object_definition;
use pdf_explorer::document_parser::pdf_file;
use pdf_explorer::document_parser::startxref_offset_eof;
use pdf_explorer::document_parser::trailer;
use pdf_explorer::error::Missing;
use pdf_explorer::error::ParseError;
use pdf_explorer::error::ParseErrorKind;
use pdf_explorer::numeric::Integer;
use pdf_explorer::numeric::Sign;
use pdf_explorer::object::Object;
use pdf_explorer::report::file_parse_and_back;
use pdf_explorer::report::first_difference;
use pdf_explorer::report::round_trip_report;
use pdf_explorer::report::RoundTripReport;
use pdf_explorer::report::count_object_definitions;
use pdf_explorer::serialize::BinSerialize;

const MINIMAL: &[u8] = b"%PDF-1.4\n1 0 obj\nnull\nendobj\nxref\n0 2\n0000000000 65535 f \n0000000009 00000 n \ntrailer\n<< /Size 2 /Root 1 0 R >>\nstartxref\n28\n%%EOF\n";

fn unexpected(remaining: usize) -> ParseError {
    ParseError { kind: ParseErrorKind::UnexpectedToken, remaining }
}

fn shape(remaining: usize) -> ParseError {
    ParseError { kind: ParseErrorKind::ShapeViolation, remaining }
}

fn integer(s: &str) -> Integer {
    Integer { sign: Sign::NoSign, digits: s.as_bytes().to_vec() }
}

fn entry(n: &[u8; 10], g: &[u8; 5], n_or_f: CrossReferenceEntryInUse, eol: &[u8; 2]) -> CrossReferenceEntry {
    CrossReferenceEntry { nnnnnnnnnn: *n, ggggg: *g, n_or_f, eol: *eol }
}

#[test]
fn test_startxref_etc1() {
    let input = b"startxref\n442170 \n%%EOF";
    let (remaining, parsed) = startxref_offset_eof(input).unwrap();
    assert_eq!(remaining, b"", "Should be fully parsed");
    println!("{:?}", parsed);
}

#[test]
fn startxref_block_fields() {
    let input = b"startxref\n442170 \n%%EOFx";
    let (remaining, parsed) = startxref_offset_eof(input).unwrap();
    assert_eq!(remaining, b"x");
    assert_eq!(
        parsed,
        StartxrefOffsetEof {
            ws3: b"\n".to_vec(),
            last_crossref_offset: integer("442170"),
            eol_marker: b" \n".to_vec(),
        }
    );
    let mut buf: Vec<u8> = vec![];
    parsed.serialize_to(&mut buf);
    assert_eq!(buf, b"startxref\n442170 \n%%EOF");
}

#[test]
fn startxref_block_failures() {
    assert_eq!(startxref_offset_eof(b"startxre"), Err(unexpected(8)));
    assert_eq!(startxref_offset_eof(b"startxref\nx"), Err(unexpected(1)));
    assert_eq!(startxref_offset_eof(b"startxref\n12  "), Err(unexpected(0)));
    assert_eq!(startxref_offset_eof(b"startxref\n12\nEOF"), Err(unexpected(3)));
    assert_eq!(
        startxref_offset_eof(b"startxref\n12\n"),
        Err(ParseError { kind: ParseErrorKind::Incomplete(Missing::EofMarker), remaining: 0 })
    );
    assert_eq!(
        startxref_offset_eof(b"startxref\n12\n%%EO"),
        Err(ParseError { kind: ParseErrorKind::Incomplete(Missing::EofMarker), remaining: 4 })
    );
}

#[test]
fn spaces_then_line_ends_after_offset() {
    assert_eq!(eol_markers_after_offset(b"  \r\n\n\rx").unwrap(), (&b"x"[..], &b"  \r\n\n\r"[..]));
    assert_eq!(eol_markers_after_offset(b"%%EOF").unwrap(), (&b"%%EOF"[..], &b""[..]));
    assert_eq!(eol_markers_after_offset(b" \n x").unwrap(), (&b" x"[..], &b" \n"[..]));
    assert_eq!(eol_markers_after_offset(b"   "), Err(unexpected(0)));
    assert_eq!(eol_markers_after_offset(b""), Err(unexpected(0)));
}

#[test]
fn object_definition_fields() {
    let input = b"12 0 obj % c\n(a)\nendobj\n";
    let (rest, parsed) = indirect_object_definition(input).unwrap();
    assert_eq!(rest, b"\n");
    assert_eq!(parsed.object_number, integer("12"));
    assert_eq!(parsed.ws1, b" ");
    assert_eq!(parsed.generation_number, integer("0"));
    assert_eq!(parsed.ws2, b" ");
    assert_eq!(parsed.ws3, b" % c\n");
    assert!(matches!(parsed.object, Object::String(_)));
    assert_eq!(parsed.ws4, b"\n");
    let mut buf: Vec<u8> = vec![];
    parsed.serialize_to(&mut buf);
    assert_eq!(buf, &input[..input.len() - 1]);
}

#[test]
fn object_definition_failures() {
    assert_eq!(indirect_object_definition(b"+1 0 obj null endobj"), Err(unexpected(20)));
    assert_eq!(indirect_object_definition(b"1 0 R"), Err(unexpected(1)));
    assert_eq!(indirect_object_definition(b"1 0 obj endobj"), Err(unexpected(6)));
    assert_eq!(indirect_object_definition(b"1 0 obj null endob"), Err(unexpected(5)));
    assert_eq!(
        indirect_object_definition(b"1 0 obj (a endobj"),
        Err(ParseError {
            kind: ParseErrorKind::Incomplete(Missing::ClosingParenthesis { depth: 1 }),
            remaining: 0
        })
    );
}

#[test]
fn body_part_is_definition_or_whitespace() {
    let (rest, part) = body_part(b"1 0 obj null endobj ").unwrap();
    assert_eq!(rest, b" ");
    assert!(matches!(part, BodyPart::ObjDef(_)));
    let (rest, part) = body_part(b" %x\nxref").unwrap();
    assert_eq!(rest, b"xref");
    assert_eq!(part, BodyPart::Whitespace(b" %x\n".to_vec()));
    let (rest, part) = body_part(b"xref").unwrap();
    assert_eq!(rest, b"xref");
    assert_eq!(part, BodyPart::Whitespace(vec![]));
    assert!(body_part(b"1 0 obj (").is_err());
}

#[test]
fn entry_line_ends_of_all_three_forms() {
    for eol in [b" \n", b" \r", b"\r\n"] {
        let mut input: Vec<u8> = b"0000000017 00000 n".to_vec();
        input.extend_from_slice(eol);
        input.extend_from_slice(b"rest");
        let (rest, parsed) = cross_reference_subsection_entry(&input).unwrap();
        assert_eq!(rest, b"rest");
        assert_eq!(
            parsed,
            entry(b"0000000017", b"00000", CrossReferenceEntryInUse::InUse, eol)
        );
        let mut buf: Vec<u8> = vec![];
        parsed.serialize_to(&mut buf);
        assert_eq!(buf.len(), 20);
        assert_eq!(buf, &input[..20]);
    }
    let (rest, parsed) = cross_reference_subsection_entry(b"0000000000 65535 f \n").unwrap();
    assert_eq!(rest, b"");
    assert_eq!(parsed, entry(b"0000000000", b"65535", CrossReferenceEntryInUse::Free, b" \n"));
}

#[test]
fn entry_failures() {
    assert_eq!(cross_reference_subsection_entry(b"trailer"), Err(unexpected(7)));
    assert_eq!(cross_reference_subsection_entry(b"28 5\n0000000000 65535 f \n"), Err(unexpected(25)));
    assert_eq!(cross_reference_subsection_entry(b"000000000"), Err(unexpected(9)));
    assert_eq!(cross_reference_subsection_entry(b"0000000000 65535 f "), Err(shape(19)));
    assert_eq!(cross_reference_subsection_entry(b"0000000000 65535 x \n"), Err(shape(20)));
    assert_eq!(cross_reference_subsection_entry(b"0000000000  65535 f \n"), Err(shape(21)));
    assert_eq!(cross_reference_subsection_entry(b"0000000000 6553 f \n "), Err(shape(20)));
    assert_eq!(cross_reference_subsection_entry(b"0000000000 655355 f \n"), Err(shape(21)));
    assert_eq!(cross_reference_subsection_entry(b"00000000001 65535 f \n"), Err(shape(21)));
    assert_eq!(cross_reference_subsection_entry(b"0000000000"), Err(shape(10)));
}

#[test]
fn digits_stand_for_numbers() {
    assert!(digits_equal(b"0", 0));
    assert!(digits_equal(b"", 0));
    assert!(digits_equal(b"2", 2));
    assert!(digits_equal(b"0042", 42));
    assert!(!digits_equal(b"42", 43));
    assert!(digits_equal(b"18446744073709551615", 18446744073709551615));
    assert!(!digits_equal(b"18446744073709551616", 0));
    assert!(!digits_equal(b"18446744073709551616", usize::MAX));
    assert!(!digits_equal(b"99999999999999999999999999", 1));
}

#[test]
fn subsection_holds_what_its_header_says() {
    let input = b"0 2\n0000000000 65535 f \n0000000009 00000 n \ntrailer";
    let (rest, parsed) = cross_reference_subsection(input).unwrap();
    assert_eq!(rest, b"trailer");
    assert_eq!(
        parsed,
        CrossReferenceSubsection {
            first_object_number: integer("0"),
            number_of_entries: integer("2"),
            ws: b"\n".to_vec(),
            entries: vec![
                entry(b"0000000000", b"65535", CrossReferenceEntryInUse::Free, b" \n"),
                entry(b"0000000009", b"00000", CrossReferenceEntryInUse::InUse, b" \n"),
            ],
        }
    );
    let mut buf: Vec<u8> = vec![];
    parsed.serialize_to(&mut buf);
    assert_eq!(buf, &input[..input.len() - 7]);

    let (rest, parsed) = cross_reference_subsection(b"7 0\n").unwrap();
    assert_eq!(rest, b"");
    assert_eq!(parsed.entries, vec![]);
}

#[test]
fn subsection_failures() {
    let one_short = b"0 2\n0000000000 65535 f \ntrailer";
    assert_eq!(cross_reference_subsection(one_short), Err(shape(one_short.len())));
    let one_more = b"0 1\n0000000000 65535 f \n0000000009 00000 n \n";
    assert_eq!(cross_reference_subsection(one_more), Err(shape(one_more.len())));
    assert_eq!(cross_reference_subsection(b"0 1\n0000000000 65535 g \n"), Err(shape(20)));
    assert_eq!(cross_reference_subsection(b"0  1\n"), Err(unexpected(3)));
    assert_eq!(cross_reference_subsection(b"0\n1\n"), Err(unexpected(3)));
    assert_eq!(cross_reference_subsection(b"trailer"), Err(unexpected(7)));
}

#[test]
fn table_with_two_subsections() {
    let input = b"xref\n0 1\n0000000000 65535 f \n3 1\n0000000017 00000 n \n\ntrailer";
    let (rest, parsed) = cross_reference_table(input).unwrap();
    assert_eq!(rest, b"trailer");
    assert_eq!(
        parsed,
        CrossReferenceTable {
            ws1: b"\n".to_vec(),
            subsections: vec![
                CrossReferenceSubsection {
                    first_object_number: integer("0"),
                    number_of_entries: integer("1"),
                    ws: b"\n".to_vec(),
                    entries: vec![entry(
                        b"0000000000",
                        b"65535",
                        CrossReferenceEntryInUse::Free,
                        b" \n"
                    )],
                },
                CrossReferenceSubsection {
                    first_object_number: integer("3"),
                    number_of_entries: integer("1"),
                    ws: b"\n".to_vec(),
                    entries: vec![entry(
                        b"0000000017",
                        b"00000",
                        CrossReferenceEntryInUse::InUse,
                        b" \n"
                    )],
                },
            ],
            ws2: b"\n".to_vec(),
        }
    );
    let mut buf: Vec<u8> = vec![];
    parsed.serialize_to(&mut buf);
    assert_eq!(buf, &input[..input.len() - 7]);
}

#[test]
fn table_failures() {
    assert_eq!(cross_reference_table(b"xre"), Err(unexpected(3)));
    assert_eq!(cross_reference_table(b"xref\ntrailer"), Err(unexpected(7)));
    assert_eq!(
        cross_reference_table(b"xref\n0 1\n0000000000 65535 f \n3 2\n0000000017 00000 n \n"),
        Err(shape(24))
    );
}

#[test]
fn trailer_fields() {
    let input = b"trailer\n<< /Size 2 >>\nstartxref";
    let (rest, parsed) = trailer(input).unwrap();
    assert_eq!(rest, b"startxref");
    assert_eq!(parsed.ws1, b"\n");
    assert_eq!(parsed.dict.parts.len(), 3);
    assert_eq!(parsed.ws2, b"\n");
    let mut buf: Vec<u8> = vec![];
    parsed.serialize_to(&mut buf);
    assert_eq!(buf, &input[..input.len() - 9]);
    assert_eq!(trailer(b"trailer\n1"), Err(unexpected(1)));
    assert_eq!(trailer(b"trailr"), Err(unexpected(6)));
}

#[test]
fn table_and_trailer_together() {
    let input = b"xref\n0 0\ntrailer<<>>";
    let (rest, parsed) = cross_reference_table_and_trailer(input).unwrap();
    assert_eq!(rest, b"");
    let mut buf: Vec<u8> = vec![];
    parsed.serialize_to(&mut buf);
    assert_eq!(buf, input);
    assert_eq!(cross_reference_table_and_trailer(b"xref\n0 0\n"), Err(unexpected(0)));
    assert_eq!(cross_reference_table_and_trailer(b"trailer<<>>"), Err(unexpected(11)));
}

#[test]
fn section_without_table() {
    let input = b"1 0 obj null endobj\nstartxref\n9\n%%EOF";
    let (rest, parsed) = body_crossref_trailer(input).unwrap();
    assert_eq!(rest, b"");
    assert_eq!(parsed.body.len(), 2);
    assert_eq!(parsed.cross_reference_table_and_trailer, None);
    let mut buf: Vec<u8> = vec![];
    parsed.serialize_to(&mut buf);
    assert_eq!(buf, input);
}

#[test]
fn section_failures() {
    assert_eq!(body_crossref_trailer(b"1 0 obj null endobj\n"), Err(unexpected(0)));
    assert_eq!(body_crossref_trailer(b"1 0 obj (x endobj\nstartxref\n9\n%%EOF"), Err(unexpected(35)));
    let bad_entry = b"xref\n0 1\n0000000000 65535 F \ntrailer<<>>startxref\n9\n%%EOF";
    assert_eq!(body_crossref_trailer(bad_entry), Err(shape(bad_entry.len() - 9)));
}

#[test]
fn minimal_full_file() {
    let (rest, parsed) = pdf_file(MINIMAL).unwrap();
    assert_eq!(rest, b"");
    assert_eq!(parsed.header, b"%PDF-1.4\n");
    assert_eq!(parsed.post_eof, b"\n");
    assert_eq!(parsed.body_crossref_trailers.len(), 1);
    let section: &BodyCrossrefTrailer = &parsed.body_crossref_trailers[0];
    assert_eq!(
        section.body,
        vec![
            BodyPart::ObjDef(IndirectObjectDefinition {
                object_number: integer("1"),
                ws1: b" ".to_vec(),
                generation_number: integer("0"),
                ws2: b" ".to_vec(),
                ws3: b"\n".to_vec(),
                object: Object::Null,
                ws4: b"\n".to_vec(),
            }),
            BodyPart::Whitespace(b"\n".to_vec()),
        ]
    );
    let table_and_trailer = section.cross_reference_table_and_trailer.as_ref().unwrap();
    let table = &table_and_trailer.cross_reference_table;
    assert_eq!(table.subsections.len(), 1);
    assert_eq!(
        table.subsections[0].entries,
        vec![
            entry(b"0000000000", b"65535", CrossReferenceEntryInUse::Free, b" \n"),
            entry(b"0000000009", b"00000", CrossReferenceEntryInUse::InUse, b" \n"),
        ]
    );
    assert_eq!(table_and_trailer.trailer.ws1, b"\n");
    assert_eq!(
        section.startxref_offset_eof,
        StartxrefOffsetEof {
            ws3: b"\n".to_vec(),
            last_crossref_offset: integer("28"),
            eol_marker: b"\n".to_vec(),
        }
    );
    let mut buf: Vec<u8> = vec![];
    parsed.serialize_to(&mut buf);
    assert_eq!(buf, MINIMAL);
}

#[test]
fn file_with_an_update() {
    let mut input: Vec<u8> = MINIMAL.to_vec();
    input.extend_from_slice(b"2 0 obj\n<< /A [1 2] >>\nstream\r\nabc\nendstream\nendobj\nstartxref\n170\r\n%%EOF");
    let (rest, parsed) = pdf_file(&input).unwrap();
    assert_eq!(rest, b"");
    assert_eq!(parsed.body_crossref_trailers.len(), 2);
    assert_eq!(parsed.body_crossref_trailers[1].cross_reference_table_and_trailer, None);
    assert_eq!(parsed.post_eof, b"");
    assert_eq!(count_object_definitions(&parsed), 2);
    let mut buf: Vec<u8> = vec![];
    parsed.serialize_to(&mut buf);
    assert_eq!(buf, input);
}

#[test]
fn file_leaves_what_it_cannot_read() {
    let mut input: Vec<u8> = MINIMAL.to_vec();
    input.extend_from_slice(b"% note\r\n garbage");
    let (rest, parsed) = pdf_file(&input).unwrap();
    assert_eq!(rest, b"garbage");
    assert_eq!(parsed.post_eof, b"\n% note\r\n ");
    let mut buf: Vec<u8> = vec![];
    parsed.serialize_to(&mut buf);
    buf.extend_from_slice(rest);
    assert_eq!(buf, input);
}

#[test]
fn file_failures() {
    assert_eq!(pdf_file(b""), Err(unexpected(0)));
    assert_eq!(pdf_file(b"%PDF-1.4\n"), Err(unexpected(0)));
    assert_eq!(pdf_file(b"%PDF-1.4\n1 0 obj\nnull\nendobj\n"), Err(unexpected(0)));
    assert_eq!(pdf_file(&MINIMAL[..MINIMAL.len() - 3]),
        Err(ParseError { kind: ParseErrorKind::Incomplete(Missing::EofMarker), remaining: 3 }));
    let mut input: Vec<u8> = MINIMAL.to_vec();
    input.extend_from_slice(b"1 0 obj (x endobj startxref\n5\n%%EOF");
    assert_eq!(
        pdf_file(&input),
        Err(ParseError { kind: ParseErrorKind::PostEofContent, remaining: 36 })
    );
    let wrong_count = b"xref\n0 3\n0000000000 65535 f \ntrailer<<>>startxref\n9\n%%EOF";
    assert_eq!(pdf_file(wrong_count), Err(shape(wrong_count.len() - 5)));
}

#[test]
fn error_offset_in_the_input() {
    let input = b"%PDF-1.4\n1 0 obj\nnull\nendobj\nxref\n";
    let error = pdf_file(input).unwrap_err();
    assert_eq!(error, unexpected(5));
    assert!(error.is_recoverable());
    assert_eq!(error.offset(input), 29);
    assert_eq!(ParseError { kind: ParseErrorKind::ShapeViolation, remaining: 100 }.offset(input), 0);
    assert!(!shape(1).is_recoverable());
    assert!(!ParseError { kind: ParseErrorKind::PostEofContent, remaining: 1 }.is_recoverable());
    assert!(!ParseError {
        kind: ParseErrorKind::Incomplete(Missing::ClosingParenthesis { depth: 1 }),
        remaining: 0
    }
    .is_recoverable());
    assert!(ParseError { kind: ParseErrorKind::Incomplete(Missing::Endstream), remaining: 0 }
        .is_recoverable());
    assert!(ParseError { kind: ParseErrorKind::Incomplete(Missing::EofMarker), remaining: 0 }
        .is_recoverable());
}

#[test]
fn parse_and_back_gives_the_input() {
    assert_eq!(file_parse_and_back(MINIMAL).unwrap(), MINIMAL);
    let mut input: Vec<u8> = MINIMAL.to_vec();
    input.extend_from_slice(b"junk");
    assert_eq!(file_parse_and_back(&input).unwrap(), MINIMAL);
    assert_eq!(file_parse_and_back(b"junk"), Err(unexpected(4)));
}

#[test]
fn report_of_a_round_trip() {
    let (parsed, report) = round_trip_report(MINIMAL).unwrap();
    assert_eq!(parsed.body_crossref_trailers.len(), 1);
    assert_eq!(report.remaining, 0);
    assert_eq!(report.written_len, MINIMAL.len());
    assert_eq!(report.input_crc32, crc32fast::hash(MINIMAL));
    assert_eq!(report.written_crc32, report.input_crc32);
    assert_eq!(report.object_definitions, 1);
    assert!(report.matches_input(MINIMAL.len()));
    assert!(!report.matches_input(MINIMAL.len() + 1));

    let mut input: Vec<u8> = MINIMAL.to_vec();
    input.extend_from_slice(b"junk");
    let (_, report) = round_trip_report(&input).unwrap();
    assert_eq!(report.remaining, 4);
    assert_eq!(report.written_len, MINIMAL.len());
    assert_eq!(report.written_crc32, crc32fast::hash(MINIMAL));
    assert_eq!(report.input_crc32, crc32fast::hash(&input));
    assert_ne!(report.written_crc32, report.input_crc32);
    assert!(!report.matches_input(input.len()));
    assert_eq!(round_trip_report(b"junk"), Err(unexpected(4)));
}

#[test]
fn checksum_of_known_bytes() {
    let mut input: Vec<u8> = b"%".to_vec();
    input.extend_from_slice(b"\nstartxref\n1\n%%EOF");
    let (_, report) = round_trip_report(&input).unwrap();
    assert_eq!(report.input_crc32, crc32fast::hash(&input));
    assert_ne!(report.input_crc32 as usize, input.len());
    assert_eq!(crc32fast::hash(b"123456789"), 0xCBF4_3926);
}

#[test]
fn error_prefix_of_the_input() {
    let input = b"%PDF-1.4\n1 0 obj\nnull\nendobj\nxref\n";
    let error = pdf_file(input).unwrap_err();
    assert_eq!(error.prefix(input, 3), b"xre");
    assert_eq!(error.prefix(input, 5), b"xref\n");
    assert_eq!(error.prefix(input, 50), b"xref\n");
    assert_eq!(error.prefix(input, 0), b"");
    assert_eq!(unexpected(0).prefix(input, 4), b"");
    assert_eq!(unexpected(1000).prefix(input, 4), b"%PDF");
}

#[test]
fn first_difference_of_two_buffers() {
    assert_eq!(first_difference(b"abcd", b"abxd"), 2);
    assert_eq!(first_difference(b"abcd", b"abcd"), 4);
    assert_eq!(first_difference(b"abcd", b"ab"), 2);
    assert_eq!(first_difference(b"", b"ab"), 0);
    assert_eq!(first_difference(b"xb", b"ab"), 0);
}

#[test]
fn report_matches_on_length_and_checksum() {
    let report = RoundTripReport {
        remaining: 0,
        written_len: 10,
        written_crc32: 7,
        input_crc32: 7,
        object_definitions: 0,
    };
    assert!(report.matches_input(10));
    assert!(!report.matches_input(11));
    let report = RoundTripReport { input_crc32: 8, ..report };
    assert!(!report.matches_input(10));
}

#[test]
fn file_with_stream_and_crlf_line_ends() {
    let mut input: Vec<u8> = Vec::new();
    input.extend_from_slice(b"%PDF-1.7\r\n%\xE2\xE3\xCF\xD3\r\n");
    input.extend_from_slice(b"1 0 obj\r\n<< /Type /Catalog /Pages 2 0 R >>\r\nendobj\r\n");
    input.extend_from_slice(b"2 0 obj\r\n<< /Type /Pages /Kids [3 0 R] /Count 1 >>\r\nendobj\r\n");
    input.extend_from_slice(
        b"3 0 obj\r\n<< /Type /Page /Parent 2 0 R /MediaBox [0 0 612 792.0] /Contents 4 0 R >>\r\nendobj\r\n",
    );
    input.extend_from_slice(
        b"4 0 obj\r\n<< /Length 44 >>\r\nstream\r\nBT /F1 24 Tf 100 700 Td (Hello \\(World\\)) Tj ET\r\nendstream\r\nendobj\r\n",
    );
    input.extend_from_slice(b"xref\r\n0 5\r\n");
    input.extend_from_slice(b"0000000000 65535 f\r\n");
    input.extend_from_slice(b"0000000017 00000 n\r\n");
    input.extend_from_slice(b"0000000070 00000 n\r\n");
    input.extend_from_slice(b"0000000131 00000 n\r\n");
    input.extend_from_slice(b"0000000229 00000 n\r\n");
    input.extend_from_slice(b"trailer\r\n<< /Size 5 /Root 1 0 R >>\r\nstartxref\r\n340\r\n%%EOF\r\n");

    let (rest, parsed) = pdf_file(&input).unwrap();
    assert_eq!(rest, b"");
    assert_eq!(parsed.header, b"%PDF-1.7\r\n%\xE2\xE3\xCF\xD3\r\n");
    assert_eq!(parsed.post_eof, b"\r\n");
    assert_eq!(parsed.body_crossref_trailers.len(), 1);
    let section = &parsed.body_crossref_trailers[0];
    assert_eq!(section.body.len(), 8);
    assert_eq!(count_object_definitions(&parsed), 4);
    match &section.body[6] {
        BodyPart::ObjDef(definition) => match &definition.object {
            Object::Stream(stream) => {
                assert_eq!(stream.ws_and_comments, b"\r\n");
                assert_eq!(
                    stream.content,
                    b"BT /F1 24 Tf 100 700 Td (Hello \\(World\\)) Tj ET\r\n"
                );
            }
            other => panic!("{:?}", other),
        },
        other => panic!("{:?}", other),
    }
    let table = &section.cross_reference_table_and_trailer.as_ref().unwrap().cross_reference_table;
    assert_eq!(table.subsections.len(), 1);
    assert_eq!(table.subsections[0].entries.len(), 5);
    assert_eq!(table.subsections[0].entries[4].eol, *b"\r\n");

    let (_, report) = round_trip_report(&input).unwrap();
    assert!(report.matches_input(input.len()));
    assert_eq!(file_parse_and_back(&input).unwrap(), input);
}
