//! Parsing a file and writing it back, with the figures that tell whether
//! the two agree.

use vstd::prelude::*;
use crate::document::BodyCrossrefTrailerView;
use crate::document::BodyPart;
use crate::document::BodyPartView;
use crate::document::PdfFile;
use crate::document::PdfFileView;
use crate::document_grammar::spec_pdf_file;
use crate::document_parser::pdf_file;
use crate::error::ParseError;
use crate::serialize::BinSerialize;

verus! {

/// The CRC-32 checksum (IEEE) of a sequence of bytes.
pub uninterp spec fn crc32_of(bytes: Seq<u8>) -> u32;

/// The CRC-32 checksum of `bytes`, computed by `crc32fast::hash`.
///
/// The checksum is a function of the bytes alone: whichever implementation
/// the crate picks for the processor at hand, the result is the same.
/// Nothing is claimed here of the value itself.
#[verifier::external_body]
fn crc32(bytes: &[u8]) -> (c: u32)
    ensures
        c == crc32_of(bytes@),
{
    crc32fast::hash(bytes)
}

/// The number of object definitions among the parts of a body.
pub open spec fn object_definitions_in_body(body: Seq<BodyPartView>) -> nat
    decreases body.len(),
{
    if body.len() == 0 {
        0
    } else {
        object_definitions_in_body(body.drop_last()) + if body.last() is ObjDef {
            1nat
        } else {
            0nat
        }
    }
}

/// The number of object definitions in a run of sections.
pub open spec fn object_definitions_in_sections(sections: Seq<BodyCrossrefTrailerView>) -> nat
    decreases sections.len(),
{
    if sections.len() == 0 {
        0
    } else {
        object_definitions_in_sections(sections.drop_last()) + object_definitions_in_body(
            sections.last().body,
        )
    }
}

/// The number of object definitions in a file.
pub open spec fn object_definitions(file: PdfFileView) -> nat {
    object_definitions_in_sections(file.body_crossref_trailers)
}

/// `n` where it fits the machine's word, else the largest number that does.
pub open spec fn saturated(n: nat) -> usize {
    if n <= usize::MAX {
        n as usize
    } else {
        usize::MAX
    }
}

/// Counts the object definitions of a file. The count stops at the largest
/// number that fits.
pub fn count_object_definitions(file: &PdfFile) -> (count: usize)
    ensures
        count == saturated(object_definitions(file@)),
{
    let mut count: usize = 0;
    let mut i: usize = 0;
    let ghost sections = file@.body_crossref_trailers;
    assert(sections.take(0) =~= Seq::empty());
    while i < file.body_crossref_trailers.len()
        invariant
            i <= file.body_crossref_trailers.len(),
            sections == file@.body_crossref_trailers,
            sections.len() == file.body_crossref_trailers@.len(),
            count == saturated(object_definitions_in_sections(sections.take(i as int))),
        decreases file.body_crossref_trailers.len() - i,
    {
        let section = &file.body_crossref_trailers[i];
        let ghost body = sections[i as int].body;
        let ghost before = object_definitions_in_sections(sections.take(i as int));
        let mut j: usize = 0;
        assert(body.take(0) =~= Seq::empty());
        assert(body.len() == section.body@.len());
        while j < section.body.len()
            invariant
                j <= section.body.len(),
                body == section@.body,
                body.len() == section.body@.len(),
                count == saturated(before + object_definitions_in_body(body.take(j as int))),
            decreases section.body.len() - j,
        {
            proof {
                assert(body.take(j + 1).drop_last() =~= body.take(j as int));
                assert(body.take(j + 1).last() == section.body@[j as int]@);
            }
            match &section.body[j] {
                BodyPart::ObjDef(_) => {
                    if count < usize::MAX {
                        count += 1;
                    }
                },
                BodyPart::Whitespace(_) => {},
            }
            j += 1;
        }
        proof {
            assert(body.take(j as int) =~= body);
            assert(sections.take(i + 1).drop_last() =~= sections.take(i as int));
            assert(sections.take(i + 1).last() == sections[i as int]);
        }
        i += 1;
    }
    assert(sections.take(i as int) =~= sections);
    count
}

/// What parsing a file and writing it back came to.
#[derive(Clone, Copy, Debug, PartialEq, Eq, Structural)]
pub struct RoundTripReport {
    /// How many bytes of the input were left unread.
    pub remaining: usize,
    /// How many bytes were written.
    pub written_len: usize,
    /// The checksum of the bytes written.
    pub written_crc32: u32,
    /// The checksum of the input.
    pub input_crc32: u32,
    /// How many object definitions the file holds.
    pub object_definitions: usize,
}

impl RoundTripReport {
    /// Whether the bytes written have the length `input_len` of the input,
    /// and the same checksum as the input.
    pub fn matches_input(&self, input_len: usize) -> (b: bool)
        ensures
            b == (self.written_len == input_len && self.written_crc32 == self.input_crc32),
    {
        self.written_len == input_len && self.written_crc32 == self.input_crc32
    }
}

/// The length of the longest run of bytes that `a` and `b` both begin with.
pub open spec fn common_prefix_len(a: Seq<u8>, b: Seq<u8>) -> nat
    decreases a.len(),
{
    if a.len() > 0 && b.len() > 0 && a[0] == b[0] {
        1 + common_prefix_len(a.skip(1), b.skip(1))
    } else {
        0
    }
}

/// The offset of the first byte at which `a` and `b` differ, which is the
/// length of the shorter where one begins with the other.
pub fn first_difference(a: &[u8], b: &[u8]) -> (i: usize)
    ensures
        i == common_prefix_len(a@, b@),
        i <= a@.len(),
        i <= b@.len(),
        forall|k: int| 0 <= k < i ==> a@[k] == b@[k],
        i < a@.len() && i < b@.len() ==> a@[i as int] != b@[i as int],
{
    let mut i: usize = 0;
    assert(a@.skip(0) =~= a@ && b@.skip(0) =~= b@);
    while i < a.len() && i < b.len() && a[i] == b[i]
        invariant
            i <= a.len(),
            i <= b.len(),
            forall|k: int| 0 <= k < i ==> a@[k] == b@[k],
            common_prefix_len(a@, b@) == i + common_prefix_len(
                a@.skip(i as int),
                b@.skip(i as int),
            ),
        decreases a.len() - i,
    {
        assert(a@.skip(i as int).skip(1) =~= a@.skip(i + 1));
        assert(b@.skip(i as int).skip(1) =~= b@.skip(i + 1));
        i += 1;
    }
    i
}

/// Parses `input` as a file and writes the tree back.
///
/// What is written is the part of the input that was read; the unread rest
/// is what the parser of files leaves. Fails exactly where that parser
/// fails.
pub fn file_parse_and_back(input: &[u8]) -> (r: Result<Vec<u8>, ParseError>)
    ensures
        match (r, spec_pdf_file(input@)) {
            (Ok(out), Ok((rest, file))) => out@ == file.bytes() && out@ + rest == input@,
            (Err(e), Err(spec_e)) => e == spec_e && e.remaining <= input@.len(),
            _ => false,
        },
{
    let (_, parsed) = pdf_file(input)?;
    let mut buf: Vec<u8> = Vec::new();
    parsed.serialize_to(&mut buf);
    assert(buf@ =~= parsed@.bytes());
    Ok(buf)
}

/// Parses `input` as a file, writes the tree back, and reports on the two:
/// lengths, checksums, and the number of object definitions.
///
/// Where nothing of the input is left unread, the bytes written are the
/// input, and so the two checksums are equal.
pub fn round_trip_report(input: &[u8]) -> (r: Result<(PdfFile, RoundTripReport), ParseError>)
    ensures
        match (r, spec_pdf_file(input@)) {
            (Ok((parsed, report)), Ok((rest, file))) => {
                &&& parsed@ == file
                &&& report.remaining == rest.len()
                &&& report.written_len == file.bytes().len()
                &&& report.written_len + report.remaining == input@.len()
                &&& report.written_crc32 == crc32_of(file.bytes())
                &&& report.input_crc32 == crc32_of(input@)
                &&& report.object_definitions == saturated(object_definitions(file))
                &&& report.remaining == 0 ==> report.written_crc32 == report.input_crc32
            },
            (Err(e), Err(spec_e)) => e == spec_e && e.remaining <= input@.len(),
            _ => false,
        },
{
    let (rest, parsed) = pdf_file(input)?;
    let mut buf: Vec<u8> = Vec::new();
    parsed.serialize_to(&mut buf);
    assert(buf@ =~= parsed@.bytes());
    proof {
        if rest@.len() == 0 {
            assert(buf@ + rest@ =~= buf@);
        }
    }
    let report = RoundTripReport {
        remaining: rest.len(),
        written_len: buf.len(),
        written_crc32: crc32(buf.as_slice()),
        input_crc32: crc32(input),
        object_definitions: count_object_definitions(&parsed),
    };
    Ok((parsed, report))
}

} // verus!
