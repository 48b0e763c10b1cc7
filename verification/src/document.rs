//! The structure of a file: indirect object definitions, the body, the
//! cross-reference table, the trailer, the `startxref` block, and the file
//! as a whole.

use vstd::prelude::*;
use crate::document_grammar::digits_value;
use crate::lexical::is_digit;
use crate::lexical::occurs_in;
use crate::lexical::SPACE;
use crate::numeric::Integer;
use crate::numeric::IntegerView;
use crate::numeric::Sign;
use crate::object::DictionaryObject;
use crate::object::DictionaryObjectView;
use crate::object::Object;
use crate::object::ObjectView;
use crate::serialize::write_all;
use crate::serialize::BinSerialize;

verus! {

pub const OBJ: [u8; 3] = [0x6F, 0x62, 0x6A];

pub const ENDOBJ: [u8; 6] = [0x65, 0x6E, 0x64, 0x6F, 0x62, 0x6A];

pub const XREF: [u8; 4] = [0x78, 0x72, 0x65, 0x66];

pub const TRAILER: [u8; 7] = [0x74, 0x72, 0x61, 0x69, 0x6C, 0x65, 0x72];

pub const STARTXREF: [u8; 9] = [0x73, 0x74, 0x61, 0x72, 0x74, 0x78, 0x72, 0x65, 0x66];

pub const EOF_MARKER: [u8; 5] = [0x25, 0x25, 0x45, 0x4F, 0x46];

pub const LETTER_N: u8 = 0x6E;

pub const LETTER_F: u8 = 0x66;

/// The definition of an indirect object: `n g obj ... endobj`, with the four
/// stretches of whitespace and comments inside it.
#[derive(Debug, PartialEq, Eq)]
pub struct IndirectObjectDefinition {
    pub object_number: Integer,
    /// Between the object number and the generation number.
    pub ws1: Vec<u8>,
    pub generation_number: Integer,
    /// Between the generation number and `obj`.
    pub ws2: Vec<u8>,
    /// Between `obj` and the object.
    pub ws3: Vec<u8>,
    pub object: Object,
    /// Between the object and `endobj`.
    pub ws4: Vec<u8>,
}

/// The view of `IndirectObjectDefinition` in contracts: the same fields, with sequences in
/// place of vectors.
pub struct IndirectObjectDefinitionView {
    pub object_number: IntegerView,
    pub ws1: Seq<u8>,
    pub generation_number: IntegerView,
    pub ws2: Seq<u8>,
    pub ws3: Seq<u8>,
    pub object: ObjectView,
    pub ws4: Seq<u8>,
}

impl View for IndirectObjectDefinition {
    type V = IndirectObjectDefinitionView;

    open spec fn view(&self) -> IndirectObjectDefinitionView {
        IndirectObjectDefinitionView {
            object_number: self.object_number@,
            ws1: self.ws1@,
            generation_number: self.generation_number@,
            ws2: self.ws2@,
            ws3: self.ws3@,
            object: self.object@,
            ws4: self.ws4@,
        }
    }
}

impl IndirectObjectDefinitionView {
    pub open spec fn bytes(self) -> Seq<u8> {
        self.object_number.bytes() + self.ws1 + self.generation_number.bytes() + self.ws2 + OBJ@
            + self.ws3 + self.object.bytes() + self.ws4 + ENDOBJ@
    }

    /// Both numbers are well-formed and have no sign, and the object is
    /// well-formed.
    pub open spec fn wf(self) -> bool {
        &&& self.object_number.wf()
        &&& self.object_number.sign == Sign::NoSign
        &&& self.generation_number.wf()
        &&& self.generation_number.sign == Sign::NoSign
        &&& self.object.wf()
    }
}

impl BinSerialize for IndirectObjectDefinition {
    open spec fn serialized(&self) -> Seq<u8> {
        self@.bytes()
    }

    fn serialize_to(&self, buf: &mut Vec<u8>) {
        self.object_number.serialize_to(buf);
        write_all(buf, self.ws1.as_slice());
        self.generation_number.serialize_to(buf);
        write_all(buf, self.ws2.as_slice());
        write_all(buf, &OBJ);
        write_all(buf, self.ws3.as_slice());
        self.object.serialize_to(buf);
        write_all(buf, self.ws4.as_slice());
        write_all(buf, &ENDOBJ);
        assert(buf@ == old(buf)@ + self@.bytes());
    }
}

/// A part of the body of a file: an object definition, or the whitespace and
/// comments between two.
#[derive(Debug, PartialEq, Eq)]
pub enum BodyPart {
    ObjDef(IndirectObjectDefinition),
    Whitespace(Vec<u8>),
}

/// The view of `BodyPart` in contracts: the same variants, with sequences in
/// place of vectors.
pub enum BodyPartView {
    ObjDef(IndirectObjectDefinitionView),
    Whitespace(Seq<u8>),
}

impl View for BodyPart {
    type V = BodyPartView;

    open spec fn view(&self) -> BodyPartView {
        match self {
            BodyPart::ObjDef(o) => BodyPartView::ObjDef(o@),
            BodyPart::Whitespace(w) => BodyPartView::Whitespace(w@),
        }
    }
}

impl BodyPartView {
    pub open spec fn bytes(self) -> Seq<u8> {
        match self {
            BodyPartView::ObjDef(o) => o.bytes(),
            BodyPartView::Whitespace(w) => w,
        }
    }

    /// A definition is well-formed; whitespace is not empty.
    pub open spec fn wf(self) -> bool {
        match self {
            BodyPartView::ObjDef(o) => o.wf(),
            BodyPartView::Whitespace(w) => w.len() > 0,
        }
    }
}

impl BinSerialize for BodyPart {
    open spec fn serialized(&self) -> Seq<u8> {
        self@.bytes()
    }

    fn serialize_to(&self, buf: &mut Vec<u8>) {
        match self {
            BodyPart::ObjDef(o) => o.serialize_to(buf),
            BodyPart::Whitespace(ws) => write_all(buf, ws.as_slice()),
        }
    }
}

/// The views of the parts of a body.
pub open spec fn body_view(parts: Seq<BodyPart>) -> Seq<BodyPartView> {
    parts.map_values(|p: BodyPart| p@)
}

/// The bytes of a run of body parts, one after the other.
pub open spec fn body_bytes(parts: Seq<BodyPartView>) -> Seq<u8>
    decreases parts.len(),
{
    if parts.len() == 0 {
        Seq::empty()
    } else {
        body_bytes(parts.drop_last()) + parts.last().bytes()
    }
}

/// Whether every part of a body is well-formed.
pub open spec fn body_wf(parts: Seq<BodyPartView>) -> bool
    decreases parts.len(),
{
    parts.len() == 0 || (body_wf(parts.drop_last()) && parts.last().wf())
}

/// A part more adds its bytes, and the run stays well-formed just when the
/// part is.
pub proof fn lemma_body_bytes_push(parts: Seq<BodyPartView>, part: BodyPartView)
    ensures
        body_bytes(parts.push(part)) == body_bytes(parts) + part.bytes(),
        body_wf(parts.push(part)) == (body_wf(parts) && part.wf()),
{
    assert(parts.push(part).drop_last() =~= parts);
}

/// Whether a cross-reference entry describes an object in use or a free one.
#[derive(Clone, Copy, Debug, PartialEq, Eq, Structural)]
pub enum CrossReferenceEntryInUse {
    Free,
    InUse,
}

impl CrossReferenceEntryInUse {
    pub open spec fn bytes(self) -> Seq<u8> {
        match self {
            CrossReferenceEntryInUse::Free => seq![LETTER_F],
            CrossReferenceEntryInUse::InUse => seq![LETTER_N],
        }
    }
}

/// One entry of a cross-reference table: ten digits, a space, five digits,
/// a space, `n` or `f`, and two bytes that end the line.
#[derive(Clone, Copy, Debug, PartialEq, Eq)]
pub struct CrossReferenceEntry {
    pub nnnnnnnnnn: [u8; 10],
    pub ggggg: [u8; 5],
    pub n_or_f: CrossReferenceEntryInUse,
    pub eol: [u8; 2],
}

/// The view of `CrossReferenceEntry` in contracts: the same fields, with sequences in
/// place of vectors.
pub struct CrossReferenceEntryView {
    pub nnnnnnnnnn: Seq<u8>,
    pub ggggg: Seq<u8>,
    pub n_or_f: CrossReferenceEntryInUse,
    pub eol: Seq<u8>,
}

impl View for CrossReferenceEntry {
    type V = CrossReferenceEntryView;

    open spec fn view(&self) -> CrossReferenceEntryView {
        CrossReferenceEntryView {
            nnnnnnnnnn: self.nnnnnnnnnn@,
            ggggg: self.ggggg@,
            n_or_f: self.n_or_f,
            eol: self.eol@,
        }
    }
}

impl CrossReferenceEntryView {
    pub open spec fn bytes(self) -> Seq<u8> {
        self.nnnnnnnnnn + seq![SPACE] + self.ggggg + seq![SPACE] + self.n_or_f.bytes() + self.eol
    }

    /// The three fields have their fixed widths: 10, 5 and 2 bytes.
    pub open spec fn fixed_widths(self) -> bool {
        &&& self.nnnnnnnnnn.len() == 10
        &&& self.ggggg.len() == 5
        &&& self.eol.len() == 2
    }

    /// The fields have their fixed widths, and the two numbers consist of
    /// digits.
    pub open spec fn wf(self) -> bool {
        &&& self.fixed_widths()
        &&& forall|k: int| 0 <= k < 10 ==> is_digit(#[trigger] self.nnnnnnnnnn[k])
        &&& forall|k: int| 0 <= k < 5 ==> is_digit(#[trigger] self.ggggg[k])
    }
}

/// A cross-reference entry whose fields have their fixed widths is written
/// as 20 bytes.
pub proof fn lemma_cross_reference_entry_width(entry: CrossReferenceEntryView)
    requires
        entry.fixed_widths(),
    ensures
        entry.bytes().len() == 20,
{
}

/// Every entry that exists as a value has fields of the fixed widths, and so
/// is written as 20 bytes.
pub proof fn lemma_cross_reference_entry_value_width(entry: CrossReferenceEntry)
    ensures
        entry@.fixed_widths(),
        entry@.bytes().len() == 20,
{
}

impl BinSerialize for CrossReferenceEntry {
    open spec fn serialized(&self) -> Seq<u8> {
        self@.bytes()
    }

    /// Appends the 20 bytes of this entry to `buf`.
    fn serialize_to(&self, buf: &mut Vec<u8>)
        ensures
            final(buf)@.len() == old(buf)@.len() + 20,
    {
        write_all(buf, &self.nnnnnnnnnn);
        buf.push(SPACE);
        write_all(buf, &self.ggggg);
        buf.push(SPACE);
        match self.n_or_f {
            CrossReferenceEntryInUse::Free => {
                buf.push(LETTER_F);
            },
            CrossReferenceEntryInUse::InUse => {
                buf.push(LETTER_N);
            },
        }
        write_all(buf, &self.eol);
        assert(buf@ == old(buf)@ + self@.bytes());
    }
}

/// The views of a run of entries.
pub open spec fn entries_view(entries: Seq<CrossReferenceEntry>) -> Seq<CrossReferenceEntryView> {
    entries.map_values(|e: CrossReferenceEntry| e@)
}

/// The bytes of a run of entries, one after the other.
pub open spec fn entries_bytes(entries: Seq<CrossReferenceEntryView>) -> Seq<u8>
    decreases entries.len(),
{
    if entries.len() == 0 {
        Seq::empty()
    } else {
        entries_bytes(entries.drop_last()) + entries.last().bytes()
    }
}

/// Whether every entry of a run is well-formed.
pub open spec fn entries_wf(entries: Seq<CrossReferenceEntryView>) -> bool
    decreases entries.len(),
{
    entries.len() == 0 || (entries_wf(entries.drop_last()) && entries.last().wf())
}

/// An entry more adds its bytes, and the run stays well-formed just when
/// the entry is.
pub proof fn lemma_entries_bytes_push(
    entries: Seq<CrossReferenceEntryView>,
    entry: CrossReferenceEntryView,
)
    ensures
        entries_bytes(entries.push(entry)) == entries_bytes(entries) + entry.bytes(),
        entries_wf(entries.push(entry)) == (entries_wf(entries) && entry.wf()),
{
    assert(entries.push(entry).drop_last() =~= entries);
}

/// A subsection of a cross-reference table: the number of its first object,
/// the number of its entries, and the entries.
#[derive(Debug, PartialEq, Eq)]
pub struct CrossReferenceSubsection {
    pub first_object_number: Integer,
    pub number_of_entries: Integer,
    /// After the two numbers, before the first entry.
    pub ws: Vec<u8>,
    pub entries: Vec<CrossReferenceEntry>,
}

/// The view of `CrossReferenceSubsection` in contracts: the same fields, with sequences in
/// place of vectors.
pub struct CrossReferenceSubsectionView {
    pub first_object_number: IntegerView,
    pub number_of_entries: IntegerView,
    pub ws: Seq<u8>,
    pub entries: Seq<CrossReferenceEntryView>,
}

impl View for CrossReferenceSubsection {
    type V = CrossReferenceSubsectionView;

    open spec fn view(&self) -> CrossReferenceSubsectionView {
        CrossReferenceSubsectionView {
            first_object_number: self.first_object_number@,
            number_of_entries: self.number_of_entries@,
            ws: self.ws@,
            entries: entries_view(self.entries@),
        }
    }
}

impl CrossReferenceSubsectionView {
    pub open spec fn bytes(self) -> Seq<u8> {
        self.first_object_number.bytes() + seq![SPACE] + self.number_of_entries.bytes() + self.ws
            + entries_bytes(self.entries)
    }

    /// The two numbers are well-formed and have no sign, the entries are
    /// well-formed, and there are as many of them as the header says.
    pub open spec fn wf(self) -> bool {
        &&& self.first_object_number.wf()
        &&& self.first_object_number.sign == Sign::NoSign
        &&& self.number_of_entries.wf()
        &&& self.number_of_entries.sign == Sign::NoSign
        &&& entries_wf(self.entries)
        &&& digits_value(self.number_of_entries.digits) == self.entries.len()
    }
}

impl BinSerialize for CrossReferenceSubsection {
    open spec fn serialized(&self) -> Seq<u8> {
        self@.bytes()
    }

    fn serialize_to(&self, buf: &mut Vec<u8>) {
        self.first_object_number.serialize_to(buf);
        buf.push(SPACE);
        self.number_of_entries.serialize_to(buf);
        write_all(buf, self.ws.as_slice());
        let ghost head = self.first_object_number@.bytes() + seq![SPACE]
            + self.number_of_entries@.bytes() + self.ws@;
        assert(buf@ == old(buf)@ + head);
        let mut k: usize = 0;
        while k < self.entries.len()
            invariant
                k <= self.entries.len(),
                buf@ == old(buf)@ + head + entries_bytes(
                    entries_view(self.entries@.take(k as int)),
                ),
            decreases self.entries.len() - k,
        {
            self.entries[k].serialize_to(buf);
            proof {
                let done = self.entries@.take(k as int);
                assert(self.entries@.take(k + 1) =~= done.push(self.entries@[k as int]));
                assert(entries_view(done.push(self.entries@[k as int])) =~= entries_view(done).push(
                    self.entries@[k as int]@,
                ));
                lemma_entries_bytes_push(entries_view(done), self.entries@[k as int]@);
            }
            k += 1;
        }
        assert(self.entries@.take(k as int) =~= self.entries@);
        assert(buf@ == old(buf)@ + self@.bytes());
    }
}

/// The views of a run of subsections.
pub open spec fn subsections_view(subsections: Seq<CrossReferenceSubsection>) -> Seq<
    CrossReferenceSubsectionView,
> {
    subsections.map_values(|x: CrossReferenceSubsection| x@)
}

/// The bytes of a run of subsections, one after the other.
pub open spec fn subsections_bytes(subsections: Seq<CrossReferenceSubsectionView>) -> Seq<u8>
    decreases subsections.len(),
{
    if subsections.len() == 0 {
        Seq::empty()
    } else {
        subsections_bytes(subsections.drop_last()) + subsections.last().bytes()
    }
}

/// Whether every subsection of a run is well-formed.
pub open spec fn subsections_wf(subsections: Seq<CrossReferenceSubsectionView>) -> bool
    decreases subsections.len(),
{
    subsections.len() == 0 || (subsections_wf(subsections.drop_last())
        && subsections.last().wf())
}

/// A subsection more adds its bytes, and the run stays well-formed just
/// when the subsection is.
pub proof fn lemma_subsections_bytes_push(
    subsections: Seq<CrossReferenceSubsectionView>,
    subsection: CrossReferenceSubsectionView,
)
    ensures
        subsections_bytes(subsections.push(subsection)) == subsections_bytes(subsections)
            + subsection.bytes(),
        subsections_wf(subsections.push(subsection)) == (subsections_wf(subsections)
            && subsection.wf()),
{
    assert(subsections.push(subsection).drop_last() =~= subsections);
}

/// A cross-reference table: `xref` and its subsections.
#[derive(Debug, PartialEq, Eq)]
pub struct CrossReferenceTable {
    /// After `xref`.
    pub ws1: Vec<u8>,
    pub subsections: Vec<CrossReferenceSubsection>,
    /// After the last subsection.
    pub ws2: Vec<u8>,
}

/// The view of `CrossReferenceTable` in contracts: the same fields, with sequences in
/// place of vectors.
pub struct CrossReferenceTableView {
    pub ws1: Seq<u8>,
    pub subsections: Seq<CrossReferenceSubsectionView>,
    pub ws2: Seq<u8>,
}

impl View for CrossReferenceTable {
    type V = CrossReferenceTableView;

    open spec fn view(&self) -> CrossReferenceTableView {
        CrossReferenceTableView {
            ws1: self.ws1@,
            subsections: subsections_view(self.subsections@),
            ws2: self.ws2@,
        }
    }
}

impl CrossReferenceTableView {
    pub open spec fn bytes(self) -> Seq<u8> {
        XREF@ + self.ws1 + subsections_bytes(self.subsections) + self.ws2
    }

    /// A table has at least one subsection, and all are well-formed.
    pub open spec fn wf(self) -> bool {
        self.subsections.len() > 0 && subsections_wf(self.subsections)
    }
}

impl BinSerialize for CrossReferenceTable {
    open spec fn serialized(&self) -> Seq<u8> {
        self@.bytes()
    }

    fn serialize_to(&self, buf: &mut Vec<u8>) {
        write_all(buf, &XREF);
        write_all(buf, self.ws1.as_slice());
        let mut k: usize = 0;
        while k < self.subsections.len()
            invariant
                k <= self.subsections.len(),
                buf@ == old(buf)@ + XREF@ + self.ws1@ + subsections_bytes(
                    subsections_view(self.subsections@.take(k as int)),
                ),
            decreases self.subsections.len() - k,
        {
            self.subsections[k].serialize_to(buf);
            proof {
                let done = self.subsections@.take(k as int);
                assert(self.subsections@.take(k + 1) =~= done.push(self.subsections@[k as int]));
                assert(subsections_view(done.push(self.subsections@[k as int]))
                    =~= subsections_view(done).push(self.subsections@[k as int]@));
                lemma_subsections_bytes_push(subsections_view(done), self.subsections@[k as int]@);
            }
            k += 1;
        }
        write_all(buf, self.ws2.as_slice());
        assert(self.subsections@.take(k as int) =~= self.subsections@);
        assert(buf@ == old(buf)@ + self@.bytes());
    }
}

/// The block that ends a section of a file: `startxref`, the offset of the
/// last cross-reference section, and `%%EOF`.
#[derive(Debug, PartialEq, Eq)]
pub struct StartxrefOffsetEof {
    /// After `startxref`.
    pub ws3: Vec<u8>,
    /// The offset as written; it is not looked into.
    pub last_crossref_offset: Integer,
    /// Between the offset and `%%EOF`.
    pub eol_marker: Vec<u8>,
}

/// The view of `StartxrefOffsetEof` in contracts: the same fields, with sequences in
/// place of vectors.
pub struct StartxrefOffsetEofView {
    pub ws3: Seq<u8>,
    pub last_crossref_offset: IntegerView,
    pub eol_marker: Seq<u8>,
}

impl View for StartxrefOffsetEof {
    type V = StartxrefOffsetEofView;

    open spec fn view(&self) -> StartxrefOffsetEofView {
        StartxrefOffsetEofView {
            ws3: self.ws3@,
            last_crossref_offset: self.last_crossref_offset@,
            eol_marker: self.eol_marker@,
        }
    }
}

impl StartxrefOffsetEofView {
    pub open spec fn bytes(self) -> Seq<u8> {
        STARTXREF@ + self.ws3 + self.last_crossref_offset.bytes() + self.eol_marker + EOF_MARKER@
    }

    /// The offset is well-formed and has no sign.
    pub open spec fn wf(self) -> bool {
        self.last_crossref_offset.wf() && self.last_crossref_offset.sign == Sign::NoSign
    }
}

impl BinSerialize for StartxrefOffsetEof {
    open spec fn serialized(&self) -> Seq<u8> {
        self@.bytes()
    }

    fn serialize_to(&self, buf: &mut Vec<u8>) {
        write_all(buf, &STARTXREF);
        write_all(buf, self.ws3.as_slice());
        self.last_crossref_offset.serialize_to(buf);
        write_all(buf, self.eol_marker.as_slice());
        write_all(buf, &EOF_MARKER);
        assert(buf@ == old(buf)@ + self@.bytes());
    }
}

/// A trailer: `trailer` and its dictionary.
#[derive(Debug, PartialEq, Eq)]
pub struct Trailer {
    /// After `trailer`, before the dictionary.
    pub ws1: Vec<u8>,
    pub dict: DictionaryObject,
    /// After the dictionary, before `startxref`.
    pub ws2: Vec<u8>,
}

/// The view of `Trailer` in contracts: the same fields, with sequences in
/// place of vectors.
pub struct TrailerView {
    pub ws1: Seq<u8>,
    pub dict: DictionaryObjectView,
    pub ws2: Seq<u8>,
}

impl View for Trailer {
    type V = TrailerView;

    open spec fn view(&self) -> TrailerView {
        TrailerView { ws1: self.ws1@, dict: self.dict@, ws2: self.ws2@ }
    }
}

impl TrailerView {
    pub open spec fn bytes(self) -> Seq<u8> {
        TRAILER@ + self.ws1 + self.dict.bytes() + self.ws2
    }

    pub open spec fn wf(self) -> bool {
        self.dict.wf()
    }
}

impl BinSerialize for Trailer {
    open spec fn serialized(&self) -> Seq<u8> {
        self@.bytes()
    }

    fn serialize_to(&self, buf: &mut Vec<u8>) {
        write_all(buf, &TRAILER);
        write_all(buf, self.ws1.as_slice());
        self.dict.serialize_to(buf);
        write_all(buf, self.ws2.as_slice());
        assert(buf@ == old(buf)@ + self@.bytes());
    }
}

/// A cross-reference table and the trailer that follows it.
#[derive(Debug, PartialEq, Eq)]
pub struct CrossReferenceTableAndTrailer {
    pub cross_reference_table: CrossReferenceTable,
    pub trailer: Trailer,
}

/// The view of `CrossReferenceTableAndTrailer` in contracts: the same fields, with sequences in
/// place of vectors.
pub struct CrossReferenceTableAndTrailerView {
    pub cross_reference_table: CrossReferenceTableView,
    pub trailer: TrailerView,
}

impl View for CrossReferenceTableAndTrailer {
    type V = CrossReferenceTableAndTrailerView;

    open spec fn view(&self) -> CrossReferenceTableAndTrailerView {
        CrossReferenceTableAndTrailerView {
            cross_reference_table: self.cross_reference_table@,
            trailer: self.trailer@,
        }
    }
}

impl CrossReferenceTableAndTrailerView {
    pub open spec fn bytes(self) -> Seq<u8> {
        self.cross_reference_table.bytes() + self.trailer.bytes()
    }

    pub open spec fn wf(self) -> bool {
        self.cross_reference_table.wf() && self.trailer.wf()
    }
}

impl BinSerialize for CrossReferenceTableAndTrailer {
    open spec fn serialized(&self) -> Seq<u8> {
        self@.bytes()
    }

    fn serialize_to(&self, buf: &mut Vec<u8>) {
        self.cross_reference_table.serialize_to(buf);
        self.trailer.serialize_to(buf);
        assert(buf@ == old(buf)@ + self@.bytes());
    }
}

/// One section of a file: a body, a cross-reference table with its trailer
/// if there is one, and the `startxref` block. A file that was updated holds
/// one section for each update.
#[derive(Debug, PartialEq, Eq)]
pub struct BodyCrossrefTrailer {
    pub body: Vec<BodyPart>,
    pub cross_reference_table_and_trailer: Option<CrossReferenceTableAndTrailer>,
    pub startxref_offset_eof: StartxrefOffsetEof,
}

/// The view of `BodyCrossrefTrailer` in contracts: the same fields, with sequences in
/// place of vectors.
pub struct BodyCrossrefTrailerView {
    pub body: Seq<BodyPartView>,
    pub cross_reference_table_and_trailer: Option<CrossReferenceTableAndTrailerView>,
    pub startxref_offset_eof: StartxrefOffsetEofView,
}

/// The view of a table and trailer that may be absent.
pub open spec fn table_and_trailer_view(t: Option<CrossReferenceTableAndTrailer>) -> Option<
    CrossReferenceTableAndTrailerView,
> {
    match t {
        Some(x) => Some(x@),
        None => None,
    }
}

/// The bytes of a table and trailer that may be absent.
pub open spec fn table_and_trailer_bytes(t: Option<CrossReferenceTableAndTrailerView>) -> Seq<u8> {
    match t {
        Some(x) => x.bytes(),
        None => Seq::empty(),
    }
}

impl View for BodyCrossrefTrailer {
    type V = BodyCrossrefTrailerView;

    open spec fn view(&self) -> BodyCrossrefTrailerView {
        BodyCrossrefTrailerView {
            body: body_view(self.body@),
            cross_reference_table_and_trailer: table_and_trailer_view(
                self.cross_reference_table_and_trailer,
            ),
            startxref_offset_eof: self.startxref_offset_eof@,
        }
    }
}

impl BodyCrossrefTrailerView {
    pub open spec fn bytes(self) -> Seq<u8> {
        body_bytes(self.body) + table_and_trailer_bytes(self.cross_reference_table_and_trailer)
            + self.startxref_offset_eof.bytes()
    }

    /// The body, the table and trailer if there are any, and the `startxref`
    /// block are well-formed.
    pub open spec fn wf(self) -> bool {
        &&& body_wf(self.body)
        &&& match self.cross_reference_table_and_trailer {
            Some(t) => t.wf(),
            None => true,
        }
        &&& self.startxref_offset_eof.wf()
    }
}

impl BinSerialize for BodyCrossrefTrailer {
    open spec fn serialized(&self) -> Seq<u8> {
        self@.bytes()
    }

    fn serialize_to(&self, buf: &mut Vec<u8>) {
        let mut k: usize = 0;
        assert(body_bytes(body_view(self.body@.take(0))) =~= Seq::<u8>::empty());
        while k < self.body.len()
            invariant
                k <= self.body.len(),
                buf@ == old(buf)@ + body_bytes(body_view(self.body@.take(k as int))),
            decreases self.body.len() - k,
        {
            self.body[k].serialize_to(buf);
            proof {
                let done = self.body@.take(k as int);
                assert(self.body@.take(k + 1) =~= done.push(self.body@[k as int]));
                assert(body_view(done.push(self.body@[k as int])) =~= body_view(done).push(
                    self.body@[k as int]@,
                ));
                lemma_body_bytes_push(body_view(done), self.body@[k as int]@);
            }
            k += 1;
        }
        assert(self.body@.take(k as int) =~= self.body@);
        match &self.cross_reference_table_and_trailer {
            Some(t) => {
                t.serialize_to(buf);
            },
            None => {},
        }
        assert(buf@ == old(buf)@ + body_bytes(self@.body) + table_and_trailer_bytes(
            self@.cross_reference_table_and_trailer,
        ));
        self.startxref_offset_eof.serialize_to(buf);
        assert(buf@ == old(buf)@ + self@.bytes());
    }
}

/// The views of a run of sections.
pub open spec fn sections_view(sections: Seq<BodyCrossrefTrailer>) -> Seq<BodyCrossrefTrailerView> {
    sections.map_values(|x: BodyCrossrefTrailer| x@)
}

/// The bytes of a run of sections, one after the other.
pub open spec fn sections_bytes(sections: Seq<BodyCrossrefTrailerView>) -> Seq<u8>
    decreases sections.len(),
{
    if sections.len() == 0 {
        Seq::empty()
    } else {
        sections_bytes(sections.drop_last()) + sections.last().bytes()
    }
}

/// Whether every section of a run is well-formed.
pub open spec fn sections_wf(sections: Seq<BodyCrossrefTrailerView>) -> bool
    decreases sections.len(),
{
    sections.len() == 0 || (sections_wf(sections.drop_last()) && sections.last().wf())
}

/// A section more adds its bytes, and the run stays well-formed just when
/// the section is.
pub proof fn lemma_sections_bytes_push(
    sections: Seq<BodyCrossrefTrailerView>,
    section: BodyCrossrefTrailerView,
)
    ensures
        sections_bytes(sections.push(section)) == sections_bytes(sections) + section.bytes(),
        sections_wf(sections.push(section)) == (sections_wf(sections) && section.wf()),
{
    assert(sections.push(section).drop_last() =~= sections);
}

/// A whole file: what stands before the first section, the sections, and
/// what follows the last `%%EOF`.
#[derive(Debug, PartialEq, Eq)]
pub struct PdfFile {
    pub header: Vec<u8>,
    pub body_crossref_trailers: Vec<BodyCrossrefTrailer>,
    pub post_eof: Vec<u8>,
}

/// The view of `PdfFile` in contracts: the same fields, with sequences in
/// place of vectors.
pub struct PdfFileView {
    pub header: Seq<u8>,
    pub body_crossref_trailers: Seq<BodyCrossrefTrailerView>,
    pub post_eof: Seq<u8>,
}

impl View for PdfFile {
    type V = PdfFileView;

    open spec fn view(&self) -> PdfFileView {
        PdfFileView {
            header: self.header@,
            body_crossref_trailers: sections_view(self.body_crossref_trailers@),
            post_eof: self.post_eof@,
        }
    }
}

impl PdfFileView {
    pub open spec fn bytes(self) -> Seq<u8> {
        self.header + sections_bytes(self.body_crossref_trailers) + self.post_eof
    }

    /// A file has at least one section, all its sections are well-formed,
    /// and no `%%EOF` stands after the last.
    pub open spec fn wf(self) -> bool {
        &&& self.body_crossref_trailers.len() > 0
        &&& sections_wf(self.body_crossref_trailers)
        &&& !occurs_in(EOF_MARKER@, self.post_eof)
    }
}

impl BinSerialize for PdfFile {
    open spec fn serialized(&self) -> Seq<u8> {
        self@.bytes()
    }

    fn serialize_to(&self, buf: &mut Vec<u8>) {
        write_all(buf, self.header.as_slice());
        let mut k: usize = 0;
        while k < self.body_crossref_trailers.len()
            invariant
                k <= self.body_crossref_trailers.len(),
                buf@ == old(buf)@ + self.header@ + sections_bytes(
                    sections_view(self.body_crossref_trailers@.take(k as int)),
                ),
            decreases self.body_crossref_trailers.len() - k,
        {
            self.body_crossref_trailers[k].serialize_to(buf);
            proof {
                let done = self.body_crossref_trailers@.take(k as int);
                let next = self.body_crossref_trailers@[k as int];
                assert(self.body_crossref_trailers@.take(k + 1) =~= done.push(next));
                assert(sections_view(done.push(next)) =~= sections_view(done).push(next@));
                lemma_sections_bytes_push(sections_view(done), next@);
            }
            k += 1;
        }
        assert(self.body_crossref_trailers@.take(k as int) =~= self.body_crossref_trailers@);
        write_all(buf, self.post_eof.as_slice());
        assert(buf@ == old(buf)@ + self@.bytes());
    }
}

} // verus!
