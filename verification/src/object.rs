//! The object tree: arrays, dictionaries, streams, indirect references, and
//! the sum of all object kinds.

use vstd::prelude::*;
use crate::boolean::BooleanObject;
use crate::lexical::occurs_in;
use crate::name::NameObject;
use crate::name::NameObjectView;
use crate::numeric::Integer;
use crate::numeric::IntegerView;
use crate::numeric::NumericObject;
use crate::numeric::NumericObjectView;
use crate::numeric::Sign;
use crate::serialize::write_all;
use crate::serialize::BinSerialize;
use crate::strings::StringObject;
use crate::strings::StringObjectView;

verus! {

pub const NULL: [u8; 4] = [0x6E, 0x75, 0x6C, 0x6C];

pub const STREAM: [u8; 6] = [0x73, 0x74, 0x72, 0x65, 0x61, 0x6D];

pub const ENDSTREAM: [u8; 9] = [0x65, 0x6E, 0x64, 0x73, 0x74, 0x72, 0x65, 0x61, 0x6D];

pub const DICTIONARY_OPEN: [u8; 2] = [0x3C, 0x3C];

pub const DICTIONARY_CLOSE: [u8; 2] = [0x3E, 0x3E];

pub const CRLF: [u8; 2] = [0x0D, 0x0A];

pub const LEFT_BRACKET: u8 = 0x5B;

pub const RIGHT_BRACKET: u8 = 0x5D;

pub const LETTER_R: u8 = 0x52;

/// A reference to an indirect object: object number, generation number and
/// `R`, with the whitespace between them.
#[derive(Debug, PartialEq, Eq)]
pub struct IndirectObjectReference {
    pub object_number: Integer,
    pub ws1: Vec<u8>,
    pub generation_number: Integer,
    pub ws2: Vec<u8>,
}

/// The view of `IndirectObjectReference` in contracts: the same fields, with sequences in
/// place of vectors.
pub struct IndirectObjectReferenceView {
    pub object_number: IntegerView,
    pub ws1: Seq<u8>,
    pub generation_number: IntegerView,
    pub ws2: Seq<u8>,
}

impl View for IndirectObjectReference {
    type V = IndirectObjectReferenceView;

    open spec fn view(&self) -> IndirectObjectReferenceView {
        IndirectObjectReferenceView {
            object_number: self.object_number@,
            ws1: self.ws1@,
            generation_number: self.generation_number@,
            ws2: self.ws2@,
        }
    }
}

impl IndirectObjectReferenceView {
    pub open spec fn bytes(self) -> Seq<u8> {
        self.object_number.bytes() + self.ws1 + self.generation_number.bytes() + self.ws2
            + seq![LETTER_R]
    }

    /// Both numbers are well-formed, and the generation number has no sign.
    pub open spec fn wf(self) -> bool {
        &&& self.object_number.wf()
        &&& self.generation_number.wf()
        &&& self.generation_number.sign == Sign::NoSign
    }
}

impl IndirectObjectReference {
    /// Whether the object number was written with a sign. Such a reference is
    /// read, as files with `-1 0 R` exist, but it does not conform.
    pub fn has_signed_object_number(&self) -> (b: bool)
        ensures
            b == (self@.object_number.sign != Sign::NoSign),
    {
        match self.object_number.sign {
            Sign::NoSign => false,
            _ => true,
        }
    }
}

/// The line end that follows the keyword `stream`.
#[derive(Clone, Copy, Debug, PartialEq, Eq, Structural)]
pub enum EolMarker {
    CRLF,
    LF,
}

impl View for EolMarker {
    type V = EolMarker;

    open spec fn view(&self) -> EolMarker {
        *self
    }
}

impl EolMarker {
    pub open spec fn bytes(self) -> Seq<u8> {
        match self {
            EolMarker::CRLF => CRLF@,
            EolMarker::LF => seq![0x0Au8],
        }
    }
}

/// An element of an array, or the whitespace and comments between two.
#[derive(Debug, PartialEq, Eq)]
pub enum ArrayObjectPart {
    ObjectOrRef(ObjectOrReference),
    Whitespace(Vec<u8>),
}

/// An array: what stands between `[` and `]`.
#[derive(Debug, PartialEq, Eq)]
pub struct ArrayObject {
    pub parts: Vec<ArrayObjectPart>,
}

/// A key and its value, with the whitespace and comments between them.
#[derive(Debug, PartialEq, Eq)]
pub struct KeyValuePair {
    pub key: NameObject,
    pub ws: Vec<u8>,
    pub value: ObjectOrReference,
}

/// An entry of a dictionary, or the whitespace and comments between two.
#[derive(Debug, PartialEq, Eq)]
pub enum DictionaryPart {
    Whitespace(Vec<u8>),
    KeyValuePair(KeyValuePair),
}

/// A dictionary: what stands between `<<` and `>>`, in the order written.
#[derive(Debug, PartialEq, Eq)]
pub struct DictionaryObject {
    pub parts: Vec<DictionaryPart>,
}

/// A stream: its dictionary, the keyword `stream`, and the bytes up to the
/// keyword `endstream`.
#[derive(Debug, PartialEq, Eq)]
pub struct StreamObject {
    pub dict: DictionaryObject,
    /// What stands between the dictionary and the keyword `stream`.
    pub ws_and_comments: Vec<u8>,
    pub eol_after_stream_begin: EolMarker,
    pub content: Vec<u8>,
}

/// What follows the dictionary of a stream, up to and including
/// `endstream`.
#[derive(Debug, PartialEq, Eq)]
pub struct RestOfStreamObject {
    pub ws_and_comments: Vec<u8>,
    pub eol_after_stream_begin: EolMarker,
    pub content: Vec<u8>,
}

/// The view of `RestOfStreamObject` in contracts: the same fields, with sequences in
/// place of vectors.
pub struct RestOfStreamObjectView {
    pub ws_and_comments: Seq<u8>,
    pub eol_after_stream_begin: EolMarker,
    pub content: Seq<u8>,
}

impl View for RestOfStreamObject {
    type V = RestOfStreamObjectView;

    open spec fn view(&self) -> RestOfStreamObjectView {
        RestOfStreamObjectView {
            ws_and_comments: self.ws_and_comments@,
            eol_after_stream_begin: self.eol_after_stream_begin,
            content: self.content@,
        }
    }
}

impl RestOfStreamObjectView {
    pub open spec fn bytes(self) -> Seq<u8> {
        self.ws_and_comments + STREAM@ + self.eol_after_stream_begin.bytes() + self.content
            + ENDSTREAM@
    }

    /// The content does not hold `endstream`.
    pub open spec fn wf(self) -> bool {
        !occurs_in(ENDSTREAM@, self.content)
    }
}

/// Any object.
#[derive(Debug, PartialEq, Eq)]
pub enum Object {
    Boolean(BooleanObject),
    Numeric(NumericObject),
    String(StringObject),
    Name(NameObject),
    Array(ArrayObject),
    Dictionary(DictionaryObject),
    Stream(StreamObject),
    Null,
}

/// An object, or a reference to one.
#[derive(Debug, PartialEq, Eq)]
pub enum ObjectOrReference {
    Object(Object),
    Reference(IndirectObjectReference),
}

/// The view of `ArrayObjectPart` in contracts: the same variants, with sequences in
/// place of vectors.
pub enum ArrayObjectPartView {
    ObjectOrRef(ObjectOrReferenceView),
    Whitespace(Seq<u8>),
}

/// The view of `ArrayObject` in contracts: the same fields, with sequences in
/// place of vectors.
pub struct ArrayObjectView {
    pub parts: Seq<ArrayObjectPartView>,
}

/// The view of `KeyValuePair` in contracts: the same fields, with sequences in
/// place of vectors.
pub struct KeyValuePairView {
    pub key: NameObjectView,
    pub ws: Seq<u8>,
    pub value: ObjectOrReferenceView,
}

/// The view of `DictionaryPart` in contracts: the same variants, with sequences in
/// place of vectors.
pub enum DictionaryPartView {
    Whitespace(Seq<u8>),
    KeyValuePair(KeyValuePairView),
}

/// The view of `DictionaryObject` in contracts: the same fields, with sequences in
/// place of vectors.
pub struct DictionaryObjectView {
    pub parts: Seq<DictionaryPartView>,
}

/// The view of `StreamObject` in contracts: the same fields, with sequences in
/// place of vectors.
pub struct StreamObjectView {
    pub dict: DictionaryObjectView,
    pub ws_and_comments: Seq<u8>,
    pub eol_after_stream_begin: EolMarker,
    pub content: Seq<u8>,
}

/// The view of `Object` in contracts: the same variants, with sequences in
/// place of vectors.
pub enum ObjectView {
    Boolean(BooleanObject),
    Numeric(NumericObjectView),
    String(StringObjectView),
    Name(NameObjectView),
    Array(ArrayObjectView),
    Dictionary(DictionaryObjectView),
    Stream(StreamObjectView),
    Null,
}

/// The view of `ObjectOrReference` in contracts: the same variants, with sequences in
/// place of vectors.
pub enum ObjectOrReferenceView {
    Object(ObjectView),
    Reference(IndirectObjectReferenceView),
}

pub open spec fn object_view(o: Object) -> ObjectView
    decreases o,
{
    match o {
        Object::Boolean(b) => ObjectView::Boolean(b),
        Object::Numeric(n) => ObjectView::Numeric(n@),
        Object::String(s) => ObjectView::String(s@),
        Object::Name(n) => ObjectView::Name(n@),
        Object::Array(a) => ObjectView::Array(array_view(a)),
        Object::Dictionary(d) => ObjectView::Dictionary(dictionary_view(d)),
        Object::Stream(s) => ObjectView::Stream(
            StreamObjectView {
                dict: dictionary_view(s.dict),
                ws_and_comments: s.ws_and_comments@,
                eol_after_stream_begin: s.eol_after_stream_begin,
                content: s.content@,
            },
        ),
        Object::Null => ObjectView::Null,
    }
}

pub open spec fn object_or_ref_view(o: ObjectOrReference) -> ObjectOrReferenceView
    decreases o,
{
    match o {
        ObjectOrReference::Object(x) => ObjectOrReferenceView::Object(object_view(x)),
        ObjectOrReference::Reference(r) => ObjectOrReferenceView::Reference(r@),
    }
}

pub open spec fn array_view(a: ArrayObject) -> ArrayObjectView
    decreases a,
{
    ArrayObjectView { parts: array_parts_view(a.parts@) }
}

pub open spec fn array_parts_view(parts: Seq<ArrayObjectPart>) -> Seq<ArrayObjectPartView>
    decreases parts,
{
    if parts.len() == 0 {
        Seq::empty()
    } else {
        array_parts_view(parts.drop_last()).push(array_part_view(parts.last()))
    }
}

pub open spec fn array_part_view(p: ArrayObjectPart) -> ArrayObjectPartView
    decreases p,
{
    match p {
        ArrayObjectPart::ObjectOrRef(o) => ArrayObjectPartView::ObjectOrRef(object_or_ref_view(o)),
        ArrayObjectPart::Whitespace(w) => ArrayObjectPartView::Whitespace(w@),
    }
}

pub open spec fn dictionary_view(d: DictionaryObject) -> DictionaryObjectView
    decreases d,
{
    DictionaryObjectView { parts: dictionary_parts_view(d.parts@) }
}

pub open spec fn dictionary_parts_view(parts: Seq<DictionaryPart>) -> Seq<DictionaryPartView>
    decreases parts,
{
    if parts.len() == 0 {
        Seq::empty()
    } else {
        dictionary_parts_view(parts.drop_last()).push(dictionary_part_view(parts.last()))
    }
}

pub open spec fn dictionary_part_view(p: DictionaryPart) -> DictionaryPartView
    decreases p,
{
    match p {
        DictionaryPart::Whitespace(w) => DictionaryPartView::Whitespace(w@),
        DictionaryPart::KeyValuePair(kv) => DictionaryPartView::KeyValuePair(
            KeyValuePairView { key: kv.key@, ws: kv.ws@, value: object_or_ref_view(kv.value) },
        ),
    }
}

impl View for Object {
    type V = ObjectView;

    open spec fn view(&self) -> ObjectView {
        object_view(*self)
    }
}

impl View for ObjectOrReference {
    type V = ObjectOrReferenceView;

    open spec fn view(&self) -> ObjectOrReferenceView {
        object_or_ref_view(*self)
    }
}

impl View for ArrayObjectPart {
    type V = ArrayObjectPartView;

    open spec fn view(&self) -> ArrayObjectPartView {
        array_part_view(*self)
    }
}

impl View for ArrayObject {
    type V = ArrayObjectView;

    open spec fn view(&self) -> ArrayObjectView {
        array_view(*self)
    }
}

impl View for KeyValuePair {
    type V = KeyValuePairView;

    open spec fn view(&self) -> KeyValuePairView {
        KeyValuePairView { key: self.key@, ws: self.ws@, value: self.value@ }
    }
}

impl View for DictionaryPart {
    type V = DictionaryPartView;

    open spec fn view(&self) -> DictionaryPartView {
        dictionary_part_view(*self)
    }
}

impl View for DictionaryObject {
    type V = DictionaryObjectView;

    open spec fn view(&self) -> DictionaryObjectView {
        dictionary_view(*self)
    }
}

impl View for StreamObject {
    type V = StreamObjectView;

    open spec fn view(&self) -> StreamObjectView {
        StreamObjectView {
            dict: self.dict@,
            ws_and_comments: self.ws_and_comments@,
            eol_after_stream_begin: self.eol_after_stream_begin,
            content: self.content@,
        }
    }
}

/// The bytes of an object.
pub open spec fn object_bytes(o: ObjectView) -> Seq<u8>
    decreases o,
{
    match o {
        ObjectView::Boolean(b) => b.bytes(),
        ObjectView::Numeric(n) => n.bytes(),
        ObjectView::String(s) => s.bytes(),
        ObjectView::Name(n) => n.bytes(),
        ObjectView::Array(a) => array_bytes(a),
        ObjectView::Dictionary(d) => dictionary_bytes(d),
        ObjectView::Stream(s) => dictionary_bytes(s.dict) + s.ws_and_comments + STREAM@
            + s.eol_after_stream_begin.bytes() + s.content + ENDSTREAM@,
        ObjectView::Null => NULL@,
    }
}

pub open spec fn object_or_ref_bytes(o: ObjectOrReferenceView) -> Seq<u8>
    decreases o,
{
    match o {
        ObjectOrReferenceView::Object(x) => object_bytes(x),
        ObjectOrReferenceView::Reference(r) => r.bytes(),
    }
}

pub open spec fn array_bytes(a: ArrayObjectView) -> Seq<u8>
    decreases a,
{
    seq![LEFT_BRACKET] + array_parts_bytes(a.parts) + seq![RIGHT_BRACKET]
}

/// The bytes of a run of array parts, one after the other.
pub open spec fn array_parts_bytes(parts: Seq<ArrayObjectPartView>) -> Seq<u8>
    decreases parts,
{
    if parts.len() == 0 {
        Seq::empty()
    } else {
        array_parts_bytes(parts.drop_last()) + array_part_bytes(parts.last())
    }
}

pub open spec fn array_part_bytes(p: ArrayObjectPartView) -> Seq<u8>
    decreases p,
{
    match p {
        ArrayObjectPartView::ObjectOrRef(o) => object_or_ref_bytes(o),
        ArrayObjectPartView::Whitespace(w) => w,
    }
}

pub open spec fn dictionary_bytes(d: DictionaryObjectView) -> Seq<u8>
    decreases d,
{
    DICTIONARY_OPEN@ + dictionary_parts_bytes(d.parts) + DICTIONARY_CLOSE@
}

/// The bytes of a run of dictionary parts, one after the other.
pub open spec fn dictionary_parts_bytes(parts: Seq<DictionaryPartView>) -> Seq<u8>
    decreases parts,
{
    if parts.len() == 0 {
        Seq::empty()
    } else {
        dictionary_parts_bytes(parts.drop_last()) + dictionary_part_bytes(parts.last())
    }
}

pub open spec fn dictionary_part_bytes(p: DictionaryPartView) -> Seq<u8>
    decreases p,
{
    match p {
        DictionaryPartView::Whitespace(w) => w,
        DictionaryPartView::KeyValuePair(kv) => kv.key.bytes() + kv.ws + object_or_ref_bytes(
            kv.value,
        ),
    }
}

/// Whether an object is well-formed, through all that it holds: numbers
/// consist of digits, names of regular characters, hexadecimal strings of
/// hexadecimal digits and whitespace; the regular parts of a literal string
/// have balanced parentheses; the content of a stream does not hold
/// `endstream`; no part that stands for whitespace is empty.
pub open spec fn object_wf(o: ObjectView) -> bool
    decreases o,
{
    match o {
        ObjectView::Boolean(_) => true,
        ObjectView::Numeric(n) => n.wf(),
        ObjectView::String(s) => s.wf(),
        ObjectView::Name(n) => n.wf(),
        ObjectView::Array(a) => array_parts_wf(a.parts),
        ObjectView::Dictionary(d) => dictionary_parts_wf(d.parts),
        ObjectView::Stream(s) => dictionary_parts_wf(s.dict.parts) && !occurs_in(
            ENDSTREAM@,
            s.content,
        ),
        ObjectView::Null => true,
    }
}

pub open spec fn object_or_ref_wf(o: ObjectOrReferenceView) -> bool
    decreases o,
{
    match o {
        ObjectOrReferenceView::Object(x) => object_wf(x),
        ObjectOrReferenceView::Reference(r) => r.wf(),
    }
}

pub open spec fn array_parts_wf(parts: Seq<ArrayObjectPartView>) -> bool
    decreases parts,
{
    parts.len() == 0 || (array_parts_wf(parts.drop_last()) && array_part_wf(parts.last()))
}

pub open spec fn array_part_wf(p: ArrayObjectPartView) -> bool
    decreases p,
{
    match p {
        ArrayObjectPartView::ObjectOrRef(o) => object_or_ref_wf(o),
        ArrayObjectPartView::Whitespace(w) => w.len() > 0,
    }
}

pub open spec fn dictionary_parts_wf(parts: Seq<DictionaryPartView>) -> bool
    decreases parts,
{
    parts.len() == 0 || (dictionary_parts_wf(parts.drop_last()) && dictionary_part_wf(
        parts.last(),
    ))
}

pub open spec fn dictionary_part_wf(p: DictionaryPartView) -> bool
    decreases p,
{
    match p {
        DictionaryPartView::Whitespace(w) => w.len() > 0,
        DictionaryPartView::KeyValuePair(kv) => kv.key.wf() && object_or_ref_wf(kv.value),
    }
}

/// A run of array parts with a part more is well-formed just when both
/// are.
pub proof fn lemma_array_parts_wf_push(parts: Seq<ArrayObjectPartView>, part: ArrayObjectPartView)
    ensures
        array_parts_wf(parts.push(part)) == (array_parts_wf(parts) && part.wf()),
{
    assert(parts.push(part).drop_last() =~= parts);
}

/// A run of dictionary parts with a part more is well-formed just when both
/// are.
pub proof fn lemma_dictionary_parts_wf_push(
    parts: Seq<DictionaryPartView>,
    part: DictionaryPartView,
)
    ensures
        dictionary_parts_wf(parts.push(part)) == (dictionary_parts_wf(parts) && part.wf()),
{
    assert(parts.push(part).drop_last() =~= parts);
}

impl ObjectView {
    pub open spec fn bytes(self) -> Seq<u8> {
        object_bytes(self)
    }

    pub open spec fn wf(self) -> bool {
        object_wf(self)
    }
}

impl ObjectOrReferenceView {
    pub open spec fn bytes(self) -> Seq<u8> {
        object_or_ref_bytes(self)
    }

    pub open spec fn wf(self) -> bool {
        object_or_ref_wf(self)
    }
}

impl ArrayObjectPartView {
    pub open spec fn bytes(self) -> Seq<u8> {
        array_part_bytes(self)
    }

    pub open spec fn wf(self) -> bool {
        array_part_wf(self)
    }
}

impl ArrayObjectView {
    pub open spec fn bytes(self) -> Seq<u8> {
        array_bytes(self)
    }

    pub open spec fn wf(self) -> bool {
        array_parts_wf(self.parts)
    }
}

impl KeyValuePairView {
    pub open spec fn bytes(self) -> Seq<u8> {
        self.key.bytes() + self.ws + self.value.bytes()
    }

    pub open spec fn wf(self) -> bool {
        self.key.wf() && self.value.wf()
    }
}

impl DictionaryPartView {
    pub open spec fn bytes(self) -> Seq<u8> {
        dictionary_part_bytes(self)
    }

    pub open spec fn wf(self) -> bool {
        dictionary_part_wf(self)
    }
}

impl DictionaryObjectView {
    pub open spec fn bytes(self) -> Seq<u8> {
        dictionary_bytes(self)
    }

    pub open spec fn wf(self) -> bool {
        dictionary_parts_wf(self.parts)
    }
}

impl StreamObjectView {
    pub open spec fn bytes(self) -> Seq<u8> {
        self.dict.bytes() + self.ws_and_comments + STREAM@ + self.eol_after_stream_begin.bytes()
            + self.content + ENDSTREAM@
    }

    /// The dictionary is well-formed, and the content does not hold
    /// `endstream`.
    pub open spec fn wf(self) -> bool {
        self.dict.wf() && !occurs_in(ENDSTREAM@, self.content)
    }
}

} // verus!

verus! {

/// The views of a run of array parts with a part more.
pub proof fn lemma_array_parts_view_push(parts: Seq<ArrayObjectPart>, part: ArrayObjectPart)
    ensures
        array_parts_view(parts.push(part)) == array_parts_view(parts).push(part@),
{
    assert(parts.push(part).drop_last() =~= parts);
}

/// An array part more adds its bytes.
pub proof fn lemma_array_parts_bytes_push(
    parts: Seq<ArrayObjectPartView>,
    part: ArrayObjectPartView,
)
    ensures
        array_parts_bytes(parts.push(part)) == array_parts_bytes(parts) + part.bytes(),
{
    assert(parts.push(part).drop_last() =~= parts);
}

/// The views of a run of dictionary parts with a part more.
pub proof fn lemma_dictionary_parts_view_push(parts: Seq<DictionaryPart>, part: DictionaryPart)
    ensures
        dictionary_parts_view(parts.push(part)) == dictionary_parts_view(parts).push(part@),
{
    assert(parts.push(part).drop_last() =~= parts);
}

/// A dictionary part more adds its bytes.
pub proof fn lemma_dictionary_parts_bytes_push(
    parts: Seq<DictionaryPartView>,
    part: DictionaryPartView,
)
    ensures
        dictionary_parts_bytes(parts.push(part)) == dictionary_parts_bytes(parts) + part.bytes(),
{
    assert(parts.push(part).drop_last() =~= parts);
}

impl BinSerialize for IndirectObjectReference {
    open spec fn serialized(&self) -> Seq<u8> {
        self@.bytes()
    }

    fn serialize_to(&self, buf: &mut Vec<u8>) {
        self.object_number.serialize_to(buf);
        write_all(buf, self.ws1.as_slice());
        self.generation_number.serialize_to(buf);
        write_all(buf, self.ws2.as_slice());
        buf.push(LETTER_R);
        assert(buf@ == old(buf)@ + self@.bytes());
    }
}

impl BinSerialize for EolMarker {
    open spec fn serialized(&self) -> Seq<u8> {
        self.bytes()
    }

    fn serialize_to(&self, buf: &mut Vec<u8>) {
        match self {
            EolMarker::CRLF => write_all(buf, &CRLF),
            EolMarker::LF => {
                buf.push(0x0A);
                assert(buf@ == old(buf)@ + seq![0x0Au8]);
            },
        }
    }
}

impl BinSerialize for Object {
    open spec fn serialized(&self) -> Seq<u8> {
        self@.bytes()
    }

    fn serialize_to(&self, buf: &mut Vec<u8>)
        decreases self,
    {
        match self {
            Object::Boolean(b) => b.serialize_to(buf),
            Object::Numeric(n) => n.serialize_to(buf),
            Object::String(s) => s.serialize_to(buf),
            Object::Name(name) => name.serialize_to(buf),
            Object::Array(arr) => arr.serialize_to(buf),
            Object::Dictionary(dict) => dict.serialize_to(buf),
            Object::Stream(stream) => stream.serialize_to(buf),
            Object::Null => write_all(buf, &NULL),
        }
    }
}

impl BinSerialize for ObjectOrReference {
    open spec fn serialized(&self) -> Seq<u8> {
        self@.bytes()
    }

    fn serialize_to(&self, buf: &mut Vec<u8>)
        decreases self,
    {
        match self {
            ObjectOrReference::Object(o) => o.serialize_to(buf),
            ObjectOrReference::Reference(r) => r.serialize_to(buf),
        }
    }
}

impl BinSerialize for ArrayObjectPart {
    open spec fn serialized(&self) -> Seq<u8> {
        self@.bytes()
    }

    fn serialize_to(&self, buf: &mut Vec<u8>)
        decreases self,
    {
        match self {
            ArrayObjectPart::ObjectOrRef(o) => o.serialize_to(buf),
            ArrayObjectPart::Whitespace(w) => write_all(buf, w.as_slice()),
        }
    }
}

impl BinSerialize for ArrayObject {
    open spec fn serialized(&self) -> Seq<u8> {
        self@.bytes()
    }

    fn serialize_to(&self, buf: &mut Vec<u8>)
        decreases self,
    {
        buf.push(LEFT_BRACKET);
        let mut k: usize = 0;
        while k < self.parts.len()
            invariant
                k <= self.parts.len(),
                buf@ == old(buf)@ + seq![LEFT_BRACKET] + array_parts_bytes(
                    array_parts_view(self.parts@.take(k as int)),
                ),
            decreases self.parts.len() - k,
        {
            self.parts[k].serialize_to(buf);
            proof {
                let done = self.parts@.take(k as int);
                assert(self.parts@.take(k + 1) =~= done.push(self.parts@[k as int]));
                lemma_array_parts_view_push(done, self.parts@[k as int]);
                lemma_array_parts_bytes_push(array_parts_view(done), self.parts@[k as int]@);
            }
            k += 1;
        }
        buf.push(RIGHT_BRACKET);
        assert(self.parts@.take(k as int) =~= self.parts@);
        assert(buf@ == old(buf)@ + self@.bytes());
    }
}

impl BinSerialize for KeyValuePair {
    open spec fn serialized(&self) -> Seq<u8> {
        self@.bytes()
    }

    fn serialize_to(&self, buf: &mut Vec<u8>)
        decreases self,
    {
        self.key.serialize_to(buf);
        write_all(buf, self.ws.as_slice());
        self.value.serialize_to(buf);
        assert(buf@ == old(buf)@ + self@.bytes());
    }
}

impl BinSerialize for DictionaryPart {
    open spec fn serialized(&self) -> Seq<u8> {
        self@.bytes()
    }

    fn serialize_to(&self, buf: &mut Vec<u8>)
        decreases self,
    {
        match self {
            DictionaryPart::Whitespace(w) => write_all(buf, w.as_slice()),
            DictionaryPart::KeyValuePair(kv) => kv.serialize_to(buf),
        }
    }
}

impl BinSerialize for DictionaryObject {
    open spec fn serialized(&self) -> Seq<u8> {
        self@.bytes()
    }

    fn serialize_to(&self, buf: &mut Vec<u8>)
        decreases self,
    {
        write_all(buf, &DICTIONARY_OPEN);
        let mut k: usize = 0;
        while k < self.parts.len()
            invariant
                k <= self.parts.len(),
                buf@ == old(buf)@ + DICTIONARY_OPEN@ + dictionary_parts_bytes(
                    dictionary_parts_view(self.parts@.take(k as int)),
                ),
            decreases self.parts.len() - k,
        {
            self.parts[k].serialize_to(buf);
            proof {
                let done = self.parts@.take(k as int);
                assert(self.parts@.take(k + 1) =~= done.push(self.parts@[k as int]));
                lemma_dictionary_parts_view_push(done, self.parts@[k as int]);
                lemma_dictionary_parts_bytes_push(
                    dictionary_parts_view(done),
                    self.parts@[k as int]@,
                );
            }
            k += 1;
        }
        write_all(buf, &DICTIONARY_CLOSE);
        assert(self.parts@.take(k as int) =~= self.parts@);
        assert(buf@ == old(buf)@ + self@.bytes());
    }
}

impl BinSerialize for StreamObject {
    open spec fn serialized(&self) -> Seq<u8> {
        self@.bytes()
    }

    fn serialize_to(&self, buf: &mut Vec<u8>)
        decreases self,
    {
        self.dict.serialize_to(buf);
        write_all(buf, self.ws_and_comments.as_slice());
        write_all(buf, &STREAM);
        self.eol_after_stream_begin.serialize_to(buf);
        write_all(buf, self.content.as_slice());
        write_all(buf, &ENDSTREAM);
        assert(buf@ == old(buf)@ + self@.bytes());
    }
}

} // verus!
