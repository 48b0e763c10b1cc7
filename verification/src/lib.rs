//! A byte-preserving parser and serializer for PDF documents.
//!
//! Parsing keeps every byte of the input in the syntax tree (whitespace,
//! comments, signs, leading zeros, line endings), so that writing the tree
//! back gives the bytes that were read.
//!
//! The modules `grammar` and `document_grammar` say what is accepted and what
//! is made of it; `parser` and `document_parser` hold the parsers, each proved
//! to do what the grammar says; `round_trip` and `document_round_trip` prove
//! that what is written is what was read.

pub mod boolean;
pub mod document;
pub mod document_grammar;
pub mod document_parser;
pub mod document_round_trip;
pub mod error;
pub mod grammar;
pub mod lexical;
pub mod name;
pub mod numeric;
pub mod object;
pub mod parser;
pub mod report;
pub mod round_trip;
pub mod serialize;
pub mod strings;

pub use crate::boolean::BooleanObject;
pub use crate::document::BodyCrossrefTrailer;
pub use crate::document::BodyPart;
pub use crate::document::IndirectObjectDefinition;
pub use crate::document::PdfFile;
pub use crate::document_parser::pdf_file;
pub use crate::error::ParseError;
pub use crate::error::ParseErrorKind;
pub use crate::name::NameObject;
pub use crate::name::NameObjectChar;
pub use crate::numeric::Integer;
pub use crate::numeric::NumericObject;
pub use crate::numeric::Real;
pub use crate::numeric::Sign;
pub use crate::object::ArrayObject;
pub use crate::object::DictionaryObject;
pub use crate::object::IndirectObjectReference;
pub use crate::object::Object;
pub use crate::object::ObjectOrReference;
pub use crate::object::StreamObject;
pub use crate::parser::object;
pub use crate::parser::object_or_ref;
pub use crate::report::file_parse_and_back;
pub use crate::serialize::BinSerialize;
pub use crate::strings::HexadecimalString;
pub use crate::strings::LiteralString;
pub use crate::strings::StringObject;
