use pdf_explorer::boolean::BooleanObject;
use pdf_explorer::error::Missing;
use pdf_explorer::error::ParseError;
use pdf_explorer::error::ParseErrorKind;
use pdf_explorer::name::NameObject;
use pdf_explorer::name::NameObjectChar;
use pdf_explorer::numeric::Integer;
use pdf_explorer::numeric::NumericObject;
use pdf_explorer::numeric::Real;
use pdf_explorer::numeric::Sign;
use pdf_explorer::object::ArrayObject;
use pdf_explorer::object::ArrayObjectPart;
use pdf_explorer::object::DictionaryObject;
use pdf_explorer::object::DictionaryPart;
use pdf_explorer::object::EolMarker;
use pdf_explorer::object::IndirectObjectReference;
use pdf_explorer::object::KeyValuePair;
use pdf_explorer::object::Object;
use pdf_explorer::object::ObjectOrReference;
use pdf_explorer::object::RestOfStreamObject;
use pdf_explorer::object::StreamObject;
use pdf_explorer::parser::array_object_part;
use pdf_explorer::parser::indirect_object_reference;
use pdf_explorer::parser::key_value_pair;
use pdf_explorer::parser::object;
use pdf_explorer::parser::object_array;
use pdf_explorer::parser::object_dictionary;
use pdf_explorer::parser::object_or_ref;
use pdf_explorer::parser::object_stream_after_dict;
use pdf_explorer::serialize::BinSerialize;
use pdf_explorer::strings::HexadecimalString;
use pdf_explorer::strings::LiteralString;
use pdf_explorer::strings::LiteralStringPart;
use pdf_explorer::strings::StringObject;

fn unexpected(remaining: usize) -> ParseError {
    ParseError { kind: ParseErrorKind::UnexpectedToken, remaining }
}

fn name(s: &str) -> NameObject {
    NameObject { chars: s.bytes().map(NameObjectChar::Regular).collect() }
}

fn integer(s: &str) -> Integer {
    Integer { sign: Sign::NoSign, digits: s.as_bytes().to_vec() }
}

fn round_trip(input: &[u8]) {
    let (remaining, result) = object(input).unwrap();
    assert_eq!(remaining, b"", "Nothing should remain after parsing");
    let mut buf: Vec<u8> = vec![];
    result.serialize_to(&mut buf);
    assert_eq!(input, &buf[..], "Round trip failed");
}

fn round_trip_str(input: &str) {
    round_trip(input.as_bytes());
}

#[test]
fn bool1() {
    round_trip_str("true");
}

#[test]
fn bool2() {
    round_trip_str("false");
}

#[test]
fn bool_parses_as_boolean() {
    let (rest, result) = object(b"true").unwrap();
    assert_eq!(rest, b"");
    assert_eq!(result, Object::Boolean(BooleanObject::True));
}

#[test]
fn int1() {
    round_trip_str("123");
}

#[test]
fn int2() {
    round_trip_str("43445");
}

#[test]
fn int3() {
    round_trip_str("+17");
}

#[test]
fn int4() {
    round_trip_str("-98");
}

#[test]
fn int5() {
    round_trip_str("0");
}

#[test]
fn int6() {
    round_trip_str("0042");
}

#[test]
fn int7() {
    round_trip_str("-0042");
}

#[test]
fn real1() {
    round_trip_str("34.5");
}

#[test]
fn real2() {
    round_trip_str("-3.62");
}

#[test]
fn real3() {
    round_trip_str("+123.6");
}

#[test]
fn real4() {
    round_trip_str("4.");
}

#[test]
fn real5() {
    round_trip_str("-.002");
}

#[test]
fn real6() {
    round_trip_str("0.0");
}

#[test]
fn str101() {
    round_trip_str("(This is a string)");
}

#[test]
fn str102() {
    round_trip_str(
        "(Strings may contain newlines
                           and such.)",
    );
}

#[test]
fn str103() {
    round_trip_str(
        "(Strings may contain balanced parentheses ( ) and
      special characters (*!&}^% and so on).)",
    );
}

#[test]
fn str104() {
    round_trip_str("(The following is an empty string.)");
}

#[test]
fn str105() {
    round_trip_str("()");
}

#[test]
fn str106() {
    round_trip_str("(It has zero (0) length.)");
}

#[test]
fn str107() {
    round_trip_str(
        r#"(These \
                           two strings \
                           are the same.)"#,
    );
}

#[test]
fn str108() {
    round_trip_str("(These two strings are the same.)");
}

#[test]
fn str109() {
    round_trip_str(
        "(This string has an end-of-line at the end of it.
)",
    );
}

#[test]
fn str110() {
    round_trip_str(r#"(So does this one.\n)"#);
}

#[test]
fn str111() {
    round_trip_str(r#"(This string contains \245two octal characters\307.)"#);
}

#[test]
fn str112() {
    round_trip_str(r#"(\0053)"#);
}

#[test]
fn str113() {
    round_trip_str(r#"(\053)"#);
}

#[test]
fn str114() {
    round_trip_str(r#"(\53)"#);
}

#[test]
fn str115() {
    round_trip_str("(abc)");
}

#[test]
fn str116() {
    round_trip_str("(ab (c) d)");
}

#[test]
fn str117() {
    round_trip_str(r#"(\n c)"#);
}

#[test]
fn str118() {
    round_trip_str(r#"(ab ( \n c) d)"#);
}

#[test]
fn str119() {
    round_trip_str(r#"(ab \c ( \n d) e)"#);
}

#[test]
fn str301() {
    round_trip(b"( \x80 \x99 \xFF )");
}

#[test]
fn str201() {
    round_trip_str("<4E6F762073686D6F7A206B6120706F702E>");
}

#[test]
fn str202() {
    round_trip_str("<901FA3>");
}

#[test]
fn str203() {
    round_trip_str("<901FA>");
}

#[test]
fn str204() {
    round_trip_str(
        "<90 1f \r \n
                 A>",
    );
}

#[test]
fn name101() {
    round_trip_str("/Name1");
}

#[test]
fn name102() {
    round_trip_str("/ASomewhatLongerName");
}

#[test]
fn name103() {
    round_trip_str("/A;Name_With-Various***Characters?");
}

#[test]
fn name104() {
    round_trip_str("/1.2");
}

#[test]
fn name105() {
    round_trip_str("/$$");
}

#[test]
fn name106() {
    round_trip_str("/@pattern");
}

#[test]
fn name107() {
    round_trip_str("/.notdef");
}

#[test]
fn name108() {
    round_trip_str("/lime#20Green");
}

#[test]
fn name109() {
    round_trip_str("/paired#28#29parentheses");
}

#[test]
fn name110() {
    round_trip_str("/The_Key_of_F#23_Minor");
}

#[test]
fn name111() {
    round_trip_str("/A#42");
}

#[test]
fn name201() {
    round_trip(b"/hello#80#32#99world");
}

#[test]
fn name202() {
    round_trip(br"/backslash\isnotspecial");
}

#[test]
fn name301() {
    round_trip_str("/AGSWKP#2bHelvetica");
}

#[test]
fn name302() {
    round_trip(b"/ABCDEE+\xE7\xAD\x89\xE7\xBA\xBF,Bold");
}

#[test]
fn name_with_escapes_at_both_ends() {
    round_trip_str("/#41bc#44");
    round_trip_str("/");
}

#[test]
fn array101() {
    round_trip_str("[549 3.14 false (Ralph) /SomeName]");
}

#[test]
fn array102() {
    round_trip_str("[]");
}

#[test]
fn array103() {
    round_trip_str("[true [(hello) /bye[[[]]]]]");
}

#[test]
fn array_parts_in_order() {
    let (rest, result) = object_array(b"[1 0 R /a % c\n]x").unwrap();
    assert_eq!(rest, b"x");
    assert_eq!(
        result,
        ArrayObject {
            parts: vec![
                ArrayObjectPart::ObjectOrRef(ObjectOrReference::Reference(
                    IndirectObjectReference {
                        object_number: integer("1"),
                        ws1: b" ".to_vec(),
                        generation_number: integer("0"),
                        ws2: b" ".to_vec(),
                    }
                )),
                ArrayObjectPart::Whitespace(b" ".to_vec()),
                ArrayObjectPart::ObjectOrRef(ObjectOrReference::Object(Object::Name(name("a")))),
                ArrayObjectPart::Whitespace(b" % c\n".to_vec()),
            ]
        }
    );
    let (rest, result) = object_array(b"[]").unwrap();
    assert_eq!(rest, b"");
    assert_eq!(result, ArrayObject { parts: vec![] });
}

#[test]
fn array_failures() {
    assert_eq!(object_array(b"[1 2"), Err(unexpected(0)));
    assert_eq!(object_array(b"[1 }]"), Err(unexpected(2)));
    assert_eq!(object_array(b"1]"), Err(unexpected(2)));
    assert_eq!(
        object_array(b"[1 (a]"),
        Err(ParseError {
            kind: ParseErrorKind::Incomplete(Missing::ClosingParenthesis { depth: 1 }),
            remaining: 0
        })
    );
}

#[test]
fn array_part_is_element_or_whitespace() {
    let (rest, part) = array_object_part(b" \n1").unwrap();
    assert_eq!(rest, b"1");
    assert_eq!(part, ArrayObjectPart::Whitespace(b" \n".to_vec()));
    let (rest, part) = array_object_part(b"null ").unwrap();
    assert_eq!(rest, b" ");
    assert_eq!(part, ArrayObjectPart::ObjectOrRef(ObjectOrReference::Object(Object::Null)));
    assert_eq!(array_object_part(b"]"), Err(unexpected(1)));
}

#[test]
fn dict_empty() {
    round_trip_str("<<>>");
}

#[test]
fn dict_trivial() {
    round_trip_str("<< /Key /Value /Key2 (Value2) >>");
}

#[test]
fn dict101() {
    round_trip_str(
        "<< /Type /Example
            /Subtype /DictionaryExample
            /Version 0.01
            /IntegerItem 12
            /StringItem (a string)
            /Subdictionary << /Item1 0.4
                              /Item2 true
                              /LastItem (not!)
                              /VeryLastItem (OK)
                           >>
         >>",
    );
}

#[test]
fn dict203() {
    round_trip_str(
        "<< /Type /Page % 1
/Parent 1 0 R
/MediaBox [ 0 0 60 11.25 ]
/Contents 4 0 R
/Group <<
   /Type /Group
   /S /Transparency
   /I true
   /CS /DeviceRGB
>>
/Resources 3 0 R
>>",
    );
}

#[test]
fn dictionary_key_with_a_space_is_no_key() {
    let input = "<<
    /Universal PDF(The process that creates this PDF ... United States)
    /Creator(TeX)
    /companyName, LLC(http://www.example.com)
    >>";
    assert_eq!(object(input.as_bytes()), Err(unexpected(input.len() - 7)));
}

#[test]
fn dictionary_values_without_whitespace() {
    round_trip_str(
        "<<
    /Producer(pdfeTeX-1.21a; modified using iText\u{fffd} 5.5.6 \u{fffd}2000-2015 iText Group NV \\(AGPL-version\\))
    /Creator(TeX)
    /ModDate(D:20170416015229+05'30')
    /CreationDate(D:20170331194508+02'00')
    >>",
    );
}

#[test]
fn dictionary_with_comment_inside() {
    let input = b"<< /Type /Page % 1\n/Parent 1 0 R\n>>";
    let (rest, result) = object_dictionary(input).unwrap();
    assert_eq!(rest, b"");
    assert_eq!(
        result,
        DictionaryObject {
            parts: vec![
                DictionaryPart::Whitespace(b" ".to_vec()),
                DictionaryPart::KeyValuePair(KeyValuePair {
                    key: name("Type"),
                    ws: b" ".to_vec(),
                    value: ObjectOrReference::Object(Object::Name(name("Page"))),
                }),
                DictionaryPart::Whitespace(b" % 1\n".to_vec()),
                DictionaryPart::KeyValuePair(KeyValuePair {
                    key: name("Parent"),
                    ws: b" ".to_vec(),
                    value: ObjectOrReference::Reference(IndirectObjectReference {
                        object_number: integer("1"),
                        ws1: b" ".to_vec(),
                        generation_number: integer("0"),
                        ws2: b" ".to_vec(),
                    }),
                }),
                DictionaryPart::Whitespace(b"\n".to_vec()),
            ]
        }
    );
    let mut buf: Vec<u8> = vec![];
    result.serialize_to(&mut buf);
    assert_eq!(buf, input);
}

#[test]
fn dictionary_keeps_duplicates_and_order() {
    let (rest, result) = object_dictionary(b"<</A 1/A 2>>").unwrap();
    assert_eq!(rest, b"");
    assert_eq!(
        result,
        DictionaryObject {
            parts: vec![
                DictionaryPart::KeyValuePair(KeyValuePair {
                    key: name("A"),
                    ws: b" ".to_vec(),
                    value: ObjectOrReference::Object(Object::Numeric(NumericObject::Integer(
                        integer("1")
                    ))),
                }),
                DictionaryPart::KeyValuePair(KeyValuePair {
                    key: name("A"),
                    ws: b" ".to_vec(),
                    value: ObjectOrReference::Object(Object::Numeric(NumericObject::Integer(
                        integer("2")
                    ))),
                }),
            ]
        }
    );
    let (rest, result) = object_dictionary(b"<<>>").unwrap();
    assert_eq!(rest, b"");
    assert_eq!(result, DictionaryObject { parts: vec![] });
}

#[test]
fn dictionary_failures() {
    assert_eq!(object_dictionary(b"<< /A 1"), Err(unexpected(0)));
    assert_eq!(object_dictionary(b"<< /A >>"), Err(unexpected(5)));
    assert_eq!(object_dictionary(b"< /A 1 >>"), Err(unexpected(9)));
    assert_eq!(
        object_dictionary(b"<< /A (x >>"),
        Err(ParseError {
            kind: ParseErrorKind::Incomplete(Missing::ClosingParenthesis { depth: 1 }),
            remaining: 0
        })
    );
}

#[test]
fn key_value_pair_keeps_gap() {
    let (rest, result) = key_value_pair(b"/K%c\n (v) ").unwrap();
    assert_eq!(rest, b" ");
    assert_eq!(
        result,
        KeyValuePair {
            key: name("K"),
            ws: b"%c\n ".to_vec(),
            value: ObjectOrReference::Object(Object::String(StringObject::Literal(
                LiteralString { parts: vec![LiteralStringPart::Regular(b"v".to_vec())] }
            ))),
        }
    );
    assert_eq!(key_value_pair(b"K 1"), Err(unexpected(3)));
    assert_eq!(key_value_pair(b"/K "), Err(unexpected(0)));
}

#[test]
fn stream101() {
    round_trip_str(
        "<< /Length 42 >> % An indirect reference to object 8
stream
BT
/F1 12 Tf
72 712 Td
(A stream with an indirect length) Tj
ET
endstream",
    );
}

#[test]
fn stream102() {
    round_trip_str(
        "<< /Length 8 0 R >> % An indirect reference to object 8
stream
BT
/F1 12 Tf
72 712 Td
(A stream with an indirect length) Tj
ET
endstream",
    );
}

#[test]
fn stream_content_may_hold_part_of_the_keyword() {
    let input = b"<<>>stream\r\nxendstreaendstream";
    let (rest, result) = object(input).unwrap();
    assert_eq!(rest, b"");
    assert_eq!(
        result,
        Object::Stream(StreamObject {
            dict: DictionaryObject { parts: vec![] },
            ws_and_comments: vec![],
            eol_after_stream_begin: EolMarker::CRLF,
            content: b"xendstrea".to_vec(),
        })
    );
    let mut buf: Vec<u8> = vec![];
    result.serialize_to(&mut buf);
    assert_eq!(buf, input);
}

#[test]
fn stream_ends_at_first_endstream() {
    let (rest, result) = object_stream_after_dict(b" stream\nabendstreamcdendstream").unwrap();
    assert_eq!(rest, b"cdendstream");
    assert_eq!(
        result,
        RestOfStreamObject {
            ws_and_comments: b" ".to_vec(),
            eol_after_stream_begin: EolMarker::LF,
            content: b"ab".to_vec(),
        }
    );
    let (rest, result) = object_stream_after_dict(b"stream\nendstream").unwrap();
    assert_eq!(rest, b"");
    assert_eq!(
        result,
        RestOfStreamObject {
            ws_and_comments: vec![],
            eol_after_stream_begin: EolMarker::LF,
            content: vec![],
        }
    );
}

#[test]
fn stream_failures() {
    assert_eq!(object_stream_after_dict(b" strea"), Err(unexpected(5)));
    assert_eq!(object_stream_after_dict(b"stream\rabc endstream"), Err(unexpected(14)));
    assert_eq!(object_stream_after_dict(b"stream abc endstream"), Err(unexpected(14)));
    assert_eq!(
        object_stream_after_dict(b"stream\nabc endstrea"),
        Err(ParseError { kind: ParseErrorKind::Incomplete(Missing::Endstream), remaining: 12 })
    );
}

#[test]
fn dictionary_stays_where_no_stream_follows() {
    let (rest, result) = object(b"<</A 1>> stream\rx endstream").unwrap();
    assert_eq!(rest, b" stream\rx endstream");
    assert!(matches!(result, Object::Dictionary(_)));
    let (rest, result) = object(b"<<>>\nstream\nabc").unwrap();
    assert_eq!(rest, b"\nstream\nabc");
    assert_eq!(result, Object::Dictionary(DictionaryObject { parts: vec![] }));
}

#[test]
fn null101() {
    round_trip_str("null");
}

#[test]
fn object_by_first_byte() {
    assert_eq!(object(b"null ").unwrap(), (&b" "[..], Object::Null));
    assert_eq!(
        object(b"<AB>").unwrap(),
        (&b""[..], Object::String(StringObject::Hex(HexadecimalString { chars: b"AB".to_vec() })))
    );
    assert_eq!(
        object(b"-4.5").unwrap(),
        (
            &b""[..],
            Object::Numeric(NumericObject::Real(Real {
                sign: Sign::Minus,
                digits_before: b"4".to_vec(),
                digits_after: b"5".to_vec(),
            }))
        )
    );
    assert_eq!(object(b""), Err(unexpected(0)));
    assert_eq!(object(b"<"), Err(unexpected(1)));
    assert_eq!(object(b"nul"), Err(unexpected(3)));
    assert_eq!(object(b"."), Err(unexpected(1)));
    assert_eq!(object(b" 1"), Err(unexpected(2)));
    assert_eq!(object(b"]"), Err(unexpected(1)));
}

#[test]
fn reference_before_object() {
    let (rest, result) = object_or_ref(b"12 0 R]").unwrap();
    assert_eq!(rest, b"]");
    assert_eq!(
        result,
        ObjectOrReference::Reference(IndirectObjectReference {
            object_number: integer("12"),
            ws1: b" ".to_vec(),
            generation_number: integer("0"),
            ws2: b" ".to_vec(),
        })
    );
    let (rest, result) = object_or_ref(b"12 0 obj").unwrap();
    assert_eq!(rest, b" 0 obj");
    assert_eq!(
        result,
        ObjectOrReference::Object(Object::Numeric(NumericObject::Integer(integer("12"))))
    );
    assert_eq!(object_or_ref(b"R"), Err(unexpected(1)));
}

#[test]
fn reference_with_signed_object_number() {
    let input = b"-1 0 R";
    let (rest, result) = indirect_object_reference(input).unwrap();
    assert_eq!(rest, b"");
    assert_eq!(
        result,
        IndirectObjectReference {
            object_number: Integer { sign: Sign::Minus, digits: b"1".to_vec() },
            ws1: b" ".to_vec(),
            generation_number: integer("0"),
            ws2: b" ".to_vec(),
        }
    );
    let mut buf: Vec<u8> = vec![];
    result.serialize_to(&mut buf);
    assert_eq!(buf, input);
    let (rest, result) = indirect_object_reference(b"1%c\n2R").unwrap();
    assert_eq!(rest, b"");
    assert_eq!(
        result,
        IndirectObjectReference {
            object_number: integer("1"),
            ws1: b"%c\n".to_vec(),
            generation_number: integer("2"),
            ws2: vec![],
        }
    );
}

#[test]
fn reference_failures() {
    assert_eq!(indirect_object_reference(b"1 -0 R"), Err(unexpected(4)));
    assert_eq!(indirect_object_reference(b"1 0 r"), Err(unexpected(1)));
    assert_eq!(indirect_object_reference(b"1 0"), Err(unexpected(0)));
    assert_eq!(indirect_object_reference(b"R"), Err(unexpected(1)));
}

#[test]
fn signed_object_number_is_flagged() {
    let (_, signed) = indirect_object_reference(b"-1 0 R").unwrap();
    assert!(signed.has_signed_object_number());
    let (_, signed) = indirect_object_reference(b"+1 0 R").unwrap();
    assert!(signed.has_signed_object_number());
    let (_, plain) = indirect_object_reference(b"1 0 R").unwrap();
    assert!(!plain.has_signed_object_number());
}

#[test]
fn crate_root_names_the_main_items() {
    let (rest, parsed) = pdf_explorer::object(b"[1]").unwrap();
    assert_eq!(rest, b"");
    let mut buf: Vec<u8> = vec![];
    pdf_explorer::BinSerialize::serialize_to(&parsed, &mut buf);
    assert_eq!(buf, b"[1]");
    assert!(pdf_explorer::object_or_ref(b"1 0 R").is_ok());
    assert!(pdf_explorer::pdf_file(b"startxref 0 %%EOF").is_ok());
}
