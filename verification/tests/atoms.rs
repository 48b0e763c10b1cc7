use pdf_explorer::boolean::object_boolean;
use pdf_explorer::boolean::BooleanObject;
use pdf_explorer::error::Missing;
use pdf_explorer::error::ParseError;
use pdf_explorer::error::ParseErrorKind;
use pdf_explorer::lexical::eol_any;
use pdf_explorer::lexical::find;
use pdf_explorer::lexical::is_white_space_char;
use pdf_explorer::lexical::whitespace_and_comments;
use pdf_explorer::lexical::whitespace_and_comments_nonempty;
use pdf_explorer::name::object_name;
use pdf_explorer::name::NameObject;
use pdf_explorer::name::NameObjectChar;
use pdf_explorer::numeric::integer_without_sign;
use pdf_explorer::numeric::object_numeric;
use pdf_explorer::numeric::object_numeric_integer;
use pdf_explorer::numeric::object_numeric_real;
use pdf_explorer::numeric::Integer;
use pdf_explorer::numeric::NumericObject;
use pdf_explorer::numeric::Real;
use pdf_explorer::numeric::Sign;
use pdf_explorer::serialize::BinSerialize;
use pdf_explorer::strings::escaped_part;
use pdf_explorer::strings::object_hexadecimal_string;
use pdf_explorer::strings::object_literal_string;
use pdf_explorer::strings::object_string;
use pdf_explorer::strings::HexadecimalString;
use pdf_explorer::strings::LiteralString;
use pdf_explorer::strings::LiteralStringPart;
use pdf_explorer::strings::StringObject;

fn unexpected(remaining: usize) -> ParseError {
    ParseError { kind: ParseErrorKind::UnexpectedToken, remaining }
}

#[test]
fn parse_boolean_true() {
    let (rest, result) = object_boolean(b"trueasdf").unwrap();
    assert_eq!(rest, b"asdf");
    assert!(matches!(result, BooleanObject::True));
}

#[test]
fn parse_boolean_false() {
    let (rest, result) = object_boolean(b"falseasdf").unwrap();
    assert_eq!(rest, b"asdf");
    assert!(matches!(result, BooleanObject::False));
}

#[test]
fn parse_boolean_none() {
    let err = object_boolean(b"asdf");
    assert!(err.is_err());
}

#[test]
fn boolean_is_case_sensitive() {
    assert_eq!(object_boolean(b"True"), Err(unexpected(4)));
    assert_eq!(object_boolean(b"tru"), Err(unexpected(3)));
    assert_eq!(object_boolean(b""), Err(unexpected(0)));
}

#[test]
fn boolean_writes_its_keyword() {
    let mut buf: Vec<u8> = vec![b'x'];
    BooleanObject::True.serialize_to(&mut buf);
    BooleanObject::False.serialize_to(&mut buf);
    assert_eq!(buf, b"xtruefalse");
}

#[test]
fn test_serde_num() {
    let input = "123";

    let (remaining, result) =
        object_numeric_integer(input.as_bytes()).expect("Error parsing into object");
    assert_eq!(remaining, b"");

    let mut fields = serde_json::Map::new();
    let sign = match result.sign {
        Sign::Plus => "Plus",
        Sign::Minus => "Minus",
        Sign::NoSign => "None",
    };
    fields.insert("sign".to_string(), serde_json::Value::from(sign));
    fields.insert("digits".to_string(), serde_json::Value::from(result.digits.clone()));
    let serialized = serde_json::to_string(&serde_json::Value::Object(fields)).unwrap();
    let value: serde_json::Value = serde_json::from_str(&serialized).unwrap();
    let deserialized = Integer {
        sign: match value["sign"].as_str().unwrap() {
            "Plus" => Sign::Plus,
            "Minus" => Sign::Minus,
            _ => Sign::NoSign,
        },
        digits: value["digits"]
            .as_array()
            .unwrap()
            .iter()
            .map(|d| d.as_u64().unwrap() as u8)
            .collect(),
    };

    let mut buf: Vec<u8> = vec![];
    deserialized.serialize_to(&mut buf);
    let out = std::str::from_utf8(&buf).unwrap();
    assert_eq!(input, out);
}

#[test]
fn integer_keeps_sign_and_leading_zeros() {
    let (rest, result) = object_numeric_integer(b"-0042").unwrap();
    assert_eq!(rest, b"");
    assert_eq!(result, Integer { sign: Sign::Minus, digits: b"0042".to_vec() });
    let mut buf: Vec<u8> = vec![];
    result.serialize_to(&mut buf);
    assert_eq!(buf, b"-0042");

    let (rest, result) = object_numeric_integer(b"+17 0").unwrap();
    assert_eq!(rest, b" 0");
    assert_eq!(result, Integer { sign: Sign::Plus, digits: b"17".to_vec() });

    let (rest, result) = object_numeric_integer(b"0042").unwrap();
    assert_eq!(rest, b"");
    assert_eq!(result, Integer { sign: Sign::NoSign, digits: b"0042".to_vec() });
}

#[test]
fn integer_needs_a_digit() {
    assert_eq!(object_numeric_integer(b"-"), Err(unexpected(0)));
    assert_eq!(object_numeric_integer(b"+x"), Err(unexpected(1)));
    assert_eq!(object_numeric_integer(b"x"), Err(unexpected(1)));
    assert_eq!(object_numeric_integer(b""), Err(unexpected(0)));
}

#[test]
fn integer_without_sign_takes_no_sign() {
    assert_eq!(integer_without_sign(b"-1"), Err(unexpected(2)));
    assert_eq!(integer_without_sign(b"+1"), Err(unexpected(2)));
    let (rest, result) = integer_without_sign(b"65535 f").unwrap();
    assert_eq!(rest, b" f");
    assert_eq!(result, Integer { sign: Sign::NoSign, digits: b"65535".to_vec() });
}

#[test]
fn real_with_either_side_empty() {
    let (rest, result) = object_numeric_real(b"4.").unwrap();
    assert_eq!(rest, b"");
    assert_eq!(
        result,
        Real { sign: Sign::NoSign, digits_before: b"4".to_vec(), digits_after: vec![] }
    );
    let (rest, result) = object_numeric_real(b"-.002]").unwrap();
    assert_eq!(rest, b"]");
    assert_eq!(
        result,
        Real { sign: Sign::Minus, digits_before: vec![], digits_after: b"002".to_vec() }
    );
    let mut buf: Vec<u8> = vec![];
    result.serialize_to(&mut buf);
    assert_eq!(buf, b"-.002");
    let (rest, result) = object_numeric_real(b"+123.6.7").unwrap();
    assert_eq!(rest, b".7");
    assert_eq!(
        result,
        Real { sign: Sign::Plus, digits_before: b"123".to_vec(), digits_after: b"6".to_vec() }
    );
}

#[test]
fn real_needs_a_point_and_a_digit() {
    assert_eq!(object_numeric_real(b"123"), Err(unexpected(0)));
    assert_eq!(object_numeric_real(b"12x"), Err(unexpected(1)));
    assert_eq!(object_numeric_real(b"."), Err(unexpected(1)));
    assert_eq!(object_numeric_real(b"-."), Err(unexpected(1)));
    assert_eq!(object_numeric_real(b"+.x"), Err(unexpected(2)));
}

#[test]
fn numeric_prefers_real() {
    let (rest, result) = object_numeric(b"34.5 ").unwrap();
    assert_eq!(rest, b" ");
    assert_eq!(
        result,
        NumericObject::Real(Real {
            sign: Sign::NoSign,
            digits_before: b"34".to_vec(),
            digits_after: b"5".to_vec()
        })
    );
    let (rest, result) = object_numeric(b"345 ").unwrap();
    assert_eq!(rest, b" ");
    assert_eq!(
        result,
        NumericObject::Integer(Integer { sign: Sign::NoSign, digits: b"345".to_vec() })
    );
    assert_eq!(object_numeric(b"."), Err(unexpected(1)));
    assert_eq!(object_numeric(b"abc"), Err(unexpected(3)));
}

#[test]
fn white_space_characters() {
    for c in 0..=255u8 {
        let expected = matches!(c, 0x00 | 0x09 | 0x0A | 0x0C | 0x0D | 0x20);
        assert_eq!(is_white_space_char(c), expected);
    }
}

#[test]
fn test_ws_simple() {
    let input = b"%PDF1.0\r%more\nleftover";
    let (remaining, _ws) = whitespace_and_comments(input).unwrap();
    assert_eq!(remaining, b"leftover");
}

#[test]
fn test_ws_101() {
    let input: Vec<u8> = vec![
        37, 80, 68, 70, 45, 49, 46, 55, 13, 37, 200, 200, 200, 200, 200, 200, 200, 13, 49, 32, 48,
    ];
    let (remaining, _ws) = whitespace_and_comments(&input).unwrap();

    assert_eq!(remaining, [49, 32, 48]);
}

#[test]
fn whitespace_span_is_exact() {
    let (rest, ws) = whitespace_and_comments(b" \t\r\n\x00\x0c% c %\r\n /x").unwrap();
    assert_eq!(ws, b" \t\r\n\x00\x0c% c %\r\n ");
    assert_eq!(rest, b"/x");
    let (rest, ws) = whitespace_and_comments(b"x ").unwrap();
    assert_eq!(ws, b"");
    assert_eq!(rest, b"x ");
    let (rest, ws) = whitespace_and_comments(b"% no line end").unwrap();
    assert_eq!(ws, b"% no line end");
    assert_eq!(rest, b"");
    let (rest, ws) = whitespace_and_comments(b"").unwrap();
    assert_eq!(ws, b"");
    assert_eq!(rest, b"");
}

#[test]
fn nonempty_whitespace_fails_on_none() {
    assert_eq!(whitespace_and_comments_nonempty(b"x "), Err(unexpected(2)));
    assert_eq!(whitespace_and_comments_nonempty(b""), Err(unexpected(0)));
    let (rest, ws) = whitespace_and_comments_nonempty(b" x").unwrap();
    assert_eq!(ws, b" ");
    assert_eq!(rest, b"x");
}

#[test]
fn line_ends_in_order_of_preference() {
    assert_eq!(eol_any(b"\r\nx").unwrap(), (&b"x"[..], &b"\r\n"[..]));
    assert_eq!(eol_any(b"\r\rx").unwrap(), (&b"\rx"[..], &b"\r"[..]));
    assert_eq!(eol_any(b"\n\rx").unwrap(), (&b"\rx"[..], &b"\n"[..]));
    assert_eq!(eol_any(b"x"), Err(unexpected(1)));
    assert_eq!(eol_any(b""), Err(unexpected(0)));
}

#[test]
fn find_first_occurrence() {
    assert_eq!(find(b"abcabc", b"bc"), Some(1));
    assert_eq!(find(b"abcabc", b"cb"), None);
    assert_eq!(find(b"endstreaendstream", b"endstream"), Some(8));
    assert_eq!(find(b"ab", b"abc"), None);
    assert_eq!(find(b"ab", b""), Some(0));
}

#[test]
fn escapes_after_backslash() {
    assert_eq!(escaped_part(b"n c").unwrap(), (&b" c"[..], &b"n"[..]));
    assert_eq!(escaped_part(b"\\x").unwrap(), (&b"x"[..], &b"\\"[..]));
    assert_eq!(escaped_part(b"(x").unwrap(), (&b"x"[..], &b"("[..]));
    assert_eq!(escaped_part(b"\r\nx").unwrap(), (&b"x"[..], &b"\r\n"[..]));
    assert_eq!(escaped_part(b"\rx").unwrap(), (&b"x"[..], &b"\r"[..]));
    assert_eq!(escaped_part(b"\nx").unwrap(), (&b"x"[..], &b"\n"[..]));
    assert_eq!(escaped_part(b"0053").unwrap(), (&b"3"[..], &b"005"[..]));
    assert_eq!(escaped_part(b"53)").unwrap(), (&b")"[..], &b"53"[..]));
    assert_eq!(escaped_part(b"7").unwrap(), (&b""[..], &b"7"[..]));
    assert_eq!(escaped_part(b"8").unwrap(), (&b"8"[..], &b""[..]));
    assert_eq!(escaped_part(b"a").unwrap(), (&b"a"[..], &b""[..]));
    assert_eq!(escaped_part(b"").unwrap(), (&b""[..], &b""[..]));
}

#[test]
fn literal_string_with_octal() {
    let (rest, result) = object_literal_string(b"(\\053)").unwrap();
    assert_eq!(rest, b"");
    assert_eq!(result, LiteralString { parts: vec![LiteralStringPart::Escaped(b"053".to_vec())] });
    let mut buf: Vec<u8> = vec![];
    result.serialize_to(&mut buf);
    assert_eq!(buf, b"(\\053)");
}

#[test]
fn literal_string_parts() {
    let (rest, result) = object_literal_string(b"(ab ( \\n c) d)x").unwrap();
    assert_eq!(rest, b"x");
    assert_eq!(
        result,
        LiteralString {
            parts: vec![
                LiteralStringPart::Regular(b"ab ( ".to_vec()),
                LiteralStringPart::Escaped(b"n".to_vec()),
                LiteralStringPart::Regular(b" c) d".to_vec()),
            ]
        }
    );
    let (rest, result) = object_literal_string(b"(ab \\c (d))").unwrap();
    assert_eq!(rest, b"");
    assert_eq!(
        result,
        LiteralString {
            parts: vec![
                LiteralStringPart::Regular(b"ab ".to_vec()),
                LiteralStringPart::Escaped(vec![]),
                LiteralStringPart::Regular(b"c (d)".to_vec()),
            ]
        }
    );
    let (rest, result) = object_literal_string(b"()").unwrap();
    assert_eq!(rest, b"");
    assert_eq!(result, LiteralString { parts: vec![] });
    let (rest, result) = object_literal_string(b"(a\\)b)").unwrap();
    assert_eq!(rest, b"");
    assert_eq!(
        result,
        LiteralString {
            parts: vec![
                LiteralStringPart::Regular(b"a".to_vec()),
                LiteralStringPart::Escaped(b")".to_vec()),
                LiteralStringPart::Regular(b"b".to_vec()),
            ]
        }
    );
}

#[test]
fn literal_string_nested_to_any_depth() {
    for depth in [1usize, 2, 5, 50, 500] {
        let mut input: Vec<u8> = Vec::new();
        for _ in 0..depth {
            input.push(b'(');
        }
        input.push(b'x');
        for _ in 0..depth {
            input.push(b')');
        }
        let (rest, result) = object_literal_string(&input).unwrap();
        assert_eq!(rest, b"");
        assert_eq!(
            result,
            LiteralString {
                parts: vec![LiteralStringPart::Regular(input[1..input.len() - 1].to_vec())]
            }
        );
        let mut buf: Vec<u8> = vec![];
        result.serialize_to(&mut buf);
        assert_eq!(buf, input);
    }
}

#[test]
fn literal_string_left_open_is_incomplete() {
    assert_eq!(
        object_literal_string(b"(ab (c d"),
        Err(ParseError {
            kind: ParseErrorKind::Incomplete(Missing::ClosingParenthesis { depth: 2 }),
            remaining: 0
        })
    );
    assert_eq!(
        object_literal_string(b"(ab\\"),
        Err(ParseError {
            kind: ParseErrorKind::Incomplete(Missing::ClosingParenthesis { depth: 1 }),
            remaining: 0
        })
    );
    assert_eq!(
        object_literal_string(b"(\\)"),
        Err(ParseError {
            kind: ParseErrorKind::Incomplete(Missing::ClosingParenthesis { depth: 1 }),
            remaining: 0
        })
    );
    assert_eq!(object_literal_string(b"x"), Err(unexpected(1)));
    assert_eq!(object_literal_string(b""), Err(unexpected(0)));
}

#[test]
fn hexadecimal_string_keeps_whitespace() {
    let (rest, result) = object_hexadecimal_string(b"<90 1f \r \n\n A>x").unwrap();
    assert_eq!(rest, b"x");
    assert_eq!(result, HexadecimalString { chars: b"90 1f \r \n\n A".to_vec() });
    let mut buf: Vec<u8> = vec![];
    result.serialize_to(&mut buf);
    assert_eq!(buf, b"<90 1f \r \n\n A>");
    let (rest, result) = object_hexadecimal_string(b"<>").unwrap();
    assert_eq!(rest, b"");
    assert_eq!(result, HexadecimalString { chars: vec![] });
}

#[test]
fn hexadecimal_string_failures() {
    assert_eq!(object_hexadecimal_string(b"<12g>"), Err(unexpected(2)));
    assert_eq!(object_hexadecimal_string(b"<12"), Err(unexpected(0)));
    assert_eq!(object_hexadecimal_string(b"12>"), Err(unexpected(3)));
    assert_eq!(object_hexadecimal_string(b"<<>>"), Err(unexpected(3)));
}

#[test]
fn string_of_either_form() {
    let (rest, result) = object_string(b"(a)").unwrap();
    assert_eq!(rest, b"");
    assert_eq!(
        result,
        StringObject::Literal(LiteralString {
            parts: vec![LiteralStringPart::Regular(b"a".to_vec())]
        })
    );
    let (rest, result) = object_string(b"<0A>").unwrap();
    assert_eq!(rest, b"");
    assert_eq!(result, StringObject::Hex(HexadecimalString { chars: b"0A".to_vec() }));
    assert_eq!(
        object_string(b"(a"),
        Err(ParseError {
            kind: ParseErrorKind::Incomplete(Missing::ClosingParenthesis { depth: 1 }),
            remaining: 0
        })
    );
    assert_eq!(object_string(b"x"), Err(unexpected(1)));
}

#[test]
fn name_with_hex_escape() {
    let (rest, result) = object_name(b"/lime#20Green").unwrap();
    assert_eq!(rest, b"");
    assert_eq!(
        result,
        NameObject {
            chars: vec![
                NameObjectChar::Regular(b'l'),
                NameObjectChar::Regular(b'i'),
                NameObjectChar::Regular(b'm'),
                NameObjectChar::Regular(b'e'),
                NameObjectChar::NumberSignPrefixed(b'2', b'0'),
                NameObjectChar::Regular(b'G'),
                NameObjectChar::Regular(b'r'),
                NameObjectChar::Regular(b'e'),
                NameObjectChar::Regular(b'e'),
                NameObjectChar::Regular(b'n'),
            ]
        }
    );
    let mut buf: Vec<u8> = vec![];
    result.serialize_to(&mut buf);
    assert_eq!(buf, b"/lime#20Green");
}

#[test]
fn name_edges() {
    let (rest, result) = object_name(b"/").unwrap();
    assert_eq!(rest, b"");
    assert_eq!(result, NameObject { chars: vec![] });
    let (rest, result) = object_name(b"/ x").unwrap();
    assert_eq!(rest, b" x");
    assert_eq!(result, NameObject { chars: vec![] });
    let (rest, result) = object_name(b"/#41b#42/c").unwrap();
    assert_eq!(rest, b"/c");
    assert_eq!(
        result,
        NameObject {
            chars: vec![
                NameObjectChar::NumberSignPrefixed(b'4', b'1'),
                NameObjectChar::Regular(b'b'),
                NameObjectChar::NumberSignPrefixed(b'4', b'2'),
            ]
        }
    );
    let (rest, result) = object_name(b"/A\xE7\xAD,B(").unwrap();
    assert_eq!(rest, b"(");
    assert_eq!(
        result,
        NameObject {
            chars: vec![
                NameObjectChar::Regular(b'A'),
                NameObjectChar::Regular(0xE7),
                NameObjectChar::Regular(0xAD),
                NameObjectChar::Regular(b','),
                NameObjectChar::Regular(b'B'),
            ]
        }
    );
}

#[test]
fn name_failures() {
    assert_eq!(object_name(b"Name"), Err(unexpected(4)));
    assert_eq!(object_name(b""), Err(unexpected(0)));
    assert_eq!(object_name(b"/ab#4"), Err(unexpected(2)));
    assert_eq!(object_name(b"/#"), Err(unexpected(1)));
}
