//! The parsers for objects. Each does what the grammar says of its input.

use vstd::prelude::*;
use vstd::slice::slice_to_vec;
use crate::boolean::object_boolean;
use crate::error::agrees;
use crate::error::Missing;
use crate::error::ParseError;
use crate::error::ParseErrorKind;
use crate::grammar::array_scan;
use crate::grammar::dictionary_scan;
use crate::grammar::spec_array_object_part;
use crate::grammar::spec_indirect_object_reference;
use crate::grammar::spec_key_value_pair;
use crate::grammar::spec_object;
use crate::grammar::spec_object_array;
use crate::grammar::spec_object_dictionary;
use crate::grammar::spec_object_or_ref;
use crate::grammar::spec_object_stream_after_dict;
use crate::grammar::stream_content;
use crate::lexical::find;
use crate::lexical::lemma_ws_end;
use crate::lexical::split;
use crate::lexical::starts_with;
use crate::lexical::tag;
use crate::lexical::whitespace_and_comments;
use crate::lexical::whitespace_and_comments_nonempty;
use crate::lexical::LINE_FEED;
use crate::name::lemma_name_round_trip;
use crate::name::object_name;
use crate::name::SOLIDUS;
use crate::numeric::integer_without_sign;
use crate::numeric::object_numeric;
use crate::numeric::object_numeric_integer;
use crate::object::array_parts_view;
use crate::object::dictionary_parts_view;
use crate::object::lemma_array_parts_view_push;
use crate::object::lemma_dictionary_parts_view_push;
use crate::object::ArrayObject;
use crate::object::ArrayObjectPart;
use crate::object::CRLF;
use crate::object::DICTIONARY_CLOSE;
use crate::object::DICTIONARY_OPEN;
use crate::object::DictionaryObject;
use crate::object::DictionaryPart;
use crate::object::ENDSTREAM;
use crate::object::EolMarker;
use crate::object::IndirectObjectReference;
use crate::object::KeyValuePair;
use crate::object::LEFT_BRACKET;
use crate::object::LETTER_R;
use crate::object::NULL;
use crate::object::Object;
use crate::object::ObjectOrReference;
use crate::object::RIGHT_BRACKET;
use crate::object::RestOfStreamObject;
use crate::object::STREAM;
use crate::object::StreamObject;
use crate::round_trip::lemma_array_object_part_round_trip;
use crate::round_trip::lemma_indirect_object_reference_round_trip;
use crate::round_trip::lemma_key_value_pair_round_trip;
use crate::round_trip::lemma_object_array_round_trip;
use crate::round_trip::lemma_object_dictionary_round_trip;
use crate::round_trip::lemma_object_or_ref_round_trip;
use crate::round_trip::lemma_object_round_trip;
use crate::round_trip::lemma_stream_after_dict_round_trip;
use crate::strings::object_hexadecimal_string;
use crate::strings::object_literal_string;
use crate::strings::LEFT_PAREN;
use crate::strings::LESS_THAN;
use crate::strings::StringObject;

verus! {

/// Parses an indirect reference, such as `12 0 R`. The object number may
/// have a sign: files with `-1 0 R` exist.
pub fn indirect_object_reference(input: &[u8]) -> (r: Result<
    (&[u8], IndirectObjectReference),
    ParseError,
>)
    ensures
        agrees(r, spec_indirect_object_reference(input@)),
        r matches Ok((rest, node)) ==> node@.bytes() + rest@ == input@ && node@.wf(),
        r matches Err(e) ==> e.remaining <= input@.len(),
{
    proof {
        lemma_indirect_object_reference_round_trip(input@);
        reveal(spec_indirect_object_reference);
    }
    let (input, object_number) = object_numeric_integer(input)?;
    let (input, ws1) = whitespace_and_comments(input)?;
    let (input, generation_number) = integer_without_sign(input)?;
    let (input, ws2) = whitespace_and_comments(input)?;
    if input.len() == 0 || input[0] != LETTER_R {
        return Err(ParseError::unexpected_at(input));
    }
    let (_, rest) = split(input, 1);
    Ok(
        (
            rest,
            IndirectObjectReference {
                object_number,
                ws1: slice_to_vec(ws1),
                generation_number,
                ws2: slice_to_vec(ws2),
            },
        ),
    )
}

/// Parses what follows the dictionary of a stream, up to and including the
/// first `endstream`. The length that the dictionary states is not looked
/// at.
pub fn object_stream_after_dict(input: &[u8]) -> (r: Result<
    (&[u8], RestOfStreamObject),
    ParseError,
>)
    ensures
        agrees(r, spec_object_stream_after_dict(input@)),
        r matches Ok((rest, node)) ==> node@.bytes() + rest@ == input@ && node@.wf(),
        r matches Err(e) ==> e.remaining <= input@.len(),
{
    proof {
        lemma_stream_after_dict_round_trip(input@);
        reveal(spec_object_stream_after_dict);
        reveal(stream_content);
    }
    let (input, ws_and_comments) = whitespace_and_comments(input)?;
    if !tag(input, &STREAM) {
        return Err(ParseError::unexpected_at(input));
    }
    let (_, input) = split(input, 6);
    let eol_after_stream_begin: EolMarker;
    let content_start: usize;
    if tag(input, &CRLF) {
        eol_after_stream_begin = EolMarker::CRLF;
        content_start = 2;
    } else if input.len() > 0 && input[0] == LINE_FEED {
        eol_after_stream_begin = EolMarker::LF;
        content_start = 1;
    } else {
        return Err(ParseError::unexpected_at(input));
    }
    let (_, input) = split(input, content_start);
    match find(input, &ENDSTREAM) {
        None => Err(
            ParseError {
                kind: ParseErrorKind::Incomplete(Missing::Endstream),
                remaining: input.len(),
            },
        ),
        Some(k) => {
            let (content, tail) = split(input, k);
            let (_, rest) = split(tail, 9);
            assert(rest@ =~= input@.skip(k + 9));
            Ok(
                (
                    rest,
                    RestOfStreamObject {
                        ws_and_comments: slice_to_vec(ws_and_comments),
                        eol_after_stream_begin,
                        content: slice_to_vec(content),
                    },
                ),
            )
        },
    }
}

/// Parses any object.
pub fn object(input: &[u8]) -> (r: Result<(&[u8], Object), ParseError>)
    ensures
        agrees(r, spec_object(input@)),
        r matches Ok((rest, node)) ==> node@.bytes() + rest@ == input@ && node@.wf(),
        r matches Err(e) ==> e.remaining <= input@.len(),
    decreases input@.len(), 1nat,
{
    proof {
        lemma_object_round_trip(input@);
    }
    if input.len() == 0 {
        return Err(ParseError::unexpected_at(input));
    }
    let first: u8 = input[0];
    if first == LEFT_BRACKET {
        let (rest, a) = object_array(input)?;
        Ok((rest, Object::Array(a)))
    } else if first == SOLIDUS {
        let (rest, n) = object_name(input)?;
        Ok((rest, Object::Name(n)))
    } else if first == LEFT_PAREN {
        let (rest, s) = object_literal_string(input)?;
        Ok((rest, Object::String(StringObject::Literal(s))))
    } else if first == LESS_THAN {
        if input.len() < 2 {
            return Err(ParseError::unexpected_at(input));
        }
        if input[1] != LESS_THAN {
            let (rest, s) = object_hexadecimal_string(input)?;
            Ok((rest, Object::String(StringObject::Hex(s))))
        } else {
            let (rest, dict) = object_dictionary(input)?;
            match object_stream_after_dict(rest) {
                Ok((rest, tail)) => Ok(
                    (
                        rest,
                        Object::Stream(
                            StreamObject {
                                dict,
                                ws_and_comments: tail.ws_and_comments,
                                eol_after_stream_begin: tail.eol_after_stream_begin,
                                content: tail.content,
                            },
                        ),
                    ),
                ),
                Err(_) => Ok((rest, Object::Dictionary(dict))),
            }
        }
    } else {
        match object_boolean(input) {
            Ok((rest, b)) => Ok((rest, Object::Boolean(b))),
            Err(_) => match object_numeric(input) {
                Ok((rest, n)) => Ok((rest, Object::Numeric(n))),
                Err(_) => {
                    if tag(input, &NULL) {
                        let (_, rest) = split(input, 4);
                        Ok((rest, Object::Null))
                    } else {
                        Err(ParseError::unexpected_at(input))
                    }
                },
            },
        }
    }
}

/// Parses an indirect reference if the input begins with one, else an
/// object.
pub fn object_or_ref(input: &[u8]) -> (r: Result<(&[u8], ObjectOrReference), ParseError>)
    ensures
        agrees(r, spec_object_or_ref(input@)),
        r matches Ok((rest, node)) ==> node@.bytes() + rest@ == input@ && node@.wf(),
        r matches Err(e) ==> e.remaining <= input@.len(),
    decreases input@.len(), 2nat,
{
    proof {
        lemma_object_or_ref_round_trip(input@);
    }
    match indirect_object_reference(input) {
        Ok((rest, reference)) => Ok((rest, ObjectOrReference::Reference(reference))),
        Err(_) => {
            let (rest, o) = object(input)?;
            Ok((rest, ObjectOrReference::Object(o)))
        },
    }
}

/// Parses one part of an array: an element, or the whitespace and comments
/// between two.
pub fn array_object_part(input: &[u8]) -> (r: Result<(&[u8], ArrayObjectPart), ParseError>)
    ensures
        agrees(r, spec_array_object_part(input@)),
        r matches Ok((rest, node)) ==> node@.bytes() + rest@ == input@ && node@.wf(),
        r matches Err(e) ==> e.remaining <= input@.len(),
    decreases input@.len(), 3nat,
{
    proof {
        lemma_array_object_part_round_trip(input@);
    }
    match object_or_ref(input) {
        Ok((rest, o)) => Ok((rest, ArrayObjectPart::ObjectOrRef(o))),
        Err(e) => {
            if e.is_recoverable() {
                let (rest, w) = whitespace_and_comments_nonempty(input)?;
                Ok((rest, ArrayObjectPart::Whitespace(slice_to_vec(w))))
            } else {
                Err(e)
            }
        },
    }
}

/// Parses an array, from `[` to `]`.
pub fn object_array(input: &[u8]) -> (r: Result<(&[u8], ArrayObject), ParseError>)
    ensures
        agrees(r, spec_object_array(input@)),
        r matches Ok((rest, node)) ==> node@.bytes() + rest@ == input@ && node@.wf(),
        r matches Err(e) ==> e.remaining <= input@.len(),
    decreases input@.len(), 0nat,
{
    proof {
        lemma_object_array_round_trip(input@);
    }
    if input.len() == 0 || input[0] != LEFT_BRACKET {
        return Err(ParseError::unexpected_at(input));
    }
    let (_, body) = split(input, 1);
    let mut parts: Vec<ArrayObjectPart> = Vec::new();
    let mut cur: &[u8] = body;
    loop
        invariant
            input@.len() > 0,
            input@[0] == LEFT_BRACKET,
            cur@.len() < input@.len(),
            array_scan(input@.skip(1), Seq::empty()) == array_scan(
                cur@,
                array_parts_view(parts@),
            ),
        ensures
            array_scan(input@.skip(1), Seq::empty()) == Ok::<_, ParseError>(
                (cur@, array_parts_view(parts@)),
            ),
        decreases cur@.len(),
    {
        match array_object_part(cur) {
            Ok((rest, part)) => {
                if rest.len() >= cur.len() {
                    return Err(ParseError::unexpected_at(cur));
                }
                proof {
                    lemma_array_parts_view_push(parts@, part);
                }
                parts.push(part);
                cur = rest;
            },
            Err(e) => {
                if e.is_recoverable() {
                    break;
                } else {
                    return Err(e);
                }
            },
        }
    }
    if cur.len() == 0 || cur[0] != RIGHT_BRACKET {
        return Err(ParseError::unexpected_at(cur));
    }
    let (_, rest) = split(cur, 1);
    Ok((rest, ArrayObject { parts }))
}

/// Parses a key and its value.
pub fn key_value_pair(input: &[u8]) -> (r: Result<(&[u8], KeyValuePair), ParseError>)
    ensures
        agrees(r, spec_key_value_pair(input@)),
        r matches Ok((rest, node)) ==> node@.bytes() + rest@ == input@ && node@.wf(),
        r matches Err(e) ==> e.remaining <= input@.len(),
    decreases input@.len(), 3nat,
{
    proof {
        lemma_key_value_pair_round_trip(input@);
    }
    let (rest, key) = object_name(input)?;
    let (rest2, ws) = whitespace_and_comments(rest)?;
    proof {
        lemma_name_round_trip(input@);
        lemma_ws_end(rest@, 0);
    }
    let (rest3, value) = object_or_ref(rest2)?;
    Ok((rest3, KeyValuePair { key, ws: slice_to_vec(ws), value }))
}

/// Parses a dictionary, from `<<` to `>>`. Whitespace between the key and
/// the value of an entry belongs to the entry; whitespace before an entry
/// and before `>>` becomes a part of its own where it is not empty.
pub fn object_dictionary(input: &[u8]) -> (r: Result<(&[u8], DictionaryObject), ParseError>)
    ensures
        agrees(r, spec_object_dictionary(input@)),
        r matches Ok((rest, node)) ==> node@.bytes() + rest@ == input@ && node@.wf(),
        r matches Err(e) ==> e.remaining <= input@.len(),
    decreases input@.len(), 0nat,
{
    proof {
        lemma_object_dictionary_round_trip(input@);
    }
    if !tag(input, &DICTIONARY_OPEN) {
        return Err(ParseError::unexpected_at(input));
    }
    let (_, body) = split(input, 2);
    let mut parts: Vec<DictionaryPart> = Vec::new();
    let mut cur: &[u8] = body;
    loop
        invariant
            starts_with(input@, DICTIONARY_OPEN@),
            cur@.len() < input@.len(),
            dictionary_scan(input@.skip(2), Seq::empty()) == dictionary_scan(
                cur@,
                dictionary_parts_view(parts@),
            ),
        ensures
            dictionary_scan(input@.skip(2), Seq::empty()) == Ok::<_, ParseError>(
                (cur@, dictionary_parts_view(parts@)),
            ),
        decreases cur@.len(),
    {
        let (after_ws, ws) = whitespace_and_comments(cur)?;
        proof {
            lemma_ws_end(cur@, 0);
        }
        match key_value_pair(after_ws) {
            Ok((rest, pair)) => {
                if rest.len() >= cur.len() {
                    return Err(ParseError::unexpected_at(cur));
                }
                if ws.len() > 0 {
                    let part = DictionaryPart::Whitespace(slice_to_vec(ws));
                    proof {
                        lemma_dictionary_parts_view_push(parts@, part);
                    }
                    parts.push(part);
                }
                let part = DictionaryPart::KeyValuePair(pair);
                proof {
                    lemma_dictionary_parts_view_push(parts@, part);
                }
                parts.push(part);
                cur = rest;
            },
            Err(e) => {
                if e.is_recoverable() {
                    break;
                } else {
                    return Err(e);
                }
            },
        }
    }
    let (after_ws, ws) = whitespace_and_comments(cur)?;
    if !tag(after_ws, &DICTIONARY_CLOSE) {
        return Err(ParseError::unexpected_at(after_ws));
    }
    if ws.len() > 0 {
        let part = DictionaryPart::Whitespace(slice_to_vec(ws));
        proof {
            lemma_dictionary_parts_view_push(parts@, part);
        }
        parts.push(part);
    }
    let (_, rest) = split(after_ws, 2);
    Ok((rest, DictionaryObject { parts }))
}

} // verus!
