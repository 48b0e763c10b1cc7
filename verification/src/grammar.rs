//! The grammar of objects: what each parser accepts and what it makes of it.
//!
//! Every parser takes the unread input and gives back the rest and the node
//! it read, or a failure. An alternative goes on to its next branch, and a
//! repetition ends, only after a failure that is recoverable.

use vstd::prelude::*;
use crate::boolean::spec_object_boolean;
use crate::error::unexpected;
use crate::error::Missing;
use crate::error::ParseError;
use crate::error::ParseErrorKind;
use crate::error::Parsed;
use crate::lexical::first_occurrence;
use crate::lexical::lemma_ws_end;
use crate::lexical::spec_whitespace_and_comments;
use crate::lexical::spec_whitespace_and_comments_nonempty;
use crate::lexical::starts_with;
use crate::lexical::LINE_FEED;
use crate::name::lemma_name_round_trip;
use crate::name::spec_object_name;
use crate::name::SOLIDUS;
use crate::numeric::spec_integer_without_sign;
use crate::numeric::spec_object_numeric;
use crate::numeric::spec_object_numeric_integer;
use crate::object::ArrayObjectPartView;
use crate::object::ArrayObjectView;
use crate::object::CRLF;
use crate::object::DICTIONARY_CLOSE;
use crate::object::DICTIONARY_OPEN;
use crate::object::DictionaryObjectView;
use crate::object::DictionaryPartView;
use crate::object::ENDSTREAM;
use crate::object::EolMarker;
use crate::object::IndirectObjectReferenceView;
use crate::object::KeyValuePairView;
use crate::object::LEFT_BRACKET;
use crate::object::LETTER_R;
use crate::object::NULL;
use crate::object::ObjectOrReferenceView;
use crate::object::ObjectView;
use crate::object::RIGHT_BRACKET;
use crate::object::RestOfStreamObjectView;
use crate::object::STREAM;
use crate::object::StreamObjectView;
use crate::strings::spec_object_hexadecimal_string;
use crate::strings::spec_object_literal_string;
use crate::strings::LEFT_PAREN;
use crate::strings::LESS_THAN;
use crate::strings::StringObjectView;

verus! {

/// An indirect reference: an integer, whitespace, an integer without a sign,
/// whitespace, `R`. The first integer may have a sign.
#[verifier::opaque]
pub open spec fn spec_indirect_object_reference(s: Seq<u8>) -> Parsed<IndirectObjectReferenceView> {
    match spec_object_numeric_integer(s) {
        Err(e) => Err(e),
        Ok((r1, object_number)) => {
            let (r2, ws1) = spec_whitespace_and_comments(r1);
            match spec_integer_without_sign(r2) {
                Err(e) => Err(e),
                Ok((r3, generation_number)) => {
                    let (r4, ws2) = spec_whitespace_and_comments(r3);
                    if r4.len() > 0 && r4[0] == LETTER_R {
                        Ok(
                            (
                                r4.skip(1),
                                IndirectObjectReferenceView {
                                    object_number,
                                    ws1,
                                    generation_number,
                                    ws2,
                                },
                            ),
                        )
                    } else {
                        Err(unexpected(r4))
                    }
                },
            }
        },
    }
}

/// What follows the dictionary of a stream: whitespace, the keyword
/// `stream`, a line end that is CR LF or LF, the content up to the first
/// `endstream`, and that keyword. Where `endstream` never comes the stream
/// is incomplete.
#[verifier::opaque]
pub open spec fn spec_object_stream_after_dict(s: Seq<u8>) -> Parsed<RestOfStreamObjectView> {
    let (r1, ws_and_comments) = spec_whitespace_and_comments(s);
    if !starts_with(r1, STREAM@) {
        Err(unexpected(r1))
    } else {
        let r2 = r1.skip(6);
        if starts_with(r2, CRLF@) {
            stream_content(r2.skip(2), ws_and_comments, EolMarker::CRLF)
        } else if r2.len() > 0 && r2[0] == LINE_FEED {
            stream_content(r2.skip(1), ws_and_comments, EolMarker::LF)
        } else {
            Err(unexpected(r2))
        }
    }
}

/// The content of a stream and its `endstream`, `s` being what follows the
/// line end after `stream`.
#[verifier::opaque]
pub open spec fn stream_content(
    s: Seq<u8>,
    ws_and_comments: Seq<u8>,
    eol_after_stream_begin: EolMarker,
) -> Parsed<RestOfStreamObjectView> {
    match first_occurrence(s, ENDSTREAM@, 0) {
        None => Err(
            ParseError {
                kind: ParseErrorKind::Incomplete(Missing::Endstream),
                remaining: s.len() as usize,
            },
        ),
        Some(k) => Ok(
            (
                s.skip(k + 9),
                RestOfStreamObjectView {
                    ws_and_comments,
                    eol_after_stream_begin,
                    content: s.take(k),
                },
            ),
        ),
    }
}

/// Any object, chosen by its first byte: `[` an array, `/` a name, `(` a
/// literal string, `<<` a dictionary, which is a stream if the rest of one
/// follows, `<` alone a hexadecimal string; anything else is tried as a
/// boolean, then as a number, then as `null`.
pub open spec fn spec_object(s: Seq<u8>) -> Parsed<ObjectView>
    decreases s.len(), 1nat,
{
    if s.len() == 0 {
        Err(unexpected(s))
    } else if s[0] == LEFT_BRACKET {
        match spec_object_array(s) {
            Ok((rest, a)) => Ok((rest, ObjectView::Array(a))),
            Err(e) => Err(e),
        }
    } else if s[0] == SOLIDUS {
        match spec_object_name(s) {
            Ok((rest, n)) => Ok((rest, ObjectView::Name(n))),
            Err(e) => Err(e),
        }
    } else if s[0] == LEFT_PAREN {
        match spec_object_literal_string(s) {
            Ok((rest, l)) => Ok((rest, ObjectView::String(StringObjectView::Literal(l)))),
            Err(e) => Err(e),
        }
    } else if s[0] == LESS_THAN {
        if s.len() < 2 {
            Err(unexpected(s))
        } else if s[1] != LESS_THAN {
            match spec_object_hexadecimal_string(s) {
                Ok((rest, h)) => Ok((rest, ObjectView::String(StringObjectView::Hex(h)))),
                Err(e) => Err(e),
            }
        } else {
            match spec_object_dictionary(s) {
                Err(e) => Err(e),
                Ok((rest, dict)) => match spec_object_stream_after_dict(rest) {
                    Ok((rest2, tail)) => Ok(
                        (
                            rest2,
                            ObjectView::Stream(
                                StreamObjectView {
                                    dict,
                                    ws_and_comments: tail.ws_and_comments,
                                    eol_after_stream_begin: tail.eol_after_stream_begin,
                                    content: tail.content,
                                },
                            ),
                        ),
                    ),
                    Err(_) => Ok((rest, ObjectView::Dictionary(dict))),
                },
            }
        }
    } else {
        match spec_object_boolean(s) {
            Ok((rest, b)) => Ok((rest, ObjectView::Boolean(b))),
            Err(_) => match spec_object_numeric(s) {
                Ok((rest, n)) => Ok((rest, ObjectView::Numeric(n))),
                Err(_) => if starts_with(s, NULL@) {
                    Ok((s.skip(4), ObjectView::Null))
                } else {
                    Err(unexpected(s))
                },
            },
        }
    }
}

/// An indirect reference where the input is one, else an object.
pub open spec fn spec_object_or_ref(s: Seq<u8>) -> Parsed<ObjectOrReferenceView>
    decreases s.len(), 2nat,
{
    match spec_indirect_object_reference(s) {
        Ok((rest, r)) => Ok((rest, ObjectOrReferenceView::Reference(r))),
        Err(_) => match spec_object(s) {
            Ok((rest, o)) => Ok((rest, ObjectOrReferenceView::Object(o))),
            Err(e) => Err(e),
        },
    }
}

/// One part of an array: an object or a reference, else a run of whitespace
/// and comments that is not empty.
pub open spec fn spec_array_object_part(s: Seq<u8>) -> Parsed<ArrayObjectPartView>
    decreases s.len(), 3nat,
{
    match spec_object_or_ref(s) {
        Ok((rest, o)) => Ok((rest, ArrayObjectPartView::ObjectOrRef(o))),
        Err(e) => if e.recoverable() {
            match spec_whitespace_and_comments_nonempty(s) {
                Ok((rest, w)) => Ok((rest, ArrayObjectPartView::Whitespace(w))),
                Err(e) => Err(e),
            }
        } else {
            Err(e)
        },
    }
}

/// The parts of an array, as many as there are: `acc` holds those found so
/// far. The repetition ends where no part begins; a failure that is not
/// recoverable ends the parse.
pub open spec fn array_scan(s: Seq<u8>, acc: Seq<ArrayObjectPartView>) -> Parsed<
    Seq<ArrayObjectPartView>,
>
    decreases s.len(), 4nat,
{
    match spec_array_object_part(s) {
        Ok((rest, part)) => if rest.len() < s.len() {
            array_scan(rest, acc.push(part))
        } else {
            Err(unexpected(s))
        },
        Err(e) => if e.recoverable() {
            Ok((s, acc))
        } else {
            Err(e)
        },
    }
}

/// An array: `[`, parts, `]`.
pub open spec fn spec_object_array(s: Seq<u8>) -> Parsed<ArrayObjectView>
    decreases s.len(), 0nat,
{
    if s.len() > 0 && s[0] == LEFT_BRACKET {
        match array_scan(s.skip(1), Seq::empty()) {
            Ok((rest, parts)) => if rest.len() > 0 && rest[0] == RIGHT_BRACKET {
                Ok((rest.skip(1), ArrayObjectView { parts }))
            } else {
                Err(unexpected(rest))
            },
            Err(e) => Err(e),
        }
    } else {
        Err(unexpected(s))
    }
}

/// A key and its value: a name, whitespace and comments, an object or a
/// reference.
pub open spec fn spec_key_value_pair(s: Seq<u8>) -> Parsed<KeyValuePairView>
    decreases s.len(), 3nat,
{
    match spec_object_name(s) {
        Err(e) => Err(e),
        Ok((r1, key)) => {
            let (r2, ws) = spec_whitespace_and_comments(r1);
            proof {
                lemma_name_round_trip(s);
                lemma_ws_end(r1, 0);
            }
            match spec_object_or_ref(r2) {
                Err(e) => Err(e),
                Ok((r3, value)) => Ok((r3, KeyValuePairView { key, ws, value })),
            }
        },
    }
}

/// The parts found so far, and one more for the whitespace `ws` if it is not
/// empty.
pub open spec fn with_whitespace(acc: Seq<DictionaryPartView>, ws: Seq<u8>) -> Seq<
    DictionaryPartView,
> {
    if ws.len() > 0 {
        acc.push(DictionaryPartView::Whitespace(ws))
    } else {
        acc
    }
}

/// The entries of a dictionary, as many as there are, each with the
/// whitespace before it: `acc` holds the parts found so far. The repetition
/// ends before the whitespace that no entry follows.
pub open spec fn dictionary_scan(s: Seq<u8>, acc: Seq<DictionaryPartView>) -> Parsed<
    Seq<DictionaryPartView>,
>
    decreases s.len(), 4nat,
{
    let (r1, ws) = spec_whitespace_and_comments(s);
    proof {
        lemma_ws_end(s, 0);
    }
    match spec_key_value_pair(r1) {
        Ok((rest, pair)) => if rest.len() < s.len() {
            dictionary_scan(
                rest,
                with_whitespace(acc, ws).push(DictionaryPartView::KeyValuePair(pair)),
            )
        } else {
            Err(unexpected(s))
        },
        Err(e) => if e.recoverable() {
            Ok((s, acc))
        } else {
            Err(e)
        },
    }
}

/// A dictionary: `<<`, entries, whitespace, `>>`.
pub open spec fn spec_object_dictionary(s: Seq<u8>) -> Parsed<DictionaryObjectView>
    decreases s.len(), 0nat,
{
    if starts_with(s, DICTIONARY_OPEN@) {
        match dictionary_scan(s.skip(2), Seq::empty()) {
            Ok((r1, parts)) => {
                let (r2, ws) = spec_whitespace_and_comments(r1);
                if starts_with(r2, DICTIONARY_CLOSE@) {
                    Ok((r2.skip(2), DictionaryObjectView { parts: with_whitespace(parts, ws) }))
                } else {
                    Err(unexpected(r2))
                }
            },
            Err(e) => Err(e),
        }
    } else {
        Err(unexpected(s))
    }
}

} // verus!
