//! Writing what was parsed gives back what was read: the proofs for the
//! grammar of objects.
//!
//! For every parser of the grammar: if it accepts an input, the bytes of the
//! node it gives, followed by the rest it leaves, are the input, and the node
//! is well-formed.

use vstd::prelude::*;
use crate::boolean::lemma_boolean_round_trip;
use crate::boolean::spec_object_boolean;
use crate::grammar::array_scan;
use crate::grammar::dictionary_scan;
use crate::grammar::spec_array_object_part;
use crate::grammar::spec_indirect_object_reference;
use crate::grammar::spec_key_value_pair;
use crate::grammar::spec_object;
use crate::grammar::spec_object_array;
use crate::grammar::spec_object_dictionary;
use crate::grammar::spec_object_or_ref;
use crate::grammar::spec_object_stream_after_dict;
use crate::grammar::stream_content;
use crate::grammar::with_whitespace;
use crate::lexical::first_occurrence;
use crate::lexical::is_white_space;
use crate::lexical::lemma_first_occurrence;
use crate::lexical::lemma_no_occurrence_before_first;
use crate::lexical::lemma_ws_end;
use crate::lexical::occurs_in;
use crate::lexical::spec_whitespace_and_comments;
use crate::lexical::spec_whitespace_and_comments_nonempty;
use crate::lexical::starts_with;
use crate::lexical::ws_end;
use crate::lexical::PERCENT;
use crate::name::lemma_name_round_trip;
use crate::name::spec_object_name;
use crate::name::SOLIDUS;
use crate::numeric::lemma_integer_round_trip;
use crate::numeric::lemma_numeric_round_trip;
use crate::numeric::spec_integer_without_sign;
use crate::numeric::spec_object_numeric;
use crate::numeric::spec_object_numeric_integer;
use crate::object::array_parts_bytes;
use crate::object::array_parts_wf;
use crate::object::dictionary_parts_bytes;
use crate::object::dictionary_parts_wf;
use crate::object::lemma_array_parts_bytes_push;
use crate::object::lemma_array_parts_wf_push;
use crate::object::lemma_dictionary_parts_bytes_push;
use crate::object::lemma_dictionary_parts_wf_push;
use crate::object::ArrayObjectPartView;
use crate::object::CRLF;
use crate::object::DICTIONARY_CLOSE;
use crate::object::DICTIONARY_OPEN;
use crate::object::DictionaryPartView;
use crate::object::ENDSTREAM;
use crate::object::EolMarker;
use crate::object::ObjectView;
use crate::object::LEFT_BRACKET;
use crate::object::LETTER_R;
use crate::object::NULL;
use crate::object::RIGHT_BRACKET;
use crate::object::STREAM;
use crate::strings::lemma_hexadecimal_string_round_trip;
use crate::strings::lemma_literal_string_round_trip;
use crate::strings::LEFT_PAREN;
use crate::strings::LESS_THAN;

verus! {

/// If `piece` followed by `after` is `before`, then a prefix that has grown
/// by `piece`, followed by `after`, is the prefix followed by `before`.
pub proof fn lemma_join(prefix: Seq<u8>, piece: Seq<u8>, after: Seq<u8>, before: Seq<u8>)
    requires
        piece + after == before,
    ensures
        prefix + piece + after == prefix + before,
{
    assert((prefix + piece) + after =~= prefix + (piece + after));
}

/// A run of whitespace and comments, followed by the rest, is the input.
pub proof fn lemma_whitespace_round_trip(s: Seq<u8>)
    ensures
        ({
            let (rest, ws) = spec_whitespace_and_comments(s);
            &&& ws + rest == s
            &&& rest.len() <= s.len()
            &&& rest.len() == s.len() - ws.len()
            &&& rest.len() > 0 ==> !is_white_space(rest[0]) && rest[0]
                != PERCENT
        }),
        spec_whitespace_and_comments_nonempty(s) matches Ok((rest, ws)) ==> ws + rest == s
            && rest.len() < s.len(),
{
    lemma_ws_end(s, 0);
    let n = ws_end(s, 0);
    assert(s.take(n) + s.skip(n) =~= s);
}

/// An indirect reference is written as it was read.
pub proof fn lemma_indirect_object_reference_round_trip(s: Seq<u8>)
    ensures
        spec_indirect_object_reference(s) matches Ok((rest, v)) ==> v.bytes() + rest == s && v.wf()
            && rest.len() < s.len(),
{
    reveal(spec_indirect_object_reference);
    if let Ok((rest, v)) = spec_indirect_object_reference(s) {
        lemma_integer_round_trip(s);
        let (r1, _) = spec_object_numeric_integer(s)->Ok_0;
        lemma_whitespace_round_trip(r1);
        let (r2, _) = spec_whitespace_and_comments(r1);
        lemma_integer_round_trip(r2);
        let (r3, _) = spec_integer_without_sign(r2)->Ok_0;
        lemma_whitespace_round_trip(r3);
        let (r4, _) = spec_whitespace_and_comments(r3);
        assert(seq![LETTER_R] + rest =~= r4);
        let head1 = v.object_number.bytes();
        lemma_join(head1, v.ws1, r2, r1);
        lemma_join(head1 + v.ws1, v.generation_number.bytes(), r3, r2);
        lemma_join(head1 + v.ws1 + v.generation_number.bytes(), v.ws2, r4, r3);
        lemma_join(head1 + v.ws1 + v.generation_number.bytes() + v.ws2, seq![LETTER_R], rest, r4);
    }
}

/// The content of a stream and its `endstream`, followed by the rest, are
/// the input; the content does not hold `endstream`.
pub proof fn lemma_stream_content_round_trip(s: Seq<u8>, ws: Seq<u8>, eol: EolMarker)
    ensures
        stream_content(s, ws, eol) matches Ok((rest, v)) ==> v.content + (ENDSTREAM@ + rest) == s
            && rest.len() < s.len() && !occurs_in(ENDSTREAM@, v.content) && v.ws_and_comments
            == ws && v.eol_after_stream_begin == eol,
{
    reveal(stream_content);
    if let Ok((rest, v)) = stream_content(s, ws, eol) {
        lemma_first_occurrence(s, ENDSTREAM@, 0);
        lemma_no_occurrence_before_first(s, ENDSTREAM@);
        let k = first_occurrence(s, ENDSTREAM@, 0)->Some_0;
        assert(s.subrange(k, k + 9) =~= ENDSTREAM@);
        assert(s.take(k) + (s.subrange(k, k + 9) + s.skip(k + 9)) =~= s);
    }
}

/// The rest of a stream is written as it was read, and its content does
/// not hold `endstream`.
pub proof fn lemma_stream_after_dict_round_trip(s: Seq<u8>)
    ensures
        spec_object_stream_after_dict(s) matches Ok((rest, v)) ==> v.bytes() + rest == s && v.wf()
            && rest.len() < s.len(),
{
    reveal(spec_object_stream_after_dict);
    if let Ok((rest, v)) = spec_object_stream_after_dict(s) {
        lemma_whitespace_round_trip(s);
        let (r1, ws) = spec_whitespace_and_comments(s);
        let r2 = r1.skip(6);
        assert(STREAM@ + r2 =~= r1);
        let eol = if starts_with(r2, CRLF@) {
            EolMarker::CRLF
        } else {
            EolMarker::LF
        };
        let r3 = if starts_with(r2, CRLF@) {
            r2.skip(2)
        } else {
            r2.skip(1)
        };
        lemma_stream_content_round_trip(r3, ws, eol);
        assert(eol.bytes() + r3 =~= r2);
        lemma_join(ws, STREAM@, r2, r1);
        lemma_join(ws + STREAM@, eol.bytes(), r3, r2);
        lemma_join(ws + STREAM@ + eol.bytes(), v.content, ENDSTREAM@ + rest, r3);
        lemma_join(ws + STREAM@ + eol.bytes() + v.content, ENDSTREAM@, rest, ENDSTREAM@ + rest);
    }
}

/// Any object is written as it was read.
pub proof fn lemma_object_round_trip(s: Seq<u8>)
    ensures
        spec_object(s) matches Ok((rest, v)) ==> v.bytes() + rest == s && v.wf() && rest.len()
            < s.len(),
    decreases s.len(), 1nat,
{
    if let Ok((rest, v)) = spec_object(s) {
        if s[0] == LEFT_BRACKET {
            lemma_object_array_round_trip(s);
        } else if s[0] == SOLIDUS {
            lemma_name_round_trip(s);
        } else if s[0] == LEFT_PAREN {
            lemma_literal_string_round_trip(s);
        } else if s[0] == LESS_THAN {
            if s[1] != LESS_THAN {
                lemma_hexadecimal_string_round_trip(s);
            } else {
                lemma_object_dictionary_round_trip(s);
                let (r1, dict) = spec_object_dictionary(s)->Ok_0;
                lemma_stream_after_dict_round_trip(r1);
                if let Ok((r2, tail)) = spec_object_stream_after_dict(r1) {
                    lemma_join(dict.bytes(), tail.bytes(), r2, r1);
                    assert(v.bytes() =~= dict.bytes() + tail.bytes());
                }
            }
        } else {
            lemma_boolean_round_trip(s);
            lemma_numeric_round_trip(s);
            if spec_object_boolean(s) is Err && spec_object_numeric(s) is Err {
                assert(NULL@ + s.skip(4) =~= s);
            }
        }
    }
}

/// The content of a stream that was parsed ends where `endstream` first
/// occurs: it does not hold `endstream` itself.
pub proof fn theorem_stream_content_holds_no_endstream(s: Seq<u8>)
    ensures
        spec_object(s) matches Ok((_, ObjectView::Stream(stream))) ==> !occurs_in(
            ENDSTREAM@,
            stream.content,
        ),
{
    lemma_object_round_trip(s);
}

/// An object or a reference is written as it was read.
pub proof fn lemma_object_or_ref_round_trip(s: Seq<u8>)
    ensures
        spec_object_or_ref(s) matches Ok((rest, v)) ==> v.bytes() + rest == s && v.wf()
            && rest.len() < s.len(),
    decreases s.len(), 2nat,
{
    lemma_indirect_object_reference_round_trip(s);
    if spec_indirect_object_reference(s) is Err {
        lemma_object_round_trip(s);
    }
}

/// A part of an array is written as it was read.
pub proof fn lemma_array_object_part_round_trip(s: Seq<u8>)
    ensures
        spec_array_object_part(s) matches Ok((rest, v)) ==> v.bytes() + rest == s && v.wf()
            && rest.len() < s.len(),
    decreases s.len(), 3nat,
{
    lemma_object_or_ref_round_trip(s);
    lemma_whitespace_round_trip(s);
}

/// The parts of an array are written as they were read: those that the
/// repetition adds to `acc` stand for what it takes from `s`.
pub proof fn lemma_array_scan_round_trip(s: Seq<u8>, acc: Seq<ArrayObjectPartView>)
    requires
        array_parts_wf(acc),
    ensures
        array_scan(s, acc) matches Ok((rest, parts)) ==> array_parts_bytes(parts) + rest
            == array_parts_bytes(acc) + s && array_parts_wf(parts) && rest.len() <= s.len(),
    decreases s.len(), 4nat,
{
    lemma_array_object_part_round_trip(s);
    if let Ok((r1, part)) = spec_array_object_part(s) {
        if r1.len() < s.len() {
            lemma_array_parts_wf_push(acc, part);
            lemma_array_scan_round_trip(r1, acc.push(part));
            lemma_array_parts_bytes_push(acc, part);
            lemma_join(array_parts_bytes(acc), part.bytes(), r1, s);
        }
    }
}

/// An array is written as it was read.
pub proof fn lemma_object_array_round_trip(s: Seq<u8>)
    ensures
        spec_object_array(s) matches Ok((rest, v)) ==> v.bytes() + rest == s && v.wf()
            && rest.len() < s.len(),
    decreases s.len(), 0nat,
{
    if let Ok((rest, v)) = spec_object_array(s) {
        let t = s.skip(1);
        lemma_array_scan_round_trip(t, Seq::empty());
        let (r1, parts) = array_scan(t, Seq::empty())->Ok_0;
        assert(array_parts_bytes(Seq::empty()) + t =~= t);
        assert(seq![RIGHT_BRACKET] + rest =~= r1);
        assert(seq![LEFT_BRACKET] + t =~= s);
        lemma_join(seq![LEFT_BRACKET], array_parts_bytes(parts), r1, t);
        lemma_join(seq![LEFT_BRACKET] + array_parts_bytes(parts), seq![RIGHT_BRACKET], rest, r1);
    }
}

/// A key and its value are written as they were read.
pub proof fn lemma_key_value_pair_round_trip(s: Seq<u8>)
    ensures
        spec_key_value_pair(s) matches Ok((rest, v)) ==> v.bytes() + rest == s && v.wf()
            && rest.len() < s.len(),
    decreases s.len(), 3nat,
{
    if let Ok((rest, v)) = spec_key_value_pair(s) {
        lemma_name_round_trip(s);
        let (r1, key) = spec_object_name(s)->Ok_0;
        lemma_whitespace_round_trip(r1);
        let (r2, ws) = spec_whitespace_and_comments(r1);
        lemma_object_or_ref_round_trip(r2);
        lemma_join(key.bytes(), ws, r2, r1);
        lemma_join(key.bytes() + ws, v.value.bytes(), rest, r2);
    }
}

/// Whitespace that becomes a part adds its bytes, and nothing where it is
/// empty.
pub proof fn lemma_with_whitespace_bytes(acc: Seq<DictionaryPartView>, ws: Seq<u8>)
    ensures
        dictionary_parts_bytes(with_whitespace(acc, ws)) == dictionary_parts_bytes(acc) + ws,
        dictionary_parts_wf(with_whitespace(acc, ws)) == dictionary_parts_wf(acc),
{
    if ws.len() > 0 {
        lemma_dictionary_parts_wf_push(acc, DictionaryPartView::Whitespace(ws));
        lemma_dictionary_parts_bytes_push(acc, DictionaryPartView::Whitespace(ws));
    } else {
        assert(dictionary_parts_bytes(acc) + ws =~= dictionary_parts_bytes(acc));
    }
}

/// The parts of a dictionary are written as they were read: those that the
/// repetition adds to `acc` stand for what it takes from `s`.
pub proof fn lemma_dictionary_scan_round_trip(s: Seq<u8>, acc: Seq<DictionaryPartView>)
    requires
        dictionary_parts_wf(acc),
    ensures
        dictionary_scan(s, acc) matches Ok((rest, parts)) ==> dictionary_parts_bytes(parts) + rest
            == dictionary_parts_bytes(acc) + s && dictionary_parts_wf(parts) && rest.len()
            <= s.len(),
    decreases s.len(), 4nat,
{
    lemma_whitespace_round_trip(s);
    let (r1, ws) = spec_whitespace_and_comments(s);
    lemma_key_value_pair_round_trip(r1);
    if let Ok((r2, pair)) = spec_key_value_pair(r1) {
        if r2.len() < s.len() {
            let part = DictionaryPartView::KeyValuePair(pair);
            let next = with_whitespace(acc, ws).push(part);
            lemma_with_whitespace_bytes(acc, ws);
            lemma_dictionary_parts_wf_push(with_whitespace(acc, ws), part);
            lemma_dictionary_scan_round_trip(r2, next);
            lemma_dictionary_parts_bytes_push(with_whitespace(acc, ws), part);
            lemma_join(dictionary_parts_bytes(acc), ws, r1, s);
            lemma_join(dictionary_parts_bytes(acc) + ws, part.bytes(), r2, r1);
        }
    }
}

/// A dictionary is written as it was read.
pub proof fn lemma_object_dictionary_round_trip(s: Seq<u8>)
    ensures
        spec_object_dictionary(s) matches Ok((rest, v)) ==> v.bytes() + rest == s && v.wf()
            && rest.len() < s.len(),
    decreases s.len(), 0nat,
{
    if let Ok((rest, v)) = spec_object_dictionary(s) {
        let t = s.skip(2);
        lemma_dictionary_scan_round_trip(t, Seq::empty());
        let (r1, parts) = dictionary_scan(t, Seq::empty())->Ok_0;
        lemma_whitespace_round_trip(r1);
        let (r2, ws) = spec_whitespace_and_comments(r1);
        lemma_with_whitespace_bytes(parts, ws);
        assert(dictionary_parts_bytes(Seq::empty()) + t =~= t);
        assert(DICTIONARY_CLOSE@ + rest =~= r2);
        assert(DICTIONARY_OPEN@ + t =~= s);
        lemma_join(dictionary_parts_bytes(parts), ws, r2, r1);
        lemma_join(DICTIONARY_OPEN@, dictionary_parts_bytes(parts) + ws, r2, t);
        lemma_join(
            DICTIONARY_OPEN@ + (dictionary_parts_bytes(parts) + ws),
            DICTIONARY_CLOSE@,
            rest,
            r2,
        );
    }
}

} // verus!
