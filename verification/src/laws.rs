//! Document-level guarantees of the codec, stated and proved over the wire
//! model: every canonical or general encoding parses back to the event it
//! was built from, a well-formed document round-trips through encoder and
//! decoder unchanged, dictionary references past the dictionary's end fail
//! for every index width, and well-formed documents balance their starts
//! and ends.

use vstd::bytes::{
    lemma_auto_spec_u16_to_from_le_bytes, lemma_auto_spec_u32_to_from_le_bytes,
    lemma_auto_spec_u64_to_from_le_bytes,
};
use vstd::prelude::*;
use vstd::utf8::{decode_utf8, encode_utf8, encode_utf8_decode_utf8, encode_utf8_valid_utf8};

use crate::decoder_error::ErrorCode;
use crate::encoder::write_step;
use crate::wire::{
    all_encodable, decode_doc, decode_from, dict_index, dict_index_from, dict_ref_bytes,
    doc_wf, doc_wf_from, encodable, encode_seq, encode_seq_general, event_bytes, fixnum_tag,
    general_bytes, is_start, len_bytes, parse_event, parse_len, parse_strhead, step, LenOut,
    ParseOut, StrHeadOut, COMPACT_ARRAY_BASE, COMPACT_MAP_BASE, COMPACT_STRING_BASE,
    DICT_ESCAPE_U16, DICT_ESCAPE_U32, DICT_ESCAPE_U64, DICT_ESCAPE_U8, DICT_INLINE_BASE,
    TAG_STRING,
};
use crate::{EventV, Size};

verus! {

/// A canonical length encoding parses back to the length it was built
/// from, whatever follows it.
proof fn lemma_parse_len_bytes(n: u64, tail: Seq<u8>)
    ensures
        parse_len(len_bytes(n) + tail) == LenOut::Len(n, len_bytes(n).len() as int),
        1 <= len_bytes(n).len() <= 9,
{
    let b = len_bytes(n) + tail;
    if n < 0xEF {
    } else if n <= 0xFF {
    } else if n <= 0xFFFF {
        lemma_auto_spec_u16_to_from_le_bytes();
        assert(b.subrange(1, 3) =~= vstd::bytes::spec_u16_to_le_bytes(n as u16));
    } else if n <= 0xFFFF_FFFF {
        lemma_auto_spec_u32_to_from_le_bytes();
        assert(b.subrange(1, 5) =~= vstd::bytes::spec_u32_to_le_bytes(n as u32));
    } else {
        lemma_auto_spec_u64_to_from_le_bytes();
        assert(b.subrange(1, 9) =~= vstd::bytes::spec_u64_to_le_bytes(n));
    }
}

/// In a string's length position, a canonical length encoding still
/// parses as a length: its first byte is never a dictionary-index escape.
proof fn lemma_parse_strhead_len_bytes(n: u64, tail: Seq<u8>)
    ensures
        parse_strhead(len_bytes(n) + tail) == StrHeadOut::StrLen(n, len_bytes(n).len() as int),
{
    lemma_parse_len_bytes(n, tail);
}

/// A slot found by the dictionary search holds the string searched for.
proof fn lemma_dict_index_from_props(dict: Seq<Seq<char>>, s: Seq<char>, from: int)
    ensures
        dict_index_from(dict, s, from) matches Some(i) ==> from <= i < dict.len() && dict[i]
            == s,
    decreases dict.len() - from,
{
    if from < 0 || from >= dict.len() {
    } else if dict[from] == s {
    } else {
        lemma_dict_index_from_props(dict, s, from + 1);
    }
}

/// A dictionary reference of any width parses to the referenced string
/// when the slot exists, and to `InvalidDictionaryIndex` when it does
/// not, whatever follows it.
proof fn lemma_parse_dict_ref_bytes(i: int, dict: Seq<Seq<char>>, rest: Seq<u8>)
    requires
        0 <= i <= u64::MAX,
    ensures
        parse_event(dict_ref_bytes(i) + rest, dict) == (if i < dict.len() {
            ParseOut::Ev(EventV::String(dict[i]), dict_ref_bytes(i).len() as int)
        } else {
            ParseOut::Fail(ErrorCode::InvalidDictionaryIndex)
        }),
        1 <= dict_ref_bytes(i).len() <= 10,
{
    let b = dict_ref_bytes(i) + rest;
    if i <= 0x7F {
        assert(b[0] == (DICT_INLINE_BASE + i) as u8);
    } else if i <= 0xFF {
        assert(b.skip(1)[0] == DICT_ESCAPE_U8);
        assert(b.skip(1)[1] == i as u8);
    } else if i <= 0xFFFF {
        lemma_auto_spec_u16_to_from_le_bytes();
        assert(b.skip(1)[0] == DICT_ESCAPE_U16);
        assert(b.skip(1).subrange(1, 3) =~= vstd::bytes::spec_u16_to_le_bytes(i as u16));
    } else if i <= 0xFFFF_FFFF {
        lemma_auto_spec_u32_to_from_le_bytes();
        assert(b.skip(1)[0] == DICT_ESCAPE_U32);
        assert(b.skip(1).subrange(1, 5) =~= vstd::bytes::spec_u32_to_le_bytes(i as u32));
    } else {
        lemma_auto_spec_u64_to_from_le_bytes();
        assert(b.skip(1)[0] == DICT_ESCAPE_U64);
        assert(b.skip(1).subrange(1, 9) =~= vstd::bytes::spec_u64_to_le_bytes(i as u64));
    }
}

/// A general length-prefixed string literal parses back to its text,
/// whatever follows it.
proof fn lemma_parse_literal_string(s: Seq<char>, dict: Seq<Seq<char>>, rest: Seq<u8>)
    requires
        encode_utf8(s).len() <= u64::MAX,
    ensures
        ({
            let b = seq![TAG_STRING] + len_bytes(encode_utf8(s).len() as u64) + encode_utf8(s);
            parse_event(b + rest, dict) == ParseOut::Ev(EventV::String(s), b.len() as int)
        }),
{
    let payload = encode_utf8(s);
    let n = payload.len() as u64;
    let b = (seq![TAG_STRING] + len_bytes(n) + payload) + rest;
    assert(b[0] == TAG_STRING);
    assert(b.skip(1) =~= len_bytes(n) + (payload + rest));
    lemma_parse_strhead_len_bytes(n, payload + rest);
    let used = len_bytes(n).len() as int;
    assert(b.skip(1).subrange(used, used + n) =~= payload);
    encode_utf8_valid_utf8(s);
    encode_utf8_decode_utf8(s);
}

/// A compact short string parses back to its text, whatever follows it.
proof fn lemma_parse_compact_string(s: Seq<char>, dict: Seq<Seq<char>>, rest: Seq<u8>)
    requires
        encode_utf8(s).len() < 15,
    ensures
        ({
            let b = seq![(COMPACT_STRING_BASE + encode_utf8(s).len()) as u8] + encode_utf8(s);
            parse_event(b + rest, dict) == ParseOut::Ev(EventV::String(s), b.len() as int)
        }),
{
    let payload = encode_utf8(s);
    let n = payload.len();
    let b = (seq![(COMPACT_STRING_BASE + n) as u8] + payload) + rest;
    assert(b[0] == (COMPACT_STRING_BASE + n) as u8);
    assert(b.skip(1) =~= payload + rest);
    assert(b.skip(1).subrange(0, n as int) =~= payload);
    encode_utf8_valid_utf8(s);
    encode_utf8_decode_utf8(s);
}

/// The canonical encoding of any value event parses back to exactly that
/// event, whatever follows it.
pub proof fn lemma_parse_canonical(e: EventV, dict: Seq<Seq<char>>, rest: Seq<u8>)
    requires
        encodable(e),
        !(e is End),
        dict.len() <= u64::MAX,
    ensures
        parse_event(event_bytes(e, dict) + rest, dict) == ParseOut::Ev(
            e,
            event_bytes(e, dict).len() as int,
        ),
        1 <= event_bytes(e, dict).len(),
{
    let eb = event_bytes(e, dict);
    let b = eb + rest;
    match e {
        EventV::Nil => {},
        EventV::Boolean(v) => {},
        EventV::U8(v) => {
            assert(b.skip(1)[0] == v);
        },
        EventV::U16(v) => {
            lemma_auto_spec_u16_to_from_le_bytes();
            assert(b.skip(1).subrange(0, 2) =~= vstd::bytes::spec_u16_to_le_bytes(v));
        },
        EventV::U32(v) => {
            lemma_auto_spec_u32_to_from_le_bytes();
            assert(b.skip(1).subrange(0, 4) =~= vstd::bytes::spec_u32_to_le_bytes(v));
        },
        EventV::U64(v) => {
            lemma_auto_spec_u64_to_from_le_bytes();
            assert(b.skip(1).subrange(0, 8) =~= vstd::bytes::spec_u64_to_le_bytes(v));
        },
        EventV::I8(v) => {
            assert(b.skip(1)[0] == crate::wire::u8_of_i8(v));
        },
        EventV::I16(v) => {
            lemma_auto_spec_u16_to_from_le_bytes();
            assert(b.skip(1).subrange(0, 2) =~= vstd::bytes::spec_u16_to_le_bytes(
                crate::wire::u16_of_i16(v),
            ));
        },
        EventV::I32(v) => {
            lemma_auto_spec_u32_to_from_le_bytes();
            assert(b.skip(1).subrange(0, 4) =~= vstd::bytes::spec_u32_to_le_bytes(
                crate::wire::u32_of_i32(v),
            ));
        },
        EventV::I64(v) => {
            lemma_auto_spec_u64_to_from_le_bytes();
            assert(b.skip(1).subrange(0, 8) =~= vstd::bytes::spec_u64_to_le_bytes(
                crate::wire::u64_of_i64(v),
            ));
        },
        EventV::Fixnum(p) => {
            let w = p.len() as int;
            assert(b[0] == fixnum_tag(p.len()));
            assert(b.skip(1).subrange(0, w) =~= p);
        },
        EventV::F32(bits) => {
            lemma_auto_spec_u32_to_from_le_bytes();
            assert(b.skip(1).subrange(0, 4) =~= vstd::bytes::spec_u32_to_le_bytes(bits));
        },
        EventV::F64(bits) => {
            lemma_auto_spec_u64_to_from_le_bytes();
            assert(b.skip(1).subrange(0, 8) =~= vstd::bytes::spec_u64_to_le_bytes(bits));
        },
        EventV::Binary(p) => {
            let n = p.len() as u64;
            assert(b[0] == crate::wire::TAG_BINARY);
            assert(b.skip(1) =~= len_bytes(n) + (p + rest));
            lemma_parse_len_bytes(n, p + rest);
            let used = len_bytes(n).len() as int;
            assert(b.skip(1).subrange(used, used + n) =~= p);
        },
        EventV::String(s) => {
            match dict_index(dict, s) {
                Some(i) => {
                    lemma_dict_index_from_props(dict, s, 0);
                    lemma_parse_dict_ref_bytes(i, dict, rest);
                },
                None => {
                    let payload = encode_utf8(s);
                    if payload.len() < 15 {
                        lemma_parse_compact_string(s, dict, rest);
                    } else {
                        lemma_parse_literal_string(s, dict, rest);
                    }
                },
            }
        },
        EventV::StartArray(z) => {
            let n = z->U64_0;
            if n < 15 && !(4 <= n <= 8) {
                assert(b[0] == (COMPACT_ARRAY_BASE + n) as u8);
            } else {
                assert(b.skip(1) =~= len_bytes(n) + rest);
                lemma_parse_len_bytes(n, rest);
            }
        },
        EventV::StartStruct(z) => {
            let n = z->U64_0;
            assert(b.skip(1) =~= len_bytes(n) + rest);
            lemma_parse_len_bytes(n, rest);
        },
        EventV::StartMap(z) => {
            let n = z->U64_0;
            if n < 15 {
                assert(b[0] == (COMPACT_MAP_BASE + n) as u8);
            } else {
                assert(b.skip(1) =~= len_bytes(n) + rest);
                lemma_parse_len_bytes(n, rest);
            }
        },
        EventV::StartOpenStruct(z) => {
            let n = z->U64_0;
            assert(b.skip(1) =~= len_bytes(n) + rest);
            lemma_parse_len_bytes(n, rest);
        },
        EventV::End => {},
    }
}

/// The general (escape-free-tag) encoding of any value event also parses
/// back to exactly that event: a hand-built stream using the general form
/// of a value decodes to the same events as the canonical encoding.
pub proof fn lemma_parse_general(e: EventV, dict: Seq<Seq<char>>, rest: Seq<u8>)
    requires
        encodable(e),
        !(e is End),
        dict.len() <= u64::MAX,
    ensures
        parse_event(general_bytes(e, dict) + rest, dict) == ParseOut::Ev(
            e,
            general_bytes(e, dict).len() as int,
        ),
        1 <= general_bytes(e, dict).len(),
{
    let b = general_bytes(e, dict) + rest;
    match e {
        EventV::String(s) => {
            lemma_parse_literal_string(s, dict, rest);
        },
        EventV::StartArray(z) => {
            let n = z->U64_0;
            assert(b.skip(1) =~= len_bytes(n) + rest);
            lemma_parse_len_bytes(n, rest);
        },
        EventV::StartMap(z) => {
            let n = z->U64_0;
            assert(b.skip(1) =~= len_bytes(n) + rest);
            lemma_parse_len_bytes(n, rest);
        },
        _ => {
            lemma_parse_canonical(e, dict, rest);
        },
    }
}

/// The decoder, started with the given stack on the canonical bytes of
/// the events that stack expects, reads back exactly those events and
/// never touches what follows them.
proof fn lemma_decode_encoded(
    stack: Seq<u128>,
    events: Seq<EventV>,
    dict: Seq<Seq<char>>,
    rest: Seq<u8>,
)
    requires
        doc_wf_from(stack, events),
        all_encodable(events),
        dict.len() <= u64::MAX,
    ensures
        decode_from(encode_seq(events, dict) + rest, stack, dict) == Some(events),
    decreases events.len(),
{
    let bytes = encode_seq(events, dict) + rest;
    if events.len() == 0 {
        assert(events =~= Seq::<EventV>::empty());
    } else {
        let e = events[0];
        let tail = events.drop_first();
        assert(encodable(e)) by {
            assert(events[0] == e);
        }
        assert(all_encodable(tail)) by {
            assert forall|i: int| 0 <= i < tail.len() implies encodable(#[trigger] tail[i]) by {
                assert(tail[i] == events[i + 1]);
            }
        }
        if e is End {
            assert(encode_seq(events, dict) =~= encode_seq(tail, dict));
            lemma_decode_encoded(stack.drop_last(), tail, dict, rest);
            assert(step(stack, e) == stack.drop_last());
            assert(bytes =~= encode_seq(tail, dict) + rest);
            assert(seq![EventV::End] + tail =~= events);
        } else {
            let eb = event_bytes(e, dict);
            let following = encode_seq(tail, dict) + rest;
            assert(bytes =~= eb + following);
            lemma_parse_canonical(e, dict, following);
            let used = eb.len() as int;
            assert(bytes.skip(used) =~= following);
            lemma_decode_encoded(step(stack, e), tail, dict, rest);
            assert(seq![e] + tail =~= events);
        }
    }
}

/// Round trip: encoding a structurally well-formed event sequence and
/// decoding the bytes with the same dictionary yields exactly that
/// sequence — equal values, structural boundaries at the same positions.
pub proof fn lemma_round_trip(events: Seq<EventV>, dict: Seq<Seq<char>>)
    requires
        doc_wf(events),
        all_encodable(events),
        dict.len() <= u64::MAX,
    ensures
        decode_doc(encode_seq(events, dict), dict) == Some(events),
{
    lemma_decode_encoded(seq![1u128], events, dict, seq![]);
    assert(encode_seq(events, dict) + Seq::<u8>::empty() =~= encode_seq(events, dict));
}

/// Like [`lemma_decode_encoded`], over the general (non-compact) form of
/// every value.
proof fn lemma_decode_encoded_general(
    stack: Seq<u128>,
    events: Seq<EventV>,
    dict: Seq<Seq<char>>,
    rest: Seq<u8>,
)
    requires
        doc_wf_from(stack, events),
        all_encodable(events),
        dict.len() <= u64::MAX,
    ensures
        decode_from(encode_seq_general(events, dict) + rest, stack, dict) == Some(events),
    decreases events.len(),
{
    let bytes = encode_seq_general(events, dict) + rest;
    if events.len() == 0 {
        assert(events =~= Seq::<EventV>::empty());
    } else {
        let e = events[0];
        let tail = events.drop_first();
        assert(encodable(e)) by {
            assert(events[0] == e);
        }
        assert(all_encodable(tail)) by {
            assert forall|i: int| 0 <= i < tail.len() implies encodable(#[trigger] tail[i]) by {
                assert(tail[i] == events[i + 1]);
            }
        }
        if e is End {
            assert(encode_seq_general(events, dict) =~= encode_seq_general(tail, dict));
            lemma_decode_encoded_general(stack.drop_last(), tail, dict, rest);
            assert(step(stack, e) == stack.drop_last());
            assert(bytes =~= encode_seq_general(tail, dict) + rest);
            assert(seq![EventV::End] + tail =~= events);
        } else {
            let eb = general_bytes(e, dict);
            let following = encode_seq_general(tail, dict) + rest;
            assert(bytes =~= eb + following);
            lemma_parse_general(e, dict, following);
            let used = eb.len() as int;
            assert(bytes.skip(used) =~= following);
            lemma_decode_encoded_general(step(stack, e), tail, dict, rest);
            assert(seq![e] + tail =~= events);
        }
    }
}

/// Non-canonical tolerance: a hand-built stream that writes every value
/// in its general (non-compact) form decodes to exactly the same events
/// as the canonical encoding of the same document.
pub proof fn lemma_general_tolerance(events: Seq<EventV>, dict: Seq<Seq<char>>)
    requires
        doc_wf(events),
        all_encodable(events),
        dict.len() <= u64::MAX,
    ensures
        decode_doc(encode_seq_general(events, dict), dict) == decode_doc(
            encode_seq(events, dict),
            dict,
        ),
        decode_doc(encode_seq_general(events, dict), dict) == Some(events),
{
    lemma_round_trip(events, dict);
    lemma_decode_encoded_general(seq![1u128], events, dict, seq![]);
    assert(encode_seq_general(events, dict) + Seq::<u8>::empty() =~= encode_seq_general(
        events,
        dict,
    ));
}

/// An end is legal exactly when its frame's accounting permits it: the
/// encoder accepts an end precisely when a frame is open and its
/// remaining-child count is exhausted.
pub proof fn lemma_end_legality(stack: Seq<u128>)
    ensures
        write_step(stack, EventV::End) is Ok <==> stack.len() > 0 && stack.last() == 0,
{
}

/// True when the encoder, started with the given stack, accepts every
/// event of the sequence in turn.
pub open spec fn writes_ok(stack: Seq<u128>, events: Seq<EventV>) -> bool
    decreases events.len(),
{
    if events.len() == 0 {
        true
    } else {
        match write_step(stack, events[0]) {
            Ok(moved) => writes_ok(moved, events.drop_first()),
            Err(_) => false,
        }
    }
}

/// A fresh encoder accepts every structurally well-formed document: no
/// write of it ever reports a failure.
pub proof fn lemma_wf_accepted(events: Seq<EventV>)
    requires
        doc_wf(events),
    ensures
        writes_ok(seq![1u128], events),
{
    lemma_wf_accepted_from(seq![1u128], events);
}

/// Generalization of [`lemma_wf_accepted`] to any starting stack.
proof fn lemma_wf_accepted_from(stack: Seq<u128>, events: Seq<EventV>)
    requires
        doc_wf_from(stack, events),
    ensures
        writes_ok(stack, events),
    decreases events.len(),
{
    if events.len() == 0 {
    } else {
        let e = events[0];
        if e is End {
            assert(write_step(stack, e) == Ok::<Seq<u128>, crate::encoder_error::ErrorCode>(
                stack.drop_last(),
            ));
            assert(step(stack, e) == stack.drop_last());
        }
        lemma_wf_accepted_from(step(stack, e), events.drop_first());
    }
}

/// How many events of the sequence open a composite.
pub open spec fn count_starts(events: Seq<EventV>) -> int
    decreases events.len(),
{
    if events.len() == 0 {
        0
    } else {
        (if is_start(events[0]) {
            1int
        } else {
            0int
        }) + count_starts(events.drop_first())
    }
}

/// How many events of the sequence close a composite.
pub open spec fn count_ends(events: Seq<EventV>) -> int
    decreases events.len(),
{
    if events.len() == 0 {
        0
    } else {
        (if events[0] is End {
            1int
        } else {
            0int
        }) + count_ends(events.drop_first())
    }
}

/// What the events a stack still expects must close: one end per open
/// frame beyond the root, plus one per start among them.
proof fn lemma_balance_from(stack: Seq<u128>, events: Seq<EventV>)
    requires
        doc_wf_from(stack, events),
    ensures
        count_ends(events) == count_starts(events) + stack.len() - 1,
    decreases events.len(),
{
    if events.len() == 0 {
    } else {
        let e = events[0];
        let moved = step(stack, e);
        if e is End {
            assert(moved.len() == stack.len() - 1);
        } else if is_start(e) {
            assert(moved.len() == stack.len() + 1);
        } else {
            assert(moved.len() == stack.len());
        }
        lemma_balance_from(moved, events.drop_first());
    }
}

/// Structural soundness: in every well-formed document the count of end
/// events equals the count of start events.
pub proof fn lemma_structural_balance(events: Seq<EventV>)
    requires
        doc_wf(events),
    ensures
        count_ends(events) == count_starts(events),
{
    lemma_balance_from(seq![1u128], events);
}

/// Whatever a decoding session yields is structurally well-formed: the
/// events are exactly what the starting stack expected.
proof fn lemma_decode_wf(bytes: Seq<u8>, stack: Seq<u128>, dict: Seq<Seq<char>>)
    ensures
        decode_from(bytes, stack, dict) matches Some(events) ==> doc_wf_from(stack, events),
    decreases bytes.len(), stack.len(),
{
    if stack.len() == 0 {
    } else if stack.last() == 0 {
        if stack.len() == 1 {
        } else {
            lemma_decode_wf(bytes, stack.drop_last(), dict);
            match decode_from(bytes, stack.drop_last(), dict) {
                Some(tail) => {
                    let events = seq![EventV::End] + tail;
                    assert(events[0] is End);
                    assert(events.drop_first() =~= tail);
                },
                None => {},
            }
        }
    } else {
        match parse_event(bytes, dict) {
            ParseOut::Ev(e, used) => {
                if 1 <= used <= bytes.len() && !(e is End) {
                    lemma_decode_wf(bytes.skip(used), step(stack, e), dict);
                    match decode_from(bytes.skip(used), step(stack, e), dict) {
                        Some(tail) => {
                            let events = seq![e] + tail;
                            assert(events[0] == e);
                            assert(events.drop_first() =~= tail);
                        },
                        None => {},
                    }
                }
            },
            ParseOut::Fail(_) => {},
        }
    }
}

/// Structural soundness holds of every decodable byte stream, not only of
/// re-encoded documents: whatever a whole session yields is well-formed
/// and balances its starts and ends.
pub proof fn lemma_decoded_document_balance(bytes: Seq<u8>, dict: Seq<Seq<char>>)
    ensures
        decode_doc(bytes, dict) matches Some(events) ==> doc_wf(events) && count_ends(events)
            == count_starts(events),
{
    lemma_decode_wf(bytes, seq![1u128], dict);
    match decode_doc(bytes, dict) {
        Some(events) => {
            lemma_structural_balance(events);
        },
        None => {},
    }
}

/// Dictionary bounds: a dictionary reference whose index is at or past
/// the dictionary's end fails with `InvalidDictionaryIndex`, for every
/// index width, whatever follows it.
pub proof fn lemma_dictionary_bounds(i: u64, dict: Seq<Seq<char>>, rest: Seq<u8>)
    requires
        i >= dict.len(),
    ensures
        i <= 0x7F ==> parse_event(seq![(DICT_INLINE_BASE + i) as u8] + rest, dict) == ParseOut::Fail(
            ErrorCode::InvalidDictionaryIndex,
        ),
        i <= 0xFF ==> parse_event(seq![TAG_STRING, DICT_ESCAPE_U8, i as u8] + rest, dict)
            == ParseOut::Fail(ErrorCode::InvalidDictionaryIndex),
        i <= 0xFFFF ==> parse_event(
            seq![TAG_STRING, DICT_ESCAPE_U16] + vstd::bytes::spec_u16_to_le_bytes(i as u16)
                + rest,
            dict,
        ) == ParseOut::Fail(ErrorCode::InvalidDictionaryIndex),
        i <= 0xFFFF_FFFF ==> parse_event(
            seq![TAG_STRING, DICT_ESCAPE_U32] + vstd::bytes::spec_u32_to_le_bytes(i as u32)
                + rest,
            dict,
        ) == ParseOut::Fail(ErrorCode::InvalidDictionaryIndex),
        parse_event(
            seq![TAG_STRING, DICT_ESCAPE_U64] + vstd::bytes::spec_u64_to_le_bytes(i) + rest,
            dict,
        ) == ParseOut::Fail(ErrorCode::InvalidDictionaryIndex),
{
    if i <= 0x7F {
        let b = seq![(DICT_INLINE_BASE + i) as u8] + rest;
        assert(b[0] == (DICT_INLINE_BASE + i) as u8);
    }
    if i <= 0xFF {
        let b = seq![TAG_STRING, DICT_ESCAPE_U8, i as u8] + rest;
        assert(b.skip(1)[0] == DICT_ESCAPE_U8);
        assert(b.skip(1)[1] == i as u8);
    }
    if i <= 0xFFFF {
        let b = seq![TAG_STRING, DICT_ESCAPE_U16] + vstd::bytes::spec_u16_to_le_bytes(i as u16)
            + rest;
        lemma_auto_spec_u16_to_from_le_bytes();
        assert(b.skip(1)[0] == DICT_ESCAPE_U16);
        assert(b.skip(1).subrange(1, 3) =~= vstd::bytes::spec_u16_to_le_bytes(i as u16));
    }
    if i <= 0xFFFF_FFFF {
        let b = seq![TAG_STRING, DICT_ESCAPE_U32] + vstd::bytes::spec_u32_to_le_bytes(i as u32)
            + rest;
        lemma_auto_spec_u32_to_from_le_bytes();
        assert(b.skip(1)[0] == DICT_ESCAPE_U32);
        assert(b.skip(1).subrange(1, 5) =~= vstd::bytes::spec_u32_to_le_bytes(i as u32));
    }
    let b = seq![TAG_STRING, DICT_ESCAPE_U64] + vstd::bytes::spec_u64_to_le_bytes(i) + rest;
    lemma_auto_spec_u64_to_from_le_bytes();
    assert(b.skip(1)[0] == DICT_ESCAPE_U64);
    assert(b.skip(1).subrange(1, 9) =~= vstd::bytes::spec_u64_to_le_bytes(i));
}

/// Canonical minimality: the encoder never emits a non-compact form when
/// a compact one applies. A dictionary-resident string is always emitted
/// as a dictionary reference — never literally, even if short enough for
/// the compact inline form — and short strings, small arrays and small
/// maps get their one-byte headers.
pub proof fn lemma_canonical_minimality(s: Seq<char>, n: u64, dict: Seq<Seq<char>>)
    ensures
        dict_index(dict, s) matches Some(i) ==> event_bytes(EventV::String(s), dict)
            == dict_ref_bytes(i),
        (dict_index(dict, s) matches Some(i) && i <= 0x7F) ==> event_bytes(
            EventV::String(s),
            dict,
        ).len() == 1,
        dict_index(dict, s) is None && encode_utf8(s).len() < 15 ==> event_bytes(
            EventV::String(s),
            dict,
        ) == seq![(COMPACT_STRING_BASE + encode_utf8(s).len()) as u8] + encode_utf8(s),
        n < 15 && !(4 <= n <= 8) ==> event_bytes(EventV::StartArray(Size::U64(n)), dict)
            == seq![(COMPACT_ARRAY_BASE + n) as u8],
        n < 15 ==> event_bytes(EventV::StartMap(Size::U64(n)), dict) == seq![(COMPACT_MAP_BASE + n) as u8],
{
}

} // verus!
