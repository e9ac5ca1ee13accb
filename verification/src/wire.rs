//! Byte-level model of the wire format: the tag table, the canonical
//! encoding of each event, and the specification-level parser that the
//! decoder is proved against.
//!
//! Multi-byte integers are little-endian throughout. A length below
//! [`LEN_INLINE_LIMIT`] occupies one byte; larger lengths follow an
//! explicit-width marker from the reserved band `0xF1..=0xF4`. In a string's
//! length position the markers `0xF5..=0xF8` instead carry a dictionary
//! index of the corresponding width.

use vstd::bytes::{
    spec_u16_from_le_bytes, spec_u16_to_le_bytes, spec_u32_from_le_bytes, spec_u32_to_le_bytes,
    spec_u64_from_le_bytes, spec_u64_to_le_bytes,
};
use vstd::prelude::*;
use vstd::utf8::{decode_utf8, encode_utf8, valid_utf8};

use crate::decoder_error::ErrorCode;
use crate::{EventV, Size};

verus! {

/// Nil value.
pub const TAG_NIL: u8 = 0x01;

/// Boolean false.
pub const TAG_FALSE: u8 = 0x02;

/// Boolean true.
pub const TAG_TRUE: u8 = 0x03;

/// Binary: a length, then that many raw bytes.
pub const TAG_BINARY: u8 = 0x08;

/// String: a length, then that many UTF-8 bytes; or, in the length
/// position, a dictionary-index escape.
pub const TAG_STRING: u8 = 0x09;

/// Array start: a length, then that many element values.
pub const TAG_ARRAY: u8 = 0x0A;

/// Struct start: a length, then a type-name fragment plus that many fields.
pub const TAG_STRUCT: u8 = 0x0B;

/// Map start: a length, then that many key/value pairs.
pub const TAG_MAP: u8 = 0x0C;

/// Open-struct start: a length, then a type-name fragment plus that many
/// name/value pairs.
pub const TAG_OPEN_STRUCT: u8 = 0x0D;

/// Unsigned integers of fixed width 1, 2, 4 and 8 bytes.
pub const TAG_U8: u8 = 0x10;

/// See [`TAG_U8`].
pub const TAG_U16: u8 = 0x11;

/// See [`TAG_U8`].
pub const TAG_U32: u8 = 0x12;

/// See [`TAG_U8`].
pub const TAG_U64: u8 = 0x13;

/// Signed integers of fixed width 1, 2, 4 and 8 bytes, two's-complement.
pub const TAG_I8: u8 = 0x14;

/// See [`TAG_I8`].
pub const TAG_I16: u8 = 0x15;

/// See [`TAG_I8`].
pub const TAG_I32: u8 = 0x16;

/// See [`TAG_I8`].
pub const TAG_I64: u8 = 0x17;

/// IEEE 754 single-precision bit pattern, 4 bytes.
pub const TAG_F32: u8 = 0x1A;

/// IEEE 754 double-precision bit pattern, 8 bytes.
pub const TAG_F64: u8 = 0x1B;

/// Compact signed integer escapes by payload width: 1, 2, 4, 8 and 16
/// bytes of little-endian two's-complement payload.
pub const TAG_FIXNUM_1: u8 = 0x24;

/// See [`TAG_FIXNUM_1`].
pub const TAG_FIXNUM_2: u8 = 0x25;

/// See [`TAG_FIXNUM_1`].
pub const TAG_FIXNUM_4: u8 = 0x26;

/// See [`TAG_FIXNUM_1`].
pub const TAG_FIXNUM_8: u8 = 0x27;

/// See [`TAG_FIXNUM_1`].
pub const TAG_FIXNUM_16: u8 = 0x28;

/// Compact array start: the element count lives in the tag's low four bits.
/// The five fixnum escapes shadow counts 4 through 8, which therefore use
/// the general form.
pub const COMPACT_ARRAY_BASE: u8 = 0x20;

/// Compact map start: the pair count lives in the tag's low four bits.
pub const COMPACT_MAP_BASE: u8 = 0x30;

/// Compact short string: the byte length lives in the tag's low four bits.
pub const COMPACT_STRING_BASE: u8 = 0x60;

/// Inline dictionary reference: the index lives in the tag's low seven
/// bits.
pub const DICT_INLINE_BASE: u8 = 0x80;

/// A length this small is its own single byte; `0xEF..=0xF0` are reserved
/// and rejected.
pub const LEN_INLINE_LIMIT: u8 = 0xEF;

/// Explicit-width length escapes.
pub const LEN_ESCAPE_U8: u8 = 0xF1;

/// See [`LEN_ESCAPE_U8`].
pub const LEN_ESCAPE_U16: u8 = 0xF2;

/// See [`LEN_ESCAPE_U8`].
pub const LEN_ESCAPE_U32: u8 = 0xF3;

/// See [`LEN_ESCAPE_U8`].
pub const LEN_ESCAPE_U64: u8 = 0xF4;

/// Explicit-width dictionary-index escapes, legal only in a string's
/// length position.
pub const DICT_ESCAPE_U8: u8 = 0xF5;

/// See [`DICT_ESCAPE_U8`].
pub const DICT_ESCAPE_U16: u8 = 0xF6;

/// See [`DICT_ESCAPE_U8`].
pub const DICT_ESCAPE_U32: u8 = 0xF7;

/// See [`DICT_ESCAPE_U8`].
pub const DICT_ESCAPE_U64: u8 = 0xF8;

// ---------------------------------------------------------------------------
// Two's-complement views of the signed payloads.
// ---------------------------------------------------------------------------
/// The unsigned byte that transports `v` on the wire.
pub open spec fn u8_of_i8(v: i8) -> u8 {
    if v >= 0 {
        v as u8
    } else {
        (v + 0x100) as u8
    }
}

/// Inverse of [`u8_of_i8`].
pub open spec fn i8_of_u8(u: u8) -> i8 {
    if u < 0x80 {
        u as i8
    } else {
        (u - 0x100) as i8
    }
}

/// The unsigned value that transports `v` on the wire.
pub open spec fn u16_of_i16(v: i16) -> u16 {
    if v >= 0 {
        v as u16
    } else {
        (v + 0x1_0000) as u16
    }
}

/// Inverse of [`u16_of_i16`].
pub open spec fn i16_of_u16(u: u16) -> i16 {
    if u < 0x8000 {
        u as i16
    } else {
        (u - 0x1_0000) as i16
    }
}

/// The unsigned value that transports `v` on the wire.
pub open spec fn u32_of_i32(v: i32) -> u32 {
    if v >= 0 {
        v as u32
    } else {
        (v + 0x1_0000_0000) as u32
    }
}

/// Inverse of [`u32_of_i32`].
pub open spec fn i32_of_u32(u: u32) -> i32 {
    if u < 0x8000_0000 {
        u as i32
    } else {
        (u - 0x1_0000_0000) as i32
    }
}

/// The unsigned value that transports `v` on the wire.
pub open spec fn u64_of_i64(v: i64) -> u64 {
    if v >= 0 {
        v as u64
    } else {
        (v + 0x1_0000_0000_0000_0000) as u64
    }
}

/// Inverse of [`u64_of_i64`].
pub open spec fn i64_of_u64(u: u64) -> i64 {
    if u < 0x8000_0000_0000_0000 {
        u as i64
    } else {
        (u - 0x1_0000_0000_0000_0000) as i64
    }
}

/// The signed value as its unsigned wire transport.
pub(crate) fn u8_from_i8(v: i8) -> (r: u8)
    ensures
        r == u8_of_i8(v),
{
    if v >= 0 {
        v as u8
    } else {
        ((v as i16) + 0x100) as u8
    }
}

/// The signed value as its unsigned wire transport.
pub(crate) fn u16_from_i16(v: i16) -> (r: u16)
    ensures
        r == u16_of_i16(v),
{
    if v >= 0 {
        v as u16
    } else {
        ((v as i32) + 0x1_0000) as u16
    }
}

/// The signed value as its unsigned wire transport.
pub(crate) fn u32_from_i32(v: i32) -> (r: u32)
    ensures
        r == u32_of_i32(v),
{
    if v >= 0 {
        v as u32
    } else {
        ((v as i64) + 0x1_0000_0000) as u32
    }
}

/// The signed value as its unsigned wire transport.
pub(crate) fn u64_from_i64(v: i64) -> (r: u64)
    ensures
        r == u64_of_i64(v),
{
    if v >= 0 {
        v as u64
    } else {
        ((v as i128) + 0x1_0000_0000_0000_0000) as u64
    }
}

/// The unsigned wire byte read back as a signed value.
pub(crate) fn i8_from_u8(u: u8) -> (r: i8)
    ensures
        r == i8_of_u8(u),
{
    if u < 0x80 {
        u as i8
    } else {
        ((u as i16) - 0x100) as i8
    }
}

/// The unsigned wire value read back as a signed value.
pub(crate) fn i16_from_u16(u: u16) -> (r: i16)
    ensures
        r == i16_of_u16(u),
{
    if u < 0x8000 {
        u as i16
    } else {
        ((u as i32) - 0x1_0000) as i16
    }
}

/// The unsigned wire value read back as a signed value.
pub(crate) fn i32_from_u32(u: u32) -> (r: i32)
    ensures
        r == i32_of_u32(u),
{
    if u < 0x8000_0000 {
        u as i32
    } else {
        ((u as i64) - 0x1_0000_0000) as i32
    }
}

/// The unsigned wire value read back as a signed value.
pub(crate) fn i64_from_u64(u: u64) -> (r: i64)
    ensures
        r == i64_of_u64(u),
{
    if u < 0x8000_0000_0000_0000 {
        u as i64
    } else {
        ((u as i128) - 0x1_0000_0000_0000_0000) as i64
    }
}

/// The narrowest legal fixnum payload carrying the signed value `v`.
pub open spec fn fixnum_i64_bytes(v: i64) -> Seq<u8> {
    if -0x80 <= v <= 0x7F {
        seq![u8_of_i8(v as i8)]
    } else if -0x8000 <= v <= 0x7FFF {
        spec_u16_to_le_bytes(u16_of_i16(v as i16))
    } else if -0x8000_0000 <= v <= 0x7FFF_FFFF {
        spec_u32_to_le_bytes(u32_of_i32(v as i32))
    } else {
        spec_u64_to_le_bytes(u64_of_i64(v))
    }
}

/// The narrowest legal fixnum payload carrying the unsigned value `v`:
/// values past the signed 64-bit range take the sixteen-byte width, with
/// a zero upper half.
pub open spec fn fixnum_u64_bytes(v: u64) -> Seq<u8> {
    if v <= 0x7F {
        seq![v as u8]
    } else if v <= 0x7FFF {
        spec_u16_to_le_bytes(v as u16)
    } else if v <= 0x7FFF_FFFF {
        spec_u32_to_le_bytes(v as u32)
    } else if v <= 0x7FFF_FFFF_FFFF_FFFF {
        spec_u64_to_le_bytes(v)
    } else {
        spec_u64_to_le_bytes(v) + seq![0u8, 0u8, 0u8, 0u8, 0u8, 0u8, 0u8, 0u8]
    }
}

// ---------------------------------------------------------------------------
// Lengths and dictionary references.
// ---------------------------------------------------------------------------
/// Canonical encoding of a length: one byte when it fits below the
/// reserved band, otherwise the narrowest explicit-width escape.
pub open spec fn len_bytes(n: u64) -> Seq<u8> {
    if n < 0xEF {
        seq![n as u8]
    } else if n <= 0xFF {
        seq![LEN_ESCAPE_U8, n as u8]
    } else if n <= 0xFFFF {
        seq![LEN_ESCAPE_U16] + spec_u16_to_le_bytes(n as u16)
    } else if n <= 0xFFFF_FFFF {
        seq![LEN_ESCAPE_U32] + spec_u32_to_le_bytes(n as u32)
    } else {
        seq![LEN_ESCAPE_U64] + spec_u64_to_le_bytes(n)
    }
}

/// Canonical encoding of a reference to dictionary slot `i`: the inline
/// tag when the index fits in seven bits, otherwise the string tag with
/// the narrowest dictionary-index escape in its length position.
pub open spec fn dict_ref_bytes(i: int) -> Seq<u8>
    recommends
        0 <= i <= u64::MAX,
{
    if i <= 0x7F {
        seq![(DICT_INLINE_BASE + i) as u8]
    } else if i <= 0xFF {
        seq![TAG_STRING, DICT_ESCAPE_U8, i as u8]
    } else if i <= 0xFFFF {
        seq![TAG_STRING, DICT_ESCAPE_U16] + spec_u16_to_le_bytes(i as u16)
    } else if i <= 0xFFFF_FFFF {
        seq![TAG_STRING, DICT_ESCAPE_U32] + spec_u32_to_le_bytes(i as u32)
    } else {
        seq![TAG_STRING, DICT_ESCAPE_U64] + spec_u64_to_le_bytes(i as u64)
    }
}

/// Position of the first dictionary slot holding exactly `s`, if any,
/// searching from slot `from`.
pub open spec fn dict_index_from(dict: Seq<Seq<char>>, s: Seq<char>, from: int) -> Option<int>
    decreases dict.len() - from,
{
    if from < 0 || from >= dict.len() {
        None
    } else if dict[from] == s {
        Some(from)
    } else {
        dict_index_from(dict, s, from + 1)
    }
}

/// Position of the first dictionary slot holding exactly `s`, if any.
pub open spec fn dict_index(dict: Seq<Seq<char>>, s: Seq<char>) -> Option<int> {
    dict_index_from(dict, s, 0)
}

/// Canonical encoding of a string: a dictionary reference when the
/// dictionary holds the string, else the compact one-byte header for short
/// strings, else the general length-prefixed literal.
pub open spec fn string_bytes(s: Seq<char>, dict: Seq<Seq<char>>) -> Seq<u8> {
    match dict_index(dict, s) {
        Some(i) => dict_ref_bytes(i),
        None => {
            let payload = encode_utf8(s);
            if payload.len() < 15 {
                seq![(COMPACT_STRING_BASE + payload.len()) as u8] + payload
            } else {
                seq![TAG_STRING] + len_bytes(payload.len() as u64) + payload
            }
        },
    }
}

/// Tag carrying a fixnum payload of the given width.
pub open spec fn fixnum_tag(width: nat) -> u8
    recommends
        fixnum_width_ok(width),
{
    if width == 1 {
        TAG_FIXNUM_1
    } else if width == 2 {
        TAG_FIXNUM_2
    } else if width == 4 {
        TAG_FIXNUM_4
    } else if width == 8 {
        TAG_FIXNUM_8
    } else {
        TAG_FIXNUM_16
    }
}

/// The payload widths a fixnum may use.
pub open spec fn fixnum_width_ok(width: nat) -> bool {
    width == 1 || width == 2 || width == 4 || width == 8 || width == 16
}

// ---------------------------------------------------------------------------
// Canonical encoding of one event.
// ---------------------------------------------------------------------------
/// True when the event can be put on the wire at all: composite sizes are
/// known, fixnum payloads use a legal width, and payload lengths fit the
/// 64-bit length encoding.
pub open spec fn encodable(e: EventV) -> bool {
    match e {
        EventV::Fixnum(p) => fixnum_width_ok(p.len()),
        EventV::Binary(p) => p.len() <= u64::MAX,
        EventV::String(s) => encode_utf8(s).len() <= u64::MAX,
        EventV::StartArray(z) => z is U64,
        EventV::StartStruct(z) => z is U64,
        EventV::StartMap(z) => z is U64,
        EventV::StartOpenStruct(z) => z is U64,
        _ => true,
    }
}

/// The canonical bytes of one event: the single encoding the encoder may
/// produce. Closing a structure writes nothing; both sides infer closure
/// from the declared counts.
pub open spec fn event_bytes(e: EventV, dict: Seq<Seq<char>>) -> Seq<u8>
    recommends
        encodable(e),
{
    match e {
        EventV::Nil => seq![TAG_NIL],
        EventV::Boolean(b) => seq![if b { TAG_TRUE } else { TAG_FALSE }],
        EventV::U8(v) => seq![TAG_U8, v],
        EventV::U16(v) => seq![TAG_U16] + spec_u16_to_le_bytes(v),
        EventV::U32(v) => seq![TAG_U32] + spec_u32_to_le_bytes(v),
        EventV::U64(v) => seq![TAG_U64] + spec_u64_to_le_bytes(v),
        EventV::I8(v) => seq![TAG_I8, u8_of_i8(v)],
        EventV::I16(v) => seq![TAG_I16] + spec_u16_to_le_bytes(u16_of_i16(v)),
        EventV::I32(v) => seq![TAG_I32] + spec_u32_to_le_bytes(u32_of_i32(v)),
        EventV::I64(v) => seq![TAG_I64] + spec_u64_to_le_bytes(u64_of_i64(v)),
        EventV::Fixnum(p) => seq![fixnum_tag(p.len())] + p,
        EventV::F32(bits) => seq![TAG_F32] + spec_u32_to_le_bytes(bits),
        EventV::F64(bits) => seq![TAG_F64] + spec_u64_to_le_bytes(bits),
        EventV::Binary(p) => seq![TAG_BINARY] + len_bytes(p.len() as u64) + p,
        EventV::String(s) => string_bytes(s, dict),
        EventV::StartArray(z) => match z {
            Size::U64(n) => if n < 15 && !(4 <= n <= 8) {
                seq![(COMPACT_ARRAY_BASE + n) as u8]
            } else {
                seq![TAG_ARRAY] + len_bytes(n)
            },
            Size::Streaming => seq![],
        },
        EventV::StartStruct(z) => match z {
            Size::U64(n) => seq![TAG_STRUCT] + len_bytes(n),
            Size::Streaming => seq![],
        },
        EventV::StartMap(z) => match z {
            Size::U64(n) => if n < 15 {
                seq![(COMPACT_MAP_BASE + n) as u8]
            } else {
                seq![TAG_MAP] + len_bytes(n)
            },
            Size::Streaming => seq![],
        },
        EventV::StartOpenStruct(z) => match z {
            Size::U64(n) => seq![TAG_OPEN_STRUCT] + len_bytes(n),
            Size::Streaming => seq![],
        },
        EventV::End => seq![],
    }
}

/// The general (escape-free-tag) bytes of one value event: compact headers
/// and dictionary references are never used, so this form is never what
/// the encoder emits for a short string, a small array or map, or a
/// dictionary-resident string — but the decoder accepts it all the same.
pub open spec fn general_bytes(e: EventV, dict: Seq<Seq<char>>) -> Seq<u8>
    recommends
        encodable(e),
{
    match e {
        EventV::String(s) => {
            let payload = encode_utf8(s);
            seq![TAG_STRING] + len_bytes(payload.len() as u64) + payload
        },
        EventV::StartArray(z) => match z {
            Size::U64(n) => seq![TAG_ARRAY] + len_bytes(n),
            Size::Streaming => seq![],
        },
        EventV::StartMap(z) => match z {
            Size::U64(n) => seq![TAG_MAP] + len_bytes(n),
            Size::Streaming => seq![],
        },
        _ => event_bytes(e, dict),
    }
}

// ---------------------------------------------------------------------------
// Specification-level parsing of one event.
// ---------------------------------------------------------------------------
/// Result of reading a length: the value and the bytes consumed, or a
/// failure.
pub ghost enum LenOut {
    Len(u64, int),
    LenFail(ErrorCode),
}

/// Result of reading a string's length position: a literal length, a
/// dictionary index, or a failure; each with the bytes consumed.
pub ghost enum StrHeadOut {
    StrLen(u64, int),
    StrDict(u64, int),
    StrFail(ErrorCode),
}

/// Result of parsing one value from the front of a byte sequence: the
/// event and the bytes consumed, or a failure.
pub ghost enum ParseOut {
    Ev(EventV, int),
    Fail(ErrorCode),
}

/// Reads a length from the front of `b`.
pub open spec fn parse_len(b: Seq<u8>) -> LenOut {
    if b.len() == 0 {
        LenOut::LenFail(ErrorCode::UnexpectedEOF)
    } else {
        let marker = b[0];
        if marker < LEN_INLINE_LIMIT {
            LenOut::Len(marker as u64, 1)
        } else if marker == LEN_ESCAPE_U8 {
            if b.len() >= 2 {
                LenOut::Len(b[1] as u64, 2)
            } else {
                LenOut::LenFail(ErrorCode::UnexpectedEOF)
            }
        } else if marker == LEN_ESCAPE_U16 {
            if b.len() >= 3 {
                LenOut::Len(spec_u16_from_le_bytes(b.subrange(1, 3)) as u64, 3)
            } else {
                LenOut::LenFail(ErrorCode::UnexpectedEOF)
            }
        } else if marker == LEN_ESCAPE_U32 {
            if b.len() >= 5 {
                LenOut::Len(spec_u32_from_le_bytes(b.subrange(1, 5)) as u64, 5)
            } else {
                LenOut::LenFail(ErrorCode::UnexpectedEOF)
            }
        } else if marker == LEN_ESCAPE_U64 {
            if b.len() >= 9 {
                LenOut::Len(spec_u64_from_le_bytes(b.subrange(1, 9)), 9)
            } else {
                LenOut::LenFail(ErrorCode::UnexpectedEOF)
            }
        } else {
            LenOut::LenFail(ErrorCode::InvalidLength)
        }
    }
}

/// Reads a string's length position from the front of `b`: like
/// [`parse_len`], but the markers `0xF5..=0xF8` carry a dictionary index
/// instead of a length.
pub open spec fn parse_strhead(b: Seq<u8>) -> StrHeadOut {
    if b.len() == 0 {
        StrHeadOut::StrFail(ErrorCode::UnexpectedEOF)
    } else {
        let marker = b[0];
        if marker == DICT_ESCAPE_U8 {
            if b.len() >= 2 {
                StrHeadOut::StrDict(b[1] as u64, 2)
            } else {
                StrHeadOut::StrFail(ErrorCode::UnexpectedEOF)
            }
        } else if marker == DICT_ESCAPE_U16 {
            if b.len() >= 3 {
                StrHeadOut::StrDict(spec_u16_from_le_bytes(b.subrange(1, 3)) as u64, 3)
            } else {
                StrHeadOut::StrFail(ErrorCode::UnexpectedEOF)
            }
        } else if marker == DICT_ESCAPE_U32 {
            if b.len() >= 5 {
                StrHeadOut::StrDict(spec_u32_from_le_bytes(b.subrange(1, 5)) as u64, 5)
            } else {
                StrHeadOut::StrFail(ErrorCode::UnexpectedEOF)
            }
        } else if marker == DICT_ESCAPE_U64 {
            if b.len() >= 9 {
                StrHeadOut::StrDict(spec_u64_from_le_bytes(b.subrange(1, 9)), 9)
            } else {
                StrHeadOut::StrFail(ErrorCode::UnexpectedEOF)
            }
        } else {
            match parse_len(b) {
                LenOut::Len(n, used) => StrHeadOut::StrLen(n, used),
                LenOut::LenFail(code) => StrHeadOut::StrFail(code),
            }
        }
    }
}

/// The string event carried by a UTF-8 payload, or the failure for a
/// payload that is not UTF-8.
pub open spec fn parse_string_payload(payload: Seq<u8>, consumed: int) -> ParseOut {
    if valid_utf8(payload) {
        ParseOut::Ev(EventV::String(decode_utf8(payload)), consumed)
    } else {
        ParseOut::Fail(ErrorCode::InvalidUTF8)
    }
}

/// The string event carried by dictionary slot `i`, or the failure for an
/// index at or past the dictionary's end.
pub open spec fn parse_dict_ref(i: u64, consumed: int, dict: Seq<Seq<char>>) -> ParseOut {
    if i < dict.len() {
        ParseOut::Ev(EventV::String(dict[i as int]), consumed)
    } else {
        ParseOut::Fail(ErrorCode::InvalidDictionaryIndex)
    }
}

/// Parses one value event from the front of `b`. This is the meaning of
/// the wire format: the decoder is proved to return exactly this, and the
/// canonical and general encodings are proved to parse back to the event
/// they were built from.
pub open spec fn parse_event(b: Seq<u8>, dict: Seq<Seq<char>>) -> ParseOut {
    if b.len() == 0 {
        ParseOut::Fail(ErrorCode::UnexpectedEOF)
    } else {
        let tag = b[0];
        let rest = b.skip(1);
        if tag == TAG_NIL {
            ParseOut::Ev(EventV::Nil, 1)
        } else if tag == TAG_FALSE {
            ParseOut::Ev(EventV::Boolean(false), 1)
        } else if tag == TAG_TRUE {
            ParseOut::Ev(EventV::Boolean(true), 1)
        } else if tag == TAG_BINARY {
            match parse_len(rest) {
                LenOut::Len(n, used) => {
                    if n > rest.len() - used {
                        ParseOut::Fail(ErrorCode::UnexpectedEOF)
                    } else {
                        ParseOut::Ev(
                            EventV::Binary(rest.subrange(used, used + n)),
                            1 + used + n,
                        )
                    }
                },
                LenOut::LenFail(code) => ParseOut::Fail(code),
            }
        } else if tag == TAG_STRING {
            match parse_strhead(rest) {
                StrHeadOut::StrLen(n, used) => {
                    if n > rest.len() - used {
                        ParseOut::Fail(ErrorCode::UnexpectedEOF)
                    } else {
                        parse_string_payload(rest.subrange(used, used + n), 1 + used + n)
                    }
                },
                StrHeadOut::StrDict(i, used) => parse_dict_ref(i, 1 + used, dict),
                StrHeadOut::StrFail(code) => ParseOut::Fail(code),
            }
        } else if tag == TAG_ARRAY {
            match parse_len(rest) {
                LenOut::Len(n, used) => ParseOut::Ev(
                    EventV::StartArray(Size::U64(n)),
                    1 + used,
                ),
                LenOut::LenFail(code) => ParseOut::Fail(code),
            }
        } else if tag == TAG_STRUCT {
            match parse_len(rest) {
                LenOut::Len(n, used) => ParseOut::Ev(
                    EventV::StartStruct(Size::U64(n)),
                    1 + used,
                ),
                LenOut::LenFail(code) => ParseOut::Fail(code),
            }
        } else if tag == TAG_MAP {
            match parse_len(rest) {
                LenOut::Len(n, used) => ParseOut::Ev(EventV::StartMap(Size::U64(n)), 1 + used),
                LenOut::LenFail(code) => ParseOut::Fail(code),
            }
        } else if tag == TAG_OPEN_STRUCT {
            match parse_len(rest) {
                LenOut::Len(n, used) => ParseOut::Ev(
                    EventV::StartOpenStruct(Size::U64(n)),
                    1 + used,
                ),
                LenOut::LenFail(code) => ParseOut::Fail(code),
            }
        } else if tag == TAG_U8 {
            if rest.len() >= 1 {
                ParseOut::Ev(EventV::U8(rest[0]), 2)
            } else {
                ParseOut::Fail(ErrorCode::UnexpectedEOF)
            }
        } else if tag == TAG_U16 {
            if rest.len() >= 2 {
                ParseOut::Ev(EventV::U16(spec_u16_from_le_bytes(rest.subrange(0, 2))), 3)
            } else {
                ParseOut::Fail(ErrorCode::UnexpectedEOF)
            }
        } else if tag == TAG_U32 {
            if rest.len() >= 4 {
                ParseOut::Ev(EventV::U32(spec_u32_from_le_bytes(rest.subrange(0, 4))), 5)
            } else {
                ParseOut::Fail(ErrorCode::UnexpectedEOF)
            }
        } else if tag == TAG_U64 {
            if rest.len() >= 8 {
                ParseOut::Ev(EventV::U64(spec_u64_from_le_bytes(rest.subrange(0, 8))), 9)
            } else {
                ParseOut::Fail(ErrorCode::UnexpectedEOF)
            }
        } else if tag == TAG_I8 {
            if rest.len() >= 1 {
                ParseOut::Ev(EventV::I8(i8_of_u8(rest[0])), 2)
            } else {
                ParseOut::Fail(ErrorCode::UnexpectedEOF)
            }
        } else if tag == TAG_I16 {
            if rest.len() >= 2 {
                ParseOut::Ev(
                    EventV::I16(i16_of_u16(spec_u16_from_le_bytes(rest.subrange(0, 2)))),
                    3,
                )
            } else {
                ParseOut::Fail(ErrorCode::UnexpectedEOF)
            }
        } else if tag == TAG_I32 {
            if rest.len() >= 4 {
                ParseOut::Ev(
                    EventV::I32(i32_of_u32(spec_u32_from_le_bytes(rest.subrange(0, 4)))),
                    5,
                )
            } else {
                ParseOut::Fail(ErrorCode::UnexpectedEOF)
            }
        } else if tag == TAG_I64 {
            if rest.len() >= 8 {
                ParseOut::Ev(
                    EventV::I64(i64_of_u64(spec_u64_from_le_bytes(rest.subrange(0, 8)))),
                    9,
                )
            } else {
                ParseOut::Fail(ErrorCode::UnexpectedEOF)
            }
        } else if tag == TAG_F32 {
            if rest.len() >= 4 {
                ParseOut::Ev(EventV::F32(spec_u32_from_le_bytes(rest.subrange(0, 4))), 5)
            } else {
                ParseOut::Fail(ErrorCode::UnexpectedEOF)
            }
        } else if tag == TAG_F64 {
            if rest.len() >= 8 {
                ParseOut::Ev(EventV::F64(spec_u64_from_le_bytes(rest.subrange(0, 8))), 9)
            } else {
                ParseOut::Fail(ErrorCode::UnexpectedEOF)
            }
        } else if TAG_FIXNUM_1 <= tag <= TAG_FIXNUM_16 {
            let width = if tag == TAG_FIXNUM_1 {
                1int
            } else if tag == TAG_FIXNUM_2 {
                2int
            } else if tag == TAG_FIXNUM_4 {
                4int
            } else if tag == TAG_FIXNUM_8 {
                8int
            } else {
                16int
            };
            if rest.len() >= width {
                ParseOut::Ev(EventV::Fixnum(rest.subrange(0, width)), 1 + width)
            } else {
                ParseOut::Fail(ErrorCode::UnexpectedEOF)
            }
        } else if COMPACT_ARRAY_BASE <= tag <= COMPACT_ARRAY_BASE + 0x0F {
            ParseOut::Ev(EventV::StartArray(Size::U64((tag - COMPACT_ARRAY_BASE) as u64)), 1)
        } else if COMPACT_MAP_BASE <= tag <= COMPACT_MAP_BASE + 0x0F {
            ParseOut::Ev(EventV::StartMap(Size::U64((tag - COMPACT_MAP_BASE) as u64)), 1)
        } else if COMPACT_STRING_BASE <= tag <= COMPACT_STRING_BASE + 0x0F {
            let n = tag - COMPACT_STRING_BASE;
            if n > rest.len() {
                ParseOut::Fail(ErrorCode::UnexpectedEOF)
            } else {
                parse_string_payload(rest.subrange(0, n as int), 1 + n)
            }
        } else if tag >= DICT_INLINE_BASE {
            parse_dict_ref((tag - DICT_INLINE_BASE) as u64, 1, dict)
        } else {
            ParseOut::Fail(ErrorCode::InvalidType)
        }
    }
}

// ---------------------------------------------------------------------------
// The nesting stack and whole documents.
// ---------------------------------------------------------------------------
/// True for the events that open a composite value.
pub open spec fn is_start(e: EventV) -> bool {
    e is StartArray || e is StartStruct || e is StartMap || e is StartOpenStruct
}

/// Remaining-child slots a composite opening pushes: an array element and a
/// struct field are one slot each, a map or open-struct entry is a key
/// slot plus a value slot, and a struct or open-struct folds in one extra
/// slot for its type-name fragment.
pub open spec fn child_slots(e: EventV) -> u128 {
    match e {
        EventV::StartArray(Size::U64(n)) => n as u128,
        EventV::StartStruct(Size::U64(n)) => (n as u128 + 1) as u128,
        EventV::StartMap(Size::U64(n)) => (2 * (n as u128)) as u128,
        EventV::StartOpenStruct(Size::U64(n)) => (2 * (n as u128) + 1) as u128,
        _ => 0,
    }
}

/// True when the next document event may be `e`, given the stack of
/// remaining-child counts (innermost last; the root frame is the first
/// entry and expects exactly one value).
pub open spec fn step_ok(stack: Seq<u128>, e: EventV) -> bool {
    if e is End {
        stack.len() > 1 && stack.last() == 0
    } else {
        stack.len() > 0 && stack.last() > 0
    }
}

/// The stack after event `e`: an end pops the exhausted frame; a value
/// consumes one slot of the innermost frame; a composite opening also
/// pushes its own frame.
pub open spec fn step(stack: Seq<u128>, e: EventV) -> Seq<u128>
    recommends
        step_ok(stack, e),
{
    if e is End {
        stack.drop_last()
    } else {
        let consumed = stack.drop_last().push((stack.last() - 1) as u128);
        if is_start(e) {
            consumed.push(child_slots(e))
        } else {
            consumed
        }
    }
}

/// True when `events` is exactly what the stack still expects: every step
/// is legal and afterwards only the exhausted root frame remains.
pub open spec fn doc_wf_from(stack: Seq<u128>, events: Seq<EventV>) -> bool
    decreases events.len(),
{
    if events.len() == 0 {
        stack.len() == 1 && stack[0] == 0
    } else {
        step_ok(stack, events[0]) && doc_wf_from(step(stack, events[0]), events.drop_first())
    }
}

/// True when `events` forms exactly one complete, properly nested
/// document.
pub open spec fn doc_wf(events: Seq<EventV>) -> bool {
    doc_wf_from(seq![1u128], events)
}

/// True when every event of the sequence can be put on the wire.
pub open spec fn all_encodable(events: Seq<EventV>) -> bool {
    forall|i: int| 0 <= i < events.len() ==> encodable(#[trigger] events[i])
}

/// The canonical bytes of an event sequence: each event's bytes in order.
pub open spec fn encode_seq(events: Seq<EventV>, dict: Seq<Seq<char>>) -> Seq<u8>
    decreases events.len(),
{
    if events.len() == 0 {
        seq![]
    } else {
        event_bytes(events[0], dict) + encode_seq(events.drop_first(), dict)
    }
}

/// The general (escape-free-tag) bytes of an event sequence: each event's
/// general form in order. The encoder never produces this stream where a
/// compact form applies, but the decoder accepts it.
pub open spec fn encode_seq_general(events: Seq<EventV>, dict: Seq<Seq<char>>) -> Seq<u8>
    decreases events.len(),
{
    if events.len() == 0 {
        seq![]
    } else {
        general_bytes(events[0], dict) + encode_seq_general(events.drop_first(), dict)
    }
}

/// The event sequence a decoder started on `bytes` with the given stack
/// reads before its clean end-of-stream, or `None` if any read fails.
/// Trailing bytes after the root value closes are never touched.
pub open spec fn decode_from(bytes: Seq<u8>, stack: Seq<u128>, dict: Seq<Seq<char>>) -> Option<
    Seq<EventV>,
>
    decreases bytes.len(), stack.len(),
{
    if stack.len() == 0 {
        None
    } else if stack.last() == 0 {
        if stack.len() == 1 {
            Some(seq![])
        } else {
            match decode_from(bytes, stack.drop_last(), dict) {
                Some(tail) => Some(seq![EventV::End] + tail),
                None => None,
            }
        }
    } else {
        match parse_event(bytes, dict) {
            ParseOut::Ev(e, used) => if 1 <= used <= bytes.len() && !(e is End) {
                match decode_from(bytes.skip(used), step(stack, e), dict) {
                    Some(tail) => Some(seq![e] + tail),
                    None => None,
                }
            } else {
                None
            },
            ParseOut::Fail(_) => None,
        }
    }
}

/// The events a whole decoding session over `bytes` yields, root frame
/// included, or `None` if any read fails.
pub open spec fn decode_doc(bytes: Seq<u8>, dict: Seq<Seq<char>>) -> Option<Seq<EventV>> {
    decode_from(bytes, seq![1u128], dict)
}

} // verus!
