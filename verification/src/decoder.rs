//! The streaming decoder: reads a byte buffer and emits the document's
//! events one at a time.

use vstd::bytes::{u16_from_le_bytes, u32_from_le_bytes, u64_from_le_bytes};
use vstd::prelude::*;
use vstd::slice::{slice_subrange, slice_to_vec};
use vstd::utf8::{decode_utf8, encode_utf8, encode_utf8_decode_utf8, valid_utf8};

pub use crate::decoder_error::{DecoderError, DecoderResult, ErrorCode};
use crate::wire::{
    decode_from, i16_from_u16, i32_from_u32, i64_from_u64, i8_from_u8, parse_dict_ref,
    parse_event, parse_len, parse_string_payload, parse_strhead, step, LenOut, ParseOut,
    StrHeadOut, COMPACT_ARRAY_BASE, COMPACT_MAP_BASE,
    COMPACT_STRING_BASE, DICT_ESCAPE_U16, DICT_ESCAPE_U32, DICT_ESCAPE_U64, DICT_ESCAPE_U8,
    DICT_INLINE_BASE, LEN_ESCAPE_U16, LEN_ESCAPE_U32, LEN_ESCAPE_U64, LEN_ESCAPE_U8,
    LEN_INLINE_LIMIT, TAG_ARRAY, TAG_BINARY, TAG_F32, TAG_F64, TAG_FALSE, TAG_FIXNUM_1,
    TAG_FIXNUM_16, TAG_FIXNUM_2, TAG_FIXNUM_4, TAG_FIXNUM_8, TAG_I16, TAG_I32, TAG_I64, TAG_I8,
    TAG_MAP, TAG_NIL, TAG_OPEN_STRUCT, TAG_STRING, TAG_STRUCT, TAG_TRUE, TAG_U16, TAG_U32,
    TAG_U64, TAG_U8,
};
use crate::{Event, EventV, Size};

verus! {

/// Copies `count` bytes of the buffer starting at `start`.
fn copy_range(input: &Vec<u8>, start: usize, count: usize) -> (r: Vec<u8>)
    requires
        start + count <= input@.len(),
    ensures
        r@ == input@.subrange(start as int, start as int + count as int),
{
    let len = input.len();
    assert(start + count <= len);
    slice_to_vec(slice_subrange(input.as_slice(), start, start + count))
}

/// Relies on `String::from_utf8`: it succeeds exactly on input that is
/// valid UTF-8, and the string it returns is the text those bytes encode.
#[verifier::external_body]
fn utf8_to_string(v: Vec<u8>) -> (r: Option<String>)
    ensures
        r is Some <==> valid_utf8(v@),
        r matches Some(s) ==> encode_utf8(s@) == v@,
{
    match String::from_utf8(v) {
        Ok(s) => Some(s),
        Err(_) => None,
    }
}

/// Reads a length from the buffer at `pos`, returning the value and the
/// bytes consumed.
fn read_length(input: &Vec<u8>, pos: usize) -> (r: Result<(u64, usize), ErrorCode>)
    requires
        pos <= input@.len(),
    ensures
        ({
            let out = parse_len(input@.skip(pos as int));
            match r {
                Ok((n, used)) => out == LenOut::Len(n, used as int) && 1 <= used && pos + used
                    <= input@.len(),
                Err(code) => out == LenOut::LenFail(code),
            }
        }),
{
    let len = input.len();
    let avail = len - pos;
    let ghost b = input@.skip(pos as int);
    if avail == 0 {
        return Err(ErrorCode::UnexpectedEOF);
    }
    let marker = input[pos];
    assert(b[0] == marker);
    if marker < LEN_INLINE_LIMIT {
        Ok(((marker as u64), 1))
    } else if marker == LEN_ESCAPE_U8 {
        if avail >= 2 {
            assert(b[1] == input@[pos + 1]);
            Ok(((input[pos + 1] as u64), 2))
        } else {
            Err(ErrorCode::UnexpectedEOF)
        }
    } else if marker == LEN_ESCAPE_U16 {
        if avail >= 3 {
            let v = u16_from_le_bytes(slice_subrange(input.as_slice(), pos + 1, pos + 3));
            assert(input@.subrange(pos + 1, pos + 3) =~= b.subrange(1, 3));
            Ok(((v as u64), 3))
        } else {
            Err(ErrorCode::UnexpectedEOF)
        }
    } else if marker == LEN_ESCAPE_U32 {
        if avail >= 5 {
            let v = u32_from_le_bytes(slice_subrange(input.as_slice(), pos + 1, pos + 5));
            assert(input@.subrange(pos + 1, pos + 5) =~= b.subrange(1, 5));
            Ok(((v as u64), 5))
        } else {
            Err(ErrorCode::UnexpectedEOF)
        }
    } else if marker == LEN_ESCAPE_U64 {
        if avail >= 9 {
            let v = u64_from_le_bytes(slice_subrange(input.as_slice(), pos + 1, pos + 9));
            assert(input@.subrange(pos + 1, pos + 9) =~= b.subrange(1, 9));
            Ok((v, 9))
        } else {
            Err(ErrorCode::UnexpectedEOF)
        }
    } else {
        Err(ErrorCode::InvalidLength)
    }
}

/// What a string's length position held: a literal byte length or a
/// dictionary index, with the bytes consumed.
enum StrHead {
    Length(u64, usize),
    DictRef(u64, usize),
}

/// Reads a string's length position from the buffer at `pos`.
fn read_strhead(input: &Vec<u8>, pos: usize) -> (r: Result<StrHead, ErrorCode>)
    requires
        pos <= input@.len(),
    ensures
        ({
            let out = parse_strhead(input@.skip(pos as int));
            match r {
                Ok(StrHead::Length(n, used)) => out == StrHeadOut::StrLen(n, used as int) && 1
                    <= used && pos + used <= input@.len(),
                Ok(StrHead::DictRef(i, used)) => out == StrHeadOut::StrDict(i, used as int) && 1
                    <= used && pos + used <= input@.len(),
                Err(code) => out == StrHeadOut::StrFail(code),
            }
        }),
{
    let len = input.len();
    let avail = len - pos;
    let ghost b = input@.skip(pos as int);
    if avail == 0 {
        return Err(ErrorCode::UnexpectedEOF);
    }
    let marker = input[pos];
    assert(b[0] == marker);
    if marker == DICT_ESCAPE_U8 {
        if avail >= 2 {
            assert(b[1] == input@[pos + 1]);
            Ok(StrHead::DictRef(input[pos + 1] as u64, 2))
        } else {
            Err(ErrorCode::UnexpectedEOF)
        }
    } else if marker == DICT_ESCAPE_U16 {
        if avail >= 3 {
            let v = u16_from_le_bytes(slice_subrange(input.as_slice(), pos + 1, pos + 3));
            assert(input@.subrange(pos + 1, pos + 3) =~= b.subrange(1, 3));
            Ok(StrHead::DictRef(v as u64, 3))
        } else {
            Err(ErrorCode::UnexpectedEOF)
        }
    } else if marker == DICT_ESCAPE_U32 {
        if avail >= 5 {
            let v = u32_from_le_bytes(slice_subrange(input.as_slice(), pos + 1, pos + 5));
            assert(input@.subrange(pos + 1, pos + 5) =~= b.subrange(1, 5));
            Ok(StrHead::DictRef(v as u64, 5))
        } else {
            Err(ErrorCode::UnexpectedEOF)
        }
    } else if marker == DICT_ESCAPE_U64 {
        if avail >= 9 {
            let v = u64_from_le_bytes(slice_subrange(input.as_slice(), pos + 1, pos + 9));
            assert(input@.subrange(pos + 1, pos + 9) =~= b.subrange(1, 9));
            Ok(StrHead::DictRef(v, 9))
        } else {
            Err(ErrorCode::UnexpectedEOF)
        }
    } else {
        match read_length(input, pos) {
            Ok((n, used)) => Ok(StrHead::Length(n, used)),
            Err(code) => Err(code),
        }
    }
}

/// Looks up dictionary slot `i`, or reports the out-of-range failure.
fn lookup_dict(dictionary: &Vec<String>, i: u64, consumed: usize) -> (r: Result<
    (Event, usize),
    ErrorCode,
>)
    ensures
        ({
            let out = parse_dict_ref(i, consumed as int, dictionary.deep_view());
            match r {
                Ok((ev, used)) => out == ParseOut::Ev(ev@, used as int) && used == consumed,
                Err(code) => out == ParseOut::Fail(code),
            }
        }),
{
    if i < dictionary.len() as u64 {
        let idx = i as usize;
        let s = dictionary[idx].clone();
        assert(dictionary.deep_view()[i as int] == dictionary@[i as int]@);
        Ok((Event::String(s), consumed))
    } else {
        Err(ErrorCode::InvalidDictionaryIndex)
    }
}

/// Converts a copied payload into a string event, or reports the UTF-8
/// failure.
fn string_from_payload(payload: Vec<u8>, consumed: usize) -> (r: Result<(Event, usize), ErrorCode>)
    ensures
        ({
            let out = parse_string_payload(payload@, consumed as int);
            match r {
                Ok((ev, used)) => out == ParseOut::Ev(ev@, used as int) && used == consumed,
                Err(code) => out == ParseOut::Fail(code),
            }
        }),
{
    let ghost bytes = payload@;
    match utf8_to_string(payload) {
        Some(s) => {
            proof {
                encode_utf8_decode_utf8(s@);
            }
            Ok((Event::String(s), consumed))
        },
        None => Err(ErrorCode::InvalidUTF8),
    }
}

/// Parses one value event from the buffer at `pos`, returning the event
/// and the bytes consumed. This is the executable counterpart of
/// [`parse_event`] and is proved to agree with it exactly.
#[verifier::rlimit(30)]
fn parse_value(input: &Vec<u8>, pos: usize, dictionary: &Vec<String>) -> (r: Result<
    (Event, usize),
    ErrorCode,
>)
    requires
        pos <= input@.len(),
    ensures
        ({
            let out = parse_event(input@.skip(pos as int), dictionary.deep_view());
            match r {
                Ok((ev, used)) => out == ParseOut::Ev(ev@, used as int) && 1 <= used && pos + used
                    <= input@.len(),
                Err(code) => out == ParseOut::Fail(code),
            }
        }),
{
    let len = input.len();
    let avail = len - pos;
    let ghost b = input@.skip(pos as int);
    let ghost rest = b.skip(1);
    if avail == 0 {
        return Err(ErrorCode::UnexpectedEOF);
    }
    let tag = input[pos];
    assert(b[0] == tag);
    assert(rest =~= input@.skip(pos + 1));
    if tag == TAG_NIL {
        Ok((Event::Nil, 1))
    } else if tag == TAG_FALSE {
        Ok((Event::Boolean(false), 1))
    } else if tag == TAG_TRUE {
        Ok((Event::Boolean(true), 1))
    } else if tag == TAG_BINARY {
        match read_length(input, pos + 1) {
            Ok((n, used)) => {
                let data_start = pos + 1 + used;
                let data_avail = len - data_start;
                if n > data_avail as u64 {
                    Err(ErrorCode::UnexpectedEOF)
                } else {
                    let count = n as usize;
                    let payload = copy_range(input, data_start, count);
                    assert(payload@ =~= rest.subrange(used as int, used + n));
                    Ok((Event::Binary(payload), 1 + used + count))
                }
            },
            Err(code) => Err(code),
        }
    } else if tag == TAG_STRING {
        match read_strhead(input, pos + 1) {
            Ok(StrHead::Length(n, used)) => {
                let data_start = pos + 1 + used;
                let data_avail = len - data_start;
                if n > data_avail as u64 {
                    Err(ErrorCode::UnexpectedEOF)
                } else {
                    let count = n as usize;
                    let payload = copy_range(input, data_start, count);
                    assert(payload@ =~= rest.subrange(used as int, used + n));
                    string_from_payload(payload, 1 + used + count)
                }
            },
            Ok(StrHead::DictRef(i, used)) => lookup_dict(dictionary, i, 1 + used),
            Err(code) => Err(code),
        }
    } else if tag == TAG_ARRAY {
        match read_length(input, pos + 1) {
            Ok((n, used)) => Ok((Event::StartArray(Size::U64(n)), 1 + used)),
            Err(code) => Err(code),
        }
    } else if tag == TAG_STRUCT {
        match read_length(input, pos + 1) {
            Ok((n, used)) => Ok((Event::StartStruct(Size::U64(n)), 1 + used)),
            Err(code) => Err(code),
        }
    } else if tag == TAG_MAP {
        match read_length(input, pos + 1) {
            Ok((n, used)) => Ok((Event::StartMap(Size::U64(n)), 1 + used)),
            Err(code) => Err(code),
        }
    } else if tag == TAG_OPEN_STRUCT {
        match read_length(input, pos + 1) {
            Ok((n, used)) => Ok((Event::StartOpenStruct(Size::U64(n)), 1 + used)),
            Err(code) => Err(code),
        }
    } else if tag == TAG_U8 {
        if avail >= 2 {
            assert(rest[0] == input@[pos + 1]);
            Ok((Event::U8(input[pos + 1]), 2))
        } else {
            Err(ErrorCode::UnexpectedEOF)
        }
    } else if tag == TAG_U16 {
        if avail >= 3 {
            let v = u16_from_le_bytes(slice_subrange(input.as_slice(), pos + 1, pos + 3));
            assert(input@.subrange(pos + 1, pos + 3) =~= rest.subrange(0, 2));
            Ok((Event::U16(v), 3))
        } else {
            Err(ErrorCode::UnexpectedEOF)
        }
    } else if tag == TAG_U32 {
        if avail >= 5 {
            let v = u32_from_le_bytes(slice_subrange(input.as_slice(), pos + 1, pos + 5));
            assert(input@.subrange(pos + 1, pos + 5) =~= rest.subrange(0, 4));
            Ok((Event::U32(v), 5))
        } else {
            Err(ErrorCode::UnexpectedEOF)
        }
    } else if tag == TAG_U64 {
        if avail >= 9 {
            let v = u64_from_le_bytes(slice_subrange(input.as_slice(), pos + 1, pos + 9));
            assert(input@.subrange(pos + 1, pos + 9) =~= rest.subrange(0, 8));
            Ok((Event::U64(v), 9))
        } else {
            Err(ErrorCode::UnexpectedEOF)
        }
    } else if tag == TAG_I8 {
        if avail >= 2 {
            assert(rest[0] == input@[pos + 1]);
            Ok((Event::I8(i8_from_u8(input[pos + 1])), 2))
        } else {
            Err(ErrorCode::UnexpectedEOF)
        }
    } else if tag == TAG_I16 {
        if avail >= 3 {
            let v = u16_from_le_bytes(slice_subrange(input.as_slice(), pos + 1, pos + 3));
            assert(input@.subrange(pos + 1, pos + 3) =~= rest.subrange(0, 2));
            Ok((Event::I16(i16_from_u16(v)), 3))
        } else {
            Err(ErrorCode::UnexpectedEOF)
        }
    } else if tag == TAG_I32 {
        if avail >= 5 {
            let v = u32_from_le_bytes(slice_subrange(input.as_slice(), pos + 1, pos + 5));
            assert(input@.subrange(pos + 1, pos + 5) =~= rest.subrange(0, 4));
            Ok((Event::I32(i32_from_u32(v)), 5))
        } else {
            Err(ErrorCode::UnexpectedEOF)
        }
    } else if tag == TAG_I64 {
        if avail >= 9 {
            let v = u64_from_le_bytes(slice_subrange(input.as_slice(), pos + 1, pos + 9));
            assert(input@.subrange(pos + 1, pos + 9) =~= rest.subrange(0, 8));
            Ok((Event::I64(i64_from_u64(v)), 9))
        } else {
            Err(ErrorCode::UnexpectedEOF)
        }
    } else if tag == TAG_F32 {
        if avail >= 5 {
            let v = u32_from_le_bytes(slice_subrange(input.as_slice(), pos + 1, pos + 5));
            assert(input@.subrange(pos + 1, pos + 5) =~= rest.subrange(0, 4));
            Ok((Event::F32(v), 5))
        } else {
            Err(ErrorCode::UnexpectedEOF)
        }
    } else if tag == TAG_F64 {
        if avail >= 9 {
            let v = u64_from_le_bytes(slice_subrange(input.as_slice(), pos + 1, pos + 9));
            assert(input@.subrange(pos + 1, pos + 9) =~= rest.subrange(0, 8));
            Ok((Event::F64(v), 9))
        } else {
            Err(ErrorCode::UnexpectedEOF)
        }
    } else if TAG_FIXNUM_1 <= tag && tag <= TAG_FIXNUM_16 {
        let width: usize = if tag == TAG_FIXNUM_1 {
            1
        } else if tag == TAG_FIXNUM_2 {
            2
        } else if tag == TAG_FIXNUM_4 {
            4
        } else if tag == TAG_FIXNUM_8 {
            8
        } else {
            16
        };
        if avail - 1 >= width {
            let payload = copy_range(input, pos + 1, width);
            assert(payload@ =~= rest.subrange(0, width as int));
            Ok((Event::Fixnum(payload), 1 + width))
        } else {
            Err(ErrorCode::UnexpectedEOF)
        }
    } else if COMPACT_ARRAY_BASE <= tag && tag <= COMPACT_ARRAY_BASE + 0x0F {
        Ok((Event::StartArray(Size::U64((tag - COMPACT_ARRAY_BASE) as u64)), 1))
    } else if COMPACT_MAP_BASE <= tag && tag <= COMPACT_MAP_BASE + 0x0F {
        Ok((Event::StartMap(Size::U64((tag - COMPACT_MAP_BASE) as u64)), 1))
    } else if COMPACT_STRING_BASE <= tag && tag <= COMPACT_STRING_BASE + 0x0F {
        let n = (tag - COMPACT_STRING_BASE) as usize;
        if n > avail - 1 {
            Err(ErrorCode::UnexpectedEOF)
        } else {
            let payload = copy_range(input, pos + 1, n);
            assert(payload@ =~= rest.subrange(0, n as int));
            string_from_payload(payload, 1 + n)
        }
    } else if tag >= DICT_INLINE_BASE {
        lookup_dict(dictionary, (tag - DICT_INLINE_BASE) as u64, 1)
    } else {
        Err(ErrorCode::InvalidType)
    }
}

/// Reads a byte buffer as a stream of events, resolving dictionary
/// references against a caller-supplied dictionary that must match the
/// encoder's.
pub struct Decoder {
    input: Vec<u8>,
    pos: usize,
    dictionary: Vec<String>,
    stack: Vec<u128>,
}

impl Decoder {
    /// The whole byte buffer being decoded.
    pub closed spec fn stream(&self) -> Seq<u8> {
        self.input@
    }

    /// How many bytes of the buffer have been consumed.
    pub closed spec fn position(&self) -> int {
        self.pos as int
    }

    /// The dictionary, as a sequence of texts.
    pub closed spec fn dict(&self) -> Seq<Seq<char>> {
        self.dictionary.deep_view()
    }

    /// The nesting stack: remaining-child counts, innermost last; the
    /// first entry is the root frame.
    pub closed spec fn frames(&self) -> Seq<u128> {
        self.stack@
    }

    /// The bytes not yet consumed.
    pub open spec fn remaining(&self) -> Seq<u8> {
        self.stream().skip(self.position())
    }

    /// The decoder's invariant: the position never passes the buffer's
    /// end.
    pub closed spec fn wf(&self) -> bool {
        self.pos <= self.input@.len()
    }

    /// A fresh decoder over `input`, with the root frame expecting exactly
    /// one top-level value.
    pub fn new(input: Vec<u8>, dictionary: Vec<String>) -> (r: Decoder)
        ensures
            r.wf(),
            r.stream() == input@,
            r.position() == 0,
            r.dict() == dictionary.deep_view(),
            r.frames() == seq![1u128],
    {
        let mut stack: Vec<u128> = Vec::new();
        stack.push(1);
        assert(stack@ =~= seq![1u128]);
        Decoder { input, pos: 0, dictionary, stack }
    }

    /// Reads the next event.
    ///
    /// While a composite is open and has remaining children, one value is
    /// parsed from the buffer per [`parse_event`]; when the innermost
    /// frame is exhausted an `End` event is emitted without reading, and
    /// when the root frame is exhausted the clean end of the stream is
    /// signalled with `Ok(None)`. Reading after that reports
    /// `EndOfStream`. A failed read leaves the decoder unchanged; the
    /// nesting stack is then no longer trustworthy and the caller should
    /// discard the document.
    pub fn read(&mut self) -> (r: DecoderResult<Option<Event>>)
        requires
            old(self).wf(),
        ensures
            final(self).wf(),
            final(self).stream() == old(self).stream(),
            final(self).dict() == old(self).dict(),
            read_post(
                old(self).remaining(),
                old(self).frames(),
                old(self).dict(),
                final(self).position() - old(self).position(),
                final(self).frames(),
                r,
            ),
    {
        let slen = self.stack.len();
        if slen == 0 {
            return Err(DecoderError::StreamError(ErrorCode::EndOfStream));
        }
        let top = self.stack[slen - 1];
        if top == 0 {
            self.stack.pop();
            if slen == 1 {
                return Ok(None);
            } else {
                return Ok(Some(Event::End));
            }
        }
        match parse_value(&self.input, self.pos, &self.dictionary) {
            Ok((ev, used)) => {
                let len = self.input.len();
                assert(self.pos + used <= len);
                self.pos = self.pos + used;
                self.stack.pop();
                self.stack.push(top - 1);
                match &ev {
                    Event::StartArray(Size::U64(n)) => self.stack.push(*n as u128),
                    Event::StartStruct(Size::U64(n)) => self.stack.push((*n as u128) + 1),
                    Event::StartMap(Size::U64(n)) => self.stack.push(2 * (*n as u128)),
                    Event::StartOpenStruct(Size::U64(n)) => self.stack.push(
                        2 * (*n as u128) + 1,
                    ),
                    _ => {},
                }
                proof {
                    assert(final(self).frames() =~= step(old(self).frames(), ev@));
                }
                Ok(Some(ev))
            },
            Err(code) => Err(DecoderError::StreamError(code)),
        }
    }

    /// Reads every remaining event up to the clean end of the stream.
    ///
    /// Succeeds exactly when the whole remaining session succeeds
    /// ([`decode_from`]), and then returns exactly its events; the first
    /// failed read is reported unchanged.
    pub fn read_all(&mut self) -> (r: DecoderResult<Vec<Event>>)
        requires
            old(self).wf(),
        ensures
            final(self).wf(),
            final(self).stream() == old(self).stream(),
            final(self).dict() == old(self).dict(),
            match r {
                Ok(events) => decode_from(
                    old(self).remaining(),
                    old(self).frames(),
                    old(self).dict(),
                ) == Some(events.deep_view()),
                Err(_) => decode_from(
                    old(self).remaining(),
                    old(self).frames(),
                    old(self).dict(),
                ) is None,
            },
    {
        let ghost orig = decode_from(old(self).remaining(), old(self).frames(), old(self).dict());
        let mut events: Vec<Event> = Vec::new();
        loop
            invariant
                self.wf(),
                self.stream() == old(self).stream(),
                self.dict() == old(self).dict(),
                orig == decode_from(old(self).remaining(), old(self).frames(), old(self).dict()),
                ({
                    let cur = decode_from(self.remaining(), self.frames(), self.dict());
                    match cur {
                        Some(suffix) => orig == Some(events.deep_view() + suffix),
                        None => orig is None,
                    }
                }),
            decreases self.stream().len() - self.position(), self.frames().len(),
        {
            let ghost pre = *self;
            let ghost pre_dv = events.deep_view();
            match self.read() {
                Ok(Some(ev)) => {
                    events.push(ev);
                    proof {
                        assert(events.deep_view() =~= pre_dv + seq![ev@]);
                        if pre.frames().len() > 0 && pre.frames().last() == 0 {
                            match decode_from(self.remaining(), self.frames(), self.dict()) {
                                Some(suffix) => {
                                    assert(pre_dv + (seq![EventV::End] + suffix) =~= (pre_dv
                                        + seq![EventV::End]) + suffix);
                                },
                                None => {},
                            }
                        } else {
                            let e = ev@;
                            let used = self.position() - pre.position();
                            assert(pre.remaining().skip(used) =~= self.remaining());
                            match decode_from(self.remaining(), self.frames(), self.dict()) {
                                Some(suffix) => {
                                    assert(pre_dv + (seq![e] + suffix) =~= (pre_dv + seq![e])
                                        + suffix);
                                },
                                None => {},
                            }
                        }
                    }
                },
                Ok(None) => {
                    proof {
                        assert(pre_dv + Seq::<EventV>::empty() =~= pre_dv);
                    }
                    return Ok(events);
                },
                Err(code) => {
                    return Err(code);
                },
            }
        }
    }
}

/// Everything [`Decoder::read`] guarantees about one read: how the result,
/// the consumed bytes and the new nesting stack follow from the remaining
/// bytes and the old stack.
pub open spec fn read_post(
    remaining: Seq<u8>,
    stack: Seq<u128>,
    dict: Seq<Seq<char>>,
    consumed: int,
    stack2: Seq<u128>,
    r: Result<Option<Event>, DecoderError>,
) -> bool {
    match r {
        Ok(opt) => match opt {
            None => stack.len() == 1 && stack.last() == 0 && consumed == 0 && stack2
                == stack.drop_last(),
            Some(ev) => {
                if stack.len() > 0 && stack.last() == 0 {
                    ev@ == EventV::End && stack.len() > 1 && consumed == 0 && stack2
                        == stack.drop_last()
                } else {
                    stack.len() > 0 && stack.last() > 0 && (parse_event(remaining, dict) matches
                        ParseOut::Ev(e, used) && ev@ == e && consumed == used && 1 <= used
                        && stack2 == step(
                        stack,
                        e,
                    ))
                }
            },
        },
        Err(err) => consumed == 0 && stack2 == stack && match err {
            DecoderError::StreamError(code) => {
                if stack.len() == 0 {
                    code == ErrorCode::EndOfStream
                } else {
                    stack.last() > 0 && parse_event(remaining, dict) == ParseOut::Fail(code)
                }
            },
        },
    }
}

} // verus!
