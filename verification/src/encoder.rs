//! The streaming encoder: accepts the document's events one at a time and
//! appends their canonical encoding to a byte buffer.

use vstd::bytes::{u16_to_le_bytes, u32_to_le_bytes, u64_to_le_bytes};
use vstd::prelude::*;
use vstd::slice::slice_to_vec;
use vstd::string::StrSliceExecFns;

use crate::encoder_error::{EncoderError, ErrorCode};

pub use crate::encoder_error::EncoderResult;
use crate::wire::{
    dict_index, dict_index_from, dict_ref_bytes, encodable, encode_seq, event_bytes, len_bytes,
    step, string_bytes, u16_from_i16, u32_from_i32, u64_from_i64, u8_from_i8,
    COMPACT_ARRAY_BASE, COMPACT_MAP_BASE, COMPACT_STRING_BASE, DICT_ESCAPE_U16, DICT_ESCAPE_U32,
    DICT_ESCAPE_U64, DICT_ESCAPE_U8, DICT_INLINE_BASE, LEN_ESCAPE_U16, LEN_ESCAPE_U32,
    LEN_ESCAPE_U64, LEN_ESCAPE_U8, TAG_ARRAY, TAG_BINARY, TAG_F32, TAG_F64, TAG_FALSE,
    TAG_FIXNUM_1,
    TAG_FIXNUM_16, TAG_FIXNUM_2, TAG_FIXNUM_4, TAG_FIXNUM_8, TAG_I16, TAG_I32, TAG_I64, TAG_I8,
    TAG_MAP, TAG_NIL, TAG_OPEN_STRUCT, TAG_STRING, TAG_STRUCT, TAG_TRUE, TAG_U16, TAG_U32,
    TAG_U64, TAG_U8,
};
use crate::{Event, EventV, Size};

verus! {

/// Appends the little-endian bytes of `v`.
fn push_le16(out: &mut Vec<u8>, v: u16)
    ensures
        final(out)@ == old(out)@ + vstd::bytes::spec_u16_to_le_bytes(v),
{
    let mut tmp = u16_to_le_bytes(v);
    out.append(&mut tmp);
}

/// Appends the little-endian bytes of `v`.
fn push_le32(out: &mut Vec<u8>, v: u32)
    ensures
        final(out)@ == old(out)@ + vstd::bytes::spec_u32_to_le_bytes(v),
{
    let mut tmp = u32_to_le_bytes(v);
    out.append(&mut tmp);
}

/// Appends the little-endian bytes of `v`.
fn push_le64(out: &mut Vec<u8>, v: u64)
    ensures
        final(out)@ == old(out)@ + vstd::bytes::spec_u64_to_le_bytes(v),
{
    let mut tmp = u64_to_le_bytes(v);
    out.append(&mut tmp);
}

/// Appends the canonical encoding of a length.
fn write_length(out: &mut Vec<u8>, n: u64)
    ensures
        final(out)@ == old(out)@ + len_bytes(n),
{
    if n < 0xEF {
        out.push(n as u8);
        assert(final(out)@ =~= old(out)@ + len_bytes(n));
    } else if n <= 0xFF {
        out.push(LEN_ESCAPE_U8);
        out.push(n as u8);
        assert(final(out)@ =~= old(out)@ + len_bytes(n));
    } else if n <= 0xFFFF {
        out.push(LEN_ESCAPE_U16);
        push_le16(out, n as u16);
        assert(final(out)@ =~= old(out)@ + len_bytes(n));
    } else if n <= 0xFFFF_FFFF {
        out.push(LEN_ESCAPE_U32);
        push_le32(out, n as u32);
        assert(final(out)@ =~= old(out)@ + len_bytes(n));
    } else {
        out.push(LEN_ESCAPE_U64);
        push_le64(out, n);
        assert(final(out)@ =~= old(out)@ + len_bytes(n));
    }
}

/// Appends the canonical encoding of a reference to dictionary slot `i`.
fn write_dict_ref(out: &mut Vec<u8>, i: usize)
    ensures
        final(out)@ == old(out)@ + dict_ref_bytes(i as int),
{
    if i <= 0x7F {
        out.push(DICT_INLINE_BASE + (i as u8));
        assert(final(out)@ =~= old(out)@ + dict_ref_bytes(i as int));
    } else if i <= 0xFF {
        out.push(TAG_STRING);
        out.push(DICT_ESCAPE_U8);
        out.push(i as u8);
        assert(final(out)@ =~= old(out)@ + dict_ref_bytes(i as int));
    } else if i <= 0xFFFF {
        out.push(TAG_STRING);
        out.push(DICT_ESCAPE_U16);
        push_le16(out, i as u16);
        assert(final(out)@ =~= old(out)@ + dict_ref_bytes(i as int));
    } else if i <= 0xFFFF_FFFF {
        out.push(TAG_STRING);
        out.push(DICT_ESCAPE_U32);
        push_le32(out, i as u32);
        assert(final(out)@ =~= old(out)@ + dict_ref_bytes(i as int));
    } else {
        out.push(TAG_STRING);
        out.push(DICT_ESCAPE_U64);
        push_le64(out, i as u64);
        assert(final(out)@ =~= old(out)@ + dict_ref_bytes(i as int));
    }
}

/// Position of the first dictionary slot equal to `s`, if any.
fn find_dict(dictionary: &Vec<String>, s: &String) -> (r: Option<usize>)
    ensures
        match r {
            Some(i) => i < dictionary@.len() && dict_index(dictionary.deep_view(), s@) == Some(
                i as int,
            ),
            None => dict_index(dictionary.deep_view(), s@) is None,
        },
{
    let n = dictionary.len();
    let mut i: usize = 0;
    while i < n
        invariant
            i <= n,
            n == dictionary@.len(),
            dict_index(dictionary.deep_view(), s@) == dict_index_from(
                dictionary.deep_view(),
                s@,
                i as int,
            ),
        decreases n - i,
    {
        assert(dictionary.deep_view()[i as int] == dictionary@[i as int]@);
        if dictionary[i].eq(s) {
            return Some(i);
        }
        i = i + 1;
    }
    None
}

/// Appends the canonical encoding of a string: the dictionary reference
/// when the dictionary holds the string — dictionary membership takes
/// priority over the compact literal form — else the compact one-byte
/// header for short strings, else the general length-prefixed literal.
fn write_string(out: &mut Vec<u8>, s: &String, dictionary: &Vec<String>)
    ensures
        final(out)@ == old(out)@ + string_bytes(s@, dictionary.deep_view()),
{
    match find_dict(dictionary, s) {
        Some(i) => {
            write_dict_ref(out, i);
        },
        None => {
            let mut payload = s.as_str().as_bytes_vec();
            let n = payload.len();
            if n < 15 {
                out.push(COMPACT_STRING_BASE + (n as u8));
                out.append(&mut payload);
                assert(final(out)@ =~= old(out)@ + string_bytes(s@, dictionary.deep_view()));
            } else {
                out.push(TAG_STRING);
                write_length(out, n as u64);
                out.append(&mut payload);
                assert(final(out)@ =~= old(out)@ + string_bytes(s@, dictionary.deep_view()));
            }
        },
    }
}

/// Appends the canonical encoding of one value event. This is the
/// executable counterpart of [`event_bytes`] and is proved to agree with
/// it exactly.
fn emit_event(out: &mut Vec<u8>, event: &Event, dictionary: &Vec<String>)
    requires
        encodable(event@),
    ensures
        final(out)@ == old(out)@ + event_bytes(event@, dictionary.deep_view()),
{
    let ghost dict = dictionary.deep_view();
    match event {
        Event::Nil => {
            out.push(TAG_NIL);
            assert(final(out)@ =~= old(out)@ + event_bytes(event@, dict));
        },
        Event::Boolean(b) => {
            out.push(if *b {
                TAG_TRUE
            } else {
                TAG_FALSE
            });
            assert(final(out)@ =~= old(out)@ + event_bytes(event@, dict));
        },
        Event::U8(v) => {
            out.push(TAG_U8);
            out.push(*v);
            assert(final(out)@ =~= old(out)@ + event_bytes(event@, dict));
        },
        Event::U16(v) => {
            out.push(TAG_U16);
            push_le16(out, *v);
            assert(final(out)@ =~= old(out)@ + event_bytes(event@, dict));
        },
        Event::U32(v) => {
            out.push(TAG_U32);
            push_le32(out, *v);
            assert(final(out)@ =~= old(out)@ + event_bytes(event@, dict));
        },
        Event::U64(v) => {
            out.push(TAG_U64);
            push_le64(out, *v);
            assert(final(out)@ =~= old(out)@ + event_bytes(event@, dict));
        },
        Event::I8(v) => {
            out.push(TAG_I8);
            out.push(u8_from_i8(*v));
            assert(final(out)@ =~= old(out)@ + event_bytes(event@, dict));
        },
        Event::I16(v) => {
            out.push(TAG_I16);
            push_le16(out, u16_from_i16(*v));
            assert(final(out)@ =~= old(out)@ + event_bytes(event@, dict));
        },
        Event::I32(v) => {
            out.push(TAG_I32);
            push_le32(out, u32_from_i32(*v));
            assert(final(out)@ =~= old(out)@ + event_bytes(event@, dict));
        },
        Event::I64(v) => {
            out.push(TAG_I64);
            push_le64(out, u64_from_i64(*v));
            assert(final(out)@ =~= old(out)@ + event_bytes(event@, dict));
        },
        Event::Fixnum(p) => {
            let w = p.len();
            out.push(
                if w == 1 {
                    TAG_FIXNUM_1
                } else if w == 2 {
                    TAG_FIXNUM_2
                } else if w == 4 {
                    TAG_FIXNUM_4
                } else if w == 8 {
                    TAG_FIXNUM_8
                } else {
                    TAG_FIXNUM_16
                },
            );
            let mut tmp = slice_to_vec(p.as_slice());
            out.append(&mut tmp);
            assert(final(out)@ =~= old(out)@ + event_bytes(event@, dict));
        },
        Event::F32(bits) => {
            out.push(TAG_F32);
            push_le32(out, *bits);
            assert(final(out)@ =~= old(out)@ + event_bytes(event@, dict));
        },
        Event::F64(bits) => {
            out.push(TAG_F64);
            push_le64(out, *bits);
            assert(final(out)@ =~= old(out)@ + event_bytes(event@, dict));
        },
        Event::Binary(p) => {
            out.push(TAG_BINARY);
            write_length(out, p.len() as u64);
            let mut tmp = slice_to_vec(p.as_slice());
            out.append(&mut tmp);
            assert(final(out)@ =~= old(out)@ + event_bytes(event@, dict));
        },
        Event::String(s) => {
            write_string(out, s, dictionary);
        },
        Event::StartArray(z) => {
            match z {
                Size::U64(n) => {
                    if *n < 15 && !(4 <= *n && *n <= 8) {
                        out.push(COMPACT_ARRAY_BASE + (*n as u8));
                    } else {
                        out.push(TAG_ARRAY);
                        write_length(out, *n);
                    }
                    assert(final(out)@ =~= old(out)@ + event_bytes(event@, dict));
                },
                Size::Streaming => {
                    proof {
                        assert(false);
                    }
                },
            }
        },
        Event::StartStruct(z) => {
            match z {
                Size::U64(n) => {
                    out.push(TAG_STRUCT);
                    write_length(out, *n);
                    assert(final(out)@ =~= old(out)@ + event_bytes(event@, dict));
                },
                Size::Streaming => {
                    proof {
                        assert(false);
                    }
                },
            }
        },
        Event::StartMap(z) => {
            match z {
                Size::U64(n) => {
                    if *n < 15 {
                        out.push(COMPACT_MAP_BASE + (*n as u8));
                    } else {
                        out.push(TAG_MAP);
                        write_length(out, *n);
                    }
                    assert(final(out)@ =~= old(out)@ + event_bytes(event@, dict));
                },
                Size::Streaming => {
                    proof {
                        assert(false);
                    }
                },
            }
        },
        Event::StartOpenStruct(z) => {
            match z {
                Size::U64(n) => {
                    out.push(TAG_OPEN_STRUCT);
                    write_length(out, *n);
                    assert(final(out)@ =~= old(out)@ + event_bytes(event@, dict));
                },
                Size::Streaming => {
                    proof {
                        assert(false);
                    }
                },
            }
        },
        Event::End => {
            assert(final(out)@ =~= old(out)@ + event_bytes(event@, dict));
        },
    }
}

/// How one write moves the nesting stack, or which failure it reports:
/// an end is legal exactly when the innermost frame's count is exhausted,
/// a value is legal exactly when it is not, and nothing is legal once the
/// root frame is gone.
pub open spec fn write_step(stack: Seq<u128>, e: EventV) -> Result<Seq<u128>, ErrorCode> {
    if stack.len() == 0 {
        Err(ErrorCode::EndOfStream)
    } else if e is End {
        if stack.last() == 0 {
            Ok(stack.drop_last())
        } else {
            Err(ErrorCode::MissingEnd)
        }
    } else if stack.last() == 0 {
        Err(ErrorCode::MissingEnd)
    } else {
        Ok(step(stack, e))
    }
}

/// How a whole event sequence moves the nesting stack, or the failure its
/// first illegal event reports.
pub open spec fn write_run(stack: Seq<u128>, events: Seq<EventV>) -> Result<
    Seq<u128>,
    ErrorCode,
>
    decreases events.len(),
{
    if events.len() == 0 {
        Ok(stack)
    } else {
        match write_step(stack, events[0]) {
            Ok(moved) => write_run(moved, events.drop_first()),
            Err(code) => Err(code),
        }
    }
}

/// Writes a stream of events as their canonical wire encoding, validating
/// the document's structural balance as it goes. A structural violation
/// permanently poisons the encoder.
pub struct Encoder {
    out: Vec<u8>,
    dictionary: Vec<String>,
    stack: Vec<u128>,
    invalid_state: bool,
}

impl Encoder {
    /// The bytes written so far.
    pub closed spec fn bytes(&self) -> Seq<u8> {
        self.out@
    }

    /// The dictionary, as a sequence of texts.
    pub closed spec fn dict(&self) -> Seq<Seq<char>> {
        self.dictionary.deep_view()
    }

    /// The nesting stack: remaining-child counts, innermost last; the
    /// first entry is the root frame.
    pub closed spec fn frames(&self) -> Seq<u128> {
        self.stack@
    }

    /// True once a structural violation has occurred: every later write
    /// reports `InvalidState`.
    pub closed spec fn poisoned(&self) -> bool {
        self.invalid_state
    }

    /// A fresh encoder, with the root frame expecting exactly one
    /// top-level value.
    pub fn new(dictionary: Vec<String>) -> (r: Encoder)
        ensures
            r.bytes() == Seq::<u8>::empty(),
            r.dict() == dictionary.deep_view(),
            r.frames() == seq![1u128],
            !r.poisoned(),
    {
        let mut stack: Vec<u128> = Vec::new();
        stack.push(1);
        assert(stack@ =~= seq![1u128]);
        Encoder { out: Vec::new(), dictionary, stack, invalid_state: false }
    }

    /// Gives up the encoder and hands back the bytes written.
    pub fn into_bytes(self) -> (r: Vec<u8>)
        ensures
            r@ == self.bytes(),
    {
        self.out
    }

    /// Writes the next event.
    ///
    /// A legal value event appends its canonical bytes ([`event_bytes`])
    /// and consumes one slot of the innermost frame; a legal end appends
    /// nothing and discards the exhausted innermost frame. An illegal
    /// event appends nothing, reports the failure [`write_step`] names,
    /// and poisons the encoder: every later write reports `InvalidState`.
    ///
    /// The wire format cannot represent a streaming header or a fixnum of
    /// another width, so the event must be encodable.
    pub fn write(&mut self, event: &Event) -> (r: EncoderResult<()>)
        requires
            encodable(event@),
        ensures
            final(self).dict() == old(self).dict(),
            write_post(
                old(self).bytes(),
                old(self).frames(),
                old(self).poisoned(),
                old(self).dict(),
                final(self).bytes(),
                final(self).frames(),
                final(self).poisoned(),
                event@,
                r,
            ),
    {
        if self.invalid_state {
            return Err(EncoderError::StreamError(ErrorCode::InvalidState));
        }
        let slen = self.stack.len();
        if slen == 0 {
            self.invalid_state = true;
            return Err(EncoderError::StreamError(ErrorCode::EndOfStream));
        }
        let top = self.stack[slen - 1];
        if let Event::End = event {
            if top == 0 {
                self.stack.pop();
                assert(self.out@ =~= old(self).bytes() + event_bytes(EventV::End, old(
                    self,
                ).dict()));
                return Ok(());
            } else {
                self.invalid_state = true;
                return Err(EncoderError::StreamError(ErrorCode::MissingEnd));
            }
        }
        if top == 0 {
            self.invalid_state = true;
            return Err(EncoderError::StreamError(ErrorCode::MissingEnd));
        }
        emit_event(&mut self.out, event, &self.dictionary);
        self.stack.pop();
        self.stack.push(top - 1);
        match event {
            Event::StartArray(Size::U64(n)) => self.stack.push(*n as u128),
            Event::StartStruct(Size::U64(n)) => self.stack.push((*n as u128) + 1),
            Event::StartMap(Size::U64(n)) => self.stack.push(2 * (*n as u128)),
            Event::StartOpenStruct(Size::U64(n)) => self.stack.push(2 * (*n as u128) + 1),
            _ => {},
        }
        proof {
            assert(final(self).frames() =~= step(old(self).frames(), event@));
        }
        Ok(())
    }

    /// Writes every event of the sequence in turn, stopping at the first
    /// failure.
    ///
    /// On a healthy encoder this succeeds exactly when every event is
    /// legal in turn ([`write_run`]), and then appends exactly the
    /// canonical bytes of the whole sequence ([`encode_seq`]).
    pub fn write_all(&mut self, events: &Vec<Event>) -> (r: EncoderResult<()>)
        requires
            forall|i: int| 0 <= i < events@.len() ==> encodable(#[trigger] events@[i]@),
        ensures
            final(self).dict() == old(self).dict(),
            old(self).poisoned() && events@.len() > 0 ==> r == Err::<(), EncoderError>(
                EncoderError::StreamError(ErrorCode::InvalidState),
            ) && final(self).bytes() == old(self).bytes() && final(self).frames() == old(
                self,
            ).frames() && final(self).poisoned(),
            events@.len() == 0 ==> r == Ok::<(), EncoderError>(()) && final(self).bytes() == old(
                self,
            ).bytes() && final(self).frames() == old(self).frames() && final(self).poisoned()
                == old(self).poisoned(),
            !old(self).poisoned() ==> match write_run(old(self).frames(), events.deep_view()) {
                Ok(moved) => r == Ok::<(), EncoderError>(()) && final(self).frames() == moved
                    && final(self).bytes() == old(self).bytes() + encode_seq(
                    events.deep_view(),
                    old(self).dict(),
                ) && !final(self).poisoned(),
                Err(code) => r == Err::<(), EncoderError>(EncoderError::StreamError(code))
                    && final(self).poisoned(),
            },
    {
        let ghost dv = events.deep_view();
        let ghost dict = old(self).dict();
        let n = events.len();
        let mut i: usize = 0;
        if n == 0 {
            return Ok(());
        }
        proof {
            assert(dv.skip(0) =~= dv);
        }
        while i < n
            invariant
                0 <= i <= n,
                n == events@.len(),
                n > 0,
                dv == events.deep_view(),
                dict == old(self).dict(),
                self.dict() == old(self).dict(),
                forall|j: int| 0 <= j < events@.len() ==> encodable(#[trigger] events@[j]@),
                old(self).poisoned() ==> i == 0 && self.bytes() == old(self).bytes()
                    && self.frames() == old(self).frames() && self.poisoned(),
                !old(self).poisoned() ==> {
                    &&& !self.poisoned()
                    &&& write_run(old(self).frames(), dv) == write_run(
                        self.frames(),
                        dv.skip(i as int),
                    )
                    &&& self.bytes() + encode_seq(dv.skip(i as int), dict) == old(self).bytes()
                        + encode_seq(dv, dict)
                },
            decreases n - i,
        {
            let ghost pre = *self;
            assert(dv[i as int] == events@[i as int].deep_view());
            match self.write(&events[i]) {
                Ok(()) => {
                    proof {
                        assert(dv.skip(i as int).drop_first() =~= dv.skip(i + 1));
                        assert(dv.skip(i as int)[0] == dv[i as int]);
                        if !old(self).poisoned() {
                            assert(pre.bytes() + encode_seq(dv.skip(i as int), dict) == old(
                                self,
                            ).bytes() + encode_seq(dv, dict));
                            assert(self.bytes() + encode_seq(dv.skip(i + 1), dict) =~= pre.bytes()
                                + encode_seq(dv.skip(i as int), dict));
                        }
                    }
                },
                Err(failure) => {
                    proof {
                        assert(dv.skip(i as int)[0] == dv[i as int]);
                    }
                    return Err(failure);
                },
            }
            i = i + 1;
        }
        proof {
            assert(dv.skip(n as int) =~= Seq::<EventV>::empty());
            assert(self.bytes() + Seq::<u8>::empty() =~= self.bytes());
        }
        Ok(())
    }
}

/// Everything [`Encoder::write`] guarantees about one write: how the
/// result, the appended bytes, the new nesting stack and the poison flag
/// follow from the old state.
pub open spec fn write_post(
    bytes: Seq<u8>,
    stack: Seq<u128>,
    poisoned: bool,
    dict: Seq<Seq<char>>,
    bytes2: Seq<u8>,
    stack2: Seq<u128>,
    poisoned2: bool,
    e: EventV,
    r: Result<(), EncoderError>,
) -> bool {
    if poisoned {
        r == Err::<(), EncoderError>(EncoderError::StreamError(ErrorCode::InvalidState)) && bytes2
            == bytes && stack2 == stack && poisoned2
    } else {
        match write_step(stack, e) {
            Ok(moved) => r == Ok::<(), EncoderError>(()) && stack2 == moved && bytes2 == bytes
                + event_bytes(e, dict) && !poisoned2,
            Err(code) => r == Err::<(), EncoderError>(EncoderError::StreamError(code)) && bytes2
                == bytes && stack2 == stack && poisoned2,
        }
    }
}

} // verus!
