//! A compact, self-describing binary serialization format for streamable
//! structured data, with a caller-supplied string dictionary that compresses
//! repeated strings into small integer references.
//!
//! The core is a paired streaming [`Encoder`] and [`Decoder`] translating
//! between the wire format and a linear sequence of typed [`Event`]s.

use vstd::prelude::*;

pub mod decoder;
pub mod decoder_error;
pub mod encoder;
pub mod encoder_error;
pub mod laws;
pub mod wire;

pub use decoder::Decoder;
pub use encoder::Encoder;

verus! {

/// Element count declared in a composite value's header: either known up
/// front, or unknown until the structure is closed.
///
/// The wire format has no header byte for an unknown count, so the encoder
/// only accepts events whose size is known; `Streaming` exists so that the
/// event model can name the case.
#[derive(Clone, Copy, PartialEq, Eq, Structural, Debug)]
pub enum Size {
    Streaming,
    U64(u64),
}

/// One step of a document traversal: a primitive value, the opening of a
/// composite value, or the closing of the innermost open composite.
///
/// Composite openings carry the declared element count. A map element is a
/// key/value pair (two events); a struct holds its type-name fragment plus
/// its declared count of fields; an open struct serializes its field names
/// like a map and adds the type-name fragment.
///
/// `F32`/`F64` carry the IEEE 754 bit pattern of the number, so the
/// codec's treatment of them is exact byte transport. `Fixnum` carries the
/// little-endian two's-complement payload of a compact signed integer; its
/// width must be 1, 2, 4, 8 or 16 bytes.
#[derive(Clone, PartialEq, Debug)]
pub enum Event {
    Nil,
    Boolean(bool),
    U8(u8),
    U16(u16),
    U32(u32),
    U64(u64),
    I8(i8),
    I16(i16),
    I32(i32),
    I64(i64),
    Fixnum(Vec<u8>),
    F32(u32),
    F64(u64),
    Binary(Vec<u8>),
    String(String),
    StartArray(Size),
    StartStruct(Size),
    StartMap(Size),
    StartOpenStruct(Size),
    End,
}

/// Mathematical model of an [`Event`]: byte payloads become sequences and
/// text becomes a sequence of characters.
#[verifier::ext_equal]
pub ghost enum EventV {
    Nil,
    Boolean(bool),
    U8(u8),
    U16(u16),
    U32(u32),
    U64(u64),
    I8(i8),
    I16(i16),
    I32(i32),
    I64(i64),
    Fixnum(Seq<u8>),
    F32(u32),
    F64(u64),
    Binary(Seq<u8>),
    String(Seq<char>),
    StartArray(Size),
    StartStruct(Size),
    StartMap(Size),
    StartOpenStruct(Size),
    End,
}

impl Event {
    /// True when the event can be put on the wire: its composite size is
    /// known, a fixnum payload uses a legal width, and payload lengths
    /// fit the 64-bit length encoding. [`Encoder::write`] requires this.
    pub fn is_encodable(&self) -> (r: bool)
        ensures
            r == wire::encodable(self@),
    {
        match self {
            Event::Fixnum(p) => {
                let w = p.len();
                w == 1 || w == 2 || w == 4 || w == 8 || w == 16
            },
            Event::Binary(p) => {
                // A payload held in memory always fits the length encoding.
                let _count = p.len();
                proof {
                    assert(p@.len() == _count);
                }
                true
            },
            Event::String(s) => {
                // The text's byte count bounds its encoding's length.
                let payload = s.as_str().as_bytes_vec();
                let _count = payload.len();
                proof {
                    assert(vstd::utf8::encode_utf8(s@).len() == _count);
                }
                true
            },
            Event::StartArray(z) => matches!(z, Size::U64(_)),
            Event::StartStruct(z) => matches!(z, Size::U64(_)),
            Event::StartMap(z) => matches!(z, Size::U64(_)),
            Event::StartOpenStruct(z) => matches!(z, Size::U64(_)),
            _ => true,
        }
    }

    /// The compact signed integer event carrying `v` in the narrowest
    /// legal payload width. This is the canonical fixnum for a signed
    /// number from a loosely-typed source.
    pub fn fixnum_from_i64(v: i64) -> (r: Event)
        ensures
            r@ == EventV::Fixnum(wire::fixnum_i64_bytes(v)),
            wire::encodable(r@),
    {
        if -0x80 <= v && v <= 0x7F {
            let mut p: Vec<u8> = Vec::new();
            p.push(wire::u8_from_i8(v as i8));
            assert(p@ =~= wire::fixnum_i64_bytes(v));
            Event::Fixnum(p)
        } else if -0x8000 <= v && v <= 0x7FFF {
            Event::Fixnum(vstd::bytes::u16_to_le_bytes(wire::u16_from_i16(v as i16)))
        } else if -0x8000_0000 <= v && v <= 0x7FFF_FFFF {
            Event::Fixnum(vstd::bytes::u32_to_le_bytes(wire::u32_from_i32(v as i32)))
        } else {
            Event::Fixnum(vstd::bytes::u64_to_le_bytes(wire::u64_from_i64(v)))
        }
    }

    /// The compact signed integer event carrying `v` in the narrowest
    /// legal payload width: a value past the signed 64-bit range takes
    /// the sixteen-byte width, with a zero upper half.
    pub fn fixnum_from_u64(v: u64) -> (r: Event)
        ensures
            r@ == EventV::Fixnum(wire::fixnum_u64_bytes(v)),
            wire::encodable(r@),
    {
        if v <= 0x7F {
            let mut p: Vec<u8> = Vec::new();
            p.push(v as u8);
            assert(p@ =~= wire::fixnum_u64_bytes(v));
            Event::Fixnum(p)
        } else if v <= 0x7FFF {
            Event::Fixnum(vstd::bytes::u16_to_le_bytes(v as u16))
        } else if v <= 0x7FFF_FFFF {
            Event::Fixnum(vstd::bytes::u32_to_le_bytes(v as u32))
        } else if v <= 0x7FFF_FFFF_FFFF_FFFF {
            Event::Fixnum(vstd::bytes::u64_to_le_bytes(v))
        } else {
            let mut p = vstd::bytes::u64_to_le_bytes(v);
            p.push(0);
            p.push(0);
            p.push(0);
            p.push(0);
            p.push(0);
            p.push(0);
            p.push(0);
            p.push(0);
            assert(p@ =~= wire::fixnum_u64_bytes(v));
            Event::Fixnum(p)
        }
    }
}

impl DeepView for Event {
    type V = EventV;

    open spec fn deep_view(&self) -> EventV {
        self.view()
    }
}

impl View for Event {
    type V = EventV;

    open spec fn view(&self) -> EventV {
        match self {
            Event::Nil => EventV::Nil,
            Event::Boolean(b) => EventV::Boolean(*b),
            Event::U8(v) => EventV::U8(*v),
            Event::U16(v) => EventV::U16(*v),
            Event::U32(v) => EventV::U32(*v),
            Event::U64(v) => EventV::U64(*v),
            Event::I8(v) => EventV::I8(*v),
            Event::I16(v) => EventV::I16(*v),
            Event::I32(v) => EventV::I32(*v),
            Event::I64(v) => EventV::I64(*v),
            Event::Fixnum(p) => EventV::Fixnum(p@),
            Event::F32(v) => EventV::F32(*v),
            Event::F64(v) => EventV::F64(*v),
            Event::Binary(p) => EventV::Binary(p@),
            Event::String(s) => EventV::String(s@),
            Event::StartArray(z) => EventV::StartArray(*z),
            Event::StartStruct(z) => EventV::StartStruct(*z),
            Event::StartMap(z) => EventV::StartMap(*z),
            Event::StartOpenStruct(z) => EventV::StartOpenStruct(*z),
            Event::End => EventV::End,
        }
    }
}

} // verus!
