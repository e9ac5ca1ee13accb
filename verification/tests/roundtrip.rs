//! Encoding an event sequence and decoding the bytes with the same
//! dictionary yields the sequence back.

use sofa_serialize::{Decoder, Encoder, Event, Size};

fn round_trip(events: Vec<Event>, dictionary: Vec<String>) {
    let mut encoder = Encoder::new(dictionary.clone());
    encoder.write_all(&events).unwrap();
    let bytes = encoder.into_bytes();
    let mut decoder = Decoder::new(bytes, dictionary);
    let decoded = decoder.read_all().unwrap();
    assert_eq!(decoded, events);
    assert_eq!(decoder.read(), Err(sofa_serialize::decoder_error::DecoderError::StreamError(
        sofa_serialize::decoder_error::ErrorCode::EndOfStream,
    )));
}

#[test]
fn transcodes_nil() {
    round_trip(vec![Event::Nil], vec![]);
}

#[test]
fn transcodes_false() {
    round_trip(vec![Event::Boolean(false)], vec![]);
}

#[test]
fn transcodes_true() {
    round_trip(vec![Event::Boolean(true)], vec![]);
}

#[test]
fn transcodes_binary() {
    round_trip(vec![Event::Binary(vec![0x01, 0x02, 0x03, 0x04])], vec![]);
}

#[test]
fn transcodes_string() {
    round_trip(vec![Event::String(String::from("🍪"))], vec![]);
}

#[test]
fn transcodes_dictionary_string() {
    round_trip(vec![Event::String(String::from("🍪"))], vec![String::from("🍪")]);
}

#[test]
fn transcodes_array() {
    round_trip(vec![Event::StartArray(Size::U64(1)), Event::Nil, Event::End], vec![]);
}

#[test]
fn transcodes_struct() {
    round_trip(
        vec![
            Event::StartStruct(Size::U64(1)),
            Event::String(String::from("🍪")),
            Event::Boolean(false),
            Event::End,
        ],
        vec![String::from("🍪")],
    );
}

#[test]
fn transcodes_map() {
    round_trip(
        vec![
            Event::StartMap(Size::U64(1)),
            Event::String(String::from("🍪")),
            Event::Boolean(false),
            Event::End,
        ],
        vec![String::from("🍪")],
    );
}

#[test]
fn transcodes_open_struct() {
    round_trip(
        vec![
            Event::StartOpenStruct(Size::U64(1)),
            Event::String(String::from("🍪")),
            Event::String(String::from("🍪")),
            Event::Boolean(false),
            Event::End,
        ],
        vec![String::from("🍪")],
    );
}

#[test]
fn transcodes_u8() {
    round_trip(vec![Event::U8(0x50)], vec![]);
}

#[test]
fn transcodes_u16() {
    round_trip(vec![Event::U16(0x5150)], vec![]);
}

#[test]
fn transcodes_u32() {
    round_trip(vec![Event::U32(0x53525150)], vec![]);
}

#[test]
fn transcodes_u64() {
    round_trip(vec![Event::U64(0x5756555453525150)], vec![]);
}

#[test]
fn transcodes_i8() {
    round_trip(vec![Event::I8(0x50)], vec![]);
}

#[test]
fn transcodes_i16() {
    round_trip(vec![Event::I16(0x5150)], vec![]);
}

#[test]
fn transcodes_i32() {
    round_trip(vec![Event::I32(0x53525150)], vec![]);
}

#[test]
fn transcodes_i64() {
    round_trip(vec![Event::I64(0x5756555453525150)], vec![]);
}

#[test]
fn transcodes_negative_integers() {
    round_trip(
        vec![
            Event::StartArray(Size::U64(4)),
            Event::I8(-1),
            Event::I16(-2),
            Event::I32(-3),
            Event::I64(-4),
            Event::End,
        ],
        vec![],
    );
}

#[test]
fn transcodes_f32() {
    round_trip(vec![Event::F32(1.0f32.to_bits())], vec![]);
}

#[test]
fn transcodes_f64() {
    round_trip(vec![Event::F64(1.0f64.to_bits())], vec![]);
}

#[test]
fn transcodes_fixnum_widths() {
    round_trip(
        vec![
            Event::StartArray(Size::U64(5)),
            Event::Fixnum(vec![0xFF]),
            Event::Fixnum(vec![0x01, 0x02]),
            Event::Fixnum(vec![0x01, 0x02, 0x03, 0x04]),
            Event::Fixnum(vec![0x01, 0x02, 0x03, 0x04, 0x05, 0x06, 0x07, 0x08]),
            Event::Fixnum(vec![0x10; 16]),
            Event::End,
        ],
        vec![],
    );
}

#[test]
fn transcodes_arrays_in_fixnum_shadow() {
    // Arrays of length 4 through 8 cannot use the compact header (the
    // fixnum escapes occupy those tags) and must still round-trip.
    for n in 4u64..=8u64 {
        let mut events = vec![Event::StartArray(Size::U64(n))];
        for _ in 0..n {
            events.push(Event::Nil);
        }
        events.push(Event::End);
        round_trip(events, vec![]);
    }
}

#[test]
fn transcodes_long_string() {
    round_trip(vec![Event::String(String::from("a string longer than fourteen bytes"))], vec![]);
}

#[test]
fn transcodes_long_binary() {
    round_trip(vec![Event::Binary(vec![0xAB; 300])], vec![]);
}

#[test]
fn transcodes_empty_values() {
    round_trip(vec![Event::String(String::new())], vec![]);
    round_trip(vec![Event::Binary(Vec::new())], vec![]);
    round_trip(vec![Event::StartArray(Size::U64(0)), Event::End], vec![]);
    round_trip(vec![Event::StartMap(Size::U64(0)), Event::End], vec![]);
}

#[test]
fn transcodes_nested_document() {
    round_trip(
        vec![
            Event::StartMap(Size::U64(2)),
            Event::String(String::from("name")),
            Event::String(String::from("cookie")),
            Event::String(String::from("parts")),
            Event::StartArray(Size::U64(3)),
            Event::U8(1),
            Event::StartArray(Size::U64(0)),
            Event::End,
            Event::StartStruct(Size::U64(1)),
            Event::String(String::from("name")),
            Event::Boolean(true),
            Event::End,
            Event::End,
            Event::End,
        ],
        vec![String::from("name")],
    );
}

#[test]
fn transcodes_wide_dictionary_reference() {
    // An index past the seven-bit inline range uses the one-byte escape.
    let dictionary: Vec<String> = (0..200).map(|i| format!("word{}", i)).collect();
    round_trip(
        vec![
            Event::StartArray(Size::U64(2)),
            Event::String(String::from("word0")),
            Event::String(String::from("word130")),
            Event::End,
        ],
        dictionary,
    );
}

#[test]
fn transcodes_fixnum_constructors() {
    round_trip(
        vec![
            Event::StartArray(Size::U64(4)),
            Event::fixnum_from_i64(-1),
            Event::fixnum_from_i64(i64::MIN),
            Event::fixnum_from_u64(0x50),
            Event::fixnum_from_u64(u64::MAX),
            Event::End,
        ],
        vec![],
    );
}
