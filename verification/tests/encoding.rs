//! The exact bytes the encoder emits — canonical and minimal — and every
//! failure it can report.

use sofa_serialize::encoder_error::{EncoderError, ErrorCode};
use sofa_serialize::{Encoder, Event, Size};

fn encode_all(events: &[Event], dictionary: Vec<String>) -> Vec<u8> {
    let mut encoder = Encoder::new(dictionary);
    for event in events {
        encoder.write(event).unwrap();
    }
    encoder.into_bytes()
}

#[test]
fn encodes_nil() {
    assert_eq!(encode_all(&[Event::Nil], vec![]), vec![0x01]);
}

#[test]
fn encodes_booleans() {
    assert_eq!(encode_all(&[Event::Boolean(false)], vec![]), vec![0x02]);
    assert_eq!(encode_all(&[Event::Boolean(true)], vec![]), vec![0x03]);
}

#[test]
fn encodes_compact_array() {
    assert_eq!(
        encode_all(
            &[Event::StartArray(Size::U64(2)), Event::Boolean(true), Event::U8(1), Event::End],
            vec![],
        ),
        vec![0x22, 0x03, 0x10, 0x01]
    );
}

#[test]
fn encodes_dictionary_string_as_single_byte() {
    assert_eq!(
        encode_all(&[Event::String(String::from("🍪"))], vec![String::from("🍪")]),
        vec![0x80]
    );
}

#[test]
fn dictionary_takes_priority_over_compact_string() {
    // A dictionary-resident string is emitted as a reference, never
    // literally, even though it is short enough for the compact form.
    assert_eq!(
        encode_all(&[Event::String(String::from("ab"))], vec![String::from("ab")]),
        vec![0x80]
    );
}

#[test]
fn first_matching_dictionary_slot_wins() {
    assert_eq!(
        encode_all(
            &[Event::String(String::from("ab"))],
            vec![String::from("x"), String::from("ab"), String::from("ab")],
        ),
        vec![0x81]
    );
}

#[test]
fn encodes_compact_string() {
    assert_eq!(
        encode_all(&[Event::String(String::from("abc"))], vec![]),
        vec![0x63, 0x61, 0x62, 0x63]
    );
}

#[test]
fn encodes_general_string_at_fifteen_bytes() {
    let mut expected = vec![0x09, 0x0F];
    expected.extend_from_slice(b"aaaaaaaaaaaaaaa");
    assert_eq!(
        encode_all(&[Event::String(String::from("aaaaaaaaaaaaaaa"))], vec![]),
        expected
    );
}

#[test]
fn encodes_unsigned_integers_little_endian() {
    assert_eq!(encode_all(&[Event::U8(0x12)], vec![]), vec![0x10, 0x12]);
    assert_eq!(encode_all(&[Event::U16(0x1234)], vec![]), vec![0x11, 0x34, 0x12]);
    assert_eq!(
        encode_all(&[Event::U32(0x12345678)], vec![]),
        vec![0x12, 0x78, 0x56, 0x34, 0x12]
    );
    assert_eq!(
        encode_all(&[Event::U64(0x123456789ABCDEF0)], vec![]),
        vec![0x13, 0xF0, 0xDE, 0xBC, 0x9A, 0x78, 0x56, 0x34, 0x12]
    );
}

#[test]
fn encodes_signed_integers_twos_complement() {
    assert_eq!(encode_all(&[Event::I8(-1)], vec![]), vec![0x14, 0xFF]);
    assert_eq!(encode_all(&[Event::I16(-2)], vec![]), vec![0x15, 0xFE, 0xFF]);
    assert_eq!(
        encode_all(&[Event::I32(-3)], vec![]),
        vec![0x16, 0xFD, 0xFF, 0xFF, 0xFF]
    );
    assert_eq!(
        encode_all(&[Event::I64(-4)], vec![]),
        vec![0x17, 0xFC, 0xFF, 0xFF, 0xFF, 0xFF, 0xFF, 0xFF, 0xFF]
    );
}

#[test]
fn encodes_floats_as_bit_patterns() {
    assert_eq!(
        encode_all(&[Event::F32(1.0f32.to_bits())], vec![]),
        vec![0x1A, 0x00, 0x00, 0x80, 0x3F]
    );
    assert_eq!(
        encode_all(&[Event::F64(1.0f64.to_bits())], vec![]),
        vec![0x1B, 0x00, 0x00, 0x00, 0x00, 0x00, 0x00, 0xF0, 0x3F]
    );
}

#[test]
fn encodes_binary_with_length_prefix() {
    assert_eq!(
        encode_all(&[Event::Binary(vec![0x10, 0x00, 0x01])], vec![]),
        vec![0x08, 0x03, 0x10, 0x00, 0x01]
    );
}

#[test]
fn encodes_fixnum_tags_by_width() {
    assert_eq!(encode_all(&[Event::Fixnum(vec![0xFF])], vec![]), vec![0x24, 0xFF]);
    assert_eq!(
        encode_all(&[Event::Fixnum(vec![0x01, 0x02])], vec![]),
        vec![0x25, 0x01, 0x02]
    );
    assert_eq!(
        encode_all(&[Event::Fixnum(vec![0x01, 0x02, 0x03, 0x04])], vec![]),
        vec![0x26, 0x01, 0x02, 0x03, 0x04]
    );
}

#[test]
fn fixnum_constructors_pick_minimal_width() {
    assert_eq!(Event::fixnum_from_i64(-1), Event::Fixnum(vec![0xFF]));
    assert_eq!(Event::fixnum_from_i64(0x50), Event::Fixnum(vec![0x50]));
    assert_eq!(Event::fixnum_from_i64(0x1234), Event::Fixnum(vec![0x34, 0x12]));
    assert_eq!(Event::fixnum_from_u64(0x7F), Event::Fixnum(vec![0x7F]));
    assert_eq!(Event::fixnum_from_u64(0x80), Event::Fixnum(vec![0x80, 0x00]));
    assert_eq!(
        Event::fixnum_from_u64(u64::MAX),
        Event::Fixnum(vec![
            0xFF, 0xFF, 0xFF, 0xFF, 0xFF, 0xFF, 0xFF, 0xFF, 0x00, 0x00, 0x00, 0x00, 0x00, 0x00,
            0x00, 0x00,
        ])
    );
}

#[test]
fn arrays_in_fixnum_shadow_use_general_header() {
    // Lengths 4 through 8 would collide with the fixnum tags, so the
    // general header is the canonical form there.
    assert_eq!(
        encode_all(&[Event::StartArray(Size::U64(3)), Event::Nil, Event::Nil, Event::Nil,
            Event::End], vec![])[0],
        0x23
    );
    let bytes = encode_all(
        &[
            Event::StartArray(Size::U64(4)),
            Event::Nil,
            Event::Nil,
            Event::Nil,
            Event::Nil,
            Event::End,
        ],
        vec![],
    );
    assert_eq!(&bytes[..2], &[0x0A, 0x04]);
}

#[test]
fn encodes_compact_map() {
    assert_eq!(
        encode_all(
            &[
                Event::StartMap(Size::U64(1)),
                Event::String(String::from("k")),
                Event::Nil,
                Event::End,
            ],
            vec![],
        ),
        vec![0x31, 0x61, 0x6B, 0x01]
    );
}

#[test]
fn encodes_struct_and_open_struct_headers() {
    let bytes = encode_all(
        &[
            Event::StartStruct(Size::U64(1)),
            Event::String(String::from("n")),
            Event::Nil,
            Event::End,
        ],
        vec![],
    );
    assert_eq!(&bytes[..2], &[0x0B, 0x01]);
    let bytes = encode_all(
        &[
            Event::StartOpenStruct(Size::U64(1)),
            Event::String(String::from("n")),
            Event::String(String::from("k")),
            Event::Nil,
            Event::End,
        ],
        vec![],
    );
    assert_eq!(&bytes[..2], &[0x0D, 0x01]);
}

#[test]
fn encodes_length_escapes_by_width() {
    // One byte inline below the reserved band, then the narrowest escape.
    let bytes = encode_all(&[Event::Binary(vec![0x55; 0xEE])], vec![]);
    assert_eq!(&bytes[..2], &[0x08, 0xEE]);
    let bytes = encode_all(&[Event::Binary(vec![0x55; 0xEF])], vec![]);
    assert_eq!(&bytes[..3], &[0x08, 0xF1, 0xEF]);
    let bytes = encode_all(&[Event::Binary(vec![0x55; 0x1234])], vec![]);
    assert_eq!(&bytes[..4], &[0x08, 0xF2, 0x34, 0x12]);
    let bytes = encode_all(&[Event::Binary(vec![0x55; 0x10000])], vec![]);
    assert_eq!(&bytes[..6], &[0x08, 0xF3, 0x00, 0x00, 0x01, 0x00]);
}

#[test]
fn encodes_dictionary_escapes_by_width() {
    let dictionary: Vec<String> = (0..300).map(|i| format!("word{}", i)).collect();
    assert_eq!(
        encode_all(&[Event::String(String::from("word130"))], dictionary.clone()),
        vec![0x09, 0xF5, 130]
    );
    assert_eq!(
        encode_all(&[Event::String(String::from("word256"))], dictionary),
        vec![0x09, 0xF6, 0x00, 0x01]
    );
}

#[test]
fn encodable_events_are_recognized() {
    assert!(Event::Nil.is_encodable());
    assert!(Event::String(String::from("abc")).is_encodable());
    assert!(Event::Binary(vec![1, 2, 3]).is_encodable());
    assert!(Event::Fixnum(vec![0; 16]).is_encodable());
    assert!(Event::StartArray(Size::U64(3)).is_encodable());
    assert!(Event::End.is_encodable());
    assert!(!Event::Fixnum(vec![0; 3]).is_encodable());
    assert!(!Event::Fixnum(Vec::new()).is_encodable());
    assert!(!Event::StartArray(Size::Streaming).is_encodable());
    assert!(!Event::StartMap(Size::Streaming).is_encodable());
}

#[test]
fn rejects_premature_end() {
    // A struct of declared length one expects its type-name fragment and
    // one field; an end after a single write comes too early.
    let mut encoder = Encoder::new(vec![]);
    encoder.write(&Event::StartStruct(Size::U64(1))).unwrap();
    encoder.write(&Event::Boolean(false)).unwrap();
    assert_eq!(
        encoder.write(&Event::End),
        Err(EncoderError::StreamError(ErrorCode::MissingEnd))
    );
}

#[test]
fn rejects_child_past_declared_count() {
    let mut encoder = Encoder::new(vec![]);
    encoder.write(&Event::StartArray(Size::U64(1))).unwrap();
    encoder.write(&Event::Nil).unwrap();
    assert_eq!(
        encoder.write(&Event::Nil),
        Err(EncoderError::StreamError(ErrorCode::MissingEnd))
    );
}

#[test]
fn rejects_end_with_no_structure_open() {
    // After the root value and the end that discards the root frame,
    // nothing is open: a further end reports the closed stream.
    let mut encoder = Encoder::new(vec![]);
    encoder.write(&Event::Nil).unwrap();
    encoder.write(&Event::End).unwrap();
    assert_eq!(
        encoder.write(&Event::End),
        Err(EncoderError::StreamError(ErrorCode::EndOfStream))
    );
}

#[test]
fn rejects_write_after_closure() {
    let mut encoder = Encoder::new(vec![]);
    encoder.write(&Event::Nil).unwrap();
    encoder.write(&Event::End).unwrap();
    assert_eq!(
        encoder.write(&Event::Nil),
        Err(EncoderError::StreamError(ErrorCode::EndOfStream))
    );
}

#[test]
fn poisoned_encoder_rejects_everything() {
    let mut encoder = Encoder::new(vec![]);
    encoder.write(&Event::StartArray(Size::U64(1))).unwrap();
    encoder.write(&Event::Nil).unwrap();
    assert_eq!(
        encoder.write(&Event::Nil),
        Err(EncoderError::StreamError(ErrorCode::MissingEnd))
    );
    assert_eq!(
        encoder.write(&Event::End),
        Err(EncoderError::StreamError(ErrorCode::InvalidState))
    );
    assert_eq!(
        encoder.write(&Event::Nil),
        Err(EncoderError::StreamError(ErrorCode::InvalidState))
    );
}

#[test]
fn balanced_document_has_equal_starts_and_ends() {
    let events = [
        Event::StartMap(Size::U64(1)),
        Event::String(String::from("k")),
        Event::StartArray(Size::U64(1)),
        Event::StartStruct(Size::U64(0)),
        Event::String(String::from("n")),
        Event::End,
        Event::End,
        Event::End,
    ];
    let starts = events
        .iter()
        .filter(|e| {
            matches!(
                e,
                Event::StartArray(_)
                    | Event::StartStruct(_)
                    | Event::StartMap(_)
                    | Event::StartOpenStruct(_)
            )
        })
        .count();
    let ends = events.iter().filter(|e| matches!(e, Event::End)).count();
    assert_eq!(starts, ends);
    // And the encoder accepts the whole document.
    encode_all(&events, vec![]);
}
