//! Decoding fixed byte streams: canonical and non-canonical forms, and
//! every failure the decoder can report.

use sofa_serialize::decoder_error::{DecoderError, ErrorCode};
use sofa_serialize::{Decoder, Event, Size};

fn decode_all(bytes: Vec<u8>, dictionary: Vec<String>) -> Vec<Event> {
    let mut decoder = Decoder::new(bytes, dictionary);
    decoder.read_all().unwrap()
}

fn first_error(bytes: Vec<u8>, dictionary: Vec<String>) -> ErrorCode {
    let mut decoder = Decoder::new(bytes, dictionary);
    loop {
        match decoder.read() {
            Ok(Some(_)) => continue,
            Ok(None) => panic!("stream ended cleanly"),
            Err(DecoderError::StreamError(code)) => return code,
        }
    }
}

#[test]
fn decodes_nil() {
    assert_eq!(decode_all(vec![0x01], vec![]), vec![Event::Nil]);
}

#[test]
fn decodes_false() {
    assert_eq!(decode_all(vec![0x02], vec![]), vec![Event::Boolean(false)]);
}

#[test]
fn decodes_true() {
    assert_eq!(decode_all(vec![0x03], vec![]), vec![Event::Boolean(true)]);
}

#[test]
fn decodes_binary() {
    assert_eq!(
        decode_all(vec![0x08, 0x04, 0x01, 0x02, 0x03, 0x04], vec![]),
        vec![Event::Binary(vec![0x01, 0x02, 0x03, 0x04])]
    );
}

#[test]
fn decodes_string() {
    assert_eq!(
        decode_all(vec![0x64, 0xF0, 0x9F, 0x8D, 0xAA], vec![]),
        vec![Event::String(String::from("🍪"))]
    );
}

#[test]
fn decodes_dictionary_string() {
    assert_eq!(
        decode_all(vec![0x80], vec![String::from("🍪")]),
        vec![Event::String(String::from("🍪"))]
    );
}

#[test]
fn decodes_noncanonical_string() {
    // The general length-prefixed form of a string short enough for the
    // compact form decodes to the identical event.
    assert_eq!(
        decode_all(vec![0x09, 0x04, 0xF0, 0x9F, 0x8D, 0xAA], vec![]),
        vec![Event::String(String::from("🍪"))]
    );
}

#[test]
fn decodes_array() {
    assert_eq!(
        decode_all(vec![0x21, 0x01], vec![]),
        vec![Event::StartArray(Size::U64(1)), Event::Nil, Event::End]
    );
}

#[test]
fn decodes_noncanonical_array() {
    assert_eq!(
        decode_all(vec![0x0A, 0x02, 0x01, 0x01], vec![]),
        vec![Event::StartArray(Size::U64(2)), Event::Nil, Event::Nil, Event::End]
    );
}

#[test]
fn decodes_noncanonical_length_escape() {
    // A length written through a wider escape than needed decodes to the
    // identical event.
    assert_eq!(
        decode_all(vec![0x0A, 0xF1, 0x02, 0x01, 0x01], vec![]),
        vec![Event::StartArray(Size::U64(2)), Event::Nil, Event::Nil, Event::End]
    );
    assert_eq!(
        decode_all(vec![0x0A, 0xF2, 0x02, 0x00, 0x01, 0x01], vec![]),
        vec![Event::StartArray(Size::U64(2)), Event::Nil, Event::Nil, Event::End]
    );
}

#[test]
fn decodes_struct() {
    assert_eq!(
        decode_all(vec![0x0B, 0x01, 0x80, 0x02], vec![String::from("🍪")]),
        vec![
            Event::StartStruct(Size::U64(1)),
            Event::String(String::from("🍪")),
            Event::Boolean(false),
            Event::End,
        ]
    );
}

#[test]
fn decodes_map() {
    assert_eq!(
        decode_all(vec![0x0C, 0x01, 0x80, 0x02], vec![String::from("🍪")]),
        vec![
            Event::StartMap(Size::U64(1)),
            Event::String(String::from("🍪")),
            Event::Boolean(false),
            Event::End,
        ]
    );
}

#[test]
fn decodes_noncanonical_map() {
    // The general map header for a count small enough for the compact
    // form decodes to the identical events as the compact header.
    let general = decode_all(vec![0x0C, 0x01, 0x80, 0x02], vec![String::from("🍪")]);
    let compact = decode_all(vec![0x31, 0x80, 0x02], vec![String::from("🍪")]);
    assert_eq!(general, compact);
}

#[test]
fn decodes_open_struct() {
    assert_eq!(
        decode_all(vec![0x0D, 0x01, 0x80, 0x80, 0x02], vec![String::from("🍪")]),
        vec![
            Event::StartOpenStruct(Size::U64(1)),
            Event::String(String::from("🍪")),
            Event::String(String::from("🍪")),
            Event::Boolean(false),
            Event::End,
        ]
    );
}

#[test]
fn decodes_u8() {
    assert_eq!(decode_all(vec![0x10, 0x50], vec![]), vec![Event::U8(0x50)]);
}

#[test]
fn decodes_u16() {
    assert_eq!(decode_all(vec![0x11, 0x50, 0x51], vec![]), vec![Event::U16(0x5150)]);
}

#[test]
fn decodes_u32() {
    assert_eq!(
        decode_all(vec![0x12, 0x50, 0x51, 0x52, 0x53], vec![]),
        vec![Event::U32(0x53525150)]
    );
}

#[test]
fn decodes_u64() {
    assert_eq!(
        decode_all(vec![0x13, 0x50, 0x51, 0x52, 0x53, 0x54, 0x55, 0x56, 0x57], vec![]),
        vec![Event::U64(0x5756555453525150)]
    );
}

#[test]
fn decodes_i8() {
    assert_eq!(decode_all(vec![0x14, 0x50], vec![]), vec![Event::I8(0x50)]);
    assert_eq!(decode_all(vec![0x14, 0xFF], vec![]), vec![Event::I8(-1)]);
}

#[test]
fn decodes_i16() {
    assert_eq!(decode_all(vec![0x15, 0x50, 0x51], vec![]), vec![Event::I16(0x5150)]);
}

#[test]
fn decodes_i32() {
    assert_eq!(
        decode_all(vec![0x16, 0x50, 0x51, 0x52, 0x53], vec![]),
        vec![Event::I32(0x53525150)]
    );
}

#[test]
fn decodes_i64() {
    assert_eq!(
        decode_all(vec![0x17, 0x50, 0x51, 0x52, 0x53, 0x54, 0x55, 0x56, 0x57], vec![]),
        vec![Event::I64(0x5756555453525150)]
    );
}

#[test]
fn decodes_f32() {
    assert_eq!(
        decode_all(vec![0x1A, 0x00, 0x00, 0x80, 0x3F], vec![]),
        vec![Event::F32(1.0f32.to_bits())]
    );
}

#[test]
fn decodes_f64() {
    assert_eq!(
        decode_all(vec![0x1B, 0x00, 0x00, 0x00, 0x00, 0x00, 0x00, 0xF0, 0x3F], vec![]),
        vec![Event::F64(1.0f64.to_bits())]
    );
}

#[test]
fn decodes_fixnum() {
    assert_eq!(decode_all(vec![0x24, 0xFF], vec![]), vec![Event::Fixnum(vec![0xFF])]);
    assert_eq!(
        decode_all(vec![0x25, 0x01, 0x02], vec![]),
        vec![Event::Fixnum(vec![0x01, 0x02])]
    );
}

#[test]
fn nil_then_clean_end() {
    // Decoding a single nil yields the event, then the clean end of the
    // stream, and only after that the end-of-stream failure.
    let mut decoder = Decoder::new(vec![0x01], vec![]);
    assert_eq!(decoder.read(), Ok(Some(Event::Nil)));
    assert_eq!(decoder.read(), Ok(None));
    assert_eq!(decoder.read(), Err(DecoderError::StreamError(ErrorCode::EndOfStream)));
    assert_eq!(decoder.read(), Err(DecoderError::StreamError(ErrorCode::EndOfStream)));
}

#[test]
fn rejects_dictionary_index_past_end_inline() {
    assert_eq!(first_error(vec![0x80], vec![]), ErrorCode::InvalidDictionaryIndex);
}

#[test]
fn rejects_dictionary_index_past_end_one_byte() {
    assert_eq!(
        first_error(vec![0x09, 0xF5, 0x01], vec![String::from("🍪")]),
        ErrorCode::InvalidDictionaryIndex
    );
}

#[test]
fn rejects_dictionary_index_past_end_two_bytes() {
    assert_eq!(
        first_error(vec![0x09, 0xF6, 0x00, 0x01], vec![String::from("🍪")]),
        ErrorCode::InvalidDictionaryIndex
    );
}

#[test]
fn rejects_dictionary_index_past_end_four_bytes() {
    assert_eq!(
        first_error(vec![0x09, 0xF7, 0x00, 0x00, 0x00, 0x01], vec![String::from("🍪")]),
        ErrorCode::InvalidDictionaryIndex
    );
}

#[test]
fn rejects_dictionary_index_past_end_eight_bytes() {
    assert_eq!(
        first_error(
            vec![0x09, 0xF8, 0x00, 0x00, 0x00, 0x00, 0x00, 0x00, 0x00, 0x01],
            vec![String::from("🍪")],
        ),
        ErrorCode::InvalidDictionaryIndex
    );
}

#[test]
fn rejects_reserved_length_markers() {
    assert_eq!(first_error(vec![0x08, 0xEF], vec![]), ErrorCode::InvalidLength);
    assert_eq!(first_error(vec![0x08, 0xF0], vec![]), ErrorCode::InvalidLength);
    // In a binary's length position the dictionary escapes are illegal.
    assert_eq!(first_error(vec![0x08, 0xF5, 0x00], vec![]), ErrorCode::InvalidLength);
}

#[test]
fn rejects_unknown_tags() {
    assert_eq!(first_error(vec![0x00], vec![]), ErrorCode::InvalidType);
    assert_eq!(first_error(vec![0x04], vec![]), ErrorCode::InvalidType);
    assert_eq!(first_error(vec![0x18], vec![]), ErrorCode::InvalidType);
    assert_eq!(first_error(vec![0x70], vec![]), ErrorCode::InvalidType);
}

#[test]
fn rejects_invalid_utf8() {
    assert_eq!(first_error(vec![0x61, 0xFF], vec![]), ErrorCode::InvalidUTF8);
    assert_eq!(first_error(vec![0x09, 0x01, 0xC0], vec![]), ErrorCode::InvalidUTF8);
}

#[test]
fn rejects_truncated_length_escape() {
    // A length-escape marker with insufficient trailing bytes.
    assert_eq!(first_error(vec![0x08, 0xF2, 0x01], vec![]), ErrorCode::UnexpectedEOF);
}

#[test]
fn rejects_truncated_payloads() {
    assert_eq!(first_error(vec![0x08, 0x04, 0x01], vec![]), ErrorCode::UnexpectedEOF);
    assert_eq!(first_error(vec![0x64, 0xF0], vec![]), ErrorCode::UnexpectedEOF);
    assert_eq!(first_error(vec![0x11, 0x50], vec![]), ErrorCode::UnexpectedEOF);
    assert_eq!(first_error(vec![0x24], vec![]), ErrorCode::UnexpectedEOF);
}

#[test]
fn rejects_buffer_exhausted_inside_structure() {
    // Exhausting the buffer while a structure is still open is an error,
    // never a clean end.
    assert_eq!(first_error(vec![0x22, 0x01], vec![]), ErrorCode::UnexpectedEOF);
}

#[test]
fn read_all_reports_the_first_failure() {
    let mut decoder = Decoder::new(vec![0x22, 0x01, 0x00], vec![]);
    assert_eq!(
        decoder.read_all(),
        Err(DecoderError::StreamError(ErrorCode::InvalidType))
    );
}

#[test]
fn read_all_ignores_trailing_bytes() {
    let mut decoder = Decoder::new(vec![0x01, 0xEE, 0xEE], vec![]);
    assert_eq!(decoder.read_all(), Ok(vec![Event::Nil]));
}

#[test]
fn failed_read_leaves_decoder_unchanged() {
    let mut decoder = Decoder::new(vec![0x22, 0x01, 0x00], vec![]);
    assert_eq!(decoder.read(), Ok(Some(Event::StartArray(Size::U64(2)))));
    assert_eq!(decoder.read(), Ok(Some(Event::Nil)));
    assert_eq!(decoder.read(), Err(DecoderError::StreamError(ErrorCode::InvalidType)));
    assert_eq!(decoder.read(), Err(DecoderError::StreamError(ErrorCode::InvalidType)));
}
