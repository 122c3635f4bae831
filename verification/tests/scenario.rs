//! The documented examples of the format, byte for byte.
use bincodec::{Decoder, Encoder};

#[test]
fn example_stream_has_the_documented_bytes() {
    let bytes = Encoder::new().uint8(5).bool(true).string("ok").end().unwrap();
    assert_eq!(bytes, vec![0x05, 0x01, 0x02, 0x6F, 0x6B]);
}

#[test]
fn example_stream_reads_back() {
    let mut decoder = Decoder::new(vec![0x05, 0x01, 0x02, 0x6F, 0x6B]);
    assert_eq!(decoder.uint8().unwrap(), 5);
    assert_eq!(decoder.bool().unwrap(), true);
    assert_eq!(decoder.string().unwrap(), "ok");
    assert!(decoder.end());
}

#[test]
fn eight_booleans_share_one_byte() {
    let flags = [true, false, true, true, false, false, true, false];
    let mut encoder = Encoder::new();
    for flag in flags {
        encoder = encoder.bool(flag);
    }
    let bytes = encoder.end().unwrap();
    assert_eq!(bytes, vec![0b0100_1101]);

    let mut decoder = Decoder::new(bytes);
    for flag in flags {
        assert_eq!(decoder.bool().unwrap(), flag);
    }
    assert!(decoder.end());
}

#[test]
fn a_byte_between_booleans_splits_the_run() {
    let bytes = Encoder::new()
        .bool(true)
        .bool(false)
        .bool(true)
        .bool(true)
        .uint8(0xAA)
        .bool(false)
        .bool(false)
        .bool(true)
        .bool(false)
        .end()
        .unwrap();
    assert_eq!(bytes, vec![0b0000_1101, 0xAA, 0b0000_0100]);

    let mut decoder = Decoder::new(bytes);
    assert_eq!(decoder.bool().unwrap(), true);
    assert_eq!(decoder.bool().unwrap(), false);
    assert_eq!(decoder.bool().unwrap(), true);
    assert_eq!(decoder.bool().unwrap(), true);
    assert_eq!(decoder.uint8().unwrap(), 0xAA);
    assert_eq!(decoder.bool().unwrap(), false);
    assert_eq!(decoder.bool().unwrap(), false);
    assert_eq!(decoder.bool().unwrap(), true);
    assert_eq!(decoder.bool().unwrap(), false);
    assert!(decoder.end());
}

#[test]
fn the_ninth_boolean_starts_a_second_byte() {
    let mut encoder = Encoder::new();
    for _ in 0..9 {
        encoder = encoder.bool(true);
    }
    let bytes = encoder.end().unwrap();
    assert_eq!(bytes, vec![0xFF, 0x01]);

    let mut decoder = Decoder::new(bytes);
    for _ in 0..9 {
        assert_eq!(decoder.bool().unwrap(), true);
    }
    assert!(decoder.end());
}

#[test]
fn sizes_at_the_boundaries_take_one_two_or_four_bytes() {
    let cases: [(usize, Vec<u8>); 6] = [
        (0, vec![0x00]),
        (127, vec![0x7F]),
        (128, vec![0x80, 0x80]),
        (16383, vec![0xBF, 0xFF]),
        (16384, vec![0xC0, 0x00, 0x40, 0x00]),
        (1073741823, vec![0xFF, 0xFF, 0xFF, 0xFF]),
    ];
    for (size, expected) in cases {
        let bytes = Encoder::new().size(size).end().unwrap();
        assert_eq!(bytes, expected);
        let mut decoder = Decoder::new(bytes);
        assert_eq!(decoder.size().unwrap(), size);
        assert!(decoder.end());
    }
}

#[test]
fn a_size_above_the_largest_fails_at_the_end() {
    let error = Encoder::new().size(1073741824).end().unwrap_err();
    assert_eq!(error.description(), "[size] value is too large");
}

#[test]
fn text_with_a_two_byte_character_round_trips() {
    let bytes = Encoder::new().string("h\u{e9}llo").end().unwrap();
    assert_eq!(bytes, vec![0x06, b'h', 0xC3, 0xA9, b'l', b'l', b'o']);
    let mut decoder = Decoder::new(bytes);
    assert_eq!(decoder.string().unwrap(), "h\u{e9}llo");
    assert!(decoder.end());
}

#[test]
fn text_that_is_not_utf8_fails_past_its_bytes() {
    let mut decoder = Decoder::new(vec![0x02, 0xC3, 0x28, 0x07]);
    let error = decoder.string().unwrap_err();
    assert_eq!(error.description(), "Couldn't decode UTF-8 string");
    assert_ne!(error.description(), "Attempted to read out of bounds");
    assert_eq!(decoder.uint8().unwrap(), 0x07);
    assert!(decoder.end());
}

#[test]
fn reading_every_field_reaches_the_end() {
    let bytes = Encoder::new().uint16(7).string("abc").int32(-9).end().unwrap();
    let mut decoder = Decoder::new(bytes);
    assert!(!decoder.end());
    assert_eq!(decoder.uint16().unwrap(), 7);
    assert!(!decoder.end());
    assert_eq!(decoder.string().unwrap(), "abc");
    assert!(!decoder.end());
    assert_eq!(decoder.int32().unwrap(), -9);
    assert!(decoder.end());
}

#[test]
fn booleans_left_in_the_last_byte_do_not_hold_the_end_back() {
    let bytes = Encoder::new().uint8(1).bool(true).bool(false).end().unwrap();
    let mut decoder = Decoder::new(bytes);
    assert_eq!(decoder.uint8().unwrap(), 1);
    assert!(!decoder.end());
    assert_eq!(decoder.bool().unwrap(), true);
    assert!(decoder.end());
    assert_eq!(decoder.bool().unwrap(), false);
    assert!(decoder.end());
}
