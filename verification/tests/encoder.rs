//! What each write appends.
use bincodec::Encoder;

#[test]
fn a_fresh_encoder_ends_with_no_bytes() {
    assert_eq!(Encoder::new().end().unwrap(), Vec::<u8>::new());
}

#[test]
fn uint8_appends_the_byte() {
    assert_eq!(Encoder::new().uint8(0).uint8(255).end().unwrap(), vec![0x00, 0xFF]);
}

#[test]
fn uint16_is_big_endian() {
    assert_eq!(Encoder::new().uint16(0x1234).end().unwrap(), vec![0x12, 0x34]);
    assert_eq!(Encoder::new().uint16(0xFFFF).end().unwrap(), vec![0xFF, 0xFF]);
    assert_eq!(Encoder::new().uint16(1).end().unwrap(), vec![0x00, 0x01]);
}

#[test]
fn uint32_is_big_endian() {
    assert_eq!(Encoder::new().uint32(0x1234_5678).end().unwrap(), vec![0x12, 0x34, 0x56, 0x78]);
    assert_eq!(Encoder::new().uint32(1).end().unwrap(), vec![0x00, 0x00, 0x00, 0x01]);
    assert_eq!(Encoder::new().uint32(u32::MAX).end().unwrap(), vec![0xFF, 0xFF, 0xFF, 0xFF]);
}

#[test]
fn signed_integers_are_in_twos_complement() {
    assert_eq!(Encoder::new().int8(-1).int8(-128).int8(127).end().unwrap(), vec![0xFF, 0x80, 0x7F]);
    assert_eq!(Encoder::new().int16(-2).end().unwrap(), vec![0xFF, 0xFE]);
    assert_eq!(Encoder::new().int16(i16::MIN).end().unwrap(), vec![0x80, 0x00]);
    assert_eq!(Encoder::new().int32(-2).end().unwrap(), vec![0xFF, 0xFF, 0xFF, 0xFE]);
    assert_eq!(Encoder::new().int32(i32::MIN).end().unwrap(), vec![0x80, 0x00, 0x00, 0x00]);
    assert_eq!(Encoder::new().int32(0x0102_0304).end().unwrap(), vec![0x01, 0x02, 0x03, 0x04]);
}

#[test]
fn float_patterns_are_big_endian_upper_half_first() {
    let one32 = 1.0f32.to_bits();
    assert_eq!(Encoder::new().float32_bits(one32).end().unwrap(), vec![0x3F, 0x80, 0x00, 0x00]);
    let one64 = 1.0f64.to_bits();
    assert_eq!(
        Encoder::new().float64_bits(one64).end().unwrap(),
        vec![0x3F, 0xF0, 0x00, 0x00, 0x00, 0x00, 0x00, 0x00]
    );
    assert_eq!(
        Encoder::new().float64_bits(0x0102_0304_0506_0708).end().unwrap(),
        vec![0x01, 0x02, 0x03, 0x04, 0x05, 0x06, 0x07, 0x08]
    );
}

#[test]
fn the_first_boolean_goes_to_bit_zero() {
    assert_eq!(Encoder::new().bool(true).end().unwrap(), vec![0x01]);
    assert_eq!(Encoder::new().bool(false).end().unwrap(), vec![0x00]);
    assert_eq!(Encoder::new().bool(false).bool(true).end().unwrap(), vec![0x02]);
    assert_eq!(Encoder::new().bool(false).bool(false).bool(true).end().unwrap(), vec![0x04]);
}

#[test]
fn each_kind_of_write_closes_a_run_of_booleans() {
    assert_eq!(
        Encoder::new().bool(true).uint16(0).bool(true).end().unwrap(),
        vec![0x01, 0x00, 0x00, 0x01]
    );
    assert_eq!(Encoder::new().bool(true).size(3).bool(true).end().unwrap(), vec![1, 3, 1]);
    assert_eq!(Encoder::new().bool(true).bytes(&[]).bool(true).end().unwrap(), vec![1, 0, 1]);
    assert_eq!(Encoder::new().bool(true).string("").bool(true).end().unwrap(), vec![1, 0, 1]);
}

#[test]
fn sizes_carry_their_signature() {
    assert_eq!(Encoder::new().size(1).end().unwrap(), vec![0x01]);
    assert_eq!(Encoder::new().size(300).end().unwrap(), vec![0x81, 0x2C]);
    assert_eq!(Encoder::new().size(70000).end().unwrap(), vec![0xC0, 0x01, 0x11, 0x70]);
}

#[test]
fn bytes_follow_their_length() {
    assert_eq!(Encoder::new().bytes(&[1, 2, 3]).end().unwrap(), vec![0x03, 0x01, 0x02, 0x03]);
    assert_eq!(Encoder::new().bytes(&[]).end().unwrap(), vec![0x00]);
    let long = vec![0xABu8; 200];
    let bytes = Encoder::new().bytes(&long).end().unwrap();
    assert_eq!(bytes.len(), 202);
    assert_eq!(&bytes[..2], &[0x80, 0xC8]);
    assert_eq!(&bytes[2..], &long[..]);
}

#[test]
fn text_is_written_as_its_utf8_bytes() {
    assert_eq!(Encoder::new().string("ok").end().unwrap(), vec![0x02, 0x6F, 0x6B]);
    assert_eq!(Encoder::new().string("").end().unwrap(), vec![0x00]);
    assert_eq!(
        Encoder::new().string("\u{20ac}").end().unwrap(),
        vec![0x03, 0xE2, 0x82, 0xAC]
    );
}

#[test]
fn a_failed_write_appends_nothing_and_fails_the_end() {
    let error = Encoder::new().uint8(1).size(0x4000_0000).uint8(2).end().unwrap_err();
    assert_eq!(error.description(), "[size] value is too large");
    let error = Encoder::new().size(usize::MAX).end().unwrap_err();
    assert_eq!(error.description(), "[size] value is too large");
}

#[test]
fn bytes_too_long_for_their_length_fail() {
    let long = vec![0u8; 0x4000_0000];
    let error = Encoder::new().bytes(&long).end().unwrap_err();
    assert_eq!(error.description(), "[bytes] is too long");
}

#[test]
fn text_too_long_for_its_length_fails() {
    let long = String::from_utf8(vec![0u8; 0x4000_0000]).unwrap();
    let error = Encoder::new().string(&long).end().unwrap_err();
    assert_eq!(error.description(), "[string] is too long");
}

#[test]
fn the_first_failure_is_the_one_reported() {
    let long = vec![0u8; 0x4000_0000];
    let error = Encoder::new().size(0x4000_0000).bytes(&long).end().unwrap_err();
    assert_eq!(error.description(), "[size] value is too large");
    let error = Encoder::new().bytes(&long).size(0x4000_0000).end().unwrap_err();
    assert_eq!(error.description(), "[bytes] is too long");
}
