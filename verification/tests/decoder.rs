//! What each read gives, and where it leaves the cursor.
use bincodec::{Decoder, Error};

#[test]
fn an_empty_buffer_is_at_its_end() {
    let decoder = Decoder::new(Vec::new());
    assert!(decoder.end());
}

#[test]
fn uint8_reads_the_next_byte() {
    let mut decoder = Decoder::new(vec![0x00, 0xFF]);
    assert_eq!(decoder.uint8().unwrap(), 0);
    assert_eq!(decoder.uint8().unwrap(), 255);
    assert!(decoder.end());
}

#[test]
fn fixed_width_integers_are_read_big_endian() {
    let mut decoder = Decoder::new(vec![0x12, 0x34, 0x12, 0x34, 0x56, 0x78]);
    assert_eq!(decoder.uint16().unwrap(), 0x1234);
    assert_eq!(decoder.uint32().unwrap(), 0x1234_5678);
    assert!(decoder.end());
}

#[test]
fn signed_integers_are_read_from_twos_complement() {
    let mut decoder = Decoder::new(vec![
        0xFF, 0x80, 0x7F, 0xFF, 0xFE, 0x80, 0x00, 0xFF, 0xFF, 0xFF, 0xFE, 0x80, 0x00, 0x00, 0x00,
    ]);
    assert_eq!(decoder.int8().unwrap(), -1);
    assert_eq!(decoder.int8().unwrap(), -128);
    assert_eq!(decoder.int8().unwrap(), 127);
    assert_eq!(decoder.int16().unwrap(), -2);
    assert_eq!(decoder.int16().unwrap(), i16::MIN);
    assert_eq!(decoder.int32().unwrap(), -2);
    assert_eq!(decoder.int32().unwrap(), i32::MIN);
    assert!(decoder.end());
}

#[test]
fn float_patterns_are_read_upper_half_first() {
    let mut decoder = Decoder::new(vec![
        0x3F, 0x80, 0x00, 0x00, 0x3F, 0xF0, 0x00, 0x00, 0x00, 0x00, 0x00, 0x00,
    ]);
    assert_eq!(f32::from_bits(decoder.float32_bits().unwrap()), 1.0);
    assert_eq!(f64::from_bits(decoder.float64_bits().unwrap()), 1.0);
    assert!(decoder.end());
    let mut decoder = Decoder::new(vec![0x01, 0x02, 0x03, 0x04, 0x05, 0x06, 0x07, 0x08]);
    assert_eq!(decoder.float64_bits().unwrap(), 0x0102_0304_0506_0708);
}

#[test]
fn a_read_past_the_end_fails_out_of_bounds() {
    let message = "Attempted to read out of bounds";
    assert_eq!(Error::out_of_bounds().description(), message);
    assert_eq!(Decoder::new(vec![]).uint8().unwrap_err().description(), message);
    assert_eq!(Decoder::new(vec![1]).uint16().unwrap_err().description(), message);
    assert_eq!(Decoder::new(vec![1, 2, 3]).uint32().unwrap_err().description(), message);
    assert_eq!(Decoder::new(vec![]).int8().unwrap_err().description(), message);
    assert_eq!(Decoder::new(vec![1]).int16().unwrap_err().description(), message);
    assert_eq!(Decoder::new(vec![1, 2, 3]).int32().unwrap_err().description(), message);
    assert_eq!(Decoder::new(vec![1, 2, 3]).float32_bits().unwrap_err().description(), message);
    assert_eq!(
        Decoder::new(vec![1, 2, 3, 4, 5, 6, 7]).float64_bits().unwrap_err().description(),
        message
    );
    assert_eq!(Decoder::new(vec![]).bool().unwrap_err().description(), message);
    assert_eq!(Decoder::new(vec![]).size().unwrap_err().description(), message);
    assert_eq!(Decoder::new(vec![]).bytes().unwrap_err().description(), message);
    assert_eq!(Decoder::new(vec![]).string().unwrap_err().description(), message);
}

#[test]
fn a_failed_fixed_width_read_keeps_what_it_consumed() {
    let mut decoder = Decoder::new(vec![0x12, 0x34]);
    assert!(decoder.uint32().is_err());
    assert!(decoder.end());
    assert!(decoder.uint8().is_err());

    let mut decoder = Decoder::new(vec![0x12]);
    assert!(decoder.uint16().is_err());
    assert!(decoder.end());
}

#[test]
fn a_failed_single_byte_read_consumes_nothing() {
    let mut decoder = Decoder::new(vec![0x01]);
    assert_eq!(decoder.uint8().unwrap(), 1);
    assert!(decoder.uint8().is_err());
    assert!(decoder.uint8().is_err());
    assert!(decoder.end());
}

#[test]
fn booleans_come_from_the_bits_of_one_byte() {
    let mut decoder = Decoder::new(vec![0b1010_0110]);
    let expected = [false, true, true, false, false, true, false, true];
    for flag in expected {
        assert_eq!(decoder.bool().unwrap(), flag);
    }
    assert!(decoder.bool().is_err());
}

#[test]
fn a_read_between_booleans_makes_the_next_one_take_a_new_byte() {
    let mut decoder = Decoder::new(vec![0x01, 0x00, 0x02]);
    assert_eq!(decoder.bool().unwrap(), true);
    assert_eq!(decoder.uint8().unwrap(), 0);
    assert_eq!(decoder.bool().unwrap(), false);
    assert_eq!(decoder.bool().unwrap(), true);
    assert!(decoder.end());
}

#[test]
fn a_failed_read_between_booleans_leaves_the_run_open() {
    let mut decoder = Decoder::new(vec![0b0000_0010]);
    assert_eq!(decoder.bool().unwrap(), false);
    assert!(decoder.uint8().is_err());
    assert_eq!(decoder.bool().unwrap(), true);
}

#[test]
fn sizes_are_read_by_their_signature() {
    assert_eq!(Decoder::new(vec![0x01]).size().unwrap(), 1);
    assert_eq!(Decoder::new(vec![0x81, 0x2C]).size().unwrap(), 300);
    assert_eq!(Decoder::new(vec![0xC0, 0x01, 0x11, 0x70]).size().unwrap(), 70000);
    assert_eq!(Decoder::new(vec![0xFF, 0xFF, 0xFF, 0xFF]).size().unwrap(), 1073741823);
}

#[test]
fn a_size_in_more_bytes_than_it_needs_is_still_read() {
    assert_eq!(Decoder::new(vec![0x80, 0x05]).size().unwrap(), 5);
    assert_eq!(Decoder::new(vec![0xC0, 0x00, 0x00, 0x05]).size().unwrap(), 5);
}

#[test]
fn a_size_cut_short_fails_and_consumes_what_is_left() {
    let mut decoder = Decoder::new(vec![0x81]);
    assert_eq!(decoder.size().unwrap_err().description(), "Attempted to read out of bounds");
    assert!(decoder.end());
    let mut decoder = Decoder::new(vec![0xC0, 0x01, 0x11]);
    assert_eq!(decoder.size().unwrap_err().description(), "Attempted to read out of bounds");
    assert!(decoder.end());
}

#[test]
fn bytes_are_read_after_their_length() {
    let mut decoder = Decoder::new(vec![0x03, 0x01, 0x02, 0x03, 0x00, 0x09]);
    assert_eq!(decoder.bytes().unwrap(), vec![1, 2, 3]);
    assert_eq!(decoder.bytes().unwrap(), Vec::<u8>::new());
    assert_eq!(decoder.uint8().unwrap(), 9);
    assert!(decoder.end());
}

#[test]
fn bytes_cut_short_fail_with_the_cursor_past_the_length() {
    let mut decoder = Decoder::new(vec![0x03, 0x01, 0x02]);
    assert_eq!(decoder.bytes().unwrap_err().description(), "Attempted to read out of bounds");
    assert!(!decoder.end());
    assert_eq!(decoder.uint8().unwrap(), 1);
    assert_eq!(decoder.uint8().unwrap(), 2);
    assert!(decoder.end());
}

#[test]
fn text_cut_short_fails_out_of_bounds() {
    let mut decoder = Decoder::new(vec![0x05, b'a', b'b']);
    assert_eq!(decoder.string().unwrap_err().description(), "Attempted to read out of bounds");
    assert_eq!(decoder.uint8().unwrap(), b'a');
}

#[test]
fn text_is_read_from_its_utf8_bytes() {
    let mut decoder = Decoder::new(vec![0x03, 0xE2, 0x82, 0xAC, 0x00]);
    assert_eq!(decoder.string().unwrap(), "\u{20ac}");
    assert_eq!(decoder.string().unwrap(), "");
    assert!(decoder.end());
}

#[test]
fn ill_formed_utf8_is_refused() {
    let ill_formed: [Vec<u8>; 5] = [
        vec![0x01, 0x80],
        vec![0x02, 0xC0, 0x80],
        vec![0x03, 0xED, 0xA0, 0x80],
        vec![0x04, 0xF4, 0x90, 0x80, 0x80],
        vec![0x01, 0xC3],
    ];
    for bytes in ill_formed {
        let mut decoder = Decoder::new(bytes);
        assert_eq!(decoder.string().unwrap_err().description(), "Couldn't decode UTF-8 string");
        assert!(decoder.end());
    }
}

#[test]
fn an_error_keeps_its_message() {
    assert_eq!(Error::new("broken").description(), "broken");
    assert_eq!(Error::new("").description(), "");
    assert_eq!(format!("{:?}", Error::new("x")), "Error(\"x\")");
}
