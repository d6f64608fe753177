use minecrevy::bytes::WriteMinecraftExt;
use minecrevy::error::ReadMinecraftError;
use minecrevy::stream::{ByteReader, ScratchVec};
use minecrevy::varint::var_i32_size;

fn encode_var_i32(v: i32) -> Vec<u8> {
    let mut w = ScratchVec::new(16);
    w.write_var_i32(v).unwrap();
    w.into_inner()
}

fn decode_var_i32(bytes: Vec<u8>) -> Result<i32, ReadMinecraftError<()>> {
    let mut r = ByteReader::new(bytes);
    r.read_var_i32()
}

#[test]
fn var_int_boundary_encodings() {
    assert_eq!(encode_var_i32(0), vec![0x00]);
    assert_eq!(encode_var_i32(127), vec![0x7f]);
    assert_eq!(encode_var_i32(128), vec![0x80, 0x01]);
    assert_eq!(encode_var_i32(-1), vec![0xff, 0xff, 0xff, 0xff, 0x0f]);
    assert_eq!(encode_var_i32(2097151), vec![0xff, 0xff, 0x7f]);
    assert_eq!(encode_var_i32(2147483647), vec![0xff, 0xff, 0xff, 0xff, 0x07]);
    assert_eq!(encode_var_i32(-2147483648), vec![0x80, 0x80, 0x80, 0x80, 0x08]);
}

#[test]
fn var_int_size_matches_encoding_length() {
    for &v in &[
        0i32,
        1,
        127,
        128,
        255,
        16383,
        16384,
        2097151,
        2097152,
        268435455,
        268435456,
        2147483647,
        -1,
        -2147483648,
        770,
        25565,
    ] {
        assert_eq!(var_i32_size(v), encode_var_i32(v).len());
    }
}

#[test]
fn var_int_round_trip() {
    for &v in &[0i32, 1, 127, 128, 255, 770, 25565, 2147483647, -1, -42, -2147483648] {
        let encoded = encode_var_i32(v);
        assert_eq!(decode_var_i32(encoded), Ok(v));
    }
}

#[test]
fn var_int_round_trip_ignores_trailing_bytes() {
    let mut encoded = encode_var_i32(300);
    encoded.extend_from_slice(&[0xaa, 0xbb]);
    let mut r = ByteReader::new(encoded);
    assert_eq!(r.read_var_i32(), Ok(300));
    assert_eq!(r.remaining_len(), 2);
}

#[test]
fn var_int_six_group_sequence_is_too_big() {
    let r = decode_var_i32(vec![0x80, 0x80, 0x80, 0x80, 0x80, 0x01]);
    assert_eq!(r, Err(ReadMinecraftError::VarIntTooBig));
}

#[test]
fn var_int_all_continuation_bytes_is_too_big() {
    let r = decode_var_i32(vec![0xff, 0xff, 0xff, 0xff, 0xff]);
    assert_eq!(r, Err(ReadMinecraftError::VarIntTooBig));
}

#[test]
fn var_int_truncated_input_is_eof() {
    assert_eq!(decode_var_i32(vec![]), Err(ReadMinecraftError::UnexpectedEof));
    assert_eq!(decode_var_i32(vec![0x80]), Err(ReadMinecraftError::UnexpectedEof));
    assert_eq!(decode_var_i32(vec![0xff, 0xff]), Err(ReadMinecraftError::UnexpectedEof));
}

#[test]
fn write_var_i32_fails_atomically_when_full() {
    let mut w = ScratchVec::new(2);
    assert!(w.write_var_i32(1).is_ok());
    assert!(w.write_var_i32(300).is_err());
    assert_eq!(w.len(), 1);
    assert!(w.write_var_i32(2).is_ok());
    assert_eq!(w.into_inner(), vec![0x01, 0x02]);
}
