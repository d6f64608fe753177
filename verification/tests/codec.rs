use minecrevy::bytes::WriteMinecraftExt;
use minecrevy::encdec::{Decode, Encode, WireSize};
use minecrevy::error::{ReadMinecraftError, WriteMinecraftError};
use minecrevy::options::IntOptions;
use minecrevy::stream::{ByteReader, ScratchVec};
use minecrevy::text::{is_valid_utf8, McString};

fn encode_to_vec<P: Encode>(p: &P, opts: &P::Options) -> Vec<u8> {
    let mut w = ScratchVec::new(65536);
    p.encode(&mut w, opts).unwrap();
    w.into_inner()
}

#[test]
fn u16_codec_is_big_endian() {
    let bytes = encode_to_vec(&0x63ddu16, &());
    assert_eq!(bytes, vec![0x63, 0xdd]);
    let mut r = ByteReader::new(bytes);
    assert_eq!(<u16 as Decode>::decode(&mut r, &()), Ok(0x63dd));
}

#[test]
fn i64_codec_is_big_endian() {
    let bytes = encode_to_vec(&42i64, &());
    assert_eq!(bytes, vec![0, 0, 0, 0, 0, 0, 0, 42]);
    let mut r = ByteReader::new(bytes);
    assert_eq!(<i64 as Decode>::decode(&mut r, &()), Ok(42));
    let neg = encode_to_vec(&-2i64, &());
    assert_eq!(neg, vec![0xff, 0xff, 0xff, 0xff, 0xff, 0xff, 0xff, 0xfe]);
}

#[test]
fn i32_codec_fixed_versus_varint() {
    let fixed = IntOptions::default();
    assert!(!fixed.varint);
    let varint = IntOptions { varint: true };
    assert_eq!(encode_to_vec(&770i32, &fixed), vec![0x00, 0x00, 0x03, 0x02]);
    assert_eq!(encode_to_vec(&770i32, &varint), vec![0x82, 0x06]);
    for opts in [fixed, varint] {
        for v in [0i32, 770, -1, i32::MAX, i32::MIN] {
            let bytes = encode_to_vec(&v, &opts);
            assert_eq!(bytes.len(), v.wire_size(&opts));
            let mut r = ByteReader::new(bytes);
            assert_eq!(<i32 as Decode>::decode(&mut r, &opts), Ok(v));
        }
    }
}

#[test]
fn wire_size_agrees_with_encode_length() {
    let s = McString::<255>::from_str("héllo wörld").unwrap();
    assert_eq!(encode_to_vec(&s, &()).len(), s.wire_size(&()));
    assert_eq!(encode_to_vec(&0x1234u16, &()).len(), 0x1234u16.wire_size(&()));
    assert_eq!(encode_to_vec(&-7i64, &()).len(), (-7i64).wire_size(&()));
}

#[test]
fn string_codec_round_trip() {
    let s = McString::<255>::from_str("localhost").unwrap();
    let bytes = encode_to_vec(&s, &());
    assert_eq!(bytes[0], 9);
    assert_eq!(&bytes[1..], b"localhost");
    let mut r = ByteReader::new(bytes);
    let back = <McString<255> as Decode>::decode(&mut r, &()).unwrap();
    assert_eq!(back.as_bytes(), s.as_bytes());
}

#[test]
fn string_decode_rejects_invalid_utf8() {
    // A length prefix of 2, then a lone continuation byte pair that is not
    // valid UTF-8.
    let mut r = ByteReader::new(vec![0x02, 0x80, 0x80]);
    let res = r.read_string::<255>();
    assert_eq!(res.unwrap_err(), ReadMinecraftError::InvalidUtf8);
}

#[test]
fn string_decode_rejects_over_bound_length() {
    let mut r = ByteReader::new(vec![0x05, b'a', b'b', b'c', b'd', b'e']);
    let res = r.read_string::<4>();
    assert_eq!(res.unwrap_err(), ReadMinecraftError::LengthExceeded);
}

#[test]
fn string_decode_rejects_negative_length() {
    // VarInt -1 as the length prefix.
    let mut r = ByteReader::new(vec![0xff, 0xff, 0xff, 0xff, 0x0f]);
    let res = r.read_string::<255>();
    assert_eq!(res.unwrap_err(), ReadMinecraftError::LengthExceeded);
}

#[test]
fn string_decode_short_body_is_eof() {
    let mut r = ByteReader::new(vec![0x05, b'a', b'b']);
    let res = r.read_string::<255>();
    assert_eq!(res.unwrap_err(), ReadMinecraftError::UnexpectedEof);
}

#[test]
fn utf8_validator_matches_standard_library() {
    let cases: Vec<Vec<u8>> = vec![
        b"".to_vec(),
        b"plain ascii".to_vec(),
        "héllo".as_bytes().to_vec(),
        "日本語".as_bytes().to_vec(),
        "🦀".as_bytes().to_vec(),
        vec![0x80],
        vec![0xc0, 0xaf],
        vec![0xed, 0xa0, 0x80],
        vec![0xf4, 0x90, 0x80, 0x80],
        vec![0xc3],
        vec![0xe2, 0x82],
        vec![0xf0, 0x9f, 0xa6],
        vec![0xff, 0xfe],
    ];
    for case in cases {
        assert_eq!(
            is_valid_utf8(case.as_slice()),
            core::str::from_utf8(case.as_slice()).is_ok(),
            "mismatch on {:?}",
            case
        );
    }
}

#[test]
fn mcstring_from_bytes_checks_both_bounds() {
    assert!(McString::<8>::from_bytes(b"hello".to_vec()).is_ok());
    assert_eq!(
        McString::<3>::from_bytes(b"hello".to_vec()).unwrap_err(),
        ReadMinecraftError::LengthExceeded
    );
    assert_eq!(
        McString::<8>::from_bytes(vec![0xc0, 0xaf]).unwrap_err(),
        ReadMinecraftError::InvalidUtf8
    );
}

#[test]
fn write_string_is_length_prefixed() {
    let mut w = ScratchVec::new(64);
    w.write_string("ab").unwrap();
    assert_eq!(w.into_inner(), vec![0x02, b'a', b'b']);
}

#[test]
fn encode_reports_out_of_memory_atomically() {
    let mut w = ScratchVec::new(4);
    let res = 99i64.encode(&mut w, &());
    assert_eq!(res.unwrap_err(), WriteMinecraftError::OutOfMemory);
    assert_eq!(w.len(), 0);
}

#[test]
fn from_str_rejects_a_string_over_the_bound() {
    let long = "x".repeat(300);
    assert_eq!(
        McString::<255>::from_str(&long).unwrap_err(),
        ReadMinecraftError::LengthExceeded
    );
}

#[test]
fn remaining_primitive_codecs_round_trip() {
    assert_eq!(encode_to_vec(&0xdeadbeefu32, &()), vec![0xde, 0xad, 0xbe, 0xef]);
    assert_eq!(encode_to_vec(&0x0102030405060708u64, &()), vec![1, 2, 3, 4, 5, 6, 7, 8]);
    assert_eq!(encode_to_vec(&-1i8, &()), vec![0xff]);
    assert_eq!(encode_to_vec(&-2i16, &()), vec![0xff, 0xfe]);
    let mut r = ByteReader::new(encode_to_vec(&0xdeadbeefu32, &()));
    assert_eq!(<u32 as Decode>::decode(&mut r, &()), Ok(0xdeadbeef));
    let mut r = ByteReader::new(encode_to_vec(&-12345i16, &()));
    assert_eq!(<i16 as Decode>::decode(&mut r, &()), Ok(-12345));
    let mut r = ByteReader::new(encode_to_vec(&-100i8, &()));
    assert_eq!(<i8 as Decode>::decode(&mut r, &()), Ok(-100));
    let mut r = ByteReader::new(encode_to_vec(&u64::MAX, &()));
    assert_eq!(<u64 as Decode>::decode(&mut r, &()), Ok(u64::MAX));
}
