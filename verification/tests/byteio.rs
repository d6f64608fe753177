use minecrevy::byteio::Endian;
use minecrevy::error::ReadMinecraftError;
use minecrevy::stream::{ByteReader, ScratchVec};

#[test]
fn fixed_width_reads_have_exact_values() {
    let mut r = ByteReader::new(vec![0x12, 0x34, 0x56, 0x78]);
    assert_eq!(r.read_u16(Endian::Big), Ok(0x1234));
    assert_eq!(r.read_u16(Endian::Little), Ok(0x7856));

    let mut r = ByteReader::new(vec![0xff, 0xfe, 0x00, 0x01]);
    assert_eq!(r.read_i16(Endian::Big), Ok(-2));
    assert_eq!(r.read_u16(Endian::Big), Ok(1));

    let mut r = ByteReader::new(vec![0x01, 0x02, 0x03, 0x04, 0x05, 0x06, 0x07, 0x08]);
    assert_eq!(r.read_u64(Endian::Big), Ok(0x0102030405060708));

    let mut r = ByteReader::new(vec![0x01, 0x02, 0x03]);
    assert_eq!(r.read_u24(Endian::Little), Ok(0x030201));
}

#[test]
fn fixed_width_writes_have_exact_bytes() {
    let mut w = ScratchVec::new(64);
    w.write_u16(Endian::Big, 0x63dd).unwrap();
    w.write_u16(Endian::Little, 0x63dd).unwrap();
    w.write_i64(Endian::Big, -2).unwrap();
    w.write_u32(Endian::Big, 0xdeadbeef).unwrap();
    let mut expected = vec![0x63, 0xdd, 0xdd, 0x63];
    expected.extend_from_slice(&[0xff; 8]);
    expected[4 + 7] = 0xfe;
    expected.extend_from_slice(&[0xde, 0xad, 0xbe, 0xef]);
    assert_eq!(w.into_inner(), expected);
}

#[test]
fn variable_width_uint_round_trip() {
    let mut w = ScratchVec::new(64);
    w.write_uint(Endian::Big, 0x01_0203, 3).unwrap();
    w.write_uint(Endian::Little, 0x01_0203, 3).unwrap();
    w.write_uint128(Endian::Big, 0x0102_0304_0506_0708_090a_0b0c_0d0e_0f10, 16).unwrap();
    let bytes = w.into_inner();
    assert_eq!(&bytes[..6], &[0x01, 0x02, 0x03, 0x03, 0x02, 0x01]);
    let mut r = ByteReader::new(bytes);
    assert_eq!(r.read_uint(Endian::Big, 3), Ok(0x01_0203));
    assert_eq!(r.read_uint(Endian::Little, 3), Ok(0x01_0203));
    assert_eq!(r.read_uint128(Endian::Big, 16), Ok(0x0102_0304_0506_0708_090a_0b0c_0d0e_0f10));
}

#[test]
fn signed_reads_sign_extend() {
    let mut r = ByteReader::new(vec![0x80, 0xff, 0x7f]);
    assert_eq!(r.read_i8(Endian::Big), Ok(-128));
    assert_eq!(r.read_i8(Endian::Big), Ok(-1));
    assert_eq!(r.read_i8(Endian::Big), Ok(127));

    let mut r = ByteReader::new(vec![0xff, 0xff, 0xff, 0xff]);
    assert_eq!(r.read_i32(Endian::Big), Ok(-1));
}

#[test]
fn short_reads_fail_without_consuming() {
    let mut r = ByteReader::new(vec![0x01, 0x02]);
    assert_eq!(r.read_u32(Endian::Big), Err(ReadMinecraftError::UnexpectedEof));
    assert_eq!(r.read_u16(Endian::Big), Ok(0x0102));
}

#[test]
fn read_uuid_builds_from_the_two_big_endian_words() {
    let msb: u64 = 0xa1a2a3a4_b1b2c1c2;
    let lsb: u64 = 0xd1d2d3d4_d5d6d7d8;
    let mut bytes = msb.to_be_bytes().to_vec();
    bytes.extend_from_slice(&lsb.to_be_bytes());
    let mut r = ByteReader::new(bytes);
    let u = r.read_uuid().unwrap();
    assert_eq!(u, uuid::Uuid::from_u64_pair(msb, lsb));
    assert_eq!(u.as_u64_pair(), (msb, lsb));

    let mut short = ByteReader::new(vec![0x00; 10]);
    assert_eq!(short.read_uuid(), Err(ReadMinecraftError::UnexpectedEof));
}

#[test]
fn bounded_writer_reports_capacity_exhaustion() {
    let mut w = ScratchVec::new(3);
    assert!(w.write_u16(Endian::Big, 1).is_ok());
    assert!(w.write_u16(Endian::Big, 2).is_err());
    assert_eq!(w.len(), 2);
    assert!(w.write_u8(0x09).is_ok());
    assert_eq!(w.into_inner(), vec![0x00, 0x01, 0x09]);
}
