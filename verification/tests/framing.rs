use minecrevy::encdec::Decode;
use minecrevy::error::{ReadMinecraftError, ReadPacketError, WriteMinecraftError, WritePacketError};
use minecrevy::framing::{frame_status, FrameStatus, RawPacket};
use minecrevy::status::StatusPing;
use minecrevy::stream::{ByteReader, ScratchVec};

#[test]
fn packet_round_trip_preserves_id_and_body() {
    let packet: RawPacket<64> = RawPacket { id: 0x07, data: vec![1, 2, 3, 4] };
    let mut w = ScratchVec::new(64);
    w.write_raw_packet(&packet).unwrap();
    let bytes = w.into_inner();
    // Envelope: length = 1 (ID) + 4 (body) = 5, then the ID, then the body.
    assert_eq!(bytes, vec![0x05, 0x07, 1, 2, 3, 4]);
    let mut r = ByteReader::new(bytes);
    let back: RawPacket<64> = r.read_raw_packet().unwrap();
    assert_eq!(back.id, packet.id);
    assert_eq!(back.data, packet.data);
}

#[test]
fn typed_packet_round_trip() {
    let ping = StatusPing(-12345);
    let mut w = ScratchVec::new(64);
    w.write_packet(0x01, &ping, &()).unwrap();
    let mut r = ByteReader::new(w.into_inner());
    let (id, back): (i32, StatusPing) = r.read_packet(&()).unwrap();
    assert_eq!(id, 0x01);
    assert_eq!(back, ping);
}

#[test]
fn body_decoder_cannot_read_past_declared_length() {
    // One packet whose declared body is 2 bytes, followed by another packet.
    // A decoder asking for more than 2 bytes from the bounded window sees an
    // end of stream, not the next packet's bytes.
    let bytes = vec![0x03, 0x09, 0xaa, 0xbb, 0x03, 0x01, 1, 2];
    let mut r = ByteReader::new(bytes);
    let (id, mut body) = r.read_packet_body().unwrap();
    assert_eq!(id, 0x09);
    assert_eq!(body.remaining_len(), 2);
    assert_eq!(body.read_u8(), Ok(0xaa));
    assert_eq!(body.read_u8(), Ok(0xbb));
    assert_eq!(body.read_u8(), Err(ReadMinecraftError::UnexpectedEof));
    // The next packet still frames correctly.
    let (id2, mut body2) = r.read_packet_body().unwrap();
    assert_eq!(id2, 0x01);
    assert_eq!(body2.read_exact(2).unwrap(), vec![1, 2]);
}

#[test]
fn frame_shorter_than_declared_truncates_body_window() {
    // Declared length 5 (ID + 4 body bytes) but only 2 body bytes follow.
    let bytes = vec![0x05, 0x02, 9, 8];
    let mut r = ByteReader::new(bytes);
    let (id, body) = r.read_packet_body().unwrap();
    assert_eq!(id, 0x02);
    assert_eq!(body.remaining_len(), 2);
}

#[test]
fn frame_length_errors_are_distinct() {
    // Malformed length prefix.
    let mut r = ByteReader::new(vec![0x80, 0x80, 0x80, 0x80, 0x80]);
    assert!(matches!(
        r.read_packet_body(),
        Err(ReadPacketError::Length(ReadMinecraftError::VarIntTooBig))
    ));
    // Negative declared length.
    let mut r = ByteReader::new(vec![0xff, 0xff, 0xff, 0xff, 0x0f]);
    assert!(matches!(
        r.read_packet_body(),
        Err(ReadPacketError::Length(ReadMinecraftError::LengthExceeded))
    ));
    // Length fine, ID missing.
    let mut r = ByteReader::new(vec![0x05]);
    assert!(matches!(
        r.read_packet_body(),
        Err(ReadPacketError::Id(ReadMinecraftError::UnexpectedEof))
    ));
    // Declared length smaller than the ID's own size.
    let mut r = ByteReader::new(vec![0x00, 0x07]);
    assert!(matches!(
        r.read_packet_body(),
        Err(ReadPacketError::Id(ReadMinecraftError::LengthExceeded))
    ));
}

#[test]
fn raw_packet_over_capacity_is_a_body_error() {
    let bytes = vec![0x05, 0x01, 1, 2, 3, 4];
    let mut r = ByteReader::new(bytes);
    let res: Result<RawPacket<2>, _> = r.read_raw_packet();
    assert!(matches!(
        res,
        Err(ReadPacketError::Body(0x01, ReadMinecraftError::LengthExceeded))
    ));
}

#[test]
fn raw_packet_short_stream_is_a_body_error() {
    let bytes = vec![0x05, 0x01, 1, 2];
    let mut r = ByteReader::new(bytes);
    let res: Result<RawPacket<16>, _> = r.read_raw_packet();
    assert!(matches!(
        res,
        Err(ReadPacketError::Body(0x01, ReadMinecraftError::UnexpectedEof))
    ));
}

#[test]
fn write_packet_failure_stages_are_distinct() {
    // No room even for the length prefix.
    let mut w = ScratchVec::new(0);
    let res = w.write_packet(0x01, &StatusPing(1), &());
    assert!(matches!(
        res,
        Err(WritePacketError::Length(WriteMinecraftError::OutOfMemory))
    ));
    // Room for the length prefix but not the ID.
    let mut w = ScratchVec::new(1);
    let res = w.write_packet(0x01, &StatusPing(1), &());
    assert!(matches!(res, Err(WritePacketError::Id(WriteMinecraftError::OutOfMemory))));
    // Room for length and ID but not the body.
    let mut w = ScratchVec::new(4);
    let res = w.write_packet(0x01, &StatusPing(1), &());
    assert!(matches!(
        res,
        Err(WritePacketError::Body(0x01, WriteMinecraftError::OutOfMemory))
    ));
}

#[test]
fn typed_read_packet_tags_body_failures_with_the_id() {
    // Declared body of 2 bytes cannot hold a ping's 8-byte payload.
    let bytes = vec![0x03, 0x01, 0xaa, 0xbb];
    let mut r = ByteReader::new(bytes);
    let res: Result<(i32, StatusPing), _> = r.read_packet(&());
    assert!(matches!(
        res,
        Err(ReadPacketError::Body(0x01, ReadMinecraftError::UnexpectedEof))
    ));
}

#[test]
fn frame_status_classifies_buffered_bytes() {
    // A whole frame of 3 bytes total, plus two bytes of the next one.
    assert_eq!(frame_status(&[0x02, 0x01, 0xaa, 0x03, 0x01]), FrameStatus::Complete(3));
    // Length prefix says 4 more bytes but only 1 follows.
    assert_eq!(frame_status(&[0x04, 0x01]), FrameStatus::NeedMore);
    // Length prefix itself is cut short.
    assert_eq!(frame_status(&[0x80]), FrameStatus::NeedMore);
    assert_eq!(frame_status(&[]), FrameStatus::NeedMore);
    // Over-long and negative length prefixes cannot be recovered from.
    assert_eq!(frame_status(&[0x80, 0x80, 0x80, 0x80, 0x80]), FrameStatus::Malformed);
    assert_eq!(frame_status(&[0xff, 0xff, 0xff, 0xff, 0x0f]), FrameStatus::Malformed);
}
