use minecrevy::encdec::{Encode, WireSize};
use minecrevy::error::{ReadMinecraftError, ReadPacketError};
use minecrevy::handshake::{DecodeHandshakeError, Handshake, NextState};
use minecrevy::server::{
    accept_handshake, default_status_response, handle_status_packet, handle_status_packets,
    read_handshake, status_json, HandshakeReadError, HandshakeRejection, StatusPacketError,
    HANDSHAKE_PACKET_ID, SERVER_PROTOCOL_VERSION,
};
use minecrevy::status::{StatusResponse, StatusResponsePlayers, Version};
use minecrevy::stream::{ByteReader, ScratchVec};
use minecrevy::text::McString;

fn varint(v: i32) -> Vec<u8> {
    let mut out = Vec::new();
    let mut u = v as u32;
    while u >= 0x80 {
        out.push((u & 0x7f) as u8 | 0x80);
        u >>= 7;
    }
    out.push(u as u8);
    out
}

fn packet(id: i32, body: &[u8]) -> Vec<u8> {
    let id_bytes = varint(id);
    let mut out = varint((id_bytes.len() + body.len()) as i32);
    out.extend_from_slice(&id_bytes);
    out.extend_from_slice(body);
    out
}

fn handshake_body(version: i32, address: &str, port: u16, next_state: i32) -> Vec<u8> {
    let mut body = varint(version);
    body.extend_from_slice(&varint(address.len() as i32));
    body.extend_from_slice(address.as_bytes());
    body.extend_from_slice(&port.to_be_bytes());
    body.extend_from_slice(&varint(next_state));
    body
}

#[test]
fn handshake_scenario_decodes_and_reencodes_byte_identically() {
    let body = handshake_body(770, "localhost", 25565, 1);
    let wire = packet(0x00, &body);
    let mut r = ByteReader::new(wire);
    let h = read_handshake(&mut r).unwrap();
    assert_eq!(h.protocol_version, 770);
    assert_eq!(h.server_address.as_bytes(), b"localhost");
    assert_eq!(h.server_port, 25565);
    assert_eq!(h.next_state, NextState::Status);
    assert!(accept_handshake(&h).is_ok());
    // Re-encode the body and confirm byte-identical output.
    let mut w = ScratchVec::new(256);
    h.encode(&mut w, &()).unwrap();
    assert_eq!(w.into_inner(), body);
    assert_eq!(h.wire_size(&()), body.len());
}

#[test]
fn handshake_with_wrong_leading_id_is_a_protocol_violation() {
    let body = handshake_body(770, "localhost", 25565, 1);
    let wire = packet(0x02, &body);
    let mut r = ByteReader::new(wire);
    let err = read_handshake(&mut r).unwrap_err();
    assert_eq!(err, HandshakeReadError::UnexpectedPacketId(0x02));
}

#[test]
fn handshake_with_unknown_next_state_fails_decode() {
    let body = handshake_body(770, "localhost", 25565, 9);
    let wire = packet(0x00, &body);
    let mut r = ByteReader::new(wire);
    let err = read_handshake(&mut r).unwrap_err();
    assert!(matches!(
        err,
        HandshakeReadError::Frame(ReadPacketError::Body(0, _))
    ));
}

#[test]
fn handshake_version_and_next_state_checks() {
    let ok = Handshake {
        protocol_version: SERVER_PROTOCOL_VERSION,
        server_address: McString::from_str("localhost").unwrap(),
        server_port: 25565,
        next_state: NextState::Status,
    };
    assert!(accept_handshake(&ok).is_ok());

    let mut wrong_version = ok.clone();
    wrong_version.protocol_version = 769;
    assert_eq!(
        accept_handshake(&wrong_version).unwrap_err(),
        HandshakeRejection::UnsupportedVersion(769)
    );

    let mut wrong_state = ok.clone();
    wrong_state.next_state = NextState::Login;
    assert_eq!(
        accept_handshake(&wrong_state).unwrap_err(),
        HandshakeRejection::UnsupportedNextState(NextState::Login)
    );
}

#[test]
fn next_state_try_from_accepts_only_known_discriminants() {
    assert_eq!(NextState::try_from(1), Ok(NextState::Status));
    assert_eq!(NextState::try_from(2), Ok(NextState::Login));
    assert_eq!(NextState::try_from(3), Ok(NextState::Transfer));
    assert!(NextState::try_from(0).is_err());
    assert!(NextState::try_from(4).is_err());
    assert_eq!(HANDSHAKE_PACKET_ID, 0);
}

#[test]
fn status_request_then_ping_yields_response_then_pong() {
    let response = default_status_response().unwrap();
    let mut input = packet(0x00, &[]);
    input.extend_from_slice(&packet(0x01, &42i64.to_be_bytes()));
    let mut r = ByteReader::new(input);
    let mut w = ScratchVec::new(4096);

    handle_status_packet(&mut r, &mut w, &response).unwrap();
    handle_status_packet(&mut r, &mut w, &response).unwrap();

    let json = status_json().as_bytes();
    let mut response_body = varint(json.len() as i32);
    response_body.extend_from_slice(json);
    let mut expected = packet(0x00, &response_body);
    expected.extend_from_slice(&packet(0x01, &42i64.to_be_bytes()));
    assert_eq!(w.into_inner(), expected);
}

#[test]
fn status_response_carries_the_fixed_json_document() {
    let json = status_json();
    assert!(json.contains("\"protocol\":770"));
    assert!(json.contains("\"name\":\"1.21.5\""));
    assert!(json.contains("\"enforcesSecureChat\":false"));
    let v = Version::V1_21_5;
    assert_eq!(v.name(), "1.21.5");
    assert_eq!(v.protocol(), 770);
}

#[test]
fn unknown_status_packet_id_terminates_the_loop() {
    let response = default_status_response().unwrap();
    let mut input = packet(0x00, &[]);
    input.extend_from_slice(&packet(0x07, &[1, 2, 3]));
    input.extend_from_slice(&packet(0x01, &5i64.to_be_bytes()));
    let mut r = ByteReader::new(input);
    let mut w = ScratchVec::new(4096);

    let err = handle_status_packets(&mut r, &mut w, &response);
    assert!(matches!(
        err,
        ReadPacketError::Body(0x07, StatusPacketError::UnknownPacketId(0x07))
    ));
    // Only the response to the request before the bad packet was written.
    let json = status_json().as_bytes();
    let mut response_body = varint(json.len() as i32);
    response_body.extend_from_slice(json);
    assert_eq!(w.into_inner(), packet(0x00, &response_body));
}

#[test]
fn connection_failures_stay_local_to_their_connection() {
    let response = default_status_response().unwrap();
    // One connection sends an undefined packet ID; the other works fine.
    let mut bad = ByteReader::new(packet(0x07, &[]));
    let mut bad_out = ScratchVec::new(1024);
    let err = handle_status_packets(&mut bad, &mut bad_out, &response);
    assert!(matches!(
        err,
        ReadPacketError::Body(0x07, StatusPacketError::UnknownPacketId(0x07))
    ));

    let mut good = ByteReader::new(packet(0x01, &7i64.to_be_bytes()));
    let mut good_out = ScratchVec::new(1024);
    let err = handle_status_packets(&mut good, &mut good_out, &response);
    // The good connection answers its ping, then ends on end-of-stream.
    assert!(matches!(
        err,
        ReadPacketError::Length(ReadMinecraftError::UnexpectedEof)
    ));
    assert_eq!(good_out.into_inner(), packet(0x01, &7i64.to_be_bytes()));
}

#[test]
fn ping_with_short_payload_is_a_ping_error() {
    let response = default_status_response().unwrap();
    let mut r = ByteReader::new(packet(0x01, &[1, 2, 3]));
    let mut w = ScratchVec::new(1024);
    let err = handle_status_packet(&mut r, &mut w, &response).unwrap_err();
    assert!(matches!(
        err,
        ReadPacketError::Body(0x01, StatusPacketError::Ping(ReadMinecraftError::UnexpectedEof))
    ));
    assert_eq!(w.len(), 0);
}

#[test]
fn full_response_buffer_is_a_response_error() {
    let response = default_status_response().unwrap();
    let mut r = ByteReader::new(packet(0x00, &[]));
    let mut w = ScratchVec::new(4);
    let err = handle_status_packet(&mut r, &mut w, &response).unwrap_err();
    assert!(matches!(
        err,
        ReadPacketError::Body(0x00, StatusPacketError::Response(_))
    ));
}

#[test]
fn full_pong_buffer_is_a_pong_error() {
    let response = default_status_response().unwrap();
    let mut r = ByteReader::new(packet(0x01, &9i64.to_be_bytes()));
    let mut w = ScratchVec::new(3);
    let err = handle_status_packet(&mut r, &mut w, &response).unwrap_err();
    assert!(matches!(
        err,
        ReadPacketError::Body(0x01, StatusPacketError::Pong(_))
    ));
}

#[test]
fn structured_status_response_describes_the_document() {
    let response = StatusResponse {
        version: Version::V1_21_5,
        players: StatusResponsePlayers { max: 0, online: 0 },
        description: McString::from_str("Hello, world!").unwrap(),
        enforces_secure_chat: false,
    };
    let json = status_json();
    assert!(json.contains(response.version.name()));
    assert!(json.contains(&format!("\"protocol\":{}", response.version.protocol())));
    assert!(json.contains(&format!("\"max\":{}", response.players.max)));
    assert!(json.contains(&format!("\"online\":{}", response.players.online)));
    assert!(json.contains("Hello, world!"));
    assert_eq!(response.description.as_bytes(), b"Hello, world!");
}

#[test]
fn truncated_handshake_body_is_an_io_error() {
    // A handshake frame whose body ends inside the address field.
    let body = vec![0x82, 0x06, 0x09, b'l', b'o'];
    let wire = packet(0x00, &body);
    let mut r = ByteReader::new(wire);
    let err = read_handshake(&mut r).unwrap_err();
    assert!(matches!(
        err,
        HandshakeReadError::Frame(ReadPacketError::Body(0, DecodeHandshakeError::Io(_)))
    ));
}
