use maintenance_proxy::packet::{
    parse_packet, write_packet, ClientboundPacket, ConnectionState, PacketError, ServerboundPacket,
    PACKET_MAX_SIZE,
};
use maintenance_proxy::varint::{parse_varint, write_varint, VarIntError};

fn encode(v: i32) -> Vec<u8> {
    let mut buf = Vec::new();
    let n = write_varint(v, &mut buf);
    assert_eq!(n, buf.len());
    buf
}

#[test]
fn varint_known_encodings() {
    assert_eq!(encode(0), vec![0x00]);
    assert_eq!(encode(1), vec![0x01]);
    assert_eq!(encode(127), vec![0x7f]);
    assert_eq!(encode(128), vec![0x80, 0x01]);
    assert_eq!(encode(255), vec![0xff, 0x01]);
    assert_eq!(encode(256), vec![0x80, 0x02]);
    assert_eq!(encode(300), vec![0xac, 0x02]);
    assert_eq!(encode(25565), vec![0xdd, 0xc7, 0x01]);
    assert_eq!(encode(2097151), vec![0xff, 0xff, 0x7f]);
    assert_eq!(encode(i32::MAX), vec![0xff, 0xff, 0xff, 0xff, 0x07]);
    assert_eq!(encode(-1), vec![0xff, 0xff, 0xff, 0xff, 0x0f]);
    assert_eq!(encode(i32::MIN), vec![0x80, 0x80, 0x80, 0x80, 0x08]);
}

#[test]
fn varint_round_trip() {
    let values = [0, 1, 2, 127, 128, 255, 256, 16383, 16384, 2097151, 2097152, 757, i32::MAX, -1, -2, i32::MIN, -757];
    for v in values {
        let mut bytes = encode(v);
        let written = bytes.len();
        bytes.extend_from_slice(&[0x42, 0x99]);
        assert_eq!(parse_varint(&bytes), Ok((v, written)));
    }
}

#[test]
fn varint_overflow() {
    assert_eq!(parse_varint(&[0x80, 0x80, 0x80, 0x80, 0x80, 0x01]), Err(VarIntError::Overflow));
    assert_eq!(parse_varint(&[0xff; 6]), Err(VarIntError::Overflow));
    assert_eq!(parse_varint(&[0xff; 5]), Err(VarIntError::Overflow));
    assert_eq!(parse_varint(&[0xff; 64]), Err(VarIntError::Overflow));
}

#[test]
fn varint_incomplete() {
    assert_eq!(parse_varint(&[]), Err(VarIntError::Incomplete));
    assert_eq!(parse_varint(&[0x80]), Err(VarIntError::Incomplete));
    assert_eq!(parse_varint(&[0xff, 0xff, 0xff, 0xff]), Err(VarIntError::Incomplete));
}

fn handshake_body(version: i32, address: &str, port: u16, next_state: i32) -> Vec<u8> {
    let mut b = encode(0);
    b.extend(encode(version));
    b.extend(encode(address.len() as i32));
    b.extend_from_slice(address.as_bytes());
    b.extend_from_slice(&port.to_be_bytes());
    b.extend(encode(next_state));
    b
}

#[test]
fn parse_handshake_fields() {
    let body = handshake_body(757, "localhost", 25565, 1);
    match parse_packet(&body, ConnectionState::Handshaking) {
        Ok(ServerboundPacket::Handshake { protocol_version, server_address, server_port, next_state }) => {
            assert_eq!(protocol_version, 757);
            assert_eq!(server_address, "localhost");
            assert_eq!(server_port, 25565);
            assert_eq!(next_state, 1);
        }
        _ => panic!("expected a handshake"),
    }
}

#[test]
fn parse_status_and_ping() {
    assert!(matches!(parse_packet(&[0x00], ConnectionState::Status), Ok(ServerboundPacket::StatusRequest)));
    let mut ping = vec![0x01];
    ping.extend_from_slice(&(-5i64).to_be_bytes());
    assert!(matches!(parse_packet(&ping, ConnectionState::Status), Ok(ServerboundPacket::PingRequest { payload: -5 })));
    let mut big = vec![0x01];
    big.extend_from_slice(&0x0102030405060708i64.to_be_bytes());
    assert!(matches!(
        parse_packet(&big, ConnectionState::Status),
        Ok(ServerboundPacket::PingRequest { payload: 0x0102030405060708 })
    ));
}

#[test]
fn parse_login_start_lossy() {
    let body = vec![0x00, 0x05, b'A', b'l', b'i', b'c', b'e'];
    match parse_packet(&body, ConnectionState::Login) {
        Ok(ServerboundPacket::LoginStart { username }) => assert_eq!(username, "Alice"),
        _ => panic!("expected a login start"),
    }
    let bad = vec![0x00, 0x03, b'A', 0xff, b'b'];
    match parse_packet(&bad, ConnectionState::Login) {
        Ok(ServerboundPacket::LoginStart { username }) => assert_eq!(username, "A\u{FFFD}b"),
        _ => panic!("expected a login start"),
    }
}

#[test]
fn parse_errors() {
    assert_eq!(
        parse_packet(&[0x05], ConnectionState::Status).err(),
        Some(PacketError::Unsupported { state: ConnectionState::Status, id: 5 })
    );
    assert_eq!(
        parse_packet(&[0x01], ConnectionState::Handshaking).err(),
        Some(PacketError::Unsupported { state: ConnectionState::Handshaking, id: 1 })
    );
    assert_eq!(
        parse_packet(&[0x00], ConnectionState::Play).err(),
        Some(PacketError::Unsupported { state: ConnectionState::Play, id: 0 })
    );
    assert_eq!(parse_packet(&[0x00, 0x00], ConnectionState::Status).err(), Some(PacketError::TrailingBytes));
    assert_eq!(parse_packet(&[0x01, 0x00, 0x01], ConnectionState::Status).err(), Some(PacketError::Truncated));
    assert_eq!(parse_packet(&[], ConnectionState::Status).err(), Some(PacketError::Truncated));
    assert_eq!(parse_packet(&[0x00, 0x09, b'a'], ConnectionState::Login).err(), Some(PacketError::Truncated));
    assert_eq!(parse_packet(&[0x00, 0xff, 0xff, 0xff, 0xff, 0x0f], ConnectionState::Login).err(), Some(PacketError::Truncated));
    assert_eq!(parse_packet(&[0x80, 0x80, 0x80, 0x80, 0x80], ConnectionState::Status).err(), Some(PacketError::Overflow));
}

#[test]
fn write_ping_response() {
    let frame = write_packet(ClientboundPacket::PingResponse { payload: 0x0102030405060708 }).unwrap();
    assert_eq!(frame, vec![0x09, 0x01, 1, 2, 3, 4, 5, 6, 7, 8]);
}

#[test]
fn write_text_response() {
    let frame = write_packet(ClientboundPacket::DisconnectResponse { reason: "bye".to_string() }).unwrap();
    assert_eq!(frame, vec![0x05, 0x00, 0x03, b'b', b'y', b'e']);
    let frame = write_packet(ClientboundPacket::StatusResponse { json_response: "é".to_string() }).unwrap();
    assert_eq!(frame, vec![0x04, 0x00, 0x02, 0xc3, 0xa9]);
}

#[test]
fn write_too_large() {
    let huge = "x".repeat(PACKET_MAX_SIZE);
    assert!(write_packet(ClientboundPacket::DisconnectResponse { reason: huge }).is_none());
    let fits = "x".repeat(PACKET_MAX_SIZE - 4);
    let frame = write_packet(ClientboundPacket::DisconnectResponse { reason: fits }).unwrap();
    assert_eq!(&frame[..3], &[0xff, 0xff, 0x7f]);
    assert_eq!(frame.len(), 3 + PACKET_MAX_SIZE);
}

#[test]
fn varint_decode_then_encode() {
    let samples: [&[u8]; 6] = [
        &[0x00],
        &[0x7f],
        &[0xac, 0x02],
        &[0xdd, 0xc7, 0x01],
        &[0xff, 0xff, 0xff, 0xff, 0x0f],
        &[0x80, 0x80, 0x80, 0x80, 0x08],
    ];
    for e in samples {
        let (v, n) = parse_varint(e).unwrap();
        assert_eq!(n, e.len());
        assert_eq!(encode(v), e.to_vec());
    }
}
