use maintenance_proxy::frame::{FrameDecoder, FrameError};
use maintenance_proxy::packet::{ConnectionState, PacketError, ServerboundPacket};
use maintenance_proxy::session::{Reply, Responder, SessionError};
use maintenance_proxy::status::{encode_reply, favicon_uri, status_json, wrap_lines};
use maintenance_proxy::varint::write_varint;

fn encode(v: i32) -> Vec<u8> {
    let mut buf = Vec::new();
    write_varint(v, &mut buf);
    buf
}

fn frame(body: &[u8]) -> Vec<u8> {
    let mut f = encode(body.len() as i32);
    f.extend_from_slice(body);
    f
}

fn handshake(version: i32, next_state: i32) -> Vec<u8> {
    let mut b = encode(0);
    b.extend(encode(version));
    b.extend(encode(9));
    b.extend_from_slice(b"localhost");
    b.extend_from_slice(&25565u16.to_be_bytes());
    b.extend(encode(next_state));
    frame(&b)
}

fn login_start(name: &str) -> Vec<u8> {
    let mut b = encode(0);
    b.extend(encode(name.len() as i32));
    b.extend_from_slice(name.as_bytes());
    frame(&b)
}

/// Splits a frame into its packet id and the text field after it.
fn text_of_frame(f: &[u8]) -> String {
    let mut pos = 0;
    while f[pos] & 0x80 != 0 {
        pos += 1;
    }
    pos += 1;
    assert_eq!(f[pos], 0x00);
    pos += 1;
    let mut len: usize = 0;
    let mut shift = 0;
    loop {
        let b = f[pos];
        pos += 1;
        len |= ((b & 0x7f) as usize) << shift;
        shift += 7;
        if b & 0x80 == 0 {
            break;
        }
    }
    assert_eq!(f.len(), pos + len);
    String::from_utf8(f[pos..].to_vec()).unwrap()
}

#[test]
fn fragmented_delivery_one_byte_at_a_time() {
    let f = handshake(757, 1);
    let mut d = FrameDecoder::new();
    for (i, b) in f.iter().enumerate() {
        d.extend(&[*b]);
        let got = d.next_frame().unwrap();
        if i + 1 < f.len() {
            assert!(got.is_none());
            assert_eq!(d.buffered().len(), i + 1);
        } else {
            assert_eq!(got.unwrap(), f[1..].to_vec());
        }
    }
    assert_eq!(d.next_frame(), Ok(None));
    assert!(d.buffered().is_empty());
}

#[test]
fn fragmented_delivery_through_responder() {
    let f = handshake(757, 1);
    for chunk in 1..=f.len() {
        let mut r = Responder::new();
        let mut total = 0;
        for piece in f.chunks(chunk) {
            let got = r.receive(piece);
            assert!(!got.close);
            assert!(got.error.is_none());
            assert!(got.replies.is_empty());
            total += piece.len();
            if total < f.len() {
                assert_eq!(r.connection_state(), ConnectionState::Handshaking);
            }
        }
        assert_eq!(r.connection_state(), ConnectionState::Status);
        assert_eq!(r.protocol_version(), Some(757));
    }
}

#[test]
fn large_frame_in_pieces() {
    let mut body = vec![0x00, 0x80, 0x80, 0x01];
    body.extend(std::iter::repeat(b'a').take(16384));
    let f = frame(&body);
    assert_eq!(f.len(), 3 + body.len());
    let mut d = FrameDecoder::new();
    for piece in f.chunks(1000) {
        d.extend(piece);
        let got = d.next_frame().unwrap();
        if d.buffered().is_empty() {
            assert_eq!(got.unwrap(), body);
        } else {
            assert!(got.is_none());
        }
    }
}

#[test]
fn several_frames_in_one_read() {
    let mut bytes = handshake(757, 1);
    bytes.extend(frame(&[0x00]));
    let mut ping = vec![0x01];
    ping.extend_from_slice(&42i64.to_be_bytes());
    bytes.extend(frame(&ping));
    bytes.extend_from_slice(&[0x05, 0x01]);
    let mut r = Responder::new();
    let got = r.receive(&bytes);
    assert_eq!(got.replies, vec![Reply::Status { protocol_version: 757 }, Reply::Pong { payload: 42 }]);
    assert!(!got.close);
    let got = r.receive(&[0, 0, 0, 0]);
    assert!(got.replies.is_empty());
    let pong = encode_reply(Reply::Pong { payload: 42 }, &[]).unwrap();
    assert_eq!(pong, vec![0x09, 0x01, 0, 0, 0, 0, 0, 0, 0, 42]);
}

#[test]
fn handshake_to_status() {
    let mut r = Responder::new();
    let got = r.receive(&handshake(4, 1));
    assert!(got.replies.is_empty() && !got.close && got.error.is_none());
    assert_eq!(r.connection_state(), ConnectionState::Status);
}

#[test]
fn handshake_to_login() {
    let mut r = Responder::new();
    let got = r.receive(&handshake(4, 2));
    assert!(got.replies.is_empty() && !got.close && got.error.is_none());
    assert_eq!(r.connection_state(), ConnectionState::Login);
}

#[test]
fn handshake_invalid_next_state() {
    for bad in [0, 3, -1, 1000] {
        let mut r = Responder::new();
        let got = r.receive(&handshake(4, bad));
        assert!(got.close);
        assert_eq!(got.error, Some(SessionError::InvalidNextState(bad)));
        assert_eq!(r.connection_state(), ConnectionState::Handshaking);
    }
}

#[test]
fn status_without_version() {
    let mut r = Responder::new();
    assert_eq!(r.handle_packet(ServerboundPacket::StatusRequest), Err(SessionError::NoProtocolVersion));
    assert_eq!(r.handle_packet(ServerboundPacket::PingRequest { payload: 7 }), Ok(Some(Reply::Pong { payload: 7 })));
}

#[test]
fn unsupported_packet_closes_connection() {
    let mut r = Responder::new();
    let got = r.receive(&frame(&[0x07]));
    assert!(got.close);
    assert_eq!(
        got.error,
        Some(SessionError::Packet(PacketError::Unsupported { state: ConnectionState::Handshaking, id: 7 }))
    );
}

#[test]
fn bad_length_header_closes_connection() {
    let mut r = Responder::new();
    let got = r.receive(&[0x80, 0x80, 0x80, 0x01]);
    assert!(got.close);
    assert_eq!(got.error, Some(SessionError::Frame(FrameError::BadLength)));
    let mut d = FrameDecoder::new();
    d.extend(&[0x80, 0x80]);
    assert_eq!(d.next_frame(), Ok(None));
    d.extend(&[0x80]);
    assert_eq!(d.next_frame(), Err(FrameError::BadLength));
}

#[test]
fn end_to_end_status() {
    let icon: Vec<u8> = (0u8..=255).cycle().take(300).collect();
    let mut bytes = handshake(757, 1);
    bytes.extend(frame(&[0x00]));
    let mut r = Responder::new();
    let got = r.receive(&bytes);
    assert_eq!(got.replies, vec![Reply::Status { protocol_version: 757 }]);
    let out = encode_reply(got.replies[0], &icon).unwrap();
    let json = text_of_frame(&out);
    assert!(json.contains("\"protocol\":757"));
    let value: serde_json::Value = serde_json::from_str(&json).unwrap();
    let favicon = value["favicon"].as_str().unwrap();
    assert!(favicon.starts_with("data:image/png;base64,"));
    assert_eq!(value["version"]["name"].as_str(), Some("1.7.10"));
    assert_eq!(value["description"]["text"].as_str(), Some("Server is currently in maintenance"));
    assert!(value.get("players").is_none());
    let lines: Vec<&str> = favicon["data:image/png;base64,".len()..].split('\n').collect();
    assert_eq!(lines.len(), 6);
    assert!(lines[..5].iter().all(|l| l.len() == 76));
    assert_eq!(lines[5].len(), 400 - 5 * 76);
}

#[test]
fn end_to_end_login_rejection() {
    let mut bytes = handshake(757, 2);
    bytes.extend(login_start("Alice"));
    bytes.extend(frame(&[0x00, 0x00]));
    let mut r = Responder::new();
    let got = r.receive(&bytes);
    assert_eq!(got.replies, vec![Reply::Disconnect]);
    assert!(got.close);
    assert!(got.error.is_none());
    let out = encode_reply(Reply::Disconnect, &[]).unwrap();
    assert_eq!(text_of_frame(&out), "{\"text\": \"Server is currently in maintenance\"}");
}

#[test]
fn status_document_exact() {
    let json = status_json(757, b"hello").unwrap();
    assert_eq!(
        json,
        "{\"version\":{\"name\":\"1.7.10\",\"protocol\":757},\"description\":{\"text\":\"Server is currently in maintenance\"},\"favicon\":\"data:image/png;base64,aGVsbG8=\"}"
    );
    let json = status_json(-3, b"").unwrap();
    assert!(json.contains("\"protocol\":-3}"));
}

#[test]
fn favicon_lines() {
    assert_eq!(favicon_uri(b"hello"), "data:image/png;base64,aGVsbG8=");
    assert_eq!(favicon_uri(b""), "data:image/png;base64,");
    let icon = vec![0u8; 57];
    let uri = favicon_uri(&icon);
    assert_eq!(uri, format!("data:image/png;base64,{}", "A".repeat(76)));
    let icon = vec![0u8; 58];
    let uri = favicon_uri(&icon);
    assert_eq!(uri, format!("data:image/png;base64,{}\nAA==", "A".repeat(76)));
}

#[test]
fn wrap_lines_exact() {
    assert_eq!(wrap_lines("abcdefg", 3), "abc\ndef\ng");
    assert_eq!(wrap_lines("abcdef", 3), "abc\ndef");
    assert_eq!(wrap_lines("", 3), "");
    assert_eq!(wrap_lines("ab", 3), "ab");
    assert_eq!(wrap_lines("héllo", 2), "hé\nll\no");
}

#[test]
fn wrap_lines_zero_width() {
    assert_eq!(wrap_lines("abcdef", 0), "abcdef");
    assert_eq!(wrap_lines("", 0), "");
}

#[test]
fn every_reply_is_encoded() {
    let icon = vec![7u8; 1000];
    for reply in [Reply::Status { protocol_version: 757 }, Reply::Pong { payload: -1 }, Reply::Disconnect] {
        assert!(encode_reply(reply, &icon).is_ok());
    }
}
