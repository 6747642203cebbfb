use bytes::{BufMut, BytesMut};
use mc_proxy::configuration::SorryServerConfig;
use mc_proxy::mcp::constants::DEFAULT_PROTOCOL;
use mc_proxy::mcp::error::ProtocolError;
use mc_proxy::mcp::fake_server::{fake_server_action, FakeServerAction};
use mc_proxy::mcp::ping::Response;
use mc_proxy::mcp::protocol::{ClientBoundMcPacket, HandshakeState, McString, ServerBoundMcPacket};
use mc_proxy::mcp::varint::McVarInt;

fn handshake_body(id: i32, version: i32, address: &[u8], port: u16, state: i32) -> BytesMut {
    let mut buf = BytesMut::new();
    McVarInt::new(id).write(&mut buf);
    McVarInt::new(version).write(&mut buf);
    McVarInt::new(address.len() as i32).write(&mut buf);
    buf.extend_from_slice(address);
    buf.put_u16(port);
    McVarInt::new(state).write(&mut buf);
    buf
}

#[test]
fn read_string() {
    let mut buf = BytesMut::from(&[0x05, b'h', b'e', b'l', b'l', b'o', 0x01][..]);
    let s = McString::read(&mut buf).unwrap();
    assert_eq!(s.value, "hello");
    assert_eq!(s.length.value(), 5);
    assert_eq!(&buf[..], &[0x01]);
}

#[test]
fn read_string_utf8() {
    let text = "Grüße ✓";
    let mut buf = BytesMut::new();
    McVarInt::new(text.len() as i32).write(&mut buf);
    buf.extend_from_slice(text.as_bytes());
    assert_eq!(McString::read_string(&mut buf).unwrap(), text);
    assert!(buf.is_empty());
}

#[test]
fn read_string_invalid_utf8() {
    let mut buf = BytesMut::from(&[0x02, 0xc3, 0x28, 0x07][..]);
    assert_eq!(McString::read(&mut buf).err(), Some(ProtocolError::InvalidUtf8));
    assert_eq!(&buf[..], &[0x07]);
}

#[test]
fn string_readable() {
    assert!(McString::readable(&[0x02, b'a', b'b']));
    assert!(!McString::readable(&[0x03, b'a', b'b']));
    assert!(!McString::readable(&[0xff, 0xff, 0xff, 0xff, 0x0f]));
    assert!(!McString::readable(&[0x80]));
    // a string length that is too big is an error, not a short read
    assert!(McString::readable(&[0x80, 0x80, 0x80, 0x80, 0x80]));
}

#[test]
fn handshake_state_from_number() {
    assert_eq!(HandshakeState::from(McVarInt::new(1)), HandshakeState::Status);
    assert_eq!(HandshakeState::from(McVarInt::new(2)), HandshakeState::Login);
    assert_eq!(HandshakeState::from(McVarInt::new(3)), HandshakeState::Transfer);
}

#[test]
fn read_handshake_body() {
    let mut buf = handshake_body(0, 763, b"mc.example.org", 25565, 1);
    buf.put_u8(0xee);
    let packet = ServerBoundMcPacket::read_body(&mut buf).unwrap();
    match packet {
        ServerBoundMcPacket::Handshake { protocol_version, server_address, server_port, next_state } => {
            assert_eq!(protocol_version.value(), 763);
            assert_eq!(server_address, "mc.example.org");
            assert_eq!(server_port, 25565);
            assert_eq!(next_state, HandshakeState::Status);
        }
    }
    assert_eq!(&buf[..], &[0xee]);
}

#[test]
fn read_body_refuses_other_packets() {
    let mut buf = handshake_body(1, 763, b"x", 1, 1);
    assert_eq!(ServerBoundMcPacket::read_body(&mut buf).err(), Some(ProtocolError::UnsupportedPacketId(1)));
}

#[test]
fn read_body_malformed() {
    // cut short inside the port
    let full = handshake_body(0, 763, b"host", 25565, 2);
    let mut buf = BytesMut::from(&full[..full.len() - 2]);
    assert_eq!(ServerBoundMcPacket::read_body(&mut buf).err(), Some(ProtocolError::Malformed));
    // a next state out of range
    let mut buf = handshake_body(0, 763, b"host", 25565, 4);
    assert_eq!(ServerBoundMcPacket::read_body(&mut buf).err(), Some(ProtocolError::Malformed));
    // empty
    let mut buf = BytesMut::new();
    assert_eq!(ServerBoundMcPacket::read_body(&mut buf).err(), Some(ProtocolError::Malformed));
}

#[test]
fn read_body_too_big_varint() {
    let mut buf = BytesMut::from(&[0x00, 0xff, 0xff, 0xff, 0xff, 0xff, 0x01][..]);
    assert_eq!(ServerBoundMcPacket::read_body(&mut buf).err(), Some(ProtocolError::VarIntTooBig));
    assert_eq!(&buf[..], &[0x01]);
}

#[test]
fn read_framed_handshake() {
    let body = handshake_body(0, 763, b"localhost", 25565, 2);
    let mut buf = BytesMut::new();
    McVarInt::new(body.len() as i32).write(&mut buf);
    buf.extend_from_slice(&body);
    buf.put_u8(0x01);
    let packet = ServerBoundMcPacket::read(&mut buf).unwrap();
    match packet {
        ServerBoundMcPacket::Handshake { server_address, next_state, .. } => {
            assert_eq!(server_address, "localhost");
            assert_eq!(next_state, HandshakeState::Login);
        }
    }
    assert_eq!(&buf[..], &[0x01]);
}

#[test]
fn read_framed_incomplete_and_negative() {
    let mut buf = BytesMut::from(&[0x05, 0x00, 0x01][..]);
    assert_eq!(ServerBoundMcPacket::read(&mut buf).err(), Some(ProtocolError::PacketIncomplete));
    let mut buf = BytesMut::from(&[0xff, 0xff, 0xff, 0xff, 0x0f, 0x00][..]);
    assert_eq!(ServerBoundMcPacket::read(&mut buf).err(), Some(ProtocolError::Malformed));
}

#[test]
fn fake_server_answers_by_state() {
    for (state, action) in [
        (1, FakeServerAction::SendStatus),
        (2, FakeServerAction::Kick),
        (3, FakeServerAction::Unsupported),
    ] {
        let mut buf = handshake_body(0, 763, b"h", 1, state);
        let packet = ServerBoundMcPacket::read_body(&mut buf).unwrap();
        assert_eq!(fake_server_action(&packet), action);
    }
}

#[test]
fn status_response_packet_bytes() {
    let packet = ClientBoundMcPacket::StatusResponse { json_response: String::from("{}") };
    let bytes = packet.to_packet();
    assert_eq!(&bytes[..], &[0x04, 0x00, 0x02, b'{', b'}']);
    assert_eq!(packet.try_to_packet().unwrap(), bytes);
}

#[test]
fn long_status_response_packet() {
    let json = "x".repeat(200);
    let packet = ClientBoundMcPacket::StatusResponse { json_response: json.clone() };
    let bytes = packet.to_packet();
    // payload: id (1) + length (2) + 200 bytes = 203 = [0xcb, 0x01]
    assert_eq!(&bytes[..5], &[0xcb, 0x01, 0x00, 0xc8, 0x01]);
    assert_eq!(&bytes[5..], json.as_bytes());
}

#[test]
fn login_disconnect_joins_lines() {
    let packet = ClientBoundMcPacket::login_disconnect(&vec![String::from("Server down"), String::from("Try later")]);
    match &packet {
        ClientBoundMcPacket::LoginDisconnect { reason } => assert_eq!(reason, "Server down\nTry later"),
        _ => panic!("not a login disconnect"),
    }
    let bytes = packet.to_packet();
    let json = "{\"text\":\"Server down\\nTry later\"}";
    let mut expected = vec![(json.len() + 2) as u8, 0x00, json.len() as u8];
    expected.extend_from_slice(json.as_bytes());
    assert_eq!(&bytes[..], &expected[..]);
}

#[test]
fn login_disconnect_empty_and_single() {
    match ClientBoundMcPacket::login_disconnect(&vec![]) {
        ClientBoundMcPacket::LoginDisconnect { reason } => assert_eq!(reason, ""),
        _ => panic!("not a login disconnect"),
    }
    match ClientBoundMcPacket::login_disconnect(&vec![String::from("bye")]) {
        ClientBoundMcPacket::LoginDisconnect { reason } => assert_eq!(reason, "bye"),
        _ => panic!("not a login disconnect"),
    }
}

#[test]
fn packet_reads_back() {
    let packet = ClientBoundMcPacket::StatusResponse { json_response: String::from("{\"a\":\"é\"}") };
    let mut buf = BytesMut::from(&packet.to_packet()[..]);
    let length = McVarInt::read(&mut buf).unwrap().value();
    assert_eq!(length as usize, buf.len());
    assert_eq!(McVarInt::read(&mut buf).unwrap().value(), 0);
    assert_eq!(McString::read_string(&mut buf).unwrap(), "{\"a\":\"é\"}");
    assert!(buf.is_empty());
}

#[test]
fn response_from_config() {
    let config = SorryServerConfig {
        version: String::from("Maintenance"),
        motd: vec![String::from("We are down"), String::from("Back soon")],
        kick_message: vec![String::from("Sorry")],
    };
    let response = Response::from_config(config);
    assert_eq!(response.version.name, "Maintenance");
    assert_eq!(response.version.protocol, DEFAULT_PROTOCOL);
    assert_eq!(response.version.protocol, 763);
    assert_eq!(response.players.max, 0);
    assert_eq!(response.players.online, 0);
    assert!(response.players.sample.is_empty());
    assert_eq!(response.description.text, "We are down\nBack soon");
}

#[test]
fn login_disconnect_escapes_reason() {
    let packet = ClientBoundMcPacket::login_disconnect(&vec![String::from("a\"b\\c\u{1}\td\u{1f}é")]);
    let bytes = packet.to_packet();
    let json = "{\"text\":\"a\\\"b\\\\c\\u0001\\td\\u001fé\"}";
    assert_eq!(&bytes[3..], json.as_bytes());
    assert_eq!(bytes[2] as usize, json.len());
    assert_eq!(bytes[0] as usize, json.len() + 2);
}
