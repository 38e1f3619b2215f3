use websock::error::WsError;
use websock::frame::{Control, Data, Frame, FrameHeader, Opcode};
use websock::websockets::server::{Connection, ConnectionState, WebsocketConnection};

const SAMPLE_REQUEST: &str = "GET / HTTP/1.1\r\nHost: 127.0.0.1:8001\r\nUpgrade: websocket\r\nConnection: Upgrade\r\nSec-WebSocket-Key: dGhlIHNhbXBsZSBub25jZQ==\r\nSec-WebSocket-Version: 13\r\n\r\n";

#[test]
fn handshake_accept_key() {
    let mut wc = WebsocketConnection::new((), None);
    let response = wc.handshake(SAMPLE_REQUEST).unwrap();
    println!("{}", response);
    assert_eq!(wc.connection.state, ConnectionState::Connected);

    let parsed = websock::http::header::ResponseHeader::from(&response).unwrap();
    assert_eq!(
        parsed.get("Sec-WebSocket-Accept").unwrap(),
        "s3pPLMBiTxaQ9kYGzzhZRbK+xOo="
    );
    assert_eq!(parsed.get("Upgrade").unwrap(), "websocket");
    assert_eq!(parsed.get("Connection").unwrap(), "Upgrade");
    assert!(response.starts_with("HTTP/1.1 101 Switching Protocols\r\n"));
    assert!(response.ends_with("\r\n\r\n"));
}

#[test]
fn handshake_without_key_fails() {
    let mut wc = WebsocketConnection::new((), None);
    let err = wc
        .handshake("GET / HTTP/1.1\r\nHost: 127.0.0.1:8001\r\n\r\n")
        .unwrap_err();
    assert_eq!(err, WsError::HandshakeError);
    assert_eq!(wc.connection.state, ConnectionState::Failed);
}

#[test]
fn send_msg_in_need_handshake_is_invalid_state() {
    let mut wc = WebsocketConnection::new((), None);
    let err = wc.send_msg(String::from("hi")).unwrap_err();
    assert_eq!(err, WsError::InvalidState);
    assert_eq!(wc.connection.state, ConnectionState::NeedHandShake);
}

#[test]
fn receive_before_handshake_is_invalid_state() {
    let mut wc = WebsocketConnection::new((), None);
    let err = wc.receive(&[0x81, 0]).unwrap_err();
    assert_eq!(err, WsError::InvalidState);
}

#[test]
fn echo_scenario() {
    // client sends a masked text frame carrying "ping"
    let client_frame = Frame {
        header: FrameHeader {
            fin: true,
            rsv1: false,
            rsv2: false,
            rsv3: false,
            opcode: Opcode::Data(Data::Text),
            masked: true,
            payloadlength: 4,
            mask: Some(0x12345678),
        },
        payload: b"ping".to_vec(),
    };
    let wire = client_frame.format();

    let mut wc = WebsocketConnection::new((), None);
    wc.handshake(SAMPLE_REQUEST).unwrap();

    let received = wc.receive(&wire).unwrap();
    assert_eq!(received.header.opcode, Opcode::Data(Data::Text));
    assert_eq!(received.payload, b"ping");
    assert_eq!(wc.connection.state, ConnectionState::Connected);

    if received.payload == b"ping" {
        let reply = wc.send_msg(String::from("Pong")).unwrap();
        let reply_frame = Frame::parse(&reply, 1 << 20).unwrap();
        assert_eq!(reply_frame.header.opcode, Opcode::Data(Data::Text));
        assert!(!reply_frame.header.masked);
        assert_eq!(reply_frame.payload, b"Pong");
    }
}

#[test]
fn close_scenario() {
    // client sends a masked close frame with status code 1000
    let close = Frame {
        header: FrameHeader {
            fin: true,
            rsv1: false,
            rsv2: false,
            rsv3: false,
            opcode: Opcode::Control(Control::Close),
            masked: true,
            payloadlength: 2,
            mask: Some(0xCAFEBABE),
        },
        payload: vec![0x03, 0xE8],
    };
    let wire = close.format();

    let mut wc = WebsocketConnection::new((), None);
    wc.handshake(SAMPLE_REQUEST).unwrap();

    let received = wc.receive(&wire).unwrap();
    assert_eq!(received.header.opcode, Opcode::Control(Control::Close));
    let code = (u16::from(received.payload[0]) << 8) | u16::from(received.payload[1]);
    assert_eq!(code, 1000);
    assert_eq!(wc.connection.state, ConnectionState::Closed);
}

#[test]
fn oversized_payload_is_rejected() {
    let frame = Frame {
        header: FrameHeader {
            fin: true,
            rsv1: false,
            rsv2: false,
            rsv3: false,
            opcode: Opcode::Data(Data::Binary),
            masked: false,
            payloadlength: 8,
            mask: None,
        },
        payload: vec![0u8; 8],
    };
    let wire = frame.format();

    let mut wc = WebsocketConnection::new((), Some(4));
    wc.handshake(SAMPLE_REQUEST).unwrap();
    let err = wc.receive(&wire).unwrap_err();
    assert_eq!(err, WsError::OversizedPayload);
    assert_eq!(wc.connection.state, ConnectionState::Failed);
}

#[test]
fn explicit_close_emits_close_frame() {
    let mut wc = WebsocketConnection::new((), None);
    wc.handshake(SAMPLE_REQUEST).unwrap();
    let bytes = wc.close(Some(1000));
    assert_eq!(wc.connection.state, ConnectionState::Closed);
    let frame = Frame::parse(&bytes, 1 << 20).unwrap();
    assert_eq!(frame.header.opcode, Opcode::Control(Control::Close));
    assert_eq!(frame.payload, vec![0x03, 0xE8]);

    let mut wc2 = WebsocketConnection::new((), None);
    let bytes2 = wc2.close(None);
    assert_eq!(wc2.connection.state, ConnectionState::Closed);
    let frame2 = Frame::parse(&bytes2, 1 << 20).unwrap();
    assert!(frame2.payload.is_empty());
}

#[test]
fn send_pong_echoes_data() {
    let mut wc = WebsocketConnection::new((), None);
    wc.handshake(SAMPLE_REQUEST).unwrap();
    let bytes = wc.send_pong(b"abc").unwrap();
    let frame = Frame::parse(&bytes, 1 << 20).unwrap();
    assert_eq!(frame.header.opcode, Opcode::Control(Control::Pong));
    assert_eq!(frame.payload, b"abc");
}

#[test]
fn endpoint_constructors() {
    let ws = websock::websockets::WebSocketServer::new((), None);
    assert_eq!(
        ws.state,
        websock::websockets::ConnectionState::NeedHandShake
    );
    assert_eq!(ws.max_payload_size, 16 * 1024 * 1024);

    let client = websock::websockets::client::Client::new((), Some(1024));
    assert_eq!(client.max_payload_size, 1024);
    let req = client.handshake();
    assert!(req.contains("Sec-WebSocket-Key: dGhlIHNhbXBsZSBub25jZQ=="));
}

#[test]
fn connection_state_machine_transitions() {
    let mut c = Connection::new();
    assert_eq!(c.state, ConnectionState::NeedHandShake);
    c.handshake();
    assert_eq!(c.state, ConnectionState::MidHandShake);
    c.connect();
    assert_eq!(c.state, ConnectionState::Connected);
    c.close();
    assert_eq!(c.state, ConnectionState::Closed);

    let mut failing = Connection::new();
    failing.handshake();
    failing.fail();
    assert_eq!(failing.state, ConnectionState::Failed);
}
