use websock::http::header::{RequestHeader, ResponseHeader};

#[test]
fn header_request_test1() {
    println!("header1 \n");
    let header1 = RequestHeader::from(
        "
GET / HTTP/1.1\r\n
Host: 127.0.0.1:8001\r\n
Upgrade: websocket\r\n
Connection: Upgrade\r\n
Sec-WebSocket-Key: dGhlIHNhbXBsZSBub25jZQ==\r\n
Sec-WebSocket-Version: 13\r\n
",
    )
    .unwrap();
    println!("header created(repr) {:?}", header1);

    println!("header formatted {:?}", header1.format());

    println!("header2 \n");
    let header2 = RequestHeader::from(
        "
GET / HTTP/1.1\r\nHost: 127.0.0.1:8001\r\nUpgrade: websocket\r\nConnection: Upgrade\r\nSec-WebSocket-Key: dGhlIHNhbXBsZSBub25jZQ==\r\nSec-WebSocket-Version: 13\r\n
",
    )
    .unwrap();
    println!("header created(repr) {:?}", header2);

    println!("header formatted {:?}", header2.format());

    assert_eq!(header1, header2);
}

#[test]
fn header_get_and_set() {
    let mut hdr = RequestHeader::from("GET /chat HTTP/1.1\r\nHost: example.com\r\n").unwrap();
    assert_eq!(hdr.get("Host").unwrap(), "example.com");
    assert!(hdr.get("host").is_none());
    hdr.set("Host", "other.example");
    assert_eq!(hdr.get("Host").unwrap(), "other.example");
    hdr.set("Accept", "*/*");
    assert_eq!(hdr.get("Accept").unwrap(), "*/*");
}

#[test]
fn malformed_header_line_is_error() {
    let r = RequestHeader::from("GET / HTTP/1.1\r\nno-separator-here\r\n");
    assert_eq!(r.unwrap_err(), websock::error::WsError::HandshakeError);
}

#[test]
fn request_format_layout() {
    let mut hdr = RequestHeader::from("GET / HTTP/1.1\r\n").unwrap();
    hdr.set("Host", "h");
    assert_eq!(hdr.format(), "GET / HTTP/1.1\r\nHost: h\r\n");
}

#[test]
fn response_parse_and_format() {
    let resp = ResponseHeader::from(
        "HTTP/1.1 101 Switching Protocols\r\nUpgrade: websocket\r\n",
    )
    .unwrap();
    assert_eq!(resp.get("Upgrade").unwrap(), "websocket");
    assert_eq!(
        resp.format(),
        "HTTP/1.1 101 Switching Protocols\r\nUpgrade: websocket\r\n\r\n"
    );
}
