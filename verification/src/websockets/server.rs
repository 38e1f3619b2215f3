//! The server side of a connection: the lifecycle state machine, the
//! upgrade handshake, and framed send/receive over byte buffers.
//!
//! The surrounding application owns the socket: it reads the raw bytes
//! that `handshake` and `receive` take, and writes the bytes that
//! `handshake`, `send_msg`, `send_pong` and `close` return.
use vstd::prelude::*;

use crate::error::WsError;
use crate::frame::{
    close_frame_view, pong_frame_view, spec_format_frame, spec_parse_frame, text_frame_view,
    Control, Frame, FrameView, Opcode,
};
use crate::http::header::{
    default_resp, insert_pair, key_index, spec_format_response, spec_parse_request, RequestHeader,
    RespView, ResponseHeader,
};
use crate::sha1::{spec_sha1, Sha1};
use crate::utils::base64::{spec_base64_chars, Base64};

verus! {

/// Lifecycle of one connection: created awaiting the handshake, then mid
/// handshake, then connected; `Failed` and `Closed` are terminal.
#[derive(Debug, PartialEq, Eq, Structural, Clone, Copy)]
pub enum ConnectionState {
    NeedHandShake,
    MidHandShake,
    Connected,
    Failed,
    Closed,
}

/// The connection state machine.
#[derive(Debug, PartialEq, Clone, Copy)]
pub struct Connection {
    pub state: ConnectionState,
}

impl Default for Connection {
    /// A fresh connection awaiting its handshake.
    fn default() -> (r: Self)
        ensures
            r.state == ConnectionState::NeedHandShake,
    {
        Self::new()
    }
}

impl Connection {
    /// A fresh connection awaiting its handshake.
    pub fn new() -> (r: Self)
        ensures
            r.state == ConnectionState::NeedHandShake,
    {
        Connection { state: ConnectionState::NeedHandShake }
    }

    /// Enter the handshake.
    pub fn handshake(&mut self)
        ensures
            final(self).state == ConnectionState::MidHandShake,
    {
        self.state = ConnectionState::MidHandShake
    }

    /// Record that the handshake succeeded.
    pub fn connect(&mut self)
        ensures
            final(self).state == ConnectionState::Connected,
    {
        self.state = ConnectionState::Connected
    }

    /// Record an unrecoverable protocol or transport error.
    pub fn fail(&mut self)
        ensures
            final(self).state == ConnectionState::Failed,
    {
        self.state = ConnectionState::Failed
    }

    /// Record that the connection is closed.
    pub fn close(&mut self)
        ensures
            final(self).state == ConnectionState::Closed,
    {
        self.state = ConnectionState::Closed
    }
}

/// The accept key derived from a client key: the Base64 rendering of the
/// SHA-1 digest of the key's bytes followed by the protocol GUID.
pub open spec fn spec_accept_key(key: Seq<char>) -> Seq<char> {
    spec_base64_chars(
        spec_sha1(
            vstd::utf8::encode_utf8(key) + vstd::utf8::encode_utf8(
                "258EAFA5-E914-47DA-95CA-C5AB0DC85B11"@,
            ),
        ),
    )
}

/// The response to an upgrade request: parse the request, read its
/// `Sec-WebSocket-Key`, and render a `101 Switching Protocols` response
/// carrying the accept key and the upgrade headers. `None` when the
/// request is malformed or the key header is missing.
pub open spec fn spec_handshake_response(req: Seq<char>) -> Option<Seq<char>> {
    match spec_parse_request(req) {
        Option::None => None,
        Some(h) => {
            let ki = key_index(h.headers, "Sec-WebSocket-Key"@);
            if ki >= h.headers.len() {
                None
            } else {
                let accept = spec_accept_key(h.headers[ki].1);
                let hdrs = insert_pair(
                    insert_pair(
                        insert_pair(Seq::empty(), "Sec-WebSocket-Accept"@, accept),
                        "Upgrade"@,
                        "websocket"@,
                    ),
                    "Connection"@,
                    "Upgrade"@,
                );
                Some(
                    spec_format_response(
                        RespView {
                            protocol: default_resp().protocol,
                            status: default_resp().status,
                            headers: hdrs,
                        },
                    ),
                )
            }
        },
    }
}

/// A server-side connection: a byte stream, the payload-size bound, and
/// the connection state machine.
#[derive(Debug)]
pub struct WebsocketConnection<Stream> {
    /// Abstraction representing the byte stream; the surrounding
    /// application performs the reads and writes on it.
    pub stream: Stream,
    /// Largest payload accepted in one frame.
    pub max_payload_size: usize,
    pub connection: Connection,
}

impl<Stream> WebsocketConnection<Stream> {
    /// A fresh connection awaiting its handshake; without an explicit
    /// bound the payload limit is 16 MiB.
    pub fn new(stream: Stream, max_size: Option<usize>) -> (r: Self)
        ensures
            r.stream == stream,
            r.connection.state == ConnectionState::NeedHandShake,
            r.max_payload_size == (match max_size {
                Some(size) => size,
                None => 16777216usize,
            }),
    {
        match max_size {
            Some(size) => Self {
                stream,
                max_payload_size: size,
                connection: Connection::new(),
            },
            None => Self {
                stream,
                max_payload_size: 16 * 1024 * 1024,
                connection: Connection::new(),
            },
        }
    }

    /// Run the handshake over the bytes of one upgrade request, already
    /// read from the stream; the caller writes the returned response.
    ///
    /// Legal only while the handshake is still owed. A malformed request
    /// or a missing `Sec-WebSocket-Key` fails the connection; on success
    /// the connection is `Connected`.
    pub fn handshake(&mut self, req: &str) -> (r: Result<String, WsError>)
        ensures
            old(self).connection.state != ConnectionState::NeedHandShake ==> (r == Err::<
                String,
                WsError,
            >(WsError::InvalidState) && final(self).connection == old(self).connection),
            old(self).connection.state == ConnectionState::NeedHandShake && spec_handshake_response(
                req@,
            ) is Some ==> (r matches Ok(out) && Some(out@) == spec_handshake_response(req@) && final(self).connection.state == ConnectionState::Connected),
            old(self).connection.state == ConnectionState::NeedHandShake && spec_handshake_response(
                req@,
            ) is None ==> (r == Err::<String, WsError>(WsError::HandshakeError) && final(self).connection.state == ConnectionState::Failed),
            final(self).max_payload_size == old(self).max_payload_size,
    {
        let is_need = match self.connection.state {
            ConnectionState::NeedHandShake => true,
            _ => false,
        };
        if !is_need {
            return Err(WsError::InvalidState);
        }
        self.connection.handshake();

        let req_hdr = match RequestHeader::from(req) {
            Ok(h) => h,
            Err(_) => {
                self.connection.fail();
                return Err(WsError::HandshakeError);
            },
        };
        let swk = match req_hdr.get("Sec-WebSocket-Key") {
            Some(v) => v,
            None => {
                self.connection.fail();
                return Err(WsError::HandshakeError);
            },
        };

        let mut input: Vec<u8> = Vec::new();
        input.extend_from_slice(swk.as_str().as_bytes());
        input.extend_from_slice("258EAFA5-E914-47DA-95CA-C5AB0DC85B11".as_bytes());
        let digest = Sha1::from(input.as_slice()).digest();
        let swa = Base64.encode(digest.as_slice());

        let mut res = ResponseHeader::default();
        res.set("Sec-WebSocket-Accept", swa.as_str());
        res.set("Upgrade", "websocket");
        res.set("Connection", "Upgrade");
        let out = res.format();

        proof {
            let ki = key_index(req_hdr@.headers, "Sec-WebSocket-Key"@);
            assert(default_resp().headers =~= Seq::<(Seq<char>, Seq<char>)>::empty());
            assert(input@ =~= vstd::utf8::encode_utf8(swk@) + vstd::utf8::encode_utf8(
                "258EAFA5-E914-47DA-95CA-C5AB0DC85B11"@,
            ));
            assert(swa@ == spec_accept_key(req_hdr@.headers[ki].1));
            assert(res@ =~= (RespView {
                protocol: default_resp().protocol,
                status: default_resp().status,
                headers: insert_pair(
                    insert_pair(
                        insert_pair(Seq::empty(), "Sec-WebSocket-Accept"@, swa@),
                        "Upgrade"@,
                        "websocket"@,
                    ),
                    "Connection"@,
                    "Upgrade"@,
                ),
            }));
            assert(Some(out@) == spec_handshake_response(req@));
        }
        self.connection.connect();
        Ok(out)
    }

    /// Parse one frame from bytes already read from the stream.
    ///
    /// Legal only while connected. A parse error fails the connection; a
    /// close frame moves it to `Closed`; any other frame leaves it
    /// connected. The returned payload is unmasked.
    pub fn receive(&mut self, raw: &[u8]) -> (r: Result<Frame, WsError>)
        ensures
            old(self).connection.state != ConnectionState::Connected ==> (r == Err::<
                Frame,
                WsError,
            >(WsError::InvalidState) && final(self).connection == old(self).connection),
            old(self).connection.state == ConnectionState::Connected ==> (r is Ok
                <==> spec_parse_frame(raw@, old(self).max_payload_size as u64) is Ok),
            old(self).connection.state == ConnectionState::Connected ==> (r matches Ok(f)
                ==> Ok::<FrameView, WsError>(f@) == spec_parse_frame(
                raw@,
                old(self).max_payload_size as u64,
            )),
            old(self).connection.state == ConnectionState::Connected ==> (r matches Err(e)
                ==> Err::<FrameView, WsError>(e) == spec_parse_frame(
                raw@,
                old(self).max_payload_size as u64,
            )),
            old(self).connection.state == ConnectionState::Connected && r is Err ==> final(self).connection.state == ConnectionState::Failed,
            old(self).connection.state == ConnectionState::Connected ==> (r matches Ok(f)
                ==> (f.header.opcode == Opcode::Control(Control::Close) ==> final(self).connection.state == ConnectionState::Closed)),
            old(self).connection.state == ConnectionState::Connected ==> (r matches Ok(f)
                ==> (f.header.opcode != Opcode::Control(Control::Close) ==> final(self).connection.state == ConnectionState::Connected)),
            final(self).max_payload_size == old(self).max_payload_size,
    {
        let is_connected = match self.connection.state {
            ConnectionState::Connected => true,
            _ => false,
        };
        if !is_connected {
            return Err(WsError::InvalidState);
        }
        match Frame::parse(raw, self.max_payload_size as u64) {
            Ok(frame) => {
                let is_close = match frame.header.opcode {
                    Opcode::Control(Control::Close) => true,
                    _ => false,
                };
                if is_close {
                    self.connection.close();
                }
                Ok(frame)
            },
            Err(e) => {
                self.connection.fail();
                Err(e)
            },
        }
    }

    /// Serialize a final, unmasked text frame carrying `msg`; the caller
    /// writes the returned bytes. Legal only while connected.
    pub fn send_msg(&mut self, msg: String) -> (r: Result<Vec<u8>, WsError>)
        ensures
            old(self).connection.state != ConnectionState::Connected ==> (r == Err::<
                Vec<u8>,
                WsError,
            >(WsError::InvalidState) && final(self).connection == old(self).connection),
            old(self).connection.state == ConnectionState::Connected ==> (r matches Ok(out) && out@
                == spec_format_frame(text_frame_view(msg@)) && final(self).connection == old(self).connection),
            final(self).max_payload_size == old(self).max_payload_size,
    {
        let is_connected = match self.connection.state {
            ConnectionState::Connected => true,
            _ => false,
        };
        if !is_connected {
            return Err(WsError::InvalidState);
        }
        let frame = Frame::create_msg_frame(msg);
        Ok(frame.format())
    }

    /// Serialize a final, unmasked pong frame echoing the application
    /// data of a ping; the caller writes the returned bytes. Legal only
    /// while connected.
    pub fn send_pong(&mut self, echo: &[u8]) -> (r: Result<Vec<u8>, WsError>)
        requires
            echo@.len() <= 125,
        ensures
            old(self).connection.state != ConnectionState::Connected ==> (r == Err::<
                Vec<u8>,
                WsError,
            >(WsError::InvalidState) && final(self).connection == old(self).connection),
            old(self).connection.state == ConnectionState::Connected ==> (r matches Ok(out) && out@
                == spec_format_frame(pong_frame_view(echo@)) && final(self).connection == old(self).connection),
            final(self).max_payload_size == old(self).max_payload_size,
    {
        let is_connected = match self.connection.state {
            ConnectionState::Connected => true,
            _ => false,
        };
        if !is_connected {
            return Err(WsError::InvalidState);
        }
        let frame = Frame::create_pong_frame(echo);
        Ok(frame.format())
    }

    /// Close the connection from the owner's side, from any state, and
    /// serialize the close frame — two big-endian status bytes with a
    /// code, an empty payload without one; the caller writes the bytes.
    pub fn close(&mut self, code: Option<u16>) -> (r: Vec<u8>)
        ensures
            final(self).connection.state == ConnectionState::Closed,
            r@ == spec_format_frame(close_frame_view(code)),
            final(self).max_payload_size == old(self).max_payload_size,
    {
        let frame = Frame::create_close_frame(code);
        self.connection.close();
        frame.format()
    }
}

} // verus!
