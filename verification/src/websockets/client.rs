//! A client endpoint: it opens the upgrade by writing a fixed request.
use vstd::prelude::*;
use vstd::string::StringExecFns;

verus! {

/// Coarse lifecycle of a client endpoint.
#[derive(Debug, PartialEq, Eq, Structural, Clone, Copy)]
pub enum ConnectionState {
    NeedHandShake,
    MidHandShake,
    Accepted,
    Close,
}

/// A client endpoint: a byte stream, the payload-size bound, and the
/// lifecycle state.
#[derive(Debug)]
pub struct Client<Stream> {
    /// Abstraction representing the byte stream.
    pub stream: Stream,
    /// Largest payload accepted in one frame.
    pub max_payload_size: usize,
    pub state: ConnectionState,
}

impl<Stream> Client<Stream> {
    /// A fresh client awaiting its handshake; without an explicit bound
    /// the payload limit is 16 MiB.
    pub fn new(stream: Stream, max_size: Option<usize>) -> (r: Self)
        ensures
            r.stream == stream,
            r.state == ConnectionState::NeedHandShake,
            r.max_payload_size == (match max_size {
                Some(size) => size,
                None => 16777216usize,
            }),
    {
        match max_size {
            Some(size) => Self { stream, max_payload_size: size, state: ConnectionState::NeedHandShake },
            None => Self {
                stream,
                max_payload_size: 16 * 1024 * 1024,
                state: ConnectionState::NeedHandShake,
            },
        }
    }

    /// The fixed upgrade request this client opens with; the caller
    /// writes it to the stream.
    pub fn handshake(&self) -> (r: String)
        ensures
            r@ == "\nGET / HTTP/1.1\r\n\nHost: 127.0.0.1:8001\r\n\nUpgrade: websocket\r\n\nConnection: Upgrade\r\n\nSec-WebSocket-Key: dGhlIHNhbXBsZSBub25jZQ==\r\n\nSec-WebSocket-Version: 13\r\n\n"@,
    {
        String::from_str(
            "\nGET / HTTP/1.1\r\n\nHost: 127.0.0.1:8001\r\n\nUpgrade: websocket\r\n\nConnection: Upgrade\r\n\nSec-WebSocket-Key: dGhlIHNhbXBsZSBub25jZQ==\r\n\nSec-WebSocket-Version: 13\r\n\n",
        )
    }
}

} // verus!
