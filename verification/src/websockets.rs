//! WebSocket endpoints over an abstract byte stream.
pub mod client;
pub mod server;

use vstd::prelude::*;

verus! {

/// Coarse lifecycle of a server endpoint.
#[derive(Debug, PartialEq, Eq, Structural, Clone, Copy)]
pub enum ConnectionState {
    NeedHandShake,
    Accepted,
    Close,
}

/// A server endpoint: a byte stream, the payload-size bound, and the
/// lifecycle state.
#[derive(Debug)]
pub struct WebSocketServer<Stream> {
    /// Abstraction representing the byte stream.
    pub stream: Stream,
    /// Largest payload accepted in one frame.
    pub max_payload_size: usize,
    pub state: ConnectionState,
}

impl<Stream> WebSocketServer<Stream> {
    /// A fresh endpoint awaiting its handshake; without an explicit bound
    /// the payload limit is 16 MiB.
    pub fn new(stream: Stream, max_size: Option<usize>) -> (r: Self)
        ensures
            r.stream == stream,
            r.state == ConnectionState::NeedHandShake,
            r.max_payload_size == (match max_size {
                Some(size) => size,
                None => 16777216usize,
            }),
    {
        match max_size {
            Some(size) => Self { stream, max_payload_size: size, state: ConnectionState::NeedHandShake },
            None => Self {
                stream,
                max_payload_size: 16 * 1024 * 1024,
                state: ConnectionState::NeedHandShake,
            },
        }
    }
}

} // verus!
