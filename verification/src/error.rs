//! Error taxonomy for the WebSocket core.
use vstd::prelude::*;

verus! {

/// The ways an operation of this library can fail.
///
/// - `ShortRead`: the byte source ended before a frame was complete.
/// - `OversizedPayload`: a frame's payload length exceeds the configured maximum.
/// - `ProtocolError`: a control frame arrived fragmented or with a payload
///   longer than 125 bytes.
/// - `HandshakeError`: the HTTP upgrade request was malformed or lacked a
///   required header.
/// - `InvalidState`: the operation is not legal in the connection's current
///   lifecycle state.
#[derive(Clone, Copy, Debug, PartialEq, Eq, Structural)]
pub enum WsError {
    ShortRead,
    OversizedPayload,
    ProtocolError,
    HandshakeError,
    InvalidState,
}

} // verus!
