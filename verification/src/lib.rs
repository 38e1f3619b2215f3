//! A verified WebSocket server core over an abstract byte stream, per
//! RFC 6455: the frame codec with its payload-length tiers and masking,
//! the HTTP upgrade handshake with its SHA-1 + Base64 accept key, and
//! the per-connection lifecycle state machine. Socket I/O and threading
//! stay outside; the library exchanges plain byte buffers and strings
//! with its caller.
pub mod error;
pub mod frame;
pub mod http;
pub mod sha1;
pub mod utils;
pub mod websockets;
