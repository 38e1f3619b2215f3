//! HTTP/1.1 start-line and header codec used by the upgrade handshake.
pub mod header;
