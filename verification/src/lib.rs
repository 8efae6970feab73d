//! Server side of the WebSocket protocol: the HTTP upgrade handshake and the
//! binary frame codec, as pure functions from bytes to bytes.

pub mod bytes;
pub mod connection;
pub mod frame;
pub mod handshake;
pub mod primitives;
