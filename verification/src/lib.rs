//! A verified implementation of the core of a minimal Minecraft-protocol
//! server: the VarInt codec, the generic encode/decode/wire-size framework,
//! the length-prefixed packet framing layer, and the handshake/status
//! protocol state machine, together with the in-memory byte streams they
//! operate on.
//!
//! All I/O (sockets, timers, logging) lives outside this crate; the library
//! works on plain byte buffers and exposes exact contracts for every step of
//! the wire protocol.

pub mod bytes;
pub mod byteio;
pub mod encdec;
pub mod error;
pub mod framing;
pub mod handshake;
pub mod options;
pub mod server;
pub mod status;
pub mod stream;
pub mod text;
pub mod timer;
pub mod varint;
