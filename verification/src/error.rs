//! The error taxonomy, by layer: primitive reads distinguish an early end of
//! stream from an underlying stream error; value decoding adds malformed
//! UTF-8, capacity overruns and over-long VarInts; the framing layer tags a
//! failure with the stage it happened in (length prefix, packet ID, or body).
//!
//! Every error is a structured, matchable variant so that callers can tell a
//! malformed peer from local resource exhaustion. The type parameters carry
//! the underlying stream's error type; the in-memory streams of this crate
//! cannot fail and instantiate them with `()`.

use vstd::prelude::*;

verus! {

/// Failure while reading a protocol value from a byte stream.
#[derive(Clone, Copy, PartialEq, Eq, Structural, Debug)]
pub enum ReadMinecraftError<E> {
    /// A string's bytes were not valid UTF-8.
    InvalidUtf8,
    /// A declared length was negative or larger than the receiving buffer
    /// allows.
    LengthExceeded,
    /// A VarInt ran past the 5 groups a 32-bit value can need.
    VarIntTooBig,
    /// The stream ended before the value was complete.
    UnexpectedEof,
    /// The underlying stream itself failed.
    Other(E),
}

/// Failure while reading a packet envelope. `FE` is the frame layer's error
/// type, `DE` the body decoder's.
#[derive(Clone, Copy, PartialEq, Eq, Structural, Debug)]
pub enum ReadPacketError<FE, DE> {
    /// The length prefix could not be read.
    Length(ReadMinecraftError<FE>),
    /// The packet ID could not be read, or overran the declared length.
    Id(ReadMinecraftError<FE>),
    /// The body decoder failed while handling the packet with this ID.
    Body(i32, DE),
}

/// Failure while writing a protocol value to a byte stream.
#[derive(Clone, Copy, PartialEq, Eq, Structural, Debug)]
pub enum WriteMinecraftError<E> {
    /// The bounded output buffer has no room for the value.
    OutOfMemory,
    /// The underlying stream itself failed.
    Other(E),
}

/// Failure while writing a packet envelope. `FE` is the frame layer's error
/// type, `DE` the body encoder's.
#[derive(Clone, Copy, PartialEq, Eq, Structural, Debug)]
pub enum WritePacketError<FE, DE> {
    /// The length prefix could not be written.
    Length(FE),
    /// The packet ID could not be written.
    Id(FE),
    /// The body encoder failed while writing the packet with this ID.
    Body(i32, DE),
}

} // verus!
