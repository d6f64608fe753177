//! Per-type, per-call configuration values that select among the valid wire
//! representations of a value. Every codable type declares an options type
//! with a well-defined default, so that callers can omit configuration when
//! the default representation is wanted.

use vstd::prelude::*;

verus! {

/// Options for 32-bit integers: encoded as a VarInt when `varint` is set,
/// as 4 fixed big-endian bytes otherwise.
#[derive(Clone, Copy, PartialEq, Eq, Structural, Debug)]
pub struct IntOptions {
    pub varint: bool,
}

impl Default for IntOptions {
    /// The default integer representation is fixed-width.
    fn default() -> (r: Self)
        ensures
            !r.varint,
    {
        IntOptions { varint: false }
    }
}

} // verus!
