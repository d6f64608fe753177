//! Byte-order primitive I/O: reading and writing fixed-width integers in a
//! caller-chosen byte order on the in-memory streams. Every operation either
//! consumes or produces exactly the requested number of bytes, or fails
//! without doing anything. The byte/integer conversions themselves are done
//! by the `byteorder` crate behind two pairs of trusted wrappers.

use vstd::prelude::*;

use byteorder::ByteOrder;

use crate::error::{ReadMinecraftError, WriteMinecraftError};
use crate::stream::{ByteReader, ScratchVec};

verus! {

/// A byte order for multi-byte integers.
#[derive(Clone, Copy, PartialEq, Eq, Structural, Debug)]
pub enum Endian {
    /// Most significant byte first.
    Big,
    /// Least significant byte first.
    Little,
}

/// 256 to the power `n`: the number of values `n` bytes can hold.
pub open spec fn pow256(n: nat) -> nat
    decreases n,
{
    if n == 0 {
        1
    } else {
        0x100 * pow256((n - 1) as nat)
    }
}

/// The unsigned value of a byte sequence read most significant byte first.
pub open spec fn be_value(s: Seq<u8>) -> nat
    decreases s.len(),
{
    if s.len() == 0 {
        0
    } else {
        (0x100 * be_value(s.drop_last()) + s.last()) as nat
    }
}

/// The unsigned value of a byte sequence read least significant byte first.
pub open spec fn le_value(s: Seq<u8>) -> nat
    decreases s.len(),
{
    if s.len() == 0 {
        0
    } else {
        (s[0] + 0x100 * le_value(s.skip(1))) as nat
    }
}

/// The unsigned value of a byte sequence in the given byte order.
pub open spec fn endian_value(e: Endian, s: Seq<u8>) -> nat {
    match e {
        Endian::Big => be_value(s),
        Endian::Little => le_value(s),
    }
}

/// The `len` bytes representing `n`, most significant byte first.
pub open spec fn spec_be_bytes(n: nat, len: nat) -> Seq<u8>
    decreases len,
{
    if len == 0 {
        Seq::empty()
    } else {
        spec_be_bytes(n / 0x100, (len - 1) as nat).push((n % 0x100) as u8)
    }
}

/// The `len` bytes representing `n`, least significant byte first.
pub open spec fn spec_le_bytes(n: nat, len: nat) -> Seq<u8>
    decreases len,
{
    if len == 0 {
        Seq::empty()
    } else {
        seq![(n % 0x100) as u8] + spec_le_bytes(n / 0x100, (len - 1) as nat)
    }
}

/// The `len` bytes representing `n` in the given byte order.
pub open spec fn spec_endian_bytes(e: Endian, n: nat, len: nat) -> Seq<u8> {
    match e {
        Endian::Big => spec_be_bytes(n, len),
        Endian::Little => spec_le_bytes(n, len),
    }
}

/// A value below 256^len is encoded on `len` bytes and read back unchanged,
/// in either byte order.
pub proof fn lemma_endian_roundtrip(e: Endian, n: nat, len: nat)
    requires
        n < pow256(len),
    ensures
        spec_endian_bytes(e, n, len).len() == len,
        endian_value(e, spec_endian_bytes(e, n, len)) == n,
{
    lemma_endian_bytes_len(e, n, len);
    match e {
        Endian::Big => lemma_be_roundtrip(n, len),
        Endian::Little => lemma_le_roundtrip(n, len),
    }
}

proof fn lemma_endian_bytes_len(e: Endian, n: nat, len: nat)
    ensures
        spec_endian_bytes(e, n, len).len() == len,
    decreases len,
{
    if len > 0 {
        lemma_endian_bytes_len(e, n / 0x100, (len - 1) as nat);
    }
}

proof fn lemma_be_roundtrip(n: nat, len: nat)
    requires
        n < pow256(len),
    ensures
        be_value(spec_be_bytes(n, len)) == n,
    decreases len,
{
    if len > 0 {
        let q = n / 0x100;
        let r = n % 0x100;
        vstd::arithmetic::div_mod::lemma_fundamental_div_mod(n as int, 0x100);
        assert(q < pow256((len - 1) as nat)) by {
            if q >= pow256((len - 1) as nat) {
                assert(n >= 0x100 * q) by {
                    vstd::arithmetic::div_mod::lemma_fundamental_div_mod(n as int, 0x100);
                };
                vstd::arithmetic::mul::lemma_mul_inequality(
                    pow256((len - 1) as nat) as int,
                    q as int,
                    0x100,
                );
                assert(false);
            }
        }
        lemma_be_roundtrip(q, (len - 1) as nat);
        let s = spec_be_bytes(n, len);
        assert(s.drop_last() =~= spec_be_bytes(q, (len - 1) as nat));
        assert(s.last() == (r % 0x100) as u8);
    }
}

proof fn lemma_le_roundtrip(n: nat, len: nat)
    requires
        n < pow256(len),
    ensures
        le_value(spec_le_bytes(n, len)) == n,
    decreases len,
{
    if len > 0 {
        let q = n / 0x100;
        let r = n % 0x100;
        vstd::arithmetic::div_mod::lemma_fundamental_div_mod(n as int, 0x100);
        assert(q < pow256((len - 1) as nat)) by {
            if q >= pow256((len - 1) as nat) {
                vstd::arithmetic::mul::lemma_mul_inequality(
                    pow256((len - 1) as nat) as int,
                    q as int,
                    0x100,
                );
                assert(false);
            }
        }
        lemma_le_roundtrip(q, (len - 1) as nat);
        let s = spec_le_bytes(n, len);
        assert(s.skip(1) =~= spec_le_bytes(q, (len - 1) as nat));
        assert(s[0] == (r % 0x100) as u8);
    }
}

/// Eight or fewer bytes are exactly the big-endian encoding of their value.
pub proof fn lemma_be_bytes_of_value(s: Seq<u8>)
    ensures
        spec_be_bytes(be_value(s), s.len()) == s,
    decreases s.len(),
{
    if s.len() > 0 {
        lemma_be_value_bound(s.drop_last());
        lemma_be_bytes_of_value(s.drop_last());
        let n = be_value(s);
        let q = n / 0x100;
        let r = n % 0x100;
        assert(n == 0x100 * be_value(s.drop_last()) + s.last());
        vstd::arithmetic::div_mod::lemma_fundamental_div_mod_converse(
            n as int,
            0x100,
            be_value(s.drop_last()) as int,
            s.last() as int,
        );
        assert(q == be_value(s.drop_last()));
        assert(r == s.last());
        assert(spec_be_bytes(n, s.len()) =~= s);
    } else {
        assert(spec_be_bytes(be_value(s), s.len()) =~= s);
    }
}

/// The value of `len` bytes is below 256^len, in either byte order.
pub proof fn lemma_endian_value_bound(e: Endian, s: Seq<u8>)
    ensures
        endian_value(e, s) < pow256(s.len()),
    decreases s.len(),
{
    match e {
        Endian::Big => lemma_be_value_bound(s),
        Endian::Little => lemma_le_value_bound(s),
    }
}

proof fn lemma_be_value_bound(s: Seq<u8>)
    ensures
        be_value(s) < pow256(s.len()),
    decreases s.len(),
{
    if s.len() > 0 {
        lemma_be_value_bound(s.drop_last());
    }
}

proof fn lemma_le_value_bound(s: Seq<u8>)
    ensures
        le_value(s) < pow256(s.len()),
    decreases s.len(),
{
    if s.len() > 0 {
        lemma_le_value_bound(s.skip(1));
    }
}

/// Relies on `byteorder::BigEndian::read_uint128` /
/// `byteorder::LittleEndian::read_uint128`: the first `nbytes` bytes of `buf`
/// as an unsigned integer in the respective byte order.
#[verifier::external_body]
fn byteorder_read_uint(buf: &[u8], nbytes: usize, endian: Endian) -> (r: u128)
    requires
        1 <= nbytes <= 16,
        nbytes <= buf@.len(),
    ensures
        r as nat == endian_value(endian, buf@.take(nbytes as int)),
{
    match endian {
        Endian::Big => byteorder::BigEndian::read_uint128(buf, nbytes),
        Endian::Little => byteorder::LittleEndian::read_uint128(buf, nbytes),
    }
}

/// Relies on `byteorder::BigEndian::write_uint128` /
/// `byteorder::LittleEndian::write_uint128`: the `nbytes`-byte representation
/// of `n` in the respective byte order.
#[verifier::external_body]
fn byteorder_write_uint(n: u128, nbytes: usize, endian: Endian) -> (r: Vec<u8>)
    requires
        1 <= nbytes <= 16,
        (n as nat) < pow256(nbytes as nat),
    ensures
        r@ == spec_endian_bytes(endian, n as nat, nbytes as nat),
{
    let mut buf = vec![0u8; nbytes];
    match endian {
        Endian::Big => byteorder::BigEndian::write_uint128(&mut buf, n, nbytes),
        Endian::Little => byteorder::LittleEndian::write_uint128(&mut buf, n, nbytes),
    }
    buf
}

impl ByteReader {
    /// Reads an `nbytes`-byte unsigned integer (at most 16 bytes) in the
    /// given byte order; fails without consuming anything when fewer bytes
    /// remain.
    pub fn read_uint128(&mut self, endian: Endian, nbytes: usize) -> (r: Result<
        u128,
        ReadMinecraftError<()>,
    >)
        requires
            old(self).wf(),
            1 <= nbytes <= 16,
        ensures
            final(self).wf(),
            final(self).all_bytes() == old(self).all_bytes(),
            match r {
                Ok(v) => nbytes <= old(self).remaining().len() && v as nat == endian_value(
                    endian,
                    old(self).remaining().take(nbytes as int),
                ) && final(self).position() == old(self).position() + nbytes,
                Err(e) => e == ReadMinecraftError::<()>::UnexpectedEof && old(
                    self,
                ).remaining().len() < nbytes && *final(self) == *old(self),
            },
    {
        let buf = match self.read_exact(nbytes) {
            Ok(v) => v,
            Err(e) => {
                return Err(e);
            },
        };
        let v = byteorder_read_uint(buf.as_slice(), nbytes, endian);
        proof {
            assert(buf@.take(nbytes as int) =~= buf@);
        }
        Ok(v)
    }

    /// Reads an `nbytes`-byte unsigned integer (at most 8 bytes) in the given
    /// byte order.
    pub fn read_uint(&mut self, endian: Endian, nbytes: usize) -> (r: Result<
        u64,
        ReadMinecraftError<()>,
    >)
        requires
            old(self).wf(),
            1 <= nbytes <= 8,
        ensures
            final(self).wf(),
            final(self).all_bytes() == old(self).all_bytes(),
            match r {
                Ok(v) => nbytes <= old(self).remaining().len() && v as nat == endian_value(
                    endian,
                    old(self).remaining().take(nbytes as int),
                ) && final(self).position() == old(self).position() + nbytes,
                Err(e) => e == ReadMinecraftError::<()>::UnexpectedEof && old(
                    self,
                ).remaining().len() < nbytes && *final(self) == *old(self),
            },
    {
        let ghost rem = old(self).remaining();
        let v = match self.read_uint128(endian, nbytes) {
            Ok(v) => v,
            Err(e) => {
                return Err(e);
            },
        };
        proof {
            lemma_endian_value_bound(endian, rem.take(nbytes as int));
            lemma_pow256_mono(nbytes as nat, 8);
            lemma_pow256_values();
        }
        Ok(v as u64)
    }

    /// Reads an unsigned 2-byte integer in the given byte order.
    pub fn read_u16(&mut self, endian: Endian) -> (r: Result<u16, ReadMinecraftError<()>>)
        requires
            old(self).wf(),
        ensures
            final(self).wf(),
            final(self).all_bytes() == old(self).all_bytes(),
            match r {
                Ok(v) => 2 <= old(self).remaining().len() && v as nat == endian_value(
                    endian,
                    old(self).remaining().take(2),
                ) && final(self).position() == old(self).position() + 2,
                Err(e) => e == ReadMinecraftError::<()>::UnexpectedEof && old(
                    self,
                ).remaining().len() < 2 && *final(self) == *old(self),
            },
    {
        let ghost rem = old(self).remaining();
        match self.read_uint128(endian, 2) {
            Ok(v) => {
                proof {
                    lemma_endian_value_bound(endian, rem.take(2));
                    lemma_pow256_values();
                }
                Ok(v as u16)
            },
            Err(e) => Err(e),
        }
    }

    /// Reads an unsigned 3-byte integer in the given byte order.
    pub fn read_u24(&mut self, endian: Endian) -> (r: Result<u32, ReadMinecraftError<()>>)
        requires
            old(self).wf(),
        ensures
            final(self).wf(),
            final(self).all_bytes() == old(self).all_bytes(),
            match r {
                Ok(v) => 3 <= old(self).remaining().len() && v as nat == endian_value(
                    endian,
                    old(self).remaining().take(3),
                ) && final(self).position() == old(self).position() + 3,
                Err(e) => e == ReadMinecraftError::<()>::UnexpectedEof && old(
                    self,
                ).remaining().len() < 3 && *final(self) == *old(self),
            },
    {
        let ghost rem = old(self).remaining();
        match self.read_uint128(endian, 3) {
            Ok(v) => {
                proof {
                    lemma_endian_value_bound(endian, rem.take(3));
                    lemma_pow256_values();
                }
                Ok(v as u32)
            },
            Err(e) => Err(e),
        }
    }

    /// Reads an unsigned 4-byte integer in the given byte order.
    pub fn read_u32(&mut self, endian: Endian) -> (r: Result<u32, ReadMinecraftError<()>>)
        requires
            old(self).wf(),
        ensures
            final(self).wf(),
            final(self).all_bytes() == old(self).all_bytes(),
            match r {
                Ok(v) => 4 <= old(self).remaining().len() && v as nat == endian_value(
                    endian,
                    old(self).remaining().take(4),
                ) && final(self).position() == old(self).position() + 4,
                Err(e) => e == ReadMinecraftError::<()>::UnexpectedEof && old(
                    self,
                ).remaining().len() < 4 && *final(self) == *old(self),
            },
    {
        let ghost rem = old(self).remaining();
        match self.read_uint128(endian, 4) {
            Ok(v) => {
                proof {
                    lemma_endian_value_bound(endian, rem.take(4));
                    lemma_pow256_values();
                }
                Ok(v as u32)
            },
            Err(e) => Err(e),
        }
    }

    /// Reads an unsigned 6-byte integer in the given byte order.
    pub fn read_u48(&mut self, endian: Endian) -> (r: Result<u64, ReadMinecraftError<()>>)
        requires
            old(self).wf(),
        ensures
            final(self).wf(),
            final(self).all_bytes() == old(self).all_bytes(),
            match r {
                Ok(v) => 6 <= old(self).remaining().len() && v as nat == endian_value(
                    endian,
                    old(self).remaining().take(6),
                ) && final(self).position() == old(self).position() + 6,
                Err(e) => e == ReadMinecraftError::<()>::UnexpectedEof && old(
                    self,
                ).remaining().len() < 6 && *final(self) == *old(self),
            },
    {
        let ghost rem = old(self).remaining();
        match self.read_uint128(endian, 6) {
            Ok(v) => {
                proof {
                    lemma_endian_value_bound(endian, rem.take(6));
                    lemma_pow256_values();
                }
                Ok(v as u64)
            },
            Err(e) => Err(e),
        }
    }

    /// Reads an unsigned 8-byte integer in the given byte order.
    pub fn read_u64(&mut self, endian: Endian) -> (r: Result<u64, ReadMinecraftError<()>>)
        requires
            old(self).wf(),
        ensures
            final(self).wf(),
            final(self).all_bytes() == old(self).all_bytes(),
            match r {
                Ok(v) => 8 <= old(self).remaining().len() && v as nat == endian_value(
                    endian,
                    old(self).remaining().take(8),
                ) && final(self).position() == old(self).position() + 8,
                Err(e) => e == ReadMinecraftError::<()>::UnexpectedEof && old(
                    self,
                ).remaining().len() < 8 && *final(self) == *old(self),
            },
    {
        let ghost rem = old(self).remaining();
        match self.read_uint128(endian, 8) {
            Ok(v) => {
                proof {
                    lemma_endian_value_bound(endian, rem.take(8));
                    lemma_pow256_values();
                }
                Ok(v as u64)
            },
            Err(e) => Err(e),
        }
    }

    /// Reads an unsigned 16-byte integer in the given byte order.
    pub fn read_u128(&mut self, endian: Endian) -> (r: Result<u128, ReadMinecraftError<()>>)
        requires
            old(self).wf(),
        ensures
            final(self).wf(),
            final(self).all_bytes() == old(self).all_bytes(),
            match r {
                Ok(v) => 16 <= old(self).remaining().len() && v as nat == endian_value(
                    endian,
                    old(self).remaining().take(16),
                ) && final(self).position() == old(self).position() + 16,
                Err(e) => e == ReadMinecraftError::<()>::UnexpectedEof && old(
                    self,
                ).remaining().len() < 16 && *final(self) == *old(self),
            },
    {
        let ghost rem = old(self).remaining();
        match self.read_uint128(endian, 16) {
            Ok(v) => {
                proof {
                    lemma_endian_value_bound(endian, rem.take(16));
                    lemma_pow256_values();
                }
                Ok(v as u128)
            },
            Err(e) => Err(e),
        }
    }

    /// Reads a signed 1-byte integer in the given byte order, as the two's
    /// complement of the unsigned value of those bytes.
    pub fn read_i8(&mut self, endian: Endian) -> (r: Result<i8, ReadMinecraftError<()>>)
        requires
            old(self).wf(),
        ensures
            final(self).wf(),
            final(self).all_bytes() == old(self).all_bytes(),
            match r {
                Ok(v) => 1 <= old(self).remaining().len() && (v as u8) as nat == endian_value(
                    endian,
                    old(self).remaining().take(1),
                ) && final(self).position() == old(self).position() + 1,
                Err(e) => e == ReadMinecraftError::<()>::UnexpectedEof && old(
                    self,
                ).remaining().len() < 1 && *final(self) == *old(self),
            },
    {
        let ghost rem = old(self).remaining();
        match self.read_uint128(endian, 1) {
            Ok(v) => {
                proof {
                    lemma_endian_value_bound(endian, rem.take(1));
                    lemma_pow256_values();
                    assert(((v as u8) as i8) as u8 == v as u8) by (bit_vector);
                }
                Ok((v as u8) as i8)
            },
            Err(e) => Err(e),
        }
    }

    /// Reads a signed 2-byte integer in the given byte order, as the two's
    /// complement of the unsigned value of those bytes.
    pub fn read_i16(&mut self, endian: Endian) -> (r: Result<i16, ReadMinecraftError<()>>)
        requires
            old(self).wf(),
        ensures
            final(self).wf(),
            final(self).all_bytes() == old(self).all_bytes(),
            match r {
                Ok(v) => 2 <= old(self).remaining().len() && (v as u16) as nat == endian_value(
                    endian,
                    old(self).remaining().take(2),
                ) && final(self).position() == old(self).position() + 2,
                Err(e) => e == ReadMinecraftError::<()>::UnexpectedEof && old(
                    self,
                ).remaining().len() < 2 && *final(self) == *old(self),
            },
    {
        let ghost rem = old(self).remaining();
        match self.read_uint128(endian, 2) {
            Ok(v) => {
                proof {
                    lemma_endian_value_bound(endian, rem.take(2));
                    lemma_pow256_values();
                    assert(((v as u16) as i16) as u16 == v as u16) by (bit_vector);
                }
                Ok((v as u16) as i16)
            },
            Err(e) => Err(e),
        }
    }

    /// Reads a signed 4-byte integer in the given byte order, as the two's
    /// complement of the unsigned value of those bytes.
    pub fn read_i32(&mut self, endian: Endian) -> (r: Result<i32, ReadMinecraftError<()>>)
        requires
            old(self).wf(),
        ensures
            final(self).wf(),
            final(self).all_bytes() == old(self).all_bytes(),
            match r {
                Ok(v) => 4 <= old(self).remaining().len() && (v as u32) as nat == endian_value(
                    endian,
                    old(self).remaining().take(4),
                ) && final(self).position() == old(self).position() + 4,
                Err(e) => e == ReadMinecraftError::<()>::UnexpectedEof && old(
                    self,
                ).remaining().len() < 4 && *final(self) == *old(self),
            },
    {
        let ghost rem = old(self).remaining();
        match self.read_uint128(endian, 4) {
            Ok(v) => {
                proof {
                    lemma_endian_value_bound(endian, rem.take(4));
                    lemma_pow256_values();
                    assert(((v as u32) as i32) as u32 == v as u32) by (bit_vector);
                }
                Ok((v as u32) as i32)
            },
            Err(e) => Err(e),
        }
    }

    /// Reads a signed 8-byte integer in the given byte order, as the two's
    /// complement of the unsigned value of those bytes.
    pub fn read_i64(&mut self, endian: Endian) -> (r: Result<i64, ReadMinecraftError<()>>)
        requires
            old(self).wf(),
        ensures
            final(self).wf(),
            final(self).all_bytes() == old(self).all_bytes(),
            match r {
                Ok(v) => 8 <= old(self).remaining().len() && (v as u64) as nat == endian_value(
                    endian,
                    old(self).remaining().take(8),
                ) && final(self).position() == old(self).position() + 8,
                Err(e) => e == ReadMinecraftError::<()>::UnexpectedEof && old(
                    self,
                ).remaining().len() < 8 && *final(self) == *old(self),
            },
    {
        let ghost rem = old(self).remaining();
        match self.read_uint128(endian, 8) {
            Ok(v) => {
                proof {
                    lemma_endian_value_bound(endian, rem.take(8));
                    lemma_pow256_values();
                    assert(((v as u64) as i64) as u64 == v as u64) by (bit_vector);
                }
                Ok((v as u64) as i64)
            },
            Err(e) => Err(e),
        }
    }

    /// Reads a signed 16-byte integer in the given byte order, as the two's
    /// complement of the unsigned value of those bytes.
    pub fn read_i128(&mut self, endian: Endian) -> (r: Result<i128, ReadMinecraftError<()>>)
        requires
            old(self).wf(),
        ensures
            final(self).wf(),
            final(self).all_bytes() == old(self).all_bytes(),
            match r {
                Ok(v) => 16 <= old(self).remaining().len() && (v as u128) as nat == endian_value(
                    endian,
                    old(self).remaining().take(16),
                ) && final(self).position() == old(self).position() + 16,
                Err(e) => e == ReadMinecraftError::<()>::UnexpectedEof && old(
                    self,
                ).remaining().len() < 16 && *final(self) == *old(self),
            },
    {
        let ghost rem = old(self).remaining();
        match self.read_uint128(endian, 16) {
            Ok(v) => {
                proof {
                    lemma_endian_value_bound(endian, rem.take(16));
                    lemma_pow256_values();
                    assert(((v as u128) as i128) as u128 == v as u128) by (bit_vector);
                }
                Ok((v as u128) as i128)
            },
            Err(e) => Err(e),
        }
    }
}

/// The powers of 256 for the supported widths, written out.
pub proof fn lemma_pow256_values()
    ensures
        pow256(0) == 1,
        pow256(1) == 0x100,
        pow256(2) == 0x1_0000,
        pow256(3) == 0x100_0000,
        pow256(4) == 0x1_0000_0000,
        pow256(5) == 0x100_0000_0000,
        pow256(6) == 0x1_0000_0000_0000,
        pow256(7) == 0x100_0000_0000_0000,
        pow256(8) == 0x1_0000_0000_0000_0000,
        pow256(16) == 0x1_0000_0000_0000_0000_0000_0000_0000_0000,
{
    assert(pow256(0) == 1);
    assert(pow256(1) == 0x100);
    assert(pow256(2) == 0x1_0000);
    assert(pow256(3) == 0x100_0000);
    assert(pow256(4) == 0x1_0000_0000);
    assert(pow256(5) == 0x100_0000_0000);
    assert(pow256(6) == 0x1_0000_0000_0000);
    assert(pow256(7) == 0x100_0000_0000_0000);
    assert(pow256(8) == 0x1_0000_0000_0000_0000);
    assert(pow256(9) == 0x100_0000_0000_0000_0000);
    assert(pow256(10) == 0x1_0000_0000_0000_0000_0000);
    assert(pow256(11) == 0x100_0000_0000_0000_0000_0000);
    assert(pow256(12) == 0x1_0000_0000_0000_0000_0000_0000);
    assert(pow256(13) == 0x100_0000_0000_0000_0000_0000_0000);
    assert(pow256(14) == 0x1_0000_0000_0000_0000_0000_0000_0000);
    assert(pow256(15) == 0x100_0000_0000_0000_0000_0000_0000_0000);
    assert(pow256(16) == 0x1_0000_0000_0000_0000_0000_0000_0000_0000);
}

/// 256^a divides into 256^b when `a <= b`.
proof fn lemma_pow256_mono(a: nat, b: nat)
    requires
        a <= b,
    ensures
        pow256(a) <= pow256(b),
    decreases b,
{
    if a < b {
        lemma_pow256_mono(a, (b - 1) as nat);
    }
}

impl ScratchVec {
    /// Writes an `nbytes`-byte unsigned integer (at most 16 bytes) in the
    /// given byte order; fails atomically when it does not fit.
    pub fn write_uint128(&mut self, endian: Endian, n: u128, nbytes: usize) -> (r: Result<
        (),
        WriteMinecraftError<()>,
    >)
        requires
            old(self).wf(),
            1 <= nbytes <= 16,
            (n as nat) < pow256(nbytes as nat),
        ensures
            final(self).wf(),
            final(self).capacity_spec() == old(self).capacity_spec(),
            match r {
                Ok(()) => nbytes <= old(self).space() && final(self)@ == old(self)@
                    + spec_endian_bytes(endian, n as nat, nbytes as nat),
                Err(e) => e == WriteMinecraftError::<()>::OutOfMemory && nbytes > old(self).space()
                    && *final(self) == *old(self),
            },
    {
        proof {
            lemma_endian_bytes_len(endian, n as nat, nbytes as nat);
        }
        let buf = byteorder_write_uint(n, nbytes, endian);
        self.write_all(buf.as_slice())
    }

    /// Writes an `nbytes`-byte unsigned integer (at most 8 bytes) in the
    /// given byte order; fails atomically when it does not fit.
    pub fn write_uint(&mut self, endian: Endian, n: u64, nbytes: usize) -> (r: Result<
        (),
        WriteMinecraftError<()>,
    >)
        requires
            old(self).wf(),
            1 <= nbytes <= 8,
            (n as nat) < pow256(nbytes as nat),
        ensures
            final(self).wf(),
            final(self).capacity_spec() == old(self).capacity_spec(),
            match r {
                Ok(()) => nbytes <= old(self).space() && final(self)@ == old(self)@
                    + spec_endian_bytes(endian, n as nat, nbytes as nat),
                Err(e) => e == WriteMinecraftError::<()>::OutOfMemory && nbytes > old(self).space()
                    && *final(self) == *old(self),
            },
    {
        self.write_uint128(endian, n as u128, nbytes)
    }

    /// Writes an unsigned 2-byte integer in the given byte order; fails
    /// atomically when it does not fit.
    pub fn write_u16(&mut self, endian: Endian, n: u16) -> (r: Result<(), WriteMinecraftError<()>>)
        requires
            old(self).wf(),
        ensures
            final(self).wf(),
            final(self).capacity_spec() == old(self).capacity_spec(),
            match r {
                Ok(()) => 2 <= old(self).space() && final(self)@ == old(self)@
                    + spec_endian_bytes(endian, n as nat, 2),
                Err(e) => e == WriteMinecraftError::<()>::OutOfMemory && 2 > old(self).space()
                    && *final(self) == *old(self),
            },
    {
        proof {
            lemma_pow256_values();
        }
        self.write_uint128(endian, n as u128, 2)
    }

    /// Writes an unsigned 3-byte integer in the given byte order; fails
    /// atomically when it does not fit.
    pub fn write_u24(&mut self, endian: Endian, n: u32) -> (r: Result<(), WriteMinecraftError<()>>)
        requires
            old(self).wf(),
            n < 0x100_0000,
        ensures
            final(self).wf(),
            final(self).capacity_spec() == old(self).capacity_spec(),
            match r {
                Ok(()) => 3 <= old(self).space() && final(self)@ == old(self)@
                    + spec_endian_bytes(endian, n as nat, 3),
                Err(e) => e == WriteMinecraftError::<()>::OutOfMemory && 3 > old(self).space()
                    && *final(self) == *old(self),
            },
    {
        proof {
            lemma_pow256_values();
        }
        self.write_uint128(endian, n as u128, 3)
    }

    /// Writes an unsigned 4-byte integer in the given byte order; fails
    /// atomically when it does not fit.
    pub fn write_u32(&mut self, endian: Endian, n: u32) -> (r: Result<(), WriteMinecraftError<()>>)
        requires
            old(self).wf(),
        ensures
            final(self).wf(),
            final(self).capacity_spec() == old(self).capacity_spec(),
            match r {
                Ok(()) => 4 <= old(self).space() && final(self)@ == old(self)@
                    + spec_endian_bytes(endian, n as nat, 4),
                Err(e) => e == WriteMinecraftError::<()>::OutOfMemory && 4 > old(self).space()
                    && *final(self) == *old(self),
            },
    {
        proof {
            lemma_pow256_values();
        }
        self.write_uint128(endian, n as u128, 4)
    }

    /// Writes an unsigned 6-byte integer in the given byte order; fails
    /// atomically when it does not fit.
    pub fn write_u48(&mut self, endian: Endian, n: u64) -> (r: Result<(), WriteMinecraftError<()>>)
        requires
            old(self).wf(),
            n < 0x1_0000_0000_0000,
        ensures
            final(self).wf(),
            final(self).capacity_spec() == old(self).capacity_spec(),
            match r {
                Ok(()) => 6 <= old(self).space() && final(self)@ == old(self)@
                    + spec_endian_bytes(endian, n as nat, 6),
                Err(e) => e == WriteMinecraftError::<()>::OutOfMemory && 6 > old(self).space()
                    && *final(self) == *old(self),
            },
    {
        proof {
            lemma_pow256_values();
        }
        self.write_uint128(endian, n as u128, 6)
    }

    /// Writes an unsigned 8-byte integer in the given byte order; fails
    /// atomically when it does not fit.
    pub fn write_u64(&mut self, endian: Endian, n: u64) -> (r: Result<(), WriteMinecraftError<()>>)
        requires
            old(self).wf(),
        ensures
            final(self).wf(),
            final(self).capacity_spec() == old(self).capacity_spec(),
            match r {
                Ok(()) => 8 <= old(self).space() && final(self)@ == old(self)@
                    + spec_endian_bytes(endian, n as nat, 8),
                Err(e) => e == WriteMinecraftError::<()>::OutOfMemory && 8 > old(self).space()
                    && *final(self) == *old(self),
            },
    {
        proof {
            lemma_pow256_values();
        }
        self.write_uint128(endian, n as u128, 8)
    }

    /// Writes an unsigned 16-byte integer in the given byte order; fails
    /// atomically when it does not fit.
    pub fn write_u128(&mut self, endian: Endian, n: u128) -> (r: Result<(), WriteMinecraftError<()>>)
        requires
            old(self).wf(),
        ensures
            final(self).wf(),
            final(self).capacity_spec() == old(self).capacity_spec(),
            match r {
                Ok(()) => 16 <= old(self).space() && final(self)@ == old(self)@
                    + spec_endian_bytes(endian, n as nat, 16),
                Err(e) => e == WriteMinecraftError::<()>::OutOfMemory && 16 > old(self).space()
                    && *final(self) == *old(self),
            },
    {
        proof {
            lemma_pow256_values();
        }
        self.write_uint128(endian, n as u128, 16)
    }

    /// Writes a signed 1-byte integer in the given byte order as its two's
    /// complement; fails atomically when it does not fit.
    pub fn write_i8(&mut self, endian: Endian, n: i8) -> (r: Result<(), WriteMinecraftError<()>>)
        requires
            old(self).wf(),
        ensures
            final(self).wf(),
            final(self).capacity_spec() == old(self).capacity_spec(),
            match r {
                Ok(()) => 1 <= old(self).space() && final(self)@ == old(self)@
                    + spec_endian_bytes(endian, (n as u8) as nat, 1),
                Err(e) => e == WriteMinecraftError::<()>::OutOfMemory && 1 > old(self).space()
                    && *final(self) == *old(self),
            },
    {
        proof {
            lemma_pow256_values();
        }
        self.write_uint128(endian, (n as u8) as u128, 1)
    }

    /// Writes a signed 2-byte integer in the given byte order as its two's
    /// complement; fails atomically when it does not fit.
    pub fn write_i16(&mut self, endian: Endian, n: i16) -> (r: Result<(), WriteMinecraftError<()>>)
        requires
            old(self).wf(),
        ensures
            final(self).wf(),
            final(self).capacity_spec() == old(self).capacity_spec(),
            match r {
                Ok(()) => 2 <= old(self).space() && final(self)@ == old(self)@
                    + spec_endian_bytes(endian, (n as u16) as nat, 2),
                Err(e) => e == WriteMinecraftError::<()>::OutOfMemory && 2 > old(self).space()
                    && *final(self) == *old(self),
            },
    {
        proof {
            lemma_pow256_values();
        }
        self.write_uint128(endian, (n as u16) as u128, 2)
    }

    /// Writes a signed 4-byte integer in the given byte order as its two's
    /// complement; fails atomically when it does not fit.
    pub fn write_i32(&mut self, endian: Endian, n: i32) -> (r: Result<(), WriteMinecraftError<()>>)
        requires
            old(self).wf(),
        ensures
            final(self).wf(),
            final(self).capacity_spec() == old(self).capacity_spec(),
            match r {
                Ok(()) => 4 <= old(self).space() && final(self)@ == old(self)@
                    + spec_endian_bytes(endian, (n as u32) as nat, 4),
                Err(e) => e == WriteMinecraftError::<()>::OutOfMemory && 4 > old(self).space()
                    && *final(self) == *old(self),
            },
    {
        proof {
            lemma_pow256_values();
        }
        self.write_uint128(endian, (n as u32) as u128, 4)
    }

    /// Writes a signed 8-byte integer in the given byte order as its two's
    /// complement; fails atomically when it does not fit.
    pub fn write_i64(&mut self, endian: Endian, n: i64) -> (r: Result<(), WriteMinecraftError<()>>)
        requires
            old(self).wf(),
        ensures
            final(self).wf(),
            final(self).capacity_spec() == old(self).capacity_spec(),
            match r {
                Ok(()) => 8 <= old(self).space() && final(self)@ == old(self)@
                    + spec_endian_bytes(endian, (n as u64) as nat, 8),
                Err(e) => e == WriteMinecraftError::<()>::OutOfMemory && 8 > old(self).space()
                    && *final(self) == *old(self),
            },
    {
        proof {
            lemma_pow256_values();
        }
        self.write_uint128(endian, (n as u64) as u128, 8)
    }

    /// Writes a signed 16-byte integer in the given byte order as its two's
    /// complement; fails atomically when it does not fit.
    pub fn write_i128(&mut self, endian: Endian, n: i128) -> (r: Result<(), WriteMinecraftError<()>>)
        requires
            old(self).wf(),
        ensures
            final(self).wf(),
            final(self).capacity_spec() == old(self).capacity_spec(),
            match r {
                Ok(()) => 16 <= old(self).space() && final(self)@ == old(self)@
                    + spec_endian_bytes(endian, (n as u128) as nat, 16),
                Err(e) => e == WriteMinecraftError::<()>::OutOfMemory && 16 > old(self).space()
                    && *final(self) == *old(self),
            },
    {
        proof {
            lemma_pow256_values();
        }
        self.write_uint128(endian, (n as u128) as u128, 16)
    }
}

} // verus!
