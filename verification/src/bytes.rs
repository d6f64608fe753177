//! Reading and writing the protocol's own primitives on the byte streams:
//! VarInts and length-prefixed strings.

use vstd::prelude::*;
use vstd::string::StringSliceAdditionalSpecFns;

use crate::byteio::{be_value, Endian};
use crate::error::{ReadMinecraftError, WriteMinecraftError};
use crate::stream::{ByteReader, ScratchVec};
use crate::varint::{
    group_value, spec_var_int, spec_var_int_value, var_i32_size, var_int_shape, var_int_shape_rec,
    VarIntShape,
};

verus! {

/// The wire form of a byte block preceded by its VarInt length prefix.
pub open spec fn spec_len_prefixed(bytes: Seq<u8>) -> Seq<u8>
    recommends
        bytes.len() <= 0x7fff_ffff,
{
    spec_var_int(bytes.len() as u32) + bytes
}

impl ByteReader {
    /// Reads a variable-length-encoded `i32`: 7-bit groups, least significant
    /// first, until a byte without the continuation bit; rejected as too big
    /// after five continuation bytes, and as an early end of stream when the
    /// bytes run out first.
    pub fn read_var_i32(&mut self) -> (r: Result<i32, ReadMinecraftError<()>>)
        requires
            old(self).wf(),
        ensures
            final(self).wf(),
            final(self).all_bytes() == old(self).all_bytes(),
            final(self).position() >= old(self).position(),
            match r {
                Ok(v) => var_int_shape(old(self).remaining()) == VarIntShape::Complete(
                    final(self).position() - old(self).position(),
                ) && v == spec_var_int_value(old(self).remaining()) as i32,
                Err(e) => match e {
                    ReadMinecraftError::VarIntTooBig => var_int_shape(old(self).remaining())
                        == VarIntShape::TooBig && final(self).position() == old(self).position()
                        + 5,
                    ReadMinecraftError::UnexpectedEof => var_int_shape(old(self).remaining())
                        == VarIntShape::Incomplete && final(self).position() == old(
                        self,
                    ).all_bytes().len(),
                    _ => false,
                },
            },
    {
        let ghost rem = old(self).remaining();
        let b0 = match self.read_u8() {
            Ok(b) => b,
            Err(_) => {
                return Err(ReadMinecraftError::UnexpectedEof);
            },
        };
        proof {
            assert(self.remaining() =~= rem.skip(1));
        }
        if b0 < 0x80 {
            proof {
                lemma_decode_prefix(rem, 1);
            }
            return Ok(b0 as i32);
        }
        let x1: u32 = (b0 - 0x80) as u32;
        let b1 = match self.read_u8() {
            Ok(b) => b,
            Err(_) => {
                proof {
                    lemma_shape_incomplete(rem, 1);
                }
                return Err(ReadMinecraftError::UnexpectedEof);
            },
        };
        proof {
            assert(self.remaining() =~= rem.skip(2));
            assert(b1 == rem[1]);
        }
        if b1 < 0x80 {
            proof {
                lemma_decode_prefix(rem, 2);
            }
            return Ok((x1 + (b1 as u32) * 0x80) as i32);
        }
        let x2: u32 = x1 + ((b1 - 0x80) as u32) * 0x80;
        let b2 = match self.read_u8() {
            Ok(b) => b,
            Err(_) => {
                proof {
                    lemma_shape_incomplete(rem, 2);
                }
                return Err(ReadMinecraftError::UnexpectedEof);
            },
        };
        proof {
            assert(self.remaining() =~= rem.skip(3));
            assert(b2 == rem[2]);
        }
        if b2 < 0x80 {
            proof {
                lemma_decode_prefix(rem, 3);
            }
            return Ok((x2 + (b2 as u32) * 0x4000) as i32);
        }
        let x3: u32 = x2 + ((b2 - 0x80) as u32) * 0x4000;
        let b3 = match self.read_u8() {
            Ok(b) => b,
            Err(_) => {
                proof {
                    lemma_shape_incomplete(rem, 3);
                }
                return Err(ReadMinecraftError::UnexpectedEof);
            },
        };
        proof {
            assert(self.remaining() =~= rem.skip(4));
            assert(b3 == rem[3]);
        }
        if b3 < 0x80 {
            proof {
                lemma_decode_prefix(rem, 4);
            }
            return Ok((x3 + (b3 as u32) * 0x20_0000) as i32);
        }
        let x4: u32 = x3 + ((b3 - 0x80) as u32) * 0x20_0000;
        let b4 = match self.read_u8() {
            Ok(b) => b,
            Err(_) => {
                proof {
                    lemma_shape_incomplete(rem, 4);
                }
                return Err(ReadMinecraftError::UnexpectedEof);
            },
        };
        proof {
            assert(self.remaining() =~= rem.skip(5));
            assert(b4 == rem[4]);
        }
        if b4 < 0x80 {
            proof {
                lemma_decode_prefix(rem, 5);
                lemma_trunc_fifth_group(
                    (x4 as nat),
                    (b4 as nat),
                    group_value(rem.take(5)),
                );
            }
            return Ok((x4 + ((b4 % 16) as u32) * 0x1000_0000) as i32);
        }
        proof {
            crate::varint::lemma_var_int_too_big(rem);
        }
        Err(ReadMinecraftError::VarIntTooBig)
    }
}

/// When the first `k` bytes of `s` all carry the continuation bit and `s` has
/// no more, the decode is incomplete.
proof fn lemma_shape_incomplete(s: Seq<u8>, k: int)
    requires
        1 <= k <= 4,
        s.len() == k,
        forall|i: int| 0 <= i < k ==> s[i] >= 0x80,
    ensures
        var_int_shape(s) == VarIntShape::Incomplete,
{
    let s1 = s.skip(1);
    let s2 = s.skip(2);
    let s3 = s.skip(3);
    let s4 = s.skip(4);
    assert(forall|i: int| 0 <= i < s1.len() ==> s1[i] == s[i + 1]);
    if s.len() >= 2 {
        assert(s1.skip(1) =~= s2);
        assert(forall|i: int| 0 <= i < s2.len() ==> s2[i] == s[i + 2]);
    }
    if s.len() >= 3 {
        assert(s2.skip(1) =~= s3);
        assert(forall|i: int| 0 <= i < s3.len() ==> s3[i] == s[i + 3]);
    }
    if s.len() >= 4 {
        assert(s3.skip(1) =~= s4);
    }
    if k == 1 {
        assert(var_int_shape_rec(s1, 4) == VarIntShape::Incomplete);
    } else if k == 2 {
        assert(var_int_shape_rec(s2, 3) == VarIntShape::Incomplete);
        assert(var_int_shape_rec(s1, 4) == VarIntShape::Incomplete);
    } else if k == 3 {
        assert(var_int_shape_rec(s3, 2) == VarIntShape::Incomplete);
        assert(var_int_shape_rec(s2, 3) == VarIntShape::Incomplete);
        assert(var_int_shape_rec(s1, 4) == VarIntShape::Incomplete);
    } else {
        assert(var_int_shape_rec(s4, 1) == VarIntShape::Incomplete);
        assert(var_int_shape_rec(s3, 2) == VarIntShape::Incomplete);
        assert(var_int_shape_rec(s2, 3) == VarIntShape::Incomplete);
        assert(var_int_shape_rec(s1, 4) == VarIntShape::Incomplete);
    }
}

/// When the first `k - 1` bytes of `s` carry the continuation bit and the
/// `k`-th does not, the decode completes after `k` bytes and yields the
/// accumulated group value, truncated to 32 bits.
proof fn lemma_decode_prefix(s: Seq<u8>, k: int)
    requires
        1 <= k <= 5,
        s.len() >= k,
        forall|i: int| 0 <= i < k - 1 ==> s[i] >= 0x80,
        s[k - 1] < 0x80,
    ensures
        var_int_shape(s) == VarIntShape::Complete(k),
        spec_var_int_value(s) == (group_value(s.take(k)) % 0x1_0000_0000) as u32,
        k == 1 ==> group_value(s.take(1)) == s[0],
        k == 2 ==> group_value(s.take(2)) == (s[0] - 0x80) + 0x80 * s[1],
        k == 3 ==> group_value(s.take(3)) == (s[0] - 0x80) + 0x80 * (s[1] - 0x80) + 0x4000 * s[2],
        k == 4 ==> group_value(s.take(4)) == (s[0] - 0x80) + 0x80 * (s[1] - 0x80) + 0x4000 * (s[2]
            - 0x80) + 0x20_0000 * s[3],
        k == 5 ==> group_value(s.take(5)) == (s[0] - 0x80) + 0x80 * (s[1] - 0x80) + 0x4000 * (s[2]
            - 0x80) + 0x20_0000 * (s[3] - 0x80) + 0x1000_0000 * s[4],
{
    let s1 = s.skip(1);
    let s2 = s.skip(2);
    let s3 = s.skip(3);
    let s4 = s.skip(4);
    assert(forall|i: int| 0 <= i < s1.len() ==> s1[i] == s[i + 1]);
    if s.len() >= 2 {
        assert(s1.skip(1) =~= s2);
        assert(forall|i: int| 0 <= i < s2.len() ==> s2[i] == s[i + 2]);
    }
    if s.len() >= 3 {
        assert(s2.skip(1) =~= s3);
        assert(forall|i: int| 0 <= i < s3.len() ==> s3[i] == s[i + 3]);
    }
    if s.len() >= 4 {
        assert(s3.skip(1) =~= s4);
        assert(forall|i: int| 0 <= i < s4.len() ==> s4[i] == s[i + 4]);
    }
    assert(forall|i: int| 0 <= i < k - 1 ==> s[i] % 0x80 == s[i] - 0x80);
    assert(s[k - 1] % 0x80 == s[k - 1]);
    assert(group_value(Seq::<u8>::empty()) == 0);
    let t = s.take(k);
    assert(forall|i: int| 0 <= i < k ==> t[i] == s[i]);
    if k == 1 {
        assert(t.skip(1) =~= Seq::<u8>::empty());
        assert(group_value(t) == (s[0] % 0x80) as nat);
    } else if k == 2 {
        assert(var_int_shape_rec(s1, 4) == VarIntShape::Complete(1));
        let t1 = t.skip(1);
        assert(t1 =~= seq![s[1]]);
        assert(t1.skip(1) =~= Seq::<u8>::empty());
        assert(group_value(t1) == (s[1] % 0x80) as nat);
        assert(group_value(t) == (s[0] % 0x80) as nat + 0x80 * group_value(t1));
    } else if k == 3 {
        assert(var_int_shape_rec(s2, 3) == VarIntShape::Complete(1));
        assert(var_int_shape_rec(s1, 4) == VarIntShape::Complete(2));
        let t1 = t.skip(1);
        let t2 = t1.skip(1);
        assert(t1 =~= seq![s[1], s[2]]);
        assert(t2 =~= seq![s[2]]);
        assert(t2.skip(1) =~= Seq::<u8>::empty());
        assert(group_value(t2) == (s[2] % 0x80) as nat);
        assert(group_value(t1) == (s[1] % 0x80) as nat + 0x80 * group_value(t2));
        assert(group_value(t) == (s[0] % 0x80) as nat + 0x80 * group_value(t1));
    } else if k == 4 {
        assert(var_int_shape_rec(s3, 2) == VarIntShape::Complete(1));
        assert(var_int_shape_rec(s2, 3) == VarIntShape::Complete(2));
        assert(var_int_shape_rec(s1, 4) == VarIntShape::Complete(3));
        let t1 = t.skip(1);
        let t2 = t1.skip(1);
        let t3 = t2.skip(1);
        assert(t1 =~= seq![s[1], s[2], s[3]]);
        assert(t2 =~= seq![s[2], s[3]]);
        assert(t3 =~= seq![s[3]]);
        assert(t3.skip(1) =~= Seq::<u8>::empty());
        assert(group_value(t3) == (s[3] % 0x80) as nat);
        assert(group_value(t2) == (s[2] % 0x80) as nat + 0x80 * group_value(t3));
        assert(group_value(t1) == (s[1] % 0x80) as nat + 0x80 * group_value(t2));
        assert(group_value(t) == (s[0] % 0x80) as nat + 0x80 * group_value(t1));
    } else {
        assert(var_int_shape_rec(s4, 1) == VarIntShape::Complete(1));
        assert(var_int_shape_rec(s3, 2) == VarIntShape::Complete(2));
        assert(var_int_shape_rec(s2, 3) == VarIntShape::Complete(3));
        assert(var_int_shape_rec(s1, 4) == VarIntShape::Complete(4));
        let t1 = t.skip(1);
        let t2 = t1.skip(1);
        let t3 = t2.skip(1);
        let t4 = t3.skip(1);
        assert(t1 =~= seq![s[1], s[2], s[3], s[4]]);
        assert(t2 =~= seq![s[2], s[3], s[4]]);
        assert(t3 =~= seq![s[3], s[4]]);
        assert(t4 =~= seq![s[4]]);
        assert(t4.skip(1) =~= Seq::<u8>::empty());
        assert(group_value(t4) == (s[4] % 0x80) as nat);
        assert(group_value(t3) == (s[3] % 0x80) as nat + 0x80 * group_value(t4));
        assert(group_value(t2) == (s[2] % 0x80) as nat + 0x80 * group_value(t3));
        assert(group_value(t1) == (s[1] % 0x80) as nat + 0x80 * group_value(t2));
        assert(group_value(t) == (s[0] % 0x80) as nat + 0x80 * group_value(t1));
    }
    assert(var_int_shape(s) == VarIntShape::Complete(k));
}

/// Truncating the fifth group to 32 bits keeps only its low four bits.
proof fn lemma_trunc_fifth_group(p: nat, g: nat, total: nat)
    requires
        p < 0x1000_0000,
        g < 0x80,
        total == p + g * 0x1000_0000,
    ensures
        total % 0x1_0000_0000 == p + (g % 16) * 0x1000_0000,
{
    let p64 = p as u64;
    let g64 = g as u64;
    assert((p64 + g64 * 0x1000_0000) % 0x1_0000_0000 == p64 + (g64 % 16) * 0x1000_0000)
        by (bit_vector)
        requires
            p64 < 0x1000_0000,
            g64 < 0x80,
    ;
}

#[verifier::external_type_specification]
#[verifier::external_body]
pub struct ExUuid(uuid::Uuid);

/// The UUID built from the given most- and least-significant halves; the
/// result is a function of the two words alone.
pub uninterp spec fn uuid_from_pair(msb: u64, lsb: u64) -> uuid::Uuid;

/// Relies on `uuid::Uuid::from_u64_pair`: builds the UUID from the given
/// most- and least-significant 64-bit halves.
#[verifier::external_body]
fn uuid_of_pair(msb: u64, lsb: u64) -> (r: uuid::Uuid)
    ensures
        r == uuid_from_pair(msb, lsb),
{
    uuid::Uuid::from_u64_pair(msb, lsb)
}

impl ByteReader {
    /// Reads a UUID: two big-endian 64-bit words, most significant half
    /// first.
    pub fn read_uuid(&mut self) -> (r: Result<uuid::Uuid, ReadMinecraftError<()>>)
        requires
            old(self).wf(),
        ensures
            final(self).wf(),
            final(self).all_bytes() == old(self).all_bytes(),
            final(self).position() >= old(self).position(),
            ({
                let rem = old(self).remaining();
                match r {
                    Ok(u) => rem.len() >= 16 && u == uuid_from_pair(
                        be_value(rem.take(8)) as u64,
                        be_value(rem.subrange(8, 16)) as u64,
                    ) && final(self).position() == old(self).position() + 16,
                    Err(e) => e == ReadMinecraftError::<()>::UnexpectedEof && rem.len() < 16,
                }
            }),
    {
        let ghost rem = old(self).remaining();
        let msb = match self.read_u64(Endian::Big) {
            Ok(v) => v,
            Err(e) => {
                return Err(e);
            },
        };
        proof {
            assert(self.remaining() =~= rem.skip(8));
        }
        let lsb = match self.read_u64(Endian::Big) {
            Ok(v) => v,
            Err(e) => {
                return Err(e);
            },
        };
        proof {
            assert(rem.skip(8).take(8) =~= rem.subrange(8, 16));
        }
        Ok(uuid_of_pair(msb, lsb))
    }
}

/// Extends the byte streams with writes of Minecraft-specific data types:
/// VarInt-encoded integers and length-prefixed UTF-8 strings.
pub trait WriteMinecraftExt {
    /// The bytes written so far.
    spec fn out_bytes(&self) -> Seq<u8>;

    /// The writer's fixed capacity.
    spec fn out_capacity(&self) -> int;

    /// Well-formedness of the writer.
    spec fn out_wf(&self) -> bool;

    /// Writes a variable-length-encoded `i32`; fails atomically when the
    /// encoding does not fit.
    fn write_var_i32(&mut self, value: i32) -> (r: Result<(), WriteMinecraftError<()>>)
        requires
            old(self).out_wf(),
        ensures
            final(self).out_wf(),
            final(self).out_capacity() == old(self).out_capacity(),
            r is Ok <==> old(self).out_bytes().len() + spec_var_int(value as u32).len() <= old(
                self,
            ).out_capacity(),
            r is Ok ==> final(self).out_bytes() == old(self).out_bytes() + spec_var_int(
                value as u32,
            ),
            r is Err ==> final(self).out_bytes() == old(self).out_bytes() && r == Err::<
                (),
                WriteMinecraftError<()>,
            >(WriteMinecraftError::OutOfMemory),
    ;

    /// Writes a string as its VarInt byte length followed by its UTF-8 bytes;
    /// fails atomically when the whole form does not fit.
    fn write_string(&mut self, value: &str) -> (r: Result<(), WriteMinecraftError<()>>)
        requires
            old(self).out_wf(),
            value.spec_bytes().len() <= 0x7fff_ffff,
        ensures
            final(self).out_wf(),
            final(self).out_capacity() == old(self).out_capacity(),
            r is Ok <==> old(self).out_bytes().len() + spec_len_prefixed(value.spec_bytes()).len()
                <= old(self).out_capacity(),
            r is Ok ==> final(self).out_bytes() == old(self).out_bytes() + spec_len_prefixed(
                value.spec_bytes(),
            ),
            r is Err ==> final(self).out_bytes() == old(self).out_bytes() && r == Err::<
                (),
                WriteMinecraftError<()>,
            >(WriteMinecraftError::OutOfMemory),
    ;
}

impl WriteMinecraftExt for ScratchVec {
    open spec fn out_bytes(&self) -> Seq<u8> {
        self@
    }

    open spec fn out_capacity(&self) -> int {
        self.capacity_spec()
    }

    open spec fn out_wf(&self) -> bool {
        self.wf()
    }

    fn write_var_i32(&mut self, value: i32) -> (r: Result<(), WriteMinecraftError<()>>) {
        proof {
            crate::varint::lemma_var_int_len(value as u32);
        }
        let size = var_i32_size(value);
        if size > self.capacity() - self.len() {
            return Err(WriteMinecraftError::OutOfMemory);
        }
        let mut v: u32 = value as u32;
        while v >= 0x80
            invariant
                self.wf(),
                self.capacity_spec() == old(self).capacity_spec(),
                self@ + spec_var_int(v) == old(self)@ + spec_var_int(value as u32),
                spec_var_int(v).len() <= self.space(),
            decreases v,
        {
            let ghost pre = self@;
            let ghost vpre = v;
            let b = ((v % 0x80) + 0x80) as u8;
            match self.write_u8(b) {
                Ok(()) => (),
                Err(_) => {
                    proof {
                        assert(false);
                    }
                    return Err(WriteMinecraftError::OutOfMemory);
                },
            }
            v = v / 0x80;
            proof {
                assert(spec_var_int(vpre) == seq![b] + spec_var_int(v));
                assert(self@ + spec_var_int(v) =~= pre + spec_var_int(vpre));
            }
        }
        let ghost pre = self@;
        match self.write_u8(v as u8) {
            Ok(()) => (),
            Err(_) => {
                proof {
                    assert(false);
                }
                return Err(WriteMinecraftError::OutOfMemory);
            },
        }
        proof {
            assert(spec_var_int(v) =~= seq![v as u8]);
            assert(self@ =~= pre + spec_var_int(v));
            assert(self@ =~= old(self)@ + spec_var_int(value as u32));
        }
        Ok(())
    }

    fn write_string(&mut self, value: &str) -> (r: Result<(), WriteMinecraftError<()>>) {
        let bytes = value.as_bytes();
        let len_i32: i32 = bytes.len() as i32;
        proof {
            crate::varint::lemma_var_int_len(len_i32 as u32);
        }
        let prefix = var_i32_size(len_i32);
        if bytes.len() > self.capacity() - self.len() || prefix > self.capacity() - self.len()
            - bytes.len() {
            return Err(WriteMinecraftError::OutOfMemory);
        }
        match self.write_var_i32(len_i32) {
            Ok(()) => (),
            Err(_) => {
                proof {
                    assert(false);
                }
                return Err(WriteMinecraftError::OutOfMemory);
            },
        }
        match self.write_all(bytes) {
            Ok(()) => (),
            Err(_) => {
                proof {
                    assert(false);
                }
                return Err(WriteMinecraftError::OutOfMemory);
            },
        }
        proof {
            assert(self@ =~= old(self)@ + spec_len_prefixed(value.spec_bytes()));
        }
        Ok(())
    }
}

} // verus!
