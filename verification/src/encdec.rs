//! The generic encode/decode/wire-size framework: three capabilities every
//! codable type implements once, against which the framing layer and the
//! packet catalogue are verified.
//!
//! The contracts tie the three together: `wire_size` returns exactly the
//! length of the type's wire form, `encode` appends exactly that wire form,
//! and `decode` is characterised by a per-type specification function, with
//! a per-type proof obligation that decoding a wire form yields the value
//! back. The wire-size/encode agreement and the decode/encode round trip are
//! therefore proved for every implementation, not sampled by tests.

use vstd::prelude::*;

use crate::byteio::{
    be_value, lemma_endian_roundtrip, lemma_endian_value_bound, lemma_pow256_values, spec_be_bytes,
    Endian,
};
use crate::bytes::WriteMinecraftExt;
use crate::error::{ReadMinecraftError, WriteMinecraftError};
use crate::options::IntOptions;
use crate::stream::{ByteReader, ScratchVec};
use crate::varint::{
    lemma_var_int_roundtrip, spec_var_int, spec_var_int_value, var_i32_size, var_int_consumed,
    var_int_shape, VarIntShape,
};

verus! {

/// Exact precomputation of a value's encoded byte length, without I/O.
pub trait WireSize {
    /// The per-call configuration this type's wire representation takes.
    type Options;

    /// The exact byte sequence this value takes on the wire under the given
    /// options.
    spec fn wire_form(&self, opts: Self::Options) -> Seq<u8>;

    /// Whether this value's wire form length fits the machine's size type; a
    /// machine limit, `true` for every fixed-width type.
    spec fn size_fits(&self, opts: Self::Options) -> bool;

    /// The exact number of bytes `encode` produces for this value, computed
    /// by pure inspection.
    fn wire_size(&self, opts: &Self::Options) -> (r: usize)
        requires
            self.size_fits(*opts),
        ensures
            r == self.wire_form(*opts).len(),
    ;
}

/// Encoding a value to a bounded writer.
pub trait Encode: WireSize {
    /// Appends exactly this value's wire form to the writer, or fails
    /// atomically, writing nothing, when the form does not fit under the
    /// writer's capacity.
    fn encode(&self, w: &mut ScratchVec, opts: &Self::Options) -> (r: Result<
        (),
        WriteMinecraftError<()>,
    >)
        requires
            old(w).wf(),
            self.size_fits(*opts),
        ensures
            final(w).wf(),
            final(w).capacity_spec() == old(w).capacity_spec(),
            r is Ok <==> old(w)@.len() + self.wire_form(*opts).len() <= old(w).capacity_spec(),
            r is Ok ==> final(w)@ == old(w)@ + self.wire_form(*opts),
            r is Err ==> final(w)@ == old(w)@ && r == Err::<(), WriteMinecraftError<()>>(
                WriteMinecraftError::OutOfMemory,
            ),
    ;
}

/// Decoding a value from a byte reader.
pub trait Decode: WireSize + Sized {
    /// This type's decode failure.
    type Error;

    /// Whether the front of `bytes` holds a decodable value.
    spec fn spec_decode_ok(bytes: Seq<u8>, opts: Self::Options) -> bool;

    /// How many bytes the value at the front of `bytes` occupies.
    spec fn spec_decode_len(bytes: Seq<u8>, opts: Self::Options) -> int;

    /// Whether `self` is the value decoded from the front of `bytes`.
    spec fn is_decode_of(&self, bytes: Seq<u8>, opts: Self::Options) -> bool;

    /// The values whose wire form decodes back to the value itself; used to
    /// state the decode/encode round trip.
    spec fn decodable(&self, opts: Self::Options) -> bool;

    /// Consumes exactly the bytes of one value from the reader and returns
    /// it, succeeding if and only if a decodable value stands at the front of
    /// the remaining bytes.
    fn decode(r: &mut ByteReader, opts: &Self::Options) -> (res: Result<Self, Self::Error>)
        requires
            old(r).wf(),
        ensures
            final(r).wf(),
            final(r).all_bytes() == old(r).all_bytes(),
            final(r).position() >= old(r).position(),
            match res {
                Ok(v) => Self::spec_decode_ok(old(r).remaining(), *opts) && v.is_decode_of(
                    old(r).remaining(),
                    *opts,
                ) && final(r).position() - old(r).position() == Self::spec_decode_len(
                    old(r).remaining(),
                    *opts,
                ),
                Err(_) => !Self::spec_decode_ok(old(r).remaining(), *opts),
            },
    ;

    /// Decode after encode: a decodable value's wire form, whatever follows
    /// it in the stream, decodes back to the value, consuming exactly the
    /// form.
    proof fn lemma_decode_wire_form(&self, opts: Self::Options, rest: Seq<u8>)
        requires
            self.decodable(opts),
        ensures
            Self::spec_decode_ok(self.wire_form(opts) + rest, opts),
            Self::spec_decode_len(self.wire_form(opts) + rest, opts) == self.wire_form(opts).len(),
            self.is_decode_of(self.wire_form(opts) + rest, opts),
    ;
}

impl WireSize for u8 {
    type Options = ();

    open spec fn wire_form(&self, opts: ()) -> Seq<u8> {
        seq![*self]
    }

    open spec fn size_fits(&self, opts: ()) -> bool {
        true
    }

    fn wire_size(&self, opts: &()) -> (r: usize) {
        1
    }
}

impl Encode for u8 {
    fn encode(&self, w: &mut ScratchVec, opts: &()) -> (r: Result<(), WriteMinecraftError<()>>) {
        let res = w.write_u8(*self);
        proof {
            if res is Ok {
                assert(w@ =~= old(w)@ + self.wire_form(()));
            }
        }
        res
    }
}

impl Decode for u8 {
    type Error = ReadMinecraftError<()>;

    open spec fn spec_decode_ok(bytes: Seq<u8>, opts: ()) -> bool {
        bytes.len() >= 1
    }

    open spec fn spec_decode_len(bytes: Seq<u8>, opts: ()) -> int {
        1
    }

    open spec fn is_decode_of(&self, bytes: Seq<u8>, opts: ()) -> bool {
        *self == bytes[0]
    }

    open spec fn decodable(&self, opts: ()) -> bool {
        true
    }

    fn decode(r: &mut ByteReader, opts: &()) -> (res: Result<u8, ReadMinecraftError<()>>)
        ensures
            res is Err ==> res == Err::<u8, ReadMinecraftError<()>>(
                ReadMinecraftError::UnexpectedEof,
            ),
    {
        r.read_u8()
    }

    proof fn lemma_decode_wire_form(&self, opts: (), rest: Seq<u8>) {
        let s = self.wire_form(opts) + rest;
        assert(s[0] == *self);
    }
}

impl WireSize for u16 {
    type Options = ();

    open spec fn wire_form(&self, opts: ()) -> Seq<u8> {
        spec_be_bytes(*self as nat, 2)
    }

    open spec fn size_fits(&self, opts: ()) -> bool {
        true
    }

    fn wire_size(&self, opts: &()) -> (r: usize) {
        proof {
            lemma_pow256_values();
            lemma_endian_roundtrip(Endian::Big, *self as nat, 2);
        }
        2
    }
}

impl Encode for u16 {
    fn encode(&self, w: &mut ScratchVec, opts: &()) -> (r: Result<(), WriteMinecraftError<()>>) {
        proof {
            lemma_pow256_values();
            lemma_endian_roundtrip(Endian::Big, *self as nat, 2);
        }
        w.write_u16(Endian::Big, *self)
    }
}

impl Decode for u16 {
    type Error = ReadMinecraftError<()>;

    open spec fn spec_decode_ok(bytes: Seq<u8>, opts: ()) -> bool {
        bytes.len() >= 2
    }

    open spec fn spec_decode_len(bytes: Seq<u8>, opts: ()) -> int {
        2
    }

    open spec fn is_decode_of(&self, bytes: Seq<u8>, opts: ()) -> bool {
        *self as nat == be_value(bytes.take(2))
    }

    open spec fn decodable(&self, opts: ()) -> bool {
        true
    }

    fn decode(r: &mut ByteReader, opts: &()) -> (res: Result<u16, ReadMinecraftError<()>>)
        ensures
            res is Err ==> res == Err::<u16, ReadMinecraftError<()>>(
                ReadMinecraftError::UnexpectedEof,
            ),
    {
        let ghost rem = old(r).remaining();
        let res = r.read_u16(Endian::Big);
        proof {
            if res is Ok {
                lemma_endian_value_bound(Endian::Big, rem.take(2));
                lemma_pow256_values();
            }
        }
        res
    }

    proof fn lemma_decode_wire_form(&self, opts: (), rest: Seq<u8>) {
        lemma_pow256_values();
        lemma_endian_roundtrip(Endian::Big, *self as nat, 2);
        let form = self.wire_form(opts);
        let s = form + rest;
        assert(s.take(2) =~= form);
    }
}

impl WireSize for i64 {
    type Options = ();

    open spec fn wire_form(&self, opts: ()) -> Seq<u8> {
        spec_be_bytes((*self as u64) as nat, 8)
    }

    open spec fn size_fits(&self, opts: ()) -> bool {
        true
    }

    fn wire_size(&self, opts: &()) -> (r: usize) {
        proof {
            lemma_pow256_values();
            lemma_endian_roundtrip(Endian::Big, (*self as u64) as nat, 8);
        }
        8
    }
}

impl Encode for i64 {
    fn encode(&self, w: &mut ScratchVec, opts: &()) -> (r: Result<(), WriteMinecraftError<()>>) {
        proof {
            lemma_pow256_values();
            lemma_endian_roundtrip(Endian::Big, (*self as u64) as nat, 8);
        }
        w.write_i64(Endian::Big, *self)
    }
}

impl Decode for i64 {
    type Error = ReadMinecraftError<()>;

    open spec fn spec_decode_ok(bytes: Seq<u8>, opts: ()) -> bool {
        bytes.len() >= 8
    }

    open spec fn spec_decode_len(bytes: Seq<u8>, opts: ()) -> int {
        8
    }

    open spec fn is_decode_of(&self, bytes: Seq<u8>, opts: ()) -> bool {
        (*self as u64) as nat == be_value(bytes.take(8))
    }

    open spec fn decodable(&self, opts: ()) -> bool {
        true
    }

    fn decode(r: &mut ByteReader, opts: &()) -> (res: Result<i64, ReadMinecraftError<()>>)
        ensures
            res is Err ==> res == Err::<i64, ReadMinecraftError<()>>(
                ReadMinecraftError::UnexpectedEof,
            ),
    {
        let ghost rem = old(r).remaining();
        let res = r.read_i64(Endian::Big);
        proof {
            if res is Ok {
                lemma_endian_value_bound(Endian::Big, rem.take(8));
                lemma_pow256_values();
                lemma_i64_cast_roundtrip(res->Ok_0);
            }
        }
        res
    }

    proof fn lemma_decode_wire_form(&self, opts: (), rest: Seq<u8>) {
        lemma_pow256_values();
        lemma_endian_roundtrip(Endian::Big, (*self as u64) as nat, 8);
        let form = self.wire_form(opts);
        let s = form + rest;
        assert(s.take(8) =~= form);
        lemma_i64_cast_roundtrip(*self);
    }
}

impl WireSize for i32 {
    type Options = IntOptions;

    open spec fn wire_form(&self, opts: IntOptions) -> Seq<u8> {
        if opts.varint {
            spec_var_int(*self as u32)
        } else {
            spec_be_bytes((*self as u32) as nat, 4)
        }
    }

    open spec fn size_fits(&self, opts: IntOptions) -> bool {
        true
    }

    fn wire_size(&self, opts: &IntOptions) -> (r: usize) {
        if opts.varint {
            var_i32_size(*self)
        } else {
            proof {
                lemma_pow256_values();
                lemma_endian_roundtrip(Endian::Big, (*self as u32) as nat, 4);
            }
            4
        }
    }
}

impl Encode for i32 {
    fn encode(&self, w: &mut ScratchVec, opts: &IntOptions) -> (r: Result<
        (),
        WriteMinecraftError<()>,
    >) {
        if opts.varint {
            w.write_var_i32(*self)
        } else {
            proof {
                lemma_pow256_values();
                lemma_endian_roundtrip(Endian::Big, (*self as u32) as nat, 4);
            }
            w.write_i32(Endian::Big, *self)
        }
    }
}

impl Decode for i32 {
    type Error = ReadMinecraftError<()>;

    open spec fn spec_decode_ok(bytes: Seq<u8>, opts: IntOptions) -> bool {
        if opts.varint {
            var_int_shape(bytes) is Complete
        } else {
            bytes.len() >= 4
        }
    }

    open spec fn spec_decode_len(bytes: Seq<u8>, opts: IntOptions) -> int {
        if opts.varint {
            var_int_consumed(bytes)
        } else {
            4
        }
    }

    open spec fn is_decode_of(&self, bytes: Seq<u8>, opts: IntOptions) -> bool {
        if opts.varint {
            *self == spec_var_int_value(bytes) as i32
        } else {
            (*self as u32) as nat == be_value(bytes.take(4))
        }
    }

    open spec fn decodable(&self, opts: IntOptions) -> bool {
        true
    }

    fn decode(r: &mut ByteReader, opts: &IntOptions) -> (res: Result<i32, ReadMinecraftError<()>>)
        ensures
            match res {
                Ok(_) => true,
                Err(e) => if opts.varint {
                    e == ReadMinecraftError::<()>::VarIntTooBig && var_int_shape(
                        old(r).remaining(),
                    ) == VarIntShape::TooBig || e == ReadMinecraftError::<()>::UnexpectedEof
                        && var_int_shape(old(r).remaining()) == VarIntShape::Incomplete
                } else {
                    e == ReadMinecraftError::<()>::UnexpectedEof && old(r).remaining().len() < 4
                },
            },
    {
        if opts.varint {
            r.read_var_i32()
        } else {
            let ghost rem = old(r).remaining();
            let res = r.read_i32(Endian::Big);
            proof {
                if res is Ok {
                    lemma_endian_value_bound(Endian::Big, rem.take(4));
                    lemma_pow256_values();
                    lemma_i32_cast_roundtrip(res->Ok_0);
                }
            }
            res
        }
    }

    proof fn lemma_decode_wire_form(&self, opts: IntOptions, rest: Seq<u8>) {
        if opts.varint {
            lemma_var_int_roundtrip(*self as u32, rest);
            lemma_i32_cast_roundtrip(*self);
        } else {
            lemma_pow256_values();
            lemma_endian_roundtrip(Endian::Big, (*self as u32) as nat, 4);
            let form = self.wire_form(opts);
            let s = form + rest;
            assert(s.take(4) =~= form);
            lemma_i32_cast_roundtrip(*self);
        }
    }
}


impl WireSize for u32 {
    type Options = ();

    open spec fn wire_form(&self, opts: ()) -> Seq<u8> {
        spec_be_bytes(*self as nat, 4)
    }

    open spec fn size_fits(&self, opts: ()) -> bool {
        true
    }

    fn wire_size(&self, opts: &()) -> (r: usize) {
        proof {
            lemma_pow256_values();
            lemma_endian_roundtrip(Endian::Big, *self as nat, 4);
        }
        4
    }
}

impl Encode for u32 {
    fn encode(&self, w: &mut ScratchVec, opts: &()) -> (r: Result<(), WriteMinecraftError<()>>) {
        proof {
            lemma_pow256_values();
            lemma_endian_roundtrip(Endian::Big, *self as nat, 4);
        }
        w.write_u32(Endian::Big, *self)
    }
}

impl Decode for u32 {
    type Error = ReadMinecraftError<()>;

    open spec fn spec_decode_ok(bytes: Seq<u8>, opts: ()) -> bool {
        bytes.len() >= 4
    }

    open spec fn spec_decode_len(bytes: Seq<u8>, opts: ()) -> int {
        4
    }

    open spec fn is_decode_of(&self, bytes: Seq<u8>, opts: ()) -> bool {
        *self as nat == be_value(bytes.take(4))
    }

    open spec fn decodable(&self, opts: ()) -> bool {
        true
    }

    fn decode(r: &mut ByteReader, opts: &()) -> (res: Result<u32, ReadMinecraftError<()>>)
        ensures
            res is Err ==> res == Err::<u32, ReadMinecraftError<()>>(
                ReadMinecraftError::UnexpectedEof,
            ),
    {
        let ghost rem = old(r).remaining();
        let res = r.read_u32(Endian::Big);
        proof {
            if res is Ok {
                lemma_endian_value_bound(Endian::Big, rem.take(4));
                lemma_pow256_values();
            }
        }
        res
    }

    proof fn lemma_decode_wire_form(&self, opts: (), rest: Seq<u8>) {
        lemma_pow256_values();
        lemma_endian_roundtrip(Endian::Big, *self as nat, 4);
        let form = self.wire_form(opts);
        let s = form + rest;
        assert(s.take(4) =~= form);
    }
}

impl WireSize for u64 {
    type Options = ();

    open spec fn wire_form(&self, opts: ()) -> Seq<u8> {
        spec_be_bytes(*self as nat, 8)
    }

    open spec fn size_fits(&self, opts: ()) -> bool {
        true
    }

    fn wire_size(&self, opts: &()) -> (r: usize) {
        proof {
            lemma_pow256_values();
            lemma_endian_roundtrip(Endian::Big, *self as nat, 8);
        }
        8
    }
}

impl Encode for u64 {
    fn encode(&self, w: &mut ScratchVec, opts: &()) -> (r: Result<(), WriteMinecraftError<()>>) {
        proof {
            lemma_pow256_values();
            lemma_endian_roundtrip(Endian::Big, *self as nat, 8);
        }
        w.write_u64(Endian::Big, *self)
    }
}

impl Decode for u64 {
    type Error = ReadMinecraftError<()>;

    open spec fn spec_decode_ok(bytes: Seq<u8>, opts: ()) -> bool {
        bytes.len() >= 8
    }

    open spec fn spec_decode_len(bytes: Seq<u8>, opts: ()) -> int {
        8
    }

    open spec fn is_decode_of(&self, bytes: Seq<u8>, opts: ()) -> bool {
        *self as nat == be_value(bytes.take(8))
    }

    open spec fn decodable(&self, opts: ()) -> bool {
        true
    }

    fn decode(r: &mut ByteReader, opts: &()) -> (res: Result<u64, ReadMinecraftError<()>>)
        ensures
            res is Err ==> res == Err::<u64, ReadMinecraftError<()>>(
                ReadMinecraftError::UnexpectedEof,
            ),
    {
        let ghost rem = old(r).remaining();
        let res = r.read_u64(Endian::Big);
        proof {
            if res is Ok {
                lemma_endian_value_bound(Endian::Big, rem.take(8));
                lemma_pow256_values();
            }
        }
        res
    }

    proof fn lemma_decode_wire_form(&self, opts: (), rest: Seq<u8>) {
        lemma_pow256_values();
        lemma_endian_roundtrip(Endian::Big, *self as nat, 8);
        let form = self.wire_form(opts);
        let s = form + rest;
        assert(s.take(8) =~= form);
    }
}

impl WireSize for i8 {
    type Options = ();

    open spec fn wire_form(&self, opts: ()) -> Seq<u8> {
        spec_be_bytes((*self as u8) as nat, 1)
    }

    open spec fn size_fits(&self, opts: ()) -> bool {
        true
    }

    fn wire_size(&self, opts: &()) -> (r: usize) {
        proof {
            lemma_pow256_values();
            lemma_endian_roundtrip(Endian::Big, (*self as u8) as nat, 1);
        }
        1
    }
}

impl Encode for i8 {
    fn encode(&self, w: &mut ScratchVec, opts: &()) -> (r: Result<(), WriteMinecraftError<()>>) {
        proof {
            lemma_pow256_values();
            lemma_endian_roundtrip(Endian::Big, (*self as u8) as nat, 1);
        }
        w.write_i8(Endian::Big, *self)
    }
}

impl Decode for i8 {
    type Error = ReadMinecraftError<()>;

    open spec fn spec_decode_ok(bytes: Seq<u8>, opts: ()) -> bool {
        bytes.len() >= 1
    }

    open spec fn spec_decode_len(bytes: Seq<u8>, opts: ()) -> int {
        1
    }

    open spec fn is_decode_of(&self, bytes: Seq<u8>, opts: ()) -> bool {
        (*self as u8) as nat == be_value(bytes.take(1))
    }

    open spec fn decodable(&self, opts: ()) -> bool {
        true
    }

    fn decode(r: &mut ByteReader, opts: &()) -> (res: Result<i8, ReadMinecraftError<()>>)
        ensures
            res is Err ==> res == Err::<i8, ReadMinecraftError<()>>(
                ReadMinecraftError::UnexpectedEof,
            ),
    {
        let ghost rem = old(r).remaining();
        let res = r.read_i8(Endian::Big);
        proof {
            if res is Ok {
                lemma_endian_value_bound(Endian::Big, rem.take(1));
                lemma_pow256_values();
            }
        }
        res
    }

    proof fn lemma_decode_wire_form(&self, opts: (), rest: Seq<u8>) {
        lemma_pow256_values();
        lemma_endian_roundtrip(Endian::Big, (*self as u8) as nat, 1);
        let form = self.wire_form(opts);
        let s = form + rest;
        assert(s.take(1) =~= form);
        lemma_i8_cast_roundtrip(*self);
    }
}

impl WireSize for i16 {
    type Options = ();

    open spec fn wire_form(&self, opts: ()) -> Seq<u8> {
        spec_be_bytes((*self as u16) as nat, 2)
    }

    open spec fn size_fits(&self, opts: ()) -> bool {
        true
    }

    fn wire_size(&self, opts: &()) -> (r: usize) {
        proof {
            lemma_pow256_values();
            lemma_endian_roundtrip(Endian::Big, (*self as u16) as nat, 2);
        }
        2
    }
}

impl Encode for i16 {
    fn encode(&self, w: &mut ScratchVec, opts: &()) -> (r: Result<(), WriteMinecraftError<()>>) {
        proof {
            lemma_pow256_values();
            lemma_endian_roundtrip(Endian::Big, (*self as u16) as nat, 2);
        }
        w.write_i16(Endian::Big, *self)
    }
}

impl Decode for i16 {
    type Error = ReadMinecraftError<()>;

    open spec fn spec_decode_ok(bytes: Seq<u8>, opts: ()) -> bool {
        bytes.len() >= 2
    }

    open spec fn spec_decode_len(bytes: Seq<u8>, opts: ()) -> int {
        2
    }

    open spec fn is_decode_of(&self, bytes: Seq<u8>, opts: ()) -> bool {
        (*self as u16) as nat == be_value(bytes.take(2))
    }

    open spec fn decodable(&self, opts: ()) -> bool {
        true
    }

    fn decode(r: &mut ByteReader, opts: &()) -> (res: Result<i16, ReadMinecraftError<()>>)
        ensures
            res is Err ==> res == Err::<i16, ReadMinecraftError<()>>(
                ReadMinecraftError::UnexpectedEof,
            ),
    {
        let ghost rem = old(r).remaining();
        let res = r.read_i16(Endian::Big);
        proof {
            if res is Ok {
                lemma_endian_value_bound(Endian::Big, rem.take(2));
                lemma_pow256_values();
            }
        }
        res
    }

    proof fn lemma_decode_wire_form(&self, opts: (), rest: Seq<u8>) {
        lemma_pow256_values();
        lemma_endian_roundtrip(Endian::Big, (*self as u16) as nat, 2);
        let form = self.wire_form(opts);
        let s = form + rest;
        assert(s.take(2) =~= form);
        lemma_i16_cast_roundtrip(*self);
    }
}

/// Casting through the unsigned type of the same width is the identity.
proof fn lemma_i8_cast_roundtrip(v: i8)
    ensures
        (v as u8) as i8 == v,
{
    assert((v as u8) as i8 == v) by (bit_vector);
}

/// Casting through the unsigned type of the same width is the identity.
proof fn lemma_i16_cast_roundtrip(v: i16)
    ensures
        (v as u16) as i16 == v,
{
    assert((v as u16) as i16 == v) by (bit_vector);
}

/// Casting through the unsigned type of the same width is the identity.
proof fn lemma_i32_cast_roundtrip(v: i32)
    ensures
        (v as u32) as i32 == v,
{
    assert((v as u32) as i32 == v) by (bit_vector);
}

/// Casting through the unsigned type of the same width is the identity.
proof fn lemma_i64_cast_roundtrip(v: i64)
    ensures
        (v as u64) as i64 == v,
{
    assert((v as u64) as i64 == v) by (bit_vector);
}

} // verus!
