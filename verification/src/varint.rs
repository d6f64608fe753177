//! The protocol's variable-length encoding for 32-bit integers: little-endian
//! base-128 groups, one 7-bit group per byte, with bit 7 of each byte set when
//! more bytes follow. A 32-bit value always takes 1 to 5 bytes; a fifth group
//! carries only the top 4 bits, and a sequence whose first five bytes all have
//! the continuation bit set is rejected as over-long.

use vstd::prelude::*;

verus! {

/// The VarInt byte sequence for a 32-bit value: the low 7 bits become the
/// first byte (with the continuation bit set when more groups follow), and
/// the remaining bits are encoded recursively.
pub open spec fn spec_var_int(v: u32) -> Seq<u8>
    decreases v,
{
    if v < 0x80 {
        seq![v as u8]
    } else {
        seq![(v % 0x80 + 0x80) as u8] + spec_var_int(v / 0x80)
    }
}

/// The number of bytes `spec_var_int` produces, characterised by the
/// power-of-128 range the value falls in.
pub proof fn lemma_var_int_len(v: u32)
    ensures
        v < 0x80 ==> spec_var_int(v).len() == 1,
        0x80 <= v < 0x4000 ==> spec_var_int(v).len() == 2,
        0x4000 <= v < 0x20_0000 ==> spec_var_int(v).len() == 3,
        0x20_0000 <= v < 0x1000_0000 ==> spec_var_int(v).len() == 4,
        0x1000_0000 <= v ==> spec_var_int(v).len() == 5,
        1 <= spec_var_int(v).len() <= 5,
    decreases v,
{
    if v >= 0x80 {
        lemma_var_int_len(v / 0x80);
    }
}

/// Exact encoded byte length of a value under the VarInt representation,
/// computed by pure inspection, without performing any I/O.
pub fn var_i32_size(value: i32) -> (r: usize)
    ensures
        r == spec_var_int(value as u32).len(),
{
    proof {
        lemma_var_int_len(value as u32);
    }
    let v = value as u32;
    if v < 0x80 {
        1
    } else if v < 0x4000 {
        2
    } else if v < 0x20_0000 {
        3
    } else if v < 0x1000_0000 {
        4
    } else {
        5
    }
}

/// The value carried by the 7-bit payload groups of the given bytes, least
/// significant group first, ignoring every continuation bit.
pub open spec fn group_value(s: Seq<u8>) -> nat
    decreases s.len(),
{
    if s.len() == 0 {
        0
    } else {
        (s[0] % 0x80) as nat + 0x80 * group_value(s.skip(1))
    }
}

/// How a VarInt decode of the front of a byte sequence ends: consuming a
/// number of bytes, rejected as over-long, or stopped by the end of the
/// stream.
pub enum VarIntShape {
    /// A byte without the continuation bit was found; decoding consumes this
    /// many bytes.
    Complete(int),
    /// Five bytes were consumed and all had the continuation bit set.
    TooBig,
    /// The sequence ended while every byte seen so far had the continuation
    /// bit set.
    Incomplete,
}

pub open spec fn var_int_shape_rec(s: Seq<u8>, budget: int) -> VarIntShape
    decreases budget,
{
    if budget <= 0 {
        VarIntShape::TooBig
    } else if s.len() == 0 {
        VarIntShape::Incomplete
    } else if s[0] < 0x80 {
        VarIntShape::Complete(1)
    } else {
        match var_int_shape_rec(s.skip(1), budget - 1) {
            VarIntShape::Complete(n) => VarIntShape::Complete(n + 1),
            other => other,
        }
    }
}

/// How a VarInt decode of the front of `s` ends, with the protocol's limit of
/// five groups for a 32-bit value.
pub open spec fn var_int_shape(s: Seq<u8>) -> VarIntShape {
    var_int_shape_rec(s, 5)
}

/// The number of bytes a completed VarInt decode consumes from the front of
/// `s`.
pub open spec fn var_int_consumed(s: Seq<u8>) -> int {
    match var_int_shape(s) {
        VarIntShape::Complete(n) => n,
        _ => 0,
    }
}

/// The 32-bit value a completed VarInt decode yields from the front of `s`:
/// the payload groups accumulated into a 32-bit word, bits beyond the 32nd
/// discarded.
pub open spec fn spec_var_int_value(s: Seq<u8>) -> u32 {
    (group_value(s.take(var_int_consumed(s))) % 0x1_0000_0000) as u32
}

/// The payload groups of an encoded value carry exactly that value.
pub proof fn lemma_group_value_of_encoding(v: u32)
    ensures
        group_value(spec_var_int(v)) == v,
    decreases v,
{
    vstd::arithmetic::div_mod::lemma_fundamental_div_mod(v as int, 0x80);
    if v < 0x80 {
        let s = spec_var_int(v);
        assert(s.skip(1) =~= Seq::<u8>::empty());
        assert(group_value(Seq::<u8>::empty()) == 0);
        assert(s[0] == v as u8);
        assert(group_value(s) == (v as u8 % 0x80) as nat);
    } else {
        lemma_group_value_of_encoding(v / 0x80);
        let s = spec_var_int(v);
        assert(s.skip(1) =~= spec_var_int(v / 0x80));
        assert(s[0] == (v % 0x80 + 0x80) as u8);
        assert(v % 0x80 + 0x80 < 0x100);
        assert(s[0] % 0x80 == v % 0x80);
        assert(group_value(s) == (v % 0x80) as nat + 0x80 * group_value(spec_var_int(v / 0x80)));
    }
}

proof fn lemma_shape_of_encoding(v: u32, rest: Seq<u8>, budget: int)
    requires
        spec_var_int(v).len() <= budget,
    ensures
        var_int_shape_rec(spec_var_int(v) + rest, budget) == VarIntShape::Complete(
            spec_var_int(v).len() as int,
        ),
    decreases v,
{
    let s = spec_var_int(v) + rest;
    if v < 0x80 {
        assert(s[0] == v as u8);
    } else {
        assert(s[0] == (v % 0x80 + 0x80) as u8);
        assert(s[0] >= 0x80);
        assert(s.skip(1) =~= spec_var_int(v / 0x80) + rest);
        lemma_shape_of_encoding(v / 0x80, rest, budget - 1);
    }
}

/// VarInt round trip: decoding an encoded 32-bit value, whatever follows it
/// in the stream, consumes exactly the encoding and yields the value back.
pub proof fn lemma_var_int_roundtrip(v: u32, rest: Seq<u8>)
    ensures
        var_int_shape(spec_var_int(v) + rest) == VarIntShape::Complete(
            spec_var_int(v).len() as int,
        ),
        spec_var_int_value(spec_var_int(v) + rest) == v,
{
    lemma_var_int_len(v);
    lemma_shape_of_encoding(v, rest, 5);
    let s = spec_var_int(v) + rest;
    assert(s.take(var_int_consumed(s)) =~= spec_var_int(v));
    lemma_group_value_of_encoding(v);
}

/// Over-long rejection: when the first five bytes all carry the continuation
/// bit, the decode ends as `TooBig` and never yields a value.
pub proof fn lemma_var_int_too_big(s: Seq<u8>)
    requires
        s.len() >= 5,
        forall|i: int| 0 <= i < 5 ==> s[i] >= 0x80,
    ensures
        var_int_shape(s) == VarIntShape::TooBig,
{
    let s1 = s.skip(1);
    let s2 = s1.skip(1);
    let s3 = s2.skip(1);
    let s4 = s3.skip(1);
    assert(s1 =~= s.skip(1));
    assert(s2 =~= s.skip(2));
    assert(s3 =~= s.skip(3));
    assert(s4 =~= s.skip(4));
    assert(s1[0] == s[1] && s2[0] == s[2] && s3[0] == s[3] && s4[0] == s[4]);
    assert(var_int_shape_rec(s4, 1) == VarIntShape::TooBig) by {
        assert(var_int_shape_rec(s4.skip(1), 0) == VarIntShape::TooBig);
    }
    assert(var_int_shape_rec(s3, 2) == VarIntShape::TooBig);
    assert(var_int_shape_rec(s2, 3) == VarIntShape::TooBig);
    assert(var_int_shape_rec(s1, 4) == VarIntShape::TooBig);
    assert(var_int_shape_rec(s, 5) == VarIntShape::TooBig);
}

proof fn lemma_shape_rec_range(s: Seq<u8>, budget: int)
    ensures
        var_int_shape_rec(s, budget) matches VarIntShape::Complete(n) ==> 1 <= n <= budget && n
            <= s.len(),
    decreases budget,
{
    if budget > 0 && s.len() > 0 && s[0] >= 0x80 {
        lemma_shape_rec_range(s.skip(1), budget - 1);
    }
}

/// A completed VarInt decode consumes between one and five bytes, and no
/// more than the stream holds.
pub proof fn lemma_var_int_consumed_range(s: Seq<u8>)
    requires
        var_int_shape(s) is Complete,
    ensures
        1 <= var_int_consumed(s) <= 5,
        var_int_consumed(s) <= s.len(),
{
    lemma_shape_rec_range(s, 5);
}

} // verus!
