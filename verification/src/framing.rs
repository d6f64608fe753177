//! The packet framing layer: the `VarInt(length) ++ VarInt(id) ++ body`
//! envelope around every message. The length prefix is computed from the
//! wire sizes before any body byte is emitted; the body is decoded from a
//! bounded sub-reader that cannot reach past the declared length.

use vstd::prelude::*;

use crate::bytes::WriteMinecraftExt;
use crate::encdec::{Decode, Encode, WireSize};
use crate::error::{ReadMinecraftError, ReadPacketError, WriteMinecraftError, WritePacketError};
use crate::stream::{ByteReader, ScratchVec};
use crate::varint::{
    lemma_var_int_len, lemma_var_int_roundtrip, spec_var_int, spec_var_int_value, var_i32_size,
    var_int_consumed, var_int_shape, VarIntShape,
};

verus! {

/// The on-wire envelope of a packet: the total length (ID plus body) as a
/// VarInt, the packet ID as a VarInt, then the body bytes.
pub open spec fn spec_packet(id: i32, body: Seq<u8>) -> Seq<u8>
    recommends
        spec_var_int(id as u32).len() + body.len() <= 0x7fff_ffff,
{
    spec_var_int((spec_var_int(id as u32).len() + body.len()) as u32) + spec_var_int(id as u32)
        + body
}

/// An undecoded packet: its ID and its body bytes, bounded by a capacity
/// fixed at the type level.
#[derive(Clone, PartialEq, Eq, Debug)]
pub struct RawPacket<const N: usize> {
    pub id: i32,
    pub data: Vec<u8>,
}

impl<const N: usize> RawPacket<N> {
    pub open spec fn wf(&self) -> bool {
        self.data@.len() <= N
    }
}

/// Whether the front of `bytes` carries a well-formed, non-negative length
/// prefix.
pub open spec fn frame_len_ok(bytes: Seq<u8>) -> bool {
    var_int_shape(bytes) is Complete && (spec_var_int_value(bytes) as i32) >= 0
}

/// The declared total length (ID plus body) of the frame at the front of
/// `bytes`.
pub open spec fn frame_len(bytes: Seq<u8>) -> int {
    spec_var_int_value(bytes) as i32 as int
}

/// The bytes after the length prefix.
pub open spec fn frame_after_len(bytes: Seq<u8>) -> Seq<u8> {
    bytes.skip(var_int_consumed(bytes))
}

/// Whether a well-formed packet ID follows the length prefix.
pub open spec fn frame_id_ok(bytes: Seq<u8>) -> bool {
    var_int_shape(frame_after_len(bytes)) is Complete
}

/// The packet ID of the frame at the front of `bytes`.
pub open spec fn frame_id(bytes: Seq<u8>) -> i32 {
    spec_var_int_value(frame_after_len(bytes)) as i32
}

/// The bytes the ID's VarInt encoding actually occupied on the wire.
pub open spec fn frame_id_consumed(bytes: Seq<u8>) -> int {
    var_int_consumed(frame_after_len(bytes))
}

/// The size the declared length accounts the ID for: the minimal VarInt
/// size of the ID value.
pub open spec fn frame_id_size(bytes: Seq<u8>) -> int {
    spec_var_int(frame_id(bytes) as u32).len() as int
}

/// The bytes after the packet ID.
pub open spec fn frame_after_id(bytes: Seq<u8>) -> Seq<u8> {
    frame_after_len(bytes).skip(frame_id_consumed(bytes))
}

/// The body window of the frame: the declared body length, or what remains
/// of the stream when the stream is shorter than declared.
pub open spec fn frame_body(bytes: Seq<u8>) -> Seq<u8> {
    frame_after_id(bytes).take(
        vstd::math::min(frame_len(bytes) - frame_id_size(bytes), frame_after_id(bytes).len() as int),
    )
}

impl ByteReader {
    /// Reads a packet envelope: the declared length, the packet ID, and a
    /// bounded sub-reader over the body window, which a body decoder cannot
    /// read past. The parent reader advances past the whole window. The
    /// three failure stages are distinct: a bad length prefix, a negative
    /// length, and an ID that is malformed or larger than the declared
    /// length allows.
    pub fn read_packet_body(&mut self) -> (res: Result<(i32, ByteReader), ReadPacketError<(), ()>>)
        requires
            old(self).wf(),
        ensures
            final(self).wf(),
            final(self).all_bytes() == old(self).all_bytes(),
            final(self).position() >= old(self).position(),
            ({
                let rem = old(self).remaining();
                match res {
                    Ok((id, body)) => frame_len_ok(rem) && frame_id_ok(rem) && frame_len(rem)
                        >= frame_id_size(rem) && id == frame_id(rem) && body.position() == 0
                        && body.all_bytes() == frame_body(rem) && final(self).position() == old(
                        self,
                    ).position() + var_int_consumed(rem) + frame_id_consumed(rem) + frame_body(
                        rem,
                    ).len(),
                    Err(e) => match e {
                        ReadPacketError::Length(le) => (match le {
                            ReadMinecraftError::VarIntTooBig => var_int_shape(rem)
                                == VarIntShape::TooBig,
                            ReadMinecraftError::UnexpectedEof => var_int_shape(rem)
                                == VarIntShape::Incomplete,
                            ReadMinecraftError::LengthExceeded => var_int_shape(rem) is Complete
                                && (spec_var_int_value(rem) as i32) < 0,
                            _ => false,
                        }),
                        ReadPacketError::Id(ie) => frame_len_ok(rem) && (match ie {
                            ReadMinecraftError::VarIntTooBig => var_int_shape(frame_after_len(rem))
                                == VarIntShape::TooBig,
                            ReadMinecraftError::UnexpectedEof => var_int_shape(
                                frame_after_len(rem),
                            ) == VarIntShape::Incomplete,
                            ReadMinecraftError::LengthExceeded => frame_id_ok(rem) && frame_len(
                                rem,
                            ) < frame_id_size(rem),
                            _ => false,
                        }),
                        ReadPacketError::Body(_, _) => false,
                    },
                }
            }),
    {
        let ghost rem = old(self).remaining();
        let len_i32 = match self.read_var_i32() {
            Ok(v) => v,
            Err(e) => {
                return Err(ReadPacketError::Length(e));
            },
        };
        if len_i32 < 0 {
            return Err(ReadPacketError::Length(ReadMinecraftError::LengthExceeded));
        }
        proof {
            assert(self.remaining() =~= rem.skip(var_int_consumed(rem)));
        }
        let id = match self.read_var_i32() {
            Ok(v) => v,
            Err(e) => {
                return Err(ReadPacketError::Id(e));
            },
        };
        proof {
            assert(self.remaining() =~= frame_after_id(rem));
            lemma_var_int_len(id as u32);
        }
        let id_size = var_i32_size(id);
        let len = len_i32 as usize;
        if len < id_size {
            return Err(ReadPacketError::Id(ReadMinecraftError::LengthExceeded));
        }
        let body = self.take(len - id_size);
        Ok((id, body))
    }

    /// Reads a whole packet whose body decodes as `P`: the envelope, then the
    /// typed body from the bounded window. A body failure is tagged with the
    /// packet ID it happened under.
    pub fn read_packet<P: Decode>(&mut self, opts: &P::Options) -> (res: Result<
        (i32, P),
        ReadPacketError<(), P::Error>,
    >)
        requires
            old(self).wf(),
        ensures
            final(self).wf(),
            final(self).all_bytes() == old(self).all_bytes(),
            final(self).position() >= old(self).position(),
            ({
                let rem = old(self).remaining();
                match res {
                    Ok((id, v)) => frame_len_ok(rem) && frame_id_ok(rem) && frame_len(rem)
                        >= frame_id_size(rem) && id == frame_id(rem) && P::spec_decode_ok(
                        frame_body(rem),
                        *opts,
                    ) && v.is_decode_of(frame_body(rem), *opts),
                    Err(e) => match e {
                        ReadPacketError::Body(id, _) => frame_len_ok(rem) && frame_id_ok(rem)
                            && frame_len(rem) >= frame_id_size(rem) && id == frame_id(rem)
                            && !P::spec_decode_ok(frame_body(rem), *opts),
                        _ => !(frame_len_ok(rem) && frame_id_ok(rem) && frame_len(rem)
                            >= frame_id_size(rem)),
                    },
                }
            }),
    {
        let (id, mut body) = match self.read_packet_body() {
            Ok(p) => p,
            Err(e) => {
                return Err(
                    match e {
                        ReadPacketError::Length(le) => ReadPacketError::Length(le),
                        ReadPacketError::Id(ie) => ReadPacketError::Id(ie),
                        ReadPacketError::Body(_, _) => ReadPacketError::Id(
                            ReadMinecraftError::UnexpectedEof,
                        ),
                    },
                );
            },
        };
        proof {
            assert(body.remaining() =~= body.all_bytes());
        }
        match P::decode(&mut body, opts) {
            Ok(v) => Ok((id, v)),
            Err(e) => Err(ReadPacketError::Body(id, e)),
        }
    }

    /// Reads a packet whose body is kept as opaque bytes. A body longer than
    /// the `MAX` capacity is a `LengthExceeded` body error; a stream shorter
    /// than the declared length is an `UnexpectedEof` body error.
    pub fn read_raw_packet<const MAX: usize>(&mut self) -> (res: Result<
        RawPacket<MAX>,
        ReadPacketError<(), ReadMinecraftError<()>>,
    >)
        requires
            old(self).wf(),
        ensures
            final(self).wf(),
            final(self).all_bytes() == old(self).all_bytes(),
            final(self).position() >= old(self).position(),
            ({
                let rem = old(self).remaining();
                match res {
                    Ok(p) => frame_len_ok(rem) && frame_id_ok(rem) && frame_len(rem)
                        >= frame_id_size(rem) && p.id == frame_id(rem) && p.data@.len()
                        == frame_len(rem) - frame_id_size(rem) && p.data@.len() <= MAX && p.data@
                        == frame_body(rem) && p.wf(),
                    Err(e) => match e {
                        ReadPacketError::Body(id, be) => frame_len_ok(rem) && frame_id_ok(rem)
                            && frame_len(rem) >= frame_id_size(rem) && id == frame_id(rem) && (
                        match be {
                            ReadMinecraftError::LengthExceeded => frame_len(rem) - frame_id_size(
                                rem,
                            ) > MAX,
                            ReadMinecraftError::UnexpectedEof => frame_len(rem) - frame_id_size(
                                rem,
                            ) <= MAX && frame_after_id(rem).len() < frame_len(rem)
                                - frame_id_size(rem),
                            _ => false,
                        }),
                        _ => !(frame_len_ok(rem) && frame_id_ok(rem) && frame_len(rem)
                            >= frame_id_size(rem)),
                    },
                }
            }),
    {
        let ghost rem = old(self).remaining();
        let len_i32 = match self.read_var_i32() {
            Ok(v) => v,
            Err(e) => {
                return Err(ReadPacketError::Length(e));
            },
        };
        if len_i32 < 0 {
            return Err(ReadPacketError::Length(ReadMinecraftError::LengthExceeded));
        }
        proof {
            assert(self.remaining() =~= rem.skip(var_int_consumed(rem)));
        }
        let id = match self.read_var_i32() {
            Ok(v) => v,
            Err(e) => {
                return Err(ReadPacketError::Id(e));
            },
        };
        proof {
            assert(self.remaining() =~= frame_after_id(rem));
            lemma_var_int_len(id as u32);
        }
        let id_size = var_i32_size(id);
        let len = len_i32 as usize;
        if len < id_size {
            return Err(ReadPacketError::Id(ReadMinecraftError::LengthExceeded));
        }
        let body_size = len - id_size;
        if body_size > MAX {
            return Err(ReadPacketError::Body(id, ReadMinecraftError::LengthExceeded));
        }
        let data = match self.read_exact(body_size) {
            Ok(v) => v,
            Err(_) => {
                return Err(ReadPacketError::Body(id, ReadMinecraftError::UnexpectedEof));
            },
        };
        proof {
            assert(data@ =~= frame_body(rem));
        }
        Ok(RawPacket { id, data })
    }
}

impl ScratchVec {
    /// Writes a packet envelope around a typed body: the total length (the
    /// ID's VarInt size plus the body's wire size) as a VarInt, the ID, then
    /// the encoded body. The failure stages are distinct and say exactly how
    /// far the write came. A body encoder that could disagree with its own
    /// declared wire size would corrupt the announced length; here the
    /// `Encode` contract rules that out, so no runtime sub-writer guard is
    /// needed.
    pub fn write_packet<P: Encode>(&mut self, id: i32, packet: &P, opts: &P::Options) -> (r:
        Result<(), WritePacketError<WriteMinecraftError<()>, WriteMinecraftError<()>>>)
        requires
            old(self).wf(),
            packet.size_fits(*opts),
            spec_var_int(id as u32).len() + packet.wire_form(*opts).len() <= 0x7fff_ffff,
        ensures
            final(self).wf(),
            final(self).capacity_spec() == old(self).capacity_spec(),
            ({
                let body = packet.wire_form(*opts);
                let len_form = spec_var_int((spec_var_int(id as u32).len() + body.len()) as u32);
                let id_form = spec_var_int(id as u32);
                match r {
                    Ok(()) => old(self)@.len() + spec_packet(id, body).len() <= old(
                        self,
                    ).capacity_spec() && final(self)@ == old(self)@ + spec_packet(id, body),
                    Err(e) => match e {
                        WritePacketError::Length(le) => le
                            == WriteMinecraftError::<()>::OutOfMemory && old(self)@.len()
                            + len_form.len() > old(self).capacity_spec() && final(self)@ == old(
                            self,
                        )@,
                        WritePacketError::Id(ie) => ie == WriteMinecraftError::<()>::OutOfMemory
                            && old(self)@.len() + len_form.len() <= old(self).capacity_spec()
                            && old(self)@.len() + len_form.len() + id_form.len() > old(
                            self,
                        ).capacity_spec() && final(self)@ == old(self)@ + len_form,
                        WritePacketError::Body(bid, be) => bid == id && be
                            == WriteMinecraftError::<()>::OutOfMemory && old(self)@.len()
                            + len_form.len() + id_form.len() <= old(self).capacity_spec() && old(
                            self,
                        )@.len() + spec_packet(id, body).len() > old(self).capacity_spec()
                            && final(self)@ == old(self)@ + len_form + id_form,
                    },
                }
            }),
    {
        proof {
            lemma_var_int_len(id as u32);
        }
        let id_size = var_i32_size(id);
        let body_size = packet.wire_size(opts);
        let len = id_size + body_size;
        let len_i32 = len as i32;
        match self.write_var_i32(len_i32) {
            Ok(()) => (),
            Err(e) => {
                return Err(WritePacketError::Length(e));
            },
        }
        match self.write_var_i32(id) {
            Ok(()) => (),
            Err(e) => {
                return Err(WritePacketError::Id(e));
            },
        }
        match packet.encode(self, opts) {
            Ok(()) => (),
            Err(e) => {
                return Err(WritePacketError::Body(id, e));
            },
        }
        proof {
            assert(self@ =~= old(self)@ + spec_packet(id, packet.wire_form(*opts)));
        }
        Ok(())
    }

    /// Writes a packet envelope around opaque body bytes.
    pub fn write_raw_packet<const N: usize>(&mut self, packet: &RawPacket<N>) -> (r: Result<
        (),
        WriteMinecraftError<()>,
    >)
        requires
            old(self).wf(),
            spec_var_int(packet.id as u32).len() + packet.data@.len() <= 0x7fff_ffff,
        ensures
            final(self).wf(),
            final(self).capacity_spec() == old(self).capacity_spec(),
            r is Ok <==> old(self)@.len() + spec_packet(packet.id, packet.data@).len() <= old(
                self,
            ).capacity_spec(),
            r is Ok ==> final(self)@ == old(self)@ + spec_packet(packet.id, packet.data@),
            r is Err ==> r == Err::<(), WriteMinecraftError<()>>(WriteMinecraftError::OutOfMemory)
                && old(self)@.is_prefix_of(final(self)@) && final(self)@.is_prefix_of(
                old(self)@ + spec_packet(packet.id, packet.data@),
            ),
    {
        proof {
            lemma_var_int_len(packet.id as u32);
        }
        let id_size = var_i32_size(packet.id);
        let len = id_size + packet.data.len();
        let len_i32 = len as i32;
        proof {
            lemma_var_int_len(len_i32 as u32);
        }
        let prefix_size = var_i32_size(len_i32);
        if len > self.capacity() - self.len() || prefix_size > self.capacity() - self.len() - len {
            proof {
                assert(old(self)@.is_prefix_of(self@));
                assert(self@.is_prefix_of(old(self)@ + spec_packet(packet.id, packet.data@)));
            }
            return Err(WriteMinecraftError::OutOfMemory);
        }
        match self.write_var_i32(len_i32) {
            Ok(()) => (),
            Err(_) => {
                proof {
                    assert(false);
                }
                return Err(WriteMinecraftError::OutOfMemory);
            },
        }
        match self.write_var_i32(packet.id) {
            Ok(()) => (),
            Err(_) => {
                proof {
                    assert(false);
                }
                return Err(WriteMinecraftError::OutOfMemory);
            },
        }
        match self.write_all(packet.data.as_slice()) {
            Ok(()) => (),
            Err(_) => {
                proof {
                    assert(false);
                }
                return Err(WriteMinecraftError::OutOfMemory);
            },
        }
        proof {
            assert(self@ =~= old(self)@ + spec_packet(packet.id, packet.data@));
        }
        Ok(())
    }
}

/// Framing integrity: parsing the envelope of an encoded packet, whatever
/// follows it in the stream, yields the original ID back, and the body
/// window holds exactly the original body bytes.
pub proof fn lemma_packet_roundtrip(id: i32, body: Seq<u8>, rest: Seq<u8>)
    requires
        spec_var_int(id as u32).len() + body.len() <= 0x7fff_ffff,
    ensures
        ({
            let s = spec_packet(id, body) + rest;
            frame_len_ok(s) && frame_id_ok(s) && frame_id(s) == id && frame_len(s) == spec_var_int(
                id as u32,
            ).len() + body.len() && frame_id_size(s) == spec_var_int(id as u32).len()
                && frame_id_consumed(s) == spec_var_int(id as u32).len() && frame_body(s) == body
        }),
{
    let id_form = spec_var_int(id as u32);
    let total = (id_form.len() + body.len()) as u32;
    let len_form = spec_var_int(total);
    let s = spec_packet(id, body) + rest;
    lemma_var_int_len(id as u32);
    lemma_var_int_len(total);
    assert(s =~= len_form + (id_form + (body + rest)));
    lemma_var_int_roundtrip(total, id_form + (body + rest));
    assert(frame_after_len(s) =~= id_form + (body + rest));
    lemma_var_int_roundtrip(id as u32, body + rest);
    assert(frame_id(s) == (id as u32) as i32);
    assert((id as u32) as i32 == id) by (bit_vector);
    assert(frame_len(s) == total as i32 as int);
    assert(frame_after_id(s) =~= body + rest);
    assert(frame_body(s) =~= body);
}

/// Whether a buffer's front holds one whole packet frame: complete with its
/// total size, in need of more bytes, or malformed beyond repair. A reader
/// loop buffers socket bytes until a frame is complete and only then hands it
/// to the packet functions.
#[derive(Clone, Copy, PartialEq, Eq, Structural, Debug)]
pub enum FrameStatus {
    /// The buffer holds a whole frame of this many bytes.
    Complete(usize),
    /// The buffer ends before the frame does.
    NeedMore,
    /// The length prefix is over-long or negative: the connection is beyond
    /// recovery.
    Malformed,
}

/// Classifies the front of a buffer against the packet envelope: the length
/// prefix is decoded and the declared number of bytes must follow it.
pub fn frame_status(buf: &[u8]) -> (r: FrameStatus)
    ensures
        match r {
            FrameStatus::Complete(k) => frame_len_ok(buf@) && k == var_int_consumed(buf@)
                + frame_len(buf@) && k <= buf@.len(),
            FrameStatus::NeedMore => var_int_shape(buf@) is Incomplete || (frame_len_ok(buf@)
                && var_int_consumed(buf@) + frame_len(buf@) > buf@.len()),
            FrameStatus::Malformed => var_int_shape(buf@) is TooBig || (var_int_shape(
                buf@,
            ) is Complete && (spec_var_int_value(buf@) as i32) < 0),
        },
{
    let owned = vstd::slice::slice_to_vec(buf);
    let total = buf.len();
    let mut r = ByteReader::new(owned);
    proof {
        assert(r.remaining() =~= buf@);
    }
    let len_i32 = match r.read_var_i32() {
        Ok(v) => v,
        Err(ReadMinecraftError::UnexpectedEof) => {
            return FrameStatus::NeedMore;
        },
        Err(_) => {
            return FrameStatus::Malformed;
        },
    };
    if len_i32 < 0 {
        return FrameStatus::Malformed;
    }
    let consumed = total - r.remaining_len();
    let len = len_i32 as usize;
    if len > total - consumed {
        return FrameStatus::NeedMore;
    }
    FrameStatus::Complete(consumed + len)
}

/// Framing and codec integrity together: a packet written around any
/// decodable value, whatever follows it in the stream, parses back to the
/// same ID, and its body window decodes back to the same value.
pub proof fn lemma_typed_packet_roundtrip<P: Decode>(id: i32, p: P, opts: P::Options, rest: Seq<u8>)
    requires
        p.decodable(opts),
        spec_var_int(id as u32).len() + p.wire_form(opts).len() <= 0x7fff_ffff,
    ensures
        ({
            let s = spec_packet(id, p.wire_form(opts)) + rest;
            frame_len_ok(s) && frame_id_ok(s) && frame_id(s) == id && frame_len(s)
                >= frame_id_size(s) && P::spec_decode_ok(frame_body(s), opts) && p.is_decode_of(
                frame_body(s),
                opts,
            ) && P::spec_decode_len(frame_body(s), opts) == p.wire_form(opts).len()
        }),
{
    let body = p.wire_form(opts);
    let s = spec_packet(id, body) + rest;
    lemma_packet_roundtrip(id, body, rest);
    p.lemma_decode_wire_form(opts, Seq::empty());
    assert(body + Seq::<u8>::empty() =~= body);
}

} // verus!
