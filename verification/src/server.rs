//! The protocol state machine: one handshake selects the next phase, then the
//! status phase answers status requests with a fixed, pre-built JSON document
//! and echoes pings back as pongs. Every error is local to the connection the
//! packets came from; the functions here work on in-memory streams, and the
//! surrounding process loops them over its sockets.

use vstd::prelude::*;
use vstd::string::StringSliceAdditionalSpecFns;

use crate::bytes::spec_len_prefixed;
use crate::byteio::lemma_be_bytes_of_value;
use crate::encdec::{Decode, WireSize};
use crate::error::{ReadMinecraftError, ReadPacketError, WriteMinecraftError, WritePacketError};
use crate::framing::{
    frame_body, frame_id, frame_id_size, frame_len, frame_len_ok, frame_id_ok, spec_packet,
};
use crate::handshake::{DecodeHandshakeError, Handshake, NextState};
use crate::status::{StatusPing, StatusRequest, StatusResponseSimple, STATUS_JSON_MAX};
use crate::stream::{ByteReader, ScratchVec};
use crate::text::McString;
use crate::varint::lemma_var_int_consumed_range;

verus! {

/// The single protocol version this server instance supports.
pub const SERVER_PROTOCOL_VERSION: i32 = 770;

/// The packet ID every handshake must carry.
pub const HANDSHAKE_PACKET_ID: i32 = 0;

/// The JSON document the status phase answers every status request with,
/// emitted verbatim rather than re-serialized per request.
pub open spec fn spec_status_json() -> Seq<u8> {
    "{\"version\":{\"name\":\"1.21.5\",\"protocol\":770},\"players\":{\"max\":0,\"online\":0},\"description\":\"Hello, world!\",\"enforcesSecureChat\":false}".spec_bytes()
}

/// The pre-built status response document.
pub fn status_json() -> (r: &'static str)
    ensures
        r.spec_bytes() == spec_status_json(),
{
    "{\"version\":{\"name\":\"1.21.5\",\"protocol\":770},\"players\":{\"max\":0,\"online\":0},\"description\":\"Hello, world!\",\"enforcesSecureChat\":false}"
}

/// The default status response, built from the fixed JSON document; fails
/// only when the document would not fit the response's string bound.
pub fn default_status_response() -> (r: Result<StatusResponseSimple, ReadMinecraftError<()>>)
    ensures
        match r {
            Ok(resp) => resp.0@ == spec_status_json() && resp.0.wf(),
            Err(e) => e == ReadMinecraftError::<()>::LengthExceeded && spec_status_json().len()
                > STATUS_JSON_MAX,
        },
{
    match McString::<STATUS_JSON_MAX>::from_str(status_json()) {
        Ok(m) => Ok(StatusResponseSimple(m)),
        Err(e) => Err(e),
    }
}

/// Why a read handshake was refused without even decoding its body.
#[derive(Clone, Copy, PartialEq, Eq, Debug)]
pub enum HandshakeReadError {
    /// The leading packet's ID was not the handshake ID.
    UnexpectedPacketId(i32),
    /// The envelope or the handshake body could not be read.
    Frame(ReadPacketError<(), DecodeHandshakeError<()>>),
}

/// Reads the one handshake packet a connection must open with: the envelope,
/// a check that the packet ID is the handshake ID, and the typed body. Any
/// other leading packet ID is a protocol violation that drops the connection
/// gracefully.
pub fn read_handshake(r: &mut ByteReader) -> (res: Result<Handshake, HandshakeReadError>)
    requires
        old(r).wf(),
    ensures
        final(r).wf(),
        final(r).all_bytes() == old(r).all_bytes(),
        final(r).position() >= old(r).position(),
        ({
            let rem = old(r).remaining();
            match res {
                Ok(h) => frame_len_ok(rem) && frame_id_ok(rem) && frame_len(rem) >= frame_id_size(
                    rem,
                ) && frame_id(rem) == HANDSHAKE_PACKET_ID && Handshake::spec_decode_ok(
                    frame_body(rem),
                    (),
                ) && h.is_decode_of(frame_body(rem), ()),
                Err(e) => match e {
                    HandshakeReadError::UnexpectedPacketId(id) => frame_len_ok(rem) && frame_id_ok(
                        rem,
                    ) && frame_len(rem) >= frame_id_size(rem) && id == frame_id(rem) && id
                        != HANDSHAKE_PACKET_ID,
                    HandshakeReadError::Frame(fe) => match fe {
                        ReadPacketError::Body(id, _) => frame_len_ok(rem) && frame_id_ok(rem)
                            && frame_len(rem) >= frame_id_size(rem) && id == frame_id(rem) && id
                            == HANDSHAKE_PACKET_ID && !Handshake::spec_decode_ok(
                            frame_body(rem),
                            (),
                        ),
                        _ => !(frame_len_ok(rem) && frame_id_ok(rem) && frame_len(rem)
                            >= frame_id_size(rem)),
                    },
                },
            }
        }),
{
    let (id, mut body) = match read_handshake_envelope(r) {
        Ok(p) => p,
        Err(e) => {
            return Err(HandshakeReadError::Frame(e));
        },
    };
    if id != HANDSHAKE_PACKET_ID {
        return Err(HandshakeReadError::UnexpectedPacketId(id));
    }
    proof {
        assert(body.remaining() =~= body.all_bytes());
    }
    match <Handshake as Decode>::decode(&mut body, &()) {
        Ok(h) => Ok(h),
        Err(e) => Err(HandshakeReadError::Frame(ReadPacketError::Body(id, e))),
    }
}

/// Reads a packet envelope and maps its error into the handshake error
/// space.
fn read_handshake_envelope(r: &mut ByteReader) -> (res: Result<
    (i32, ByteReader),
    ReadPacketError<(), DecodeHandshakeError<()>>,
>)
    requires
        old(r).wf(),
    ensures
        final(r).wf(),
        final(r).all_bytes() == old(r).all_bytes(),
        final(r).position() >= old(r).position(),
        ({
            let rem = old(r).remaining();
            match res {
                Ok((id, body)) => frame_len_ok(rem) && frame_id_ok(rem) && frame_len(rem)
                    >= frame_id_size(rem) && id == frame_id(rem) && body.position() == 0
                    && body.all_bytes() == frame_body(rem),
                Err(e) => !(frame_len_ok(rem) && frame_id_ok(rem) && frame_len(rem)
                    >= frame_id_size(rem)) && !(e is Body),
            }
        }),
{
    match r.read_packet_body() {
        Ok(p) => Ok(p),
        Err(e) => Err(
            match e {
                ReadPacketError::Length(le) => ReadPacketError::Length(le),
                ReadPacketError::Id(ie) => ReadPacketError::Id(ie),
                ReadPacketError::Body(_, _) => ReadPacketError::Id(
                    ReadMinecraftError::UnexpectedEof,
                ),
            },
        ),
    }
}

/// Why a decoded handshake was rejected.
#[derive(Clone, Copy, PartialEq, Eq, Structural, Debug)]
pub enum HandshakeRejection {
    /// The client speaks a protocol version this server does not.
    UnsupportedVersion(i32),
    /// The client asked for a phase this server does not implement.
    UnsupportedNextState(NextState),
}

/// Accepts a handshake exactly when it carries the supported protocol
/// version and asks for the status phase; says otherwise which check failed,
/// the version check first.
pub fn accept_handshake(h: &Handshake) -> (r: Result<(), HandshakeRejection>)
    ensures
        match r {
            Ok(()) => h.protocol_version == SERVER_PROTOCOL_VERSION && h.next_state
                == NextState::Status,
            Err(e) => match e {
                HandshakeRejection::UnsupportedVersion(v) => v == h.protocol_version && v
                    != SERVER_PROTOCOL_VERSION,
                HandshakeRejection::UnsupportedNextState(s) => h.protocol_version
                    == SERVER_PROTOCOL_VERSION && s == h.next_state && s != NextState::Status,
            },
        },
{
    if h.protocol_version != SERVER_PROTOCOL_VERSION {
        return Err(HandshakeRejection::UnsupportedVersion(h.protocol_version));
    }
    if !matches!(h.next_state, NextState::Status) {
        return Err(HandshakeRejection::UnsupportedNextState(h.next_state));
    }
    Ok(())
}

/// Whether the status phase can serve the packet at the front of `rem`: a
/// well-formed envelope whose ID is a request, or a ping with its full
/// 8-byte payload.
pub open spec fn spec_status_step_ok(rem: Seq<u8>) -> bool {
    &&& frame_len_ok(rem)
    &&& frame_id_ok(rem)
    &&& frame_len(rem) >= frame_id_size(rem)
    &&& (frame_id(rem) == 0 || (frame_id(rem) == 1 && frame_body(rem).len() >= 8))
}

/// The bytes one handled packet consumes from the input: the two VarInt
/// prefixes and the body window.
pub open spec fn spec_status_consumed(rem: Seq<u8>) -> int {
    crate::varint::var_int_consumed(rem) + crate::framing::frame_id_consumed(rem) + frame_body(
        rem,
    ).len()
}

/// The response packet one handled packet produces: the fixed document for a
/// request, the echoed payload for a ping.
pub open spec fn spec_status_output(rem: Seq<u8>, resp: Seq<u8>) -> Seq<u8> {
    if frame_id(rem) == 0 {
        spec_packet(0, spec_len_prefixed(resp))
    } else {
        spec_packet(1, frame_body(rem).take(8))
    }
}

/// Everything the status phase writes for the given input: one response per
/// servable packet, in input order, up to the first packet it cannot serve.
pub open spec fn spec_status_session(rem: Seq<u8>, resp: Seq<u8>) -> Seq<u8>
    decreases rem.len(),
{
    if spec_status_step_ok(rem) && 1 <= spec_status_consumed(rem) <= rem.len() {
        spec_status_output(rem, resp) + spec_status_session(
            rem.skip(spec_status_consumed(rem)),
            resp,
        )
    } else {
        Seq::empty()
    }
}

/// A servable packet consumes at least its two prefix bytes and no more than
/// the stream holds.
proof fn lemma_status_consumed_bounds(rem: Seq<u8>)
    requires
        frame_len_ok(rem),
        frame_id_ok(rem),
        frame_len(rem) >= frame_id_size(rem),
    ensures
        2 <= spec_status_consumed(rem) <= rem.len(),
{
    lemma_var_int_consumed_range(rem);
    lemma_var_int_consumed_range(crate::framing::frame_after_len(rem));
    let n1 = crate::varint::var_int_consumed(rem);
    let n2 = crate::framing::frame_id_consumed(rem);
    assert(crate::framing::frame_after_len(rem).len() == rem.len() - n1);
    assert(crate::framing::frame_after_id(rem).len() == rem.len() - n1 - n2);
    assert(frame_body(rem).len() <= crate::framing::frame_after_id(rem).len());
}

/// Failure while handling one packet of the status phase.
#[derive(Clone, Copy, PartialEq, Eq, Debug)]
pub enum StatusPacketError {
    /// The ping's 8-byte payload could not be read.
    Ping(ReadMinecraftError<()>),
    /// The pong could not be written.
    Pong(WritePacketError<WriteMinecraftError<()>, WriteMinecraftError<()>>),
    /// The status response could not be written.
    Response(WritePacketError<WriteMinecraftError<()>, WriteMinecraftError<()>>),
    /// The packet ID is not defined in the status phase.
    UnknownPacketId(i32),
}

/// Handles one packet of the status phase: a status request (ID 0) is
/// answered with the given response document, a ping (ID 1) is echoed back
/// as a pong with the same payload, and any other ID ends the phase. On
/// success the reader has moved past exactly one packet and the writer holds
/// exactly the response packet more.
pub fn handle_status_packet(r: &mut ByteReader, w: &mut ScratchVec, response: &StatusResponseSimple)
    -> (res: Result<(), ReadPacketError<(), StatusPacketError>>)
    requires
        old(r).wf(),
        old(w).wf(),
        response.0.wf(),
    ensures
        final(r).wf(),
        final(r).all_bytes() == old(r).all_bytes(),
        final(r).position() >= old(r).position(),
        final(w).wf(),
        final(w).capacity_spec() == old(w).capacity_spec(),
        old(w)@.is_prefix_of(final(w)@),
        ({
            let rem = old(r).remaining();
            let frame_ok = frame_len_ok(rem) && frame_id_ok(rem) && frame_len(rem)
                >= frame_id_size(rem);
            match res {
                Ok(()) => frame_ok && spec_status_step_ok(rem) && final(r).position() == old(
                    r,
                ).position() + spec_status_consumed(rem) && final(r).position() > old(
                    r,
                ).position() && old(w)@.len() + spec_status_output(rem, response.0@).len() <= old(
                    w,
                ).capacity_spec() && final(w)@ == old(w)@ + spec_status_output(rem, response.0@),
                Err(e) => match e {
                    ReadPacketError::Body(id, be) => frame_ok && id == frame_id(rem) && (match be {
                        StatusPacketError::UnknownPacketId(id2) => id2 == id && id != 0 && id != 1
                            && final(w)@ == old(w)@,
                        StatusPacketError::Ping(pe) => id == 1 && pe
                            == ReadMinecraftError::<()>::UnexpectedEof && frame_body(rem).len() < 8
                            && final(w)@ == old(w)@,
                        StatusPacketError::Pong(_) => id == 1 && frame_body(rem).len() >= 8 && old(
                            w,
                        )@.len() + spec_packet(1, frame_body(rem).take(8)).len() > old(
                            w,
                        ).capacity_spec(),
                        StatusPacketError::Response(_) => id == 0 && old(w)@.len() + spec_packet(
                            0,
                            spec_len_prefixed(response.0@),
                        ).len() > old(w).capacity_spec(),
                    }),
                    _ => !(frame_len_ok(rem) && frame_id_ok(rem) && frame_len(rem)
                        >= frame_id_size(rem)) && final(w)@ == old(w)@,
                },
            }
        }),
{
    let ghost rem = old(r).remaining();
    let (id, mut body) = match r.read_packet_body() {
        Ok(p) => p,
        Err(e) => {
            return Err(
                match e {
                    ReadPacketError::Length(le) => ReadPacketError::Length(le),
                    ReadPacketError::Id(ie) => ReadPacketError::Id(ie),
                    ReadPacketError::Body(_, _) => ReadPacketError::Id(
                        ReadMinecraftError::UnexpectedEof,
                    ),
                },
            );
        },
    };
    proof {
        lemma_var_int_consumed_range(rem);
        lemma_var_int_consumed_range(crate::framing::frame_after_len(rem));
        assert(body.remaining() =~= body.all_bytes());
    }
    if id == 0 {
        let request = match StatusRequest::decode(&mut body, &()) {
            Ok(q) => q,
            Err(_) => {
                proof {
                    assert(false);
                }
                return Err(ReadPacketError::Body(0, StatusPacketError::UnknownPacketId(0)));
            },
        };
        proof {
            crate::varint::lemma_var_int_len(0);
            crate::varint::lemma_var_int_len(response.0@.len() as u32);
        }
        match w.write_packet(0, response, &()) {
            Ok(()) => Ok(()),
            Err(e) => Err(ReadPacketError::Body(0, StatusPacketError::Response(e))),
        }
    } else if id == 1 {
        let ping = match StatusPing::decode(&mut body, &()) {
            Ok(p) => p,
            Err(e) => {
                return Err(ReadPacketError::Body(1, StatusPacketError::Ping(e)));
            },
        };
        proof {
            lemma_be_bytes_of_value(frame_body(rem).take(8));
            assert(ping.wire_form(()) =~= frame_body(rem).take(8));
        }
        match w.write_packet(1, &ping, &()) {
            Ok(()) => Ok(()),
            Err(e) => Err(ReadPacketError::Body(1, StatusPacketError::Pong(e))),
        }
    } else {
        Err(ReadPacketError::Body(id, StatusPacketError::UnknownPacketId(id)))
    }
}

/// Runs the status phase over the remaining input: one packet per iteration,
/// dispatched by ID, until a read, write or protocol error ends the loop.
/// The error is returned and stays local to this connection's streams.
pub fn handle_status_packets(
    r: &mut ByteReader,
    w: &mut ScratchVec,
    response: &StatusResponseSimple,
) -> (err: ReadPacketError<(), StatusPacketError>)
    requires
        old(r).wf(),
        old(w).wf(),
        response.0.wf(),
    ensures
        final(r).wf(),
        final(r).all_bytes() == old(r).all_bytes(),
        final(r).position() >= old(r).position(),
        final(w).wf(),
        final(w).capacity_spec() == old(w).capacity_spec(),
        old(w)@.is_prefix_of(final(w)@),
        old(w)@.len() + spec_status_session(old(r).remaining(), response.0@).len() <= old(
            w,
        ).capacity_spec() ==> final(w)@ == old(w)@ + spec_status_session(
            old(r).remaining(),
            response.0@,
        ),
{
    let ghost resp = response.0@;
    loop
        invariant
            r.wf(),
            w.wf(),
            response.0.wf(),
            resp == response.0@,
            r.all_bytes() == old(r).all_bytes(),
            r.position() >= old(r).position(),
            w.capacity_spec() == old(w).capacity_spec(),
            old(w)@.is_prefix_of(w@),
            w@ + spec_status_session(r.remaining(), resp) =~= old(w)@ + spec_status_session(
                old(r).remaining(),
                resp,
            ),
        decreases r.all_bytes().len() - r.position(),
    {
        let ghost cur = r.remaining();
        let ghost w_pre = w@;
        match handle_status_packet(r, w, response) {
            Ok(()) => {
                proof {
                    lemma_status_consumed_bounds(cur);
                    assert(r.remaining() =~= cur.skip(spec_status_consumed(cur)));
                    assert(spec_status_session(cur, resp) == spec_status_output(cur, resp)
                        + spec_status_session(r.remaining(), resp));
                    assert(w@ + spec_status_session(r.remaining(), resp) =~= w_pre
                        + spec_status_session(cur, resp));
                }
            },
            Err(e) => {
                proof {
                    if spec_status_step_ok(cur) {
                        // Only a response that does not fit can fail a
                        // servable packet; under the session-fits hypothesis
                        // that cannot happen.
                        lemma_status_consumed_bounds(cur);
                        assert(spec_status_session(cur, resp) == spec_status_output(cur, resp)
                            + spec_status_session(cur.skip(spec_status_consumed(cur)), resp));
                        if old(w)@.len() + spec_status_session(old(r).remaining(), resp).len()
                            <= old(w).capacity_spec() {
                            assert(w_pre + spec_status_session(cur, resp) == old(w)@
                                + spec_status_session(old(r).remaining(), resp));
                            assert((w_pre + spec_status_session(cur, resp)).len() == w_pre.len()
                                + spec_status_session(cur, resp).len());
                            assert((old(w)@ + spec_status_session(old(r).remaining(), resp)).len()
                                == old(w)@.len() + spec_status_session(
                                old(r).remaining(),
                                resp,
                            ).len());
                            assert(w_pre.len() + spec_status_session(cur, resp).len() == old(
                                w,
                            )@.len() + spec_status_session(old(r).remaining(), resp).len());
                            assert(spec_status_session(cur, resp).len() >= spec_status_output(
                                cur,
                                resp,
                            ).len());
                            assert(w_pre.len() + spec_status_output(cur, resp).len() <= old(
                                w,
                            ).capacity_spec());
                            assert(false);
                        }
                    } else {
                        assert(spec_status_session(cur, resp) =~= Seq::<u8>::empty());
                        assert(w@ == w_pre);
                        assert(w@ =~= old(w)@ + spec_status_session(old(r).remaining(), resp));
                    }
                }
                return e;
            },
        }
    }
}

} // verus!
