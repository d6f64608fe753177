//! The status-query sub-protocol's packets: an empty request, a response
//! carrying a pre-serialized JSON document emitted verbatim, and a ping/pong
//! pair echoing an 8-byte signed integer.

use vstd::prelude::*;

use crate::bytes::spec_len_prefixed;
use crate::byteio::spec_be_bytes;
use crate::encdec::{Decode, Encode, WireSize};
use crate::error::{ReadMinecraftError, WriteMinecraftError};
use crate::stream::{ByteReader, ScratchVec};
use crate::text::McString;

verus! {

/// The maximum byte length of a status response's JSON document.
pub const STATUS_JSON_MAX: usize = 32767;

/// A status request carries no payload at all.
#[derive(Clone, Copy, PartialEq, Eq, Structural, Debug)]
pub struct StatusRequest;

impl WireSize for StatusRequest {
    type Options = ();

    open spec fn wire_form(&self, opts: ()) -> Seq<u8> {
        Seq::empty()
    }

    open spec fn size_fits(&self, opts: ()) -> bool {
        true
    }

    fn wire_size(&self, opts: &()) -> (r: usize) {
        0
    }
}

impl Encode for StatusRequest {
    fn encode(&self, w: &mut ScratchVec, opts: &()) -> (r: Result<(), WriteMinecraftError<()>>) {
        proof {
            assert(w@ =~= old(w)@ + self.wire_form(()));
        }
        Ok(())
    }
}

impl Decode for StatusRequest {
    type Error = ReadMinecraftError<()>;

    open spec fn spec_decode_ok(bytes: Seq<u8>, opts: ()) -> bool {
        true
    }

    open spec fn spec_decode_len(bytes: Seq<u8>, opts: ()) -> int {
        0
    }

    open spec fn is_decode_of(&self, bytes: Seq<u8>, opts: ()) -> bool {
        true
    }

    open spec fn decodable(&self, opts: ()) -> bool {
        true
    }

    fn decode(r: &mut ByteReader, opts: &()) -> (res: Result<StatusRequest, ReadMinecraftError<()>>)
        ensures
            res is Ok,
    {
        Ok(StatusRequest)
    }

    proof fn lemma_decode_wire_form(&self, opts: (), rest: Seq<u8>) {
    }
}

/// A status ping (client to server) or pong (server to client): a fixed
/// 8-byte big-endian signed integer, echoed back unchanged.
#[derive(Clone, Copy, PartialEq, Eq, Structural, Debug)]
pub struct StatusPing(pub i64);

impl WireSize for StatusPing {
    type Options = ();

    open spec fn wire_form(&self, opts: ()) -> Seq<u8> {
        spec_be_bytes((self.0 as u64) as nat, 8)
    }

    open spec fn size_fits(&self, opts: ()) -> bool {
        true
    }

    fn wire_size(&self, opts: &()) -> (r: usize) {
        self.0.wire_size(&())
    }
}

impl Encode for StatusPing {
    fn encode(&self, w: &mut ScratchVec, opts: &()) -> (r: Result<(), WriteMinecraftError<()>>) {
        self.0.encode(w, &())
    }
}

impl Decode for StatusPing {
    type Error = ReadMinecraftError<()>;

    open spec fn spec_decode_ok(bytes: Seq<u8>, opts: ()) -> bool {
        <i64 as Decode>::spec_decode_ok(bytes, ())
    }

    open spec fn spec_decode_len(bytes: Seq<u8>, opts: ()) -> int {
        <i64 as Decode>::spec_decode_len(bytes, ())
    }

    open spec fn is_decode_of(&self, bytes: Seq<u8>, opts: ()) -> bool {
        self.0.is_decode_of(bytes, ())
    }

    open spec fn decodable(&self, opts: ()) -> bool {
        true
    }

    fn decode(r: &mut ByteReader, opts: &()) -> (res: Result<StatusPing, ReadMinecraftError<()>>)
        ensures
            res is Err ==> res == Err::<StatusPing, ReadMinecraftError<()>>(
                ReadMinecraftError::UnexpectedEof,
            ),
    {
        match <i64 as Decode>::decode(r, &()) {
            Ok(v) => Ok(StatusPing(v)),
            Err(e) => Err(e),
        }
    }

    proof fn lemma_decode_wire_form(&self, opts: (), rest: Seq<u8>) {
        self.0.lemma_decode_wire_form((), rest);
    }
}

/// A status response in its minimal, verbatim form: a pre-serialized JSON
/// document sent as a single length-prefixed string.
#[derive(Clone, PartialEq, Eq, Debug)]
pub struct StatusResponseSimple(pub McString<STATUS_JSON_MAX>);

impl WireSize for StatusResponseSimple {
    type Options = ();

    open spec fn wire_form(&self, opts: ()) -> Seq<u8> {
        spec_len_prefixed(self.0@)
    }

    open spec fn size_fits(&self, opts: ()) -> bool {
        self.0@.len() <= 0x7fff_ffff
    }

    fn wire_size(&self, opts: &()) -> (r: usize) {
        self.0.wire_size(&())
    }
}

impl Encode for StatusResponseSimple {
    fn encode(&self, w: &mut ScratchVec, opts: &()) -> (r: Result<(), WriteMinecraftError<()>>) {
        self.0.encode(w, &())
    }
}

impl Decode for StatusResponseSimple {
    type Error = ReadMinecraftError<()>;

    open spec fn spec_decode_ok(bytes: Seq<u8>, opts: ()) -> bool {
        <McString<STATUS_JSON_MAX> as Decode>::spec_decode_ok(bytes, ())
    }

    open spec fn spec_decode_len(bytes: Seq<u8>, opts: ()) -> int {
        <McString<STATUS_JSON_MAX> as Decode>::spec_decode_len(bytes, ())
    }

    open spec fn is_decode_of(&self, bytes: Seq<u8>, opts: ()) -> bool {
        self.0.is_decode_of(bytes, ())
    }

    open spec fn decodable(&self, opts: ()) -> bool {
        self.0.wf() && self.0@.len() <= 0x7fff_ffff
    }

    fn decode(r: &mut ByteReader, opts: &()) -> (res: Result<
        StatusResponseSimple,
        ReadMinecraftError<()>,
    >) {
        match <McString<STATUS_JSON_MAX> as Decode>::decode(r, &()) {
            Ok(v) => Ok(StatusResponseSimple(v)),
            Err(e) => Err(e),
        }
    }

    proof fn lemma_decode_wire_form(&self, opts: (), rest: Seq<u8>) {
        self.0.lemma_decode_wire_form((), rest);
    }
}

/// The protocol version this server speaks.
#[derive(Clone, Copy, PartialEq, Eq, Structural, Debug)]
pub enum Version {
    V1_21_5,
}

impl Version {
    /// The human-readable name of the version.
    pub fn name(&self) -> (r: &'static str)
        ensures
            r@ == "1.21.5"@,
    {
        proof {
            reveal_strlit("1.21.5");
        }
        match self {
            Version::V1_21_5 => "1.21.5",
        }
    }

    /// The protocol number of the version.
    pub fn protocol(&self) -> (r: i32)
        ensures
            r == 770,
    {
        match self {
            Version::V1_21_5 => 770,
        }
    }
}

/// The player counts a status response reports.
#[derive(Clone, Copy, PartialEq, Eq, Structural, Debug)]
pub struct StatusResponsePlayers {
    pub max: i32,
    pub online: i32,
}

/// The fields of a status response's JSON document, as structured data. The
/// minimal server emits a pre-built document verbatim instead of serializing
/// this value per request; the structured form documents what that document
/// holds.
#[derive(Clone, PartialEq, Eq, Debug)]
pub struct StatusResponse {
    pub version: Version,
    pub players: StatusResponsePlayers,
    pub description: McString<STATUS_JSON_MAX>,
    pub enforces_secure_chat: bool,
}

} // verus!
