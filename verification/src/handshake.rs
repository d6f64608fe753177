//! The handshake packet: the first message of every connection, carrying the
//! protocol version, the server address and port, and the state the client
//! asks to move to next.

use vstd::prelude::*;

use crate::bytes::{spec_len_prefixed, WriteMinecraftExt};
use crate::byteio::{spec_be_bytes, Endian};
use crate::encdec::{Decode, Encode, WireSize};
use crate::error::{ReadMinecraftError, WriteMinecraftError};
use crate::options::IntOptions;
use crate::stream::{ByteReader, ScratchVec};
use crate::text::McString;
use crate::varint::{lemma_var_int_len, spec_var_int, var_i32_size};

verus! {

/// The protocol state a handshake asks to move to next. Any wire value other
/// than the three known discriminants is a decode failure, never a silent
/// default.
#[derive(Clone, Copy, PartialEq, Eq, Structural, Debug)]
pub enum NextState {
    Status,
    Login,
    Transfer,
}

/// A next-state discriminant outside the three known values.
#[derive(Clone, Copy, PartialEq, Eq, Structural, Debug)]
pub struct InvalidNextStateError(pub i32);

impl NextState {
    /// The wire discriminant of this state.
    pub open spec fn spec_id(self) -> i32 {
        match self {
            NextState::Status => 1,
            NextState::Login => 2,
            NextState::Transfer => 3,
        }
    }

    pub fn id(&self) -> (r: i32)
        ensures
            r == self.spec_id(),
    {
        match self {
            NextState::Status => 1,
            NextState::Login => 2,
            NextState::Transfer => 3,
        }
    }

    /// The state a wire discriminant stands for: 1 is Status, 2 is Login,
    /// 3 is Transfer, and anything else is rejected.
    pub fn try_from(value: i32) -> (r: Result<NextState, InvalidNextStateError>)
        ensures
            match r {
                Ok(s) => s.spec_id() == value,
                Err(e) => e == InvalidNextStateError(value) && value != 1 && value != 2 && value
                    != 3,
            },
    {
        match value {
            1 => Ok(NextState::Status),
            2 => Ok(NextState::Login),
            3 => Ok(NextState::Transfer),
            _ => Err(InvalidNextStateError(value)),
        }
    }
}

impl WireSize for NextState {
    type Options = ();

    open spec fn wire_form(&self, opts: ()) -> Seq<u8> {
        spec_var_int(self.spec_id() as u32)
    }

    open spec fn size_fits(&self, opts: ()) -> bool {
        true
    }

    fn wire_size(&self, opts: &()) -> (r: usize) {
        proof {
            lemma_var_int_len(self.spec_id() as u32);
        }
        var_i32_size(self.id())
    }
}

impl Encode for NextState {
    fn encode(&self, w: &mut ScratchVec, opts: &()) -> (r: Result<(), WriteMinecraftError<()>>) {
        w.write_var_i32(self.id())
    }
}

/// Failure while decoding a handshake: a next-state discriminant outside the
/// known values, or a failure of the underlying reads.
#[derive(Clone, Copy, PartialEq, Eq, Structural, Debug)]
pub enum DecodeHandshakeError<E> {
    InvalidNextState(InvalidNextStateError),
    Io(ReadMinecraftError<E>),
}

impl<E> From<InvalidNextStateError> for DecodeHandshakeError<E> {
    fn from(value: InvalidNextStateError) -> (r: Self) {
        DecodeHandshakeError::InvalidNextState(value)
    }
}

impl<E> vstd::std_specs::convert::FromSpecImpl<InvalidNextStateError> for DecodeHandshakeError<E> {
    open spec fn obeys_from_spec() -> bool {
        true
    }

    open spec fn from_spec(value: InvalidNextStateError) -> Self {
        DecodeHandshakeError::InvalidNextState(value)
    }
}

/// The first packet of a connection: protocol version (VarInt), server
/// address (length-prefixed UTF-8 string of at most 255 bytes), server port
/// (fixed-width big-endian), and the requested next state (VarInt).
#[derive(Clone, PartialEq, Eq, Debug)]
pub struct Handshake {
    pub protocol_version: i32,
    pub server_address: McString<255>,
    pub server_port: u16,
    pub next_state: NextState,
}

impl WireSize for Handshake {
    type Options = ();

    open spec fn wire_form(&self, opts: ()) -> Seq<u8> {
        spec_var_int(self.protocol_version as u32) + spec_len_prefixed(self.server_address@)
            + spec_be_bytes(self.server_port as nat, 2) + spec_var_int(
            self.next_state.spec_id() as u32,
        )
    }

    open spec fn size_fits(&self, opts: ()) -> bool {
        self.server_address@.len() <= 0x7fff_ffff
    }

    fn wire_size(&self, opts: &()) -> (r: usize) {
        proof {
            lemma_var_int_len(self.protocol_version as u32);
            lemma_var_int_len(self.server_address@.len() as u32);
            lemma_var_int_len(self.next_state.spec_id() as u32);
            crate::byteio::lemma_pow256_values();
            crate::byteio::lemma_endian_roundtrip(Endian::Big, self.server_port as nat, 2);
        }
        let pv = var_i32_size(self.protocol_version);
        let addr = self.server_address.wire_size(&());
        let ns = self.next_state.wire_size(&());
        pv + addr + 2 + ns
    }
}

impl Encode for Handshake {
    fn encode(&self, w: &mut ScratchVec, opts: &()) -> (r: Result<(), WriteMinecraftError<()>>) {
        let total = self.wire_size(&());
        if total > w.capacity() - w.len() {
            return Err(WriteMinecraftError::OutOfMemory);
        }
        let pv_opts = IntOptions { varint: true };
        match self.protocol_version.encode(w, &pv_opts) {
            Ok(()) => (),
            Err(_) => {
                proof {
                    assert(false);
                }
                return Err(WriteMinecraftError::OutOfMemory);
            },
        }
        match self.server_address.encode(w, &()) {
            Ok(()) => (),
            Err(_) => {
                proof {
                    assert(false);
                }
                return Err(WriteMinecraftError::OutOfMemory);
            },
        }
        match self.server_port.encode(w, &()) {
            Ok(()) => (),
            Err(_) => {
                proof {
                    assert(false);
                }
                return Err(WriteMinecraftError::OutOfMemory);
            },
        }
        match self.next_state.encode(w, &()) {
            Ok(()) => (),
            Err(_) => {
                proof {
                    assert(false);
                }
                return Err(WriteMinecraftError::OutOfMemory);
            },
        }
        proof {
            assert(w@ =~= old(w)@ + self.wire_form(()));
        }
        Ok(())
    }
}

/// Whether the four handshake fields decode from the front of `bytes`,
/// whatever value the next-state field carries.
pub open spec fn handshake_fields_ok(bytes: Seq<u8>) -> bool {
    let pv_opts = IntOptions { varint: true };
    let after_pv = bytes.skip(<i32 as Decode>::spec_decode_len(bytes, pv_opts));
    let after_addr = after_pv.skip(<McString<255> as Decode>::spec_decode_len(after_pv, ()));
    let after_port = after_addr.skip(2);
    &&& <i32 as Decode>::spec_decode_ok(bytes, pv_opts)
    &&& <McString<255> as Decode>::spec_decode_ok(after_pv, ())
    &&& <u16 as Decode>::spec_decode_ok(after_addr, ())
    &&& <i32 as Decode>::spec_decode_ok(after_port, pv_opts)
}

/// The wire value of the handshake's next-state field.
pub open spec fn handshake_next_state_value(bytes: Seq<u8>) -> i32 {
    let pv_opts = IntOptions { varint: true };
    let after_pv = bytes.skip(<i32 as Decode>::spec_decode_len(bytes, pv_opts));
    let after_addr = after_pv.skip(<McString<255> as Decode>::spec_decode_len(after_pv, ()));
    let after_port = after_addr.skip(2);
    crate::varint::spec_var_int_value(after_port) as i32
}

impl Decode for Handshake {
    type Error = DecodeHandshakeError<()>;

    open spec fn spec_decode_ok(bytes: Seq<u8>, opts: ()) -> bool {
        let ns = handshake_next_state_value(bytes);
        handshake_fields_ok(bytes) && (ns == 1 || ns == 2 || ns == 3)
    }

    open spec fn spec_decode_len(bytes: Seq<u8>, opts: ()) -> int {
        let pv_opts = IntOptions { varint: true };
        let n1 = <i32 as Decode>::spec_decode_len(bytes, pv_opts);
        let after_pv = bytes.skip(n1);
        let n2 = <McString<255> as Decode>::spec_decode_len(after_pv, ());
        let after_addr = after_pv.skip(n2);
        let after_port = after_addr.skip(2);
        let n4 = <i32 as Decode>::spec_decode_len(after_port, pv_opts);
        n1 + n2 + 2 + n4
    }

    open spec fn is_decode_of(&self, bytes: Seq<u8>, opts: ()) -> bool {
        let pv_opts = IntOptions { varint: true };
        let n1 = <i32 as Decode>::spec_decode_len(bytes, pv_opts);
        let after_pv = bytes.skip(n1);
        let n2 = <McString<255> as Decode>::spec_decode_len(after_pv, ());
        let after_addr = after_pv.skip(n2);
        let after_port = after_addr.skip(2);
        &&& self.protocol_version.is_decode_of(bytes, pv_opts)
        &&& self.server_address.is_decode_of(after_pv, ())
        &&& self.server_port.is_decode_of(after_addr, ())
        &&& self.next_state.spec_id() == crate::varint::spec_var_int_value(after_port) as i32
    }

    open spec fn decodable(&self, opts: ()) -> bool {
        self.server_address.wf() && self.server_address@.len() <= 0x7fff_ffff
    }

    fn decode(r: &mut ByteReader, opts: &()) -> (res: Result<Handshake, DecodeHandshakeError<()>>)
        ensures
            res matches Err(DecodeHandshakeError::InvalidNextState(ie)) ==> ({
                let ns = handshake_next_state_value(old(r).remaining());
                handshake_fields_ok(old(r).remaining()) && ie == InvalidNextStateError(ns) && ns
                    != 1 && ns != 2 && ns != 3
            }),
            res matches Err(DecodeHandshakeError::Io(_)) ==> !handshake_fields_ok(
                old(r).remaining(),
            ),
    {
        let ghost rem = old(r).remaining();
        let pv_opts = IntOptions { varint: true };
        let protocol_version = match <i32 as Decode>::decode(r, &pv_opts) {
            Ok(v) => v,
            Err(e) => {
                return Err(DecodeHandshakeError::Io(e));
            },
        };
        proof {
            assert(r.remaining() =~= rem.skip(<i32 as Decode>::spec_decode_len(rem, pv_opts)));
        }
        let ghost after_pv = r.remaining();
        let server_address = match <McString<255> as Decode>::decode(r, &()) {
            Ok(v) => v,
            Err(e) => {
                return Err(DecodeHandshakeError::Io(e));
            },
        };
        proof {
            assert(r.remaining() =~= after_pv.skip(
                <McString<255> as Decode>::spec_decode_len(after_pv, ()),
            ));
        }
        let ghost after_addr = r.remaining();
        let server_port = match <u16 as Decode>::decode(r, &()) {
            Ok(v) => v,
            Err(e) => {
                return Err(DecodeHandshakeError::Io(e));
            },
        };
        proof {
            assert(r.remaining() =~= after_addr.skip(2));
        }
        let ns_value = match <i32 as Decode>::decode(r, &pv_opts) {
            Ok(v) => v,
            Err(e) => {
                return Err(DecodeHandshakeError::Io(e));
            },
        };
        let next_state = match NextState::try_from(ns_value) {
            Ok(v) => v,
            Err(e) => {
                return Err(DecodeHandshakeError::InvalidNextState(e));
            },
        };
        Ok(Handshake { protocol_version, server_address, server_port, next_state })
    }

    proof fn lemma_decode_wire_form(&self, opts: (), rest: Seq<u8>) {
        let pv_opts = IntOptions { varint: true };
        let f1 = spec_var_int(self.protocol_version as u32);
        let f2 = spec_len_prefixed(self.server_address@);
        let f3 = spec_be_bytes(self.server_port as nat, 2);
        let f4 = spec_var_int(self.next_state.spec_id() as u32);
        let form = self.wire_form(opts);
        let s = form + rest;
        assert(s =~= f1 + (f2 + (f3 + (f4 + rest))));
        self.protocol_version.lemma_decode_wire_form(pv_opts, f2 + (f3 + (f4 + rest)));
        assert(s.skip(f1.len() as int) =~= f2 + (f3 + (f4 + rest)));
        let after_pv = s.skip(f1.len() as int);
        self.server_address.lemma_decode_wire_form((), f3 + (f4 + rest));
        assert(after_pv.skip(f2.len() as int) =~= f3 + (f4 + rest));
        let after_addr = after_pv.skip(f2.len() as int);
        self.server_port.lemma_decode_wire_form((), f4 + rest);
        crate::byteio::lemma_pow256_values();
        crate::byteio::lemma_endian_roundtrip(Endian::Big, self.server_port as nat, 2);
        assert(after_addr.skip(2) =~= f4 + rest);
        let after_port = after_addr.skip(2);
        crate::varint::lemma_var_int_roundtrip(self.next_state.spec_id() as u32, rest);
        assert(crate::varint::spec_var_int_value(after_port) == self.next_state.spec_id() as u32);
        assert((self.next_state.spec_id() as u32) as i32 == self.next_state.spec_id());
        crate::varint::lemma_var_int_len(self.next_state.spec_id() as u32);
    }
}

} // verus!
