//! Bounded UTF-8 strings on the wire: a byte-capped string type whose
//! validity is checked against vstd's UTF-8 specification, and the
//! length-prefixed string read on the byte reader.

use vstd::prelude::*;
use vstd::utf8::{
    decode_first_codepoint, length_of_first_scalar, not_overlong_encoding, partial_valid_utf8,
    partial_valid_utf8_extend, partial_valid_partial_invalid_utf8, valid_first_scalar, valid_utf8,
};
use vstd::string::StringSliceAdditionalSpecFns;

use crate::bytes::{spec_len_prefixed, WriteMinecraftExt};
use crate::encdec::{Decode, Encode, WireSize};
use crate::error::{ReadMinecraftError, WriteMinecraftError};
use crate::stream::{ByteReader, ScratchVec};
use crate::varint::{
    lemma_var_int_len, lemma_var_int_roundtrip, spec_var_int, spec_var_int_value, var_i32_size,
    var_int_consumed, var_int_shape, VarIntShape,
};

verus! {

/// A prefix that is valid UTF-8 cannot be extended to a valid sequence when
/// the bytes that follow it do not start with a well-formed scalar encoding.
proof fn lemma_not_utf8_here(bytes: Seq<u8>, i: int)
    requires
        0 <= i < bytes.len(),
        partial_valid_utf8(bytes, i),
        !valid_first_scalar(bytes.subrange(i, bytes.len() as int)),
    ensures
        !valid_utf8(bytes),
{
    let rest = bytes.subrange(i, bytes.len() as int);
    assert(rest.len() > 0);
    assert(!valid_utf8(rest));
    partial_valid_partial_invalid_utf8(bytes, i);
}

/// Whether the bytes form a valid UTF-8 encoding: a sequence of scalar
/// encodings with the right leading and continuation bit patterns, none
/// over-long, none in the surrogate range.
pub fn is_valid_utf8(bytes: &[u8]) -> (r: bool)
    ensures
        r == valid_utf8(bytes@),
{
    let n = bytes.len();
    let mut i: usize = 0;
    while i < n
        invariant
            i <= n == bytes@.len(),
            partial_valid_utf8(bytes@, i as int),
        decreases n - i,
    {
        let ghost rest = bytes@.subrange(i as int, n as int);
        proof {
            assert(forall|j: int| 0 <= j < rest.len() ==> rest[j] == bytes@[i + j]);
        }
        let b0 = bytes[i];
        if b0 < 0x80 {
            proof {
                assert(valid_first_scalar(rest));
                assert(length_of_first_scalar(rest) == 1);
                partial_valid_utf8_extend(bytes@, i as int);
            }
            i = i + 1;
        } else if b0 < 0xc0 {
            proof {
                lemma_not_utf8_here(bytes@, i as int);
            }
            return false;
        } else if b0 < 0xe0 {
            if n - i < 2 {
                proof {
                    lemma_not_utf8_here(bytes@, i as int);
                }
                return false;
            }
            let b1 = bytes[i + 1];
            if b1 < 0x80 || b1 > 0xbf {
                proof {
                    lemma_not_utf8_here(bytes@, i as int);
                }
                return false;
            }
            let cp: u32 = (((b0 & 0x1f) as u32) << 6) | ((b1 & 0x3f) as u32);
            proof {
                assert(decode_first_codepoint(rest) == cp);
            }
            if cp < 0x80 {
                proof {
                    assert(!not_overlong_encoding(decode_first_codepoint(rest), 2));
                    lemma_not_utf8_here(bytes@, i as int);
                }
                return false;
            }
            proof {
                assert(cp < 0xd800) by (bit_vector)
                    requires
                        cp == (((b0 & 0x1f) as u32) << 6) | ((b1 & 0x3f) as u32),
                ;
                assert(valid_first_scalar(rest));
                assert(length_of_first_scalar(rest) == 2);
                partial_valid_utf8_extend(bytes@, i as int);
            }
            i = i + 2;
        } else if b0 < 0xf0 {
            if n - i < 3 {
                proof {
                    lemma_not_utf8_here(bytes@, i as int);
                }
                return false;
            }
            let b1 = bytes[i + 1];
            let b2 = bytes[i + 2];
            if b1 < 0x80 || b1 > 0xbf || b2 < 0x80 || b2 > 0xbf {
                proof {
                    lemma_not_utf8_here(bytes@, i as int);
                }
                return false;
            }
            let cp: u32 = (((b0 & 0x0f) as u32) << 12) | (((b1 & 0x3f) as u32) << 6) | ((b2
                & 0x3f) as u32);
            proof {
                assert(decode_first_codepoint(rest) == cp);
            }
            if cp < 0x800 || (0xd800 <= cp && cp <= 0xdfff) {
                proof {
                    lemma_not_utf8_here(bytes@, i as int);
                }
                return false;
            }
            proof {
                assert(valid_first_scalar(rest));
                assert(length_of_first_scalar(rest) == 3);
                partial_valid_utf8_extend(bytes@, i as int);
            }
            i = i + 3;
        } else if b0 < 0xf8 {
            if n - i < 4 {
                proof {
                    lemma_not_utf8_here(bytes@, i as int);
                }
                return false;
            }
            let b1 = bytes[i + 1];
            let b2 = bytes[i + 2];
            let b3 = bytes[i + 3];
            if b1 < 0x80 || b1 > 0xbf || b2 < 0x80 || b2 > 0xbf || b3 < 0x80 || b3 > 0xbf {
                proof {
                    lemma_not_utf8_here(bytes@, i as int);
                }
                return false;
            }
            let cp: u32 = (((b0 & 0x07) as u32) << 18) | (((b1 & 0x3f) as u32) << 12) | (((b2
                & 0x3f) as u32) << 6) | ((b3 & 0x3f) as u32);
            proof {
                assert(decode_first_codepoint(rest) == cp);
            }
            if cp < 0x1_0000 || cp > 0x10_ffff {
                proof {
                    lemma_not_utf8_here(bytes@, i as int);
                }
                return false;
            }
            proof {
                assert(valid_first_scalar(rest));
                assert(length_of_first_scalar(rest) == 4);
                partial_valid_utf8_extend(bytes@, i as int);
            }
            i = i + 4;
        } else {
            proof {
                lemma_not_utf8_here(bytes@, i as int);
            }
            return false;
        }
    }
    proof {
        assert(bytes@.subrange(0, n as int) =~= bytes@);
    }
    true
}

/// A UTF-8 string bounded to at most `MAX` bytes, the backing store of the
/// protocol's length-prefixed string fields. The bound is fixed at the type
/// level; exceeding it is a hard decode error, never a reallocation.
#[derive(Clone, PartialEq, Eq, Debug)]
pub struct McString<const MAX: usize> {
    bytes: Vec<u8>,
}

impl<const MAX: usize> View for McString<MAX> {
    type V = Seq<u8>;

    closed spec fn view(&self) -> Seq<u8> {
        self.bytes@
    }
}

impl<const MAX: usize> McString<MAX> {
    pub open spec fn wf(&self) -> bool {
        self@.len() <= MAX && valid_utf8(self@)
    }

    /// Takes ownership of the bytes when they are valid UTF-8 and within the
    /// bound; says exactly which of the two checks failed otherwise.
    pub fn from_bytes(bytes: Vec<u8>) -> (r: Result<McString<MAX>, ReadMinecraftError<()>>)
        ensures
            match r {
                Ok(m) => bytes@.len() <= MAX && valid_utf8(bytes@) && m@ == bytes@,
                Err(e) => match e {
                    ReadMinecraftError::LengthExceeded => bytes@.len() > MAX,
                    ReadMinecraftError::InvalidUtf8 => bytes@.len() <= MAX && !valid_utf8(bytes@),
                    _ => false,
                },
            },
            r is Ok ==> r.unwrap().wf(),
    {
        if bytes.len() > MAX {
            return Err(ReadMinecraftError::LengthExceeded);
        }
        if !is_valid_utf8(bytes.as_slice()) {
            return Err(ReadMinecraftError::InvalidUtf8);
        }
        Ok(McString { bytes })
    }

    /// Copies a string slice in; its bytes are valid UTF-8 by construction,
    /// so only the length bound can fail.
    pub fn from_str(s: &str) -> (r: Result<McString<MAX>, ReadMinecraftError<()>>)
        ensures
            match r {
                Ok(m) => s.spec_bytes().len() <= MAX && m@ == s.spec_bytes() && m.wf(),
                Err(e) => e == ReadMinecraftError::<()>::LengthExceeded && s.spec_bytes().len()
                    > MAX,
            },
    {
        let bytes = s.as_bytes();
        if bytes.len() > MAX {
            return Err(ReadMinecraftError::LengthExceeded);
        }
        let owned = vstd::slice::slice_to_vec(bytes);
        proof {
            vstd::utf8::encode_utf8_valid_utf8(s@);
        }
        Ok(McString { bytes: owned })
    }

    pub fn as_bytes(&self) -> (r: &[u8])
        ensures
            r@ == self@,
    {
        self.bytes.as_slice()
    }

    pub fn len(&self) -> (r: usize)
        ensures
            r == self@.len(),
    {
        self.bytes.len()
    }
}

/// The byte length a string field declares, as read from the VarInt prefix.
pub open spec fn spec_string_len(rem: Seq<u8>) -> int {
    spec_var_int_value(rem) as i32 as int
}

/// The content bytes a string field carries: the declared number of bytes
/// after the length prefix.
pub open spec fn spec_string_content(rem: Seq<u8>) -> Seq<u8> {
    rem.skip(var_int_consumed(rem)).take(spec_string_len(rem))
}

impl ByteReader {
    /// Reads a length-prefixed UTF-8 string of at most `MAX` bytes: a VarInt
    /// byte count, then that many bytes, which must be valid UTF-8. A
    /// negative or over-bound count is a `LengthExceeded` error; bytes that
    /// are not valid UTF-8 are an `InvalidUtf8` error.
    pub fn read_string<const MAX: usize>(&mut self) -> (r: Result<
        McString<MAX>,
        ReadMinecraftError<()>,
    >)
        requires
            old(self).wf(),
        ensures
            final(self).wf(),
            final(self).all_bytes() == old(self).all_bytes(),
            final(self).position() >= old(self).position(),
            ({
                let rem = old(self).remaining();
                let n = var_int_consumed(rem);
                let len = spec_string_len(rem);
                let content = spec_string_content(rem);
                match r {
                    Ok(m) => var_int_shape(rem) is Complete && 0 <= len <= MAX && rem.skip(
                        n,
                    ).len() >= len && valid_utf8(content) && m@ == content && m.wf()
                        && final(self).position() == old(self).position() + n + len,
                    Err(e) => match e {
                        ReadMinecraftError::VarIntTooBig => var_int_shape(rem)
                            == VarIntShape::TooBig,
                        ReadMinecraftError::UnexpectedEof => var_int_shape(rem)
                            == VarIntShape::Incomplete || (var_int_shape(rem) is Complete && 0
                            <= len <= MAX && rem.skip(n).len() < len),
                        ReadMinecraftError::LengthExceeded => var_int_shape(rem) is Complete && (
                        len < 0 || len > MAX),
                        ReadMinecraftError::InvalidUtf8 => var_int_shape(rem) is Complete && 0
                            <= len <= MAX && rem.skip(n).len() >= len && !valid_utf8(content),
                        _ => false,
                    },
                }
            }),
    {
        let ghost rem = old(self).remaining();
        let len_i32 = match self.read_var_i32() {
            Ok(v) => v,
            Err(e) => {
                return Err(e);
            },
        };
        proof {
            assert(self.remaining() =~= rem.skip(var_int_consumed(rem)));
        }
        if len_i32 < 0 {
            return Err(ReadMinecraftError::LengthExceeded);
        }
        let len = len_i32 as usize;
        if len > MAX {
            return Err(ReadMinecraftError::LengthExceeded);
        }
        let buf = match self.read_exact(len) {
            Ok(v) => v,
            Err(e) => {
                return Err(e);
            },
        };
        if !is_valid_utf8(buf.as_slice()) {
            return Err(ReadMinecraftError::InvalidUtf8);
        }
        Ok(McString { bytes: buf })
    }
}

impl<const MAX: usize> WireSize for McString<MAX> {
    type Options = ();

    open spec fn wire_form(&self, opts: ()) -> Seq<u8> {
        spec_len_prefixed(self@)
    }

    open spec fn size_fits(&self, opts: ()) -> bool {
        self@.len() <= 0x7fff_ffff
    }

    fn wire_size(&self, opts: &()) -> (r: usize) {
        let len = self.bytes.len();
        let len32: i32 = len as i32;
        proof {
            lemma_var_int_len(len32 as u32);
        }
        var_i32_size(len32) + len
    }
}

impl<const MAX: usize> Encode for McString<MAX> {
    fn encode(&self, w: &mut ScratchVec, opts: &()) -> (r: Result<(), WriteMinecraftError<()>>) {
        let len = self.bytes.len();
        let len32: i32 = #[verifier::truncate] (len as i32);
        proof {
            assert((len as i32) as u32 == len as u32) by (bit_vector);
            lemma_var_int_len(len32 as u32);
        }
        let prefix = var_i32_size(len32);
        if len > w.capacity() - w.len() || prefix > w.capacity() - w.len() - len {
            return Err(WriteMinecraftError::OutOfMemory);
        }
        match w.write_var_i32(len32) {
            Ok(()) => (),
            Err(_) => {
                proof {
                    assert(false);
                }
                return Err(WriteMinecraftError::OutOfMemory);
            },
        }
        match w.write_all(self.bytes.as_slice()) {
            Ok(()) => (),
            Err(_) => {
                proof {
                    assert(false);
                }
                return Err(WriteMinecraftError::OutOfMemory);
            },
        }
        proof {
            assert(w@ =~= old(w)@ + spec_len_prefixed(self@));
        }
        Ok(())
    }
}

impl<const MAX: usize> Decode for McString<MAX> {
    type Error = ReadMinecraftError<()>;

    open spec fn spec_decode_ok(bytes: Seq<u8>, opts: ()) -> bool {
        let n = var_int_consumed(bytes);
        let len = spec_string_len(bytes);
        var_int_shape(bytes) is Complete && 0 <= len <= MAX && bytes.skip(n).len() >= len
            && valid_utf8(spec_string_content(bytes))
    }

    open spec fn spec_decode_len(bytes: Seq<u8>, opts: ()) -> int {
        var_int_consumed(bytes) + spec_string_len(bytes)
    }

    open spec fn is_decode_of(&self, bytes: Seq<u8>, opts: ()) -> bool {
        self@ == spec_string_content(bytes)
    }

    open spec fn decodable(&self, opts: ()) -> bool {
        self.wf() && self@.len() <= 0x7fff_ffff
    }

    fn decode(r: &mut ByteReader, opts: &()) -> (res: Result<McString<MAX>, ReadMinecraftError<()>>) {
        r.read_string::<MAX>()
    }

    proof fn lemma_decode_wire_form(&self, opts: (), rest: Seq<u8>) {
        let content = self@;
        let len32: u32 = content.len() as u32;
        lemma_var_int_len(len32);
        let form = self.wire_form(opts);
        let s = form + rest;
        lemma_var_int_roundtrip(len32, content + rest);
        assert(s =~= spec_var_int(len32) + (content + rest));
        let n = var_int_consumed(s);
        assert(n == spec_var_int(len32).len());
        assert(spec_var_int_value(s) == len32);
        assert(spec_string_len(s) == content.len() as int);
        assert(s.skip(n) =~= content + rest);
        assert(spec_string_content(s) =~= content);
    }
}

} // verus!
