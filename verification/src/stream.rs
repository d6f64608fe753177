//! The in-memory byte streams the codec layers run on: a reader over a fully
//! buffered byte sequence, and a bounded scratch writer with a fixed capacity
//! that never reallocates past its bound and fails explicitly on overflow.

use vstd::prelude::*;

use crate::error::{ReadMinecraftError, WriteMinecraftError};

verus! {

/// A reader over a byte buffer, consuming from front to back.
pub struct ByteReader {
    data: Vec<u8>,
    pos: usize,
}

impl ByteReader {
    /// The whole underlying buffer, consumed and unconsumed bytes alike.
    pub closed spec fn all_bytes(&self) -> Seq<u8> {
        self.data@
    }

    /// How many bytes have been consumed so far.
    pub closed spec fn position(&self) -> int {
        self.pos as int
    }

    pub open spec fn wf(&self) -> bool {
        0 <= self.position() <= self.all_bytes().len()
    }

    /// The bytes not yet consumed.
    pub open spec fn remaining(&self) -> Seq<u8> {
        self.all_bytes().skip(self.position())
    }

    pub fn new(data: Vec<u8>) -> (r: ByteReader)
        ensures
            r.wf(),
            r.all_bytes() == data@,
            r.position() == 0,
    {
        ByteReader { data, pos: 0 }
    }

    pub fn remaining_len(&self) -> (r: usize)
        requires
            self.wf(),
        ensures
            r == self.remaining().len(),
    {
        self.data.len() - self.pos
    }

    /// Reads a single byte; fails exactly when the stream is exhausted.
    pub fn read_u8(&mut self) -> (r: Result<u8, ReadMinecraftError<()>>)
        requires
            old(self).wf(),
        ensures
            final(self).wf(),
            final(self).all_bytes() == old(self).all_bytes(),
            match r {
                Ok(b) => old(self).remaining().len() > 0 && b == old(self).remaining()[0]
                    && final(self).position() == old(self).position() + 1,
                Err(e) => e == ReadMinecraftError::<()>::UnexpectedEof
                    && old(self).remaining().len() == 0 && *final(self) == *old(self),
            },
    {
        if self.pos < self.data.len() {
            let b = self.data[self.pos];
            self.pos = self.pos + 1;
            Ok(b)
        } else {
            Err(ReadMinecraftError::UnexpectedEof)
        }
    }

    /// Reads exactly `n` bytes, or fails without consuming anything when
    /// fewer than `n` remain.
    pub fn read_exact(&mut self, n: usize) -> (r: Result<Vec<u8>, ReadMinecraftError<()>>)
        requires
            old(self).wf(),
        ensures
            final(self).wf(),
            final(self).all_bytes() == old(self).all_bytes(),
            match r {
                Ok(v) => n <= old(self).remaining().len() && v@ == old(self).remaining().take(
                    n as int,
                ) && final(self).position() == old(self).position() + n,
                Err(e) => e == ReadMinecraftError::<()>::UnexpectedEof
                    && old(self).remaining().len() < n && *final(self) == *old(self),
            },
    {
        if n > self.data.len() - self.pos {
            return Err(ReadMinecraftError::UnexpectedEof);
        }
        let mut out: Vec<u8> = Vec::new();
        let end = self.pos + n;
        let mut idx = self.pos;
        while idx < end
            invariant
                self == old(self),
                self.wf(),
                self.position() <= idx <= end <= self.all_bytes().len(),
                end == self.position() + n,
                out@ == self.all_bytes().subrange(self.position(), idx as int),
            decreases end - idx,
        {
            out.push(self.data[idx]);
            idx = idx + 1;
            proof {
                assert(out@ =~= self.all_bytes().subrange(self.position(), idx as int));
            }
        }
        proof {
            assert(out@ =~= self.remaining().take(n as int));
        }
        self.pos = end;
        Ok(out)
    }

    /// A bounded sub-reader over the next `limit` unconsumed bytes (or all of
    /// them, when fewer remain), which the body of a packet is decoded from so
    /// that it can never read past its declared length. The parent reader
    /// advances past the whole window.
    pub fn take(&mut self, limit: usize) -> (r: ByteReader)
        requires
            old(self).wf(),
        ensures
            final(self).wf(),
            r.wf(),
            final(self).all_bytes() == old(self).all_bytes(),
            r.position() == 0,
            r.all_bytes() == old(self).remaining().take(
                vstd::math::min(limit as int, old(self).remaining().len() as int),
            ),
            final(self).position() == old(self).position() + r.all_bytes().len(),
    {
        let avail = self.data.len() - self.pos;
        let k = if limit < avail {
            limit
        } else {
            avail
        };
        match self.read_exact(k) {
            Ok(v) => ByteReader::new(v),
            Err(_) => {
                proof {
                    assert(false);
                }
                ByteReader { data: Vec::new(), pos: 0 }
            },
        }
    }
}

/// A fixed-capacity byte sink. Writes are atomic: either the whole chunk
/// fits under the capacity and is appended, or nothing is written and the
/// writer reports that it is out of memory. The capacity is decided at
/// construction and never grows.
pub struct ScratchVec {
    data: Vec<u8>,
    cap: usize,
}

impl View for ScratchVec {
    type V = Seq<u8>;

    closed spec fn view(&self) -> Seq<u8> {
        self.data@
    }
}

impl ScratchVec {
    /// The fixed capacity in bytes.
    pub closed spec fn capacity_spec(&self) -> int {
        self.cap as int
    }

    pub open spec fn wf(&self) -> bool {
        self@.len() <= self.capacity_spec()
    }

    /// Room left before the capacity is reached.
    pub open spec fn space(&self) -> int {
        self.capacity_spec() - self@.len()
    }

    pub fn new(cap: usize) -> (r: ScratchVec)
        ensures
            r.wf(),
            r@ == Seq::<u8>::empty(),
            r.capacity_spec() == cap,
    {
        ScratchVec { data: Vec::new(), cap }
    }

    pub fn len(&self) -> (r: usize)
        ensures
            r == self@.len(),
    {
        self.data.len()
    }

    pub fn capacity(&self) -> (r: usize)
        ensures
            r == self.capacity_spec(),
    {
        self.cap
    }

    /// Gives up the writer and hands back the bytes written so far.
    pub fn into_inner(self) -> (r: Vec<u8>)
        ensures
            r@ == self@,
    {
        self.data
    }

    pub fn as_slice(&self) -> (r: &[u8])
        ensures
            r@ == self@,
    {
        self.data.as_slice()
    }

    /// Appends one byte; fails, writing nothing, exactly when the writer is
    /// full.
    pub fn write_u8(&mut self, b: u8) -> (r: Result<(), WriteMinecraftError<()>>)
        requires
            old(self).wf(),
        ensures
            final(self).wf(),
            final(self).capacity_spec() == old(self).capacity_spec(),
            match r {
                Ok(()) => old(self).space() >= 1 && final(self)@ == old(self)@.push(b),
                Err(e) => e == WriteMinecraftError::<()>::OutOfMemory && old(self).space() == 0
                    && *final(self) == *old(self),
            },
    {
        if self.data.len() < self.cap {
            self.data.push(b);
            Ok(())
        } else {
            Err(WriteMinecraftError::OutOfMemory)
        }
    }

    /// Appends a whole chunk, or fails writing nothing when it does not fit.
    pub fn write_all(&mut self, buf: &[u8]) -> (r: Result<(), WriteMinecraftError<()>>)
        requires
            old(self).wf(),
        ensures
            final(self).wf(),
            final(self).capacity_spec() == old(self).capacity_spec(),
            match r {
                Ok(()) => buf@.len() <= old(self).space() && final(self)@ == old(self)@ + buf@,
                Err(e) => e == WriteMinecraftError::<()>::OutOfMemory && buf@.len() > old(
                    self,
                ).space() && *final(self) == *old(self),
            },
    {
        if buf.len() > self.cap - self.data.len() {
            return Err(WriteMinecraftError::OutOfMemory);
        }
        let mut i: usize = 0;
        while i < buf.len()
            invariant
                self.wf(),
                self.capacity_spec() == old(self).capacity_spec(),
                i <= buf@.len(),
                buf@.len() - i <= self.space(),
                self@ == old(self)@ + buf@.take(i as int),
            decreases buf@.len() - i,
        {
            self.data.push(buf[i]);
            i = i + 1;
            proof {
                assert(self@ =~= old(self)@ + buf@.take(i as int));
            }
        }
        proof {
            assert(self@ =~= old(self)@ + buf@);
        }
        Ok(())
    }
}

} // verus!
