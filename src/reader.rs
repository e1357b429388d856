use vstd::prelude::*;
use crate::bytes::{spec_u16_le, spec_u32_le, u16_from_bytes, u32_from_bytes};
use crate::error::Error;

verus! {

/// A cursor over bytes held in memory: reads of exact length at a position
/// that seeks move. The position may stand past the end; reads there fail.
#[derive(Debug)]
pub struct ByteReader {
    data: Vec<u8>,
    pos: u64,
}

impl ByteReader {
    pub closed spec fn data(&self) -> Seq<u8> {
        self.data@
    }

    pub closed spec fn pos(&self) -> int {
        self.pos as int
    }

    pub fn new(data: Vec<u8>) -> (r: ByteReader)
        ensures
            r.data() == data@,
            r.pos() == 0,
    {
        ByteReader { data, pos: 0 }
    }

    /// The number of bytes held.
    pub fn len(&self) -> (r: usize)
        ensures
            r == self.data().len(),
    {
        self.data.len()
    }

    pub fn position(&self) -> (r: u64)
        ensures
            r == self.pos(),
    {
        self.pos
    }

    /// Reads exactly `n` bytes, or fails with `UnexpectedEof` and leaves the
    /// position where it was.
    pub fn read_bytes(&mut self, n: usize) -> (r: Result<Vec<u8>, Error>)
        ensures
            final(self).data() == old(self).data(),
            old(self).pos() + n <= old(self).data().len() ==> r is Ok && r->Ok_0@
                == old(self).data().subrange(old(self).pos(), old(self).pos() + n)
                && final(self).pos() == old(self).pos() + n,
            old(self).pos() + n > old(self).data().len() ==> r == Err::<Vec<u8>, Error>(
                Error::UnexpectedEof,
            ) && final(self).pos() == old(self).pos(),
    {
        let len = self.data.len();
        if self.pos > len as u64 || n > len - (self.pos as usize) {
            return Err(Error::UnexpectedEof);
        }
        let start = self.pos as usize;
        let mut out: Vec<u8> = Vec::with_capacity(n);
        let mut i: usize = 0;
        while i < n
            invariant
                start + n <= self.data@.len(),
                len == self.data@.len(),
                i <= n,
                out@ == self.data@.subrange(start as int, start + i),
            decreases n - i,
        {
            out.push(self.data[start + i]);
            i = i + 1;
            assert(out@ =~= self.data@.subrange(start as int, start + i));
        }
        self.pos = (start + n) as u64;
        Ok(out)
    }

    /// Reads a little-endian `u32`.
    pub fn read_u32(&mut self) -> (r: Result<u32, Error>)
        ensures
            final(self).data() == old(self).data(),
            old(self).pos() + 4 <= old(self).data().len() ==> r == Ok::<u32, Error>(
                spec_u32_le(old(self).data().subrange(old(self).pos(), old(self).pos() + 4)),
            ) && final(self).pos() == old(self).pos() + 4,
            old(self).pos() + 4 > old(self).data().len() ==> r == Err::<u32, Error>(
                Error::UnexpectedEof,
            ) && final(self).pos() == old(self).pos(),
    {
        let b = self.read_bytes(4)?;
        Ok(u32_from_bytes(b.as_slice()))
    }

    /// Reads a little-endian `u16`.
    pub fn read_u16(&mut self) -> (r: Result<u16, Error>)
        ensures
            final(self).data() == old(self).data(),
            old(self).pos() + 2 <= old(self).data().len() ==> r == Ok::<u16, Error>(
                spec_u16_le(old(self).data().subrange(old(self).pos(), old(self).pos() + 2)),
            ) && final(self).pos() == old(self).pos() + 2,
            old(self).pos() + 2 > old(self).data().len() ==> r == Err::<u16, Error>(
                Error::UnexpectedEof,
            ) && final(self).pos() == old(self).pos(),
    {
        let b = self.read_bytes(2)?;
        Ok(u16_from_bytes(b.as_slice()))
    }

    /// Moves to an absolute position.
    pub fn seek_from_start(&mut self, i: u64) -> (r: u64)
        ensures
            final(self).data() == old(self).data(),
            final(self).pos() == i,
            r == i,
    {
        self.pos = i;
        i
    }

    /// Moves by `i` from the current position; a move before the start, or
    /// past what a `u64` holds, fails with `InvalidSeek`.
    pub fn seek_from_current(&mut self, i: i64) -> (r: Result<u64, Error>)
        ensures
            final(self).data() == old(self).data(),
            0 <= old(self).pos() + i <= u64::MAX ==> r == Ok::<u64, Error>(
                (old(self).pos() + i) as u64,
            ) && final(self).pos() == old(self).pos() + i,
            !(0 <= old(self).pos() + i <= u64::MAX) ==> r == Err::<u64, Error>(
                Error::InvalidSeek,
            ) && final(self).pos() == old(self).pos(),
    {
        if i >= 0 {
            let d = i as u64;
            if d > u64::MAX - self.pos {
                return Err(Error::InvalidSeek);
            }
            self.pos = self.pos + d;
        } else {
            let d: u64 = ((-(i + 1)) as u64) + 1;
            if d > self.pos {
                return Err(Error::InvalidSeek);
            }
            self.pos = self.pos - d;
        }
        Ok(self.pos)
    }
}

} // verus!
