//! Sequential big-endian reads from an in-memory byte stream.

use vstd::prelude::*;

use crate::binutil::{be16_at, be32_at, be64_at};
use crate::error::Error;

verus! {

/// A read position inside a borrowed byte buffer. Every read either
/// consumes exactly the bytes of the requested value or fails with
/// `TruncatedDocument` and leaves the position unchanged.
pub struct ByteCursor<'a> {
    pub data: &'a [u8],
    pub pos: usize,
}

impl<'a> ByteCursor<'a> {
    pub fn new(data: &'a [u8]) -> (c: ByteCursor<'a>)
        ensures
            c.data@ == data@,
            c.pos == 0,
    {
        ByteCursor { data, pos: 0 }
    }

    /// Reads one byte.
    pub fn read_u8(&mut self) -> (r: Result<u8, Error>)
        ensures
            final(self).data@ == old(self).data@,
            old(self).pos + 1 <= old(self).data@.len() ==> r == Ok::<u8, Error>(
                old(self).data@[old(self).pos as int],
            ) && final(self).pos == old(self).pos + 1,
            old(self).pos + 1 > old(self).data@.len() ==> r == Err::<u8, Error>(
                Error::TruncatedDocument,
            ) && final(self).pos == old(self).pos,
    {
        if self.pos < self.data.len() {
            let b = self.data[self.pos];
            self.pos = self.pos + 1;
            Ok(b)
        } else {
            Err(Error::TruncatedDocument)
        }
    }

    /// Reads a 2-byte big-endian integer.
    pub fn read_u16(&mut self) -> (r: Result<u16, Error>)
        ensures
            final(self).data@ == old(self).data@,
            old(self).pos + 2 <= old(self).data@.len() ==> r == Ok::<u16, Error>(
                be16_at(old(self).data@, old(self).pos as int) as u16,
            ) && final(self).pos == old(self).pos + 2,
            old(self).pos + 2 > old(self).data@.len() ==> r == Err::<u16, Error>(
                Error::TruncatedDocument,
            ) && final(self).pos == old(self).pos,
    {
        if self.data.len() >= 2 && self.pos <= self.data.len() - 2 {
            let b0 = self.data[self.pos];
            let b1 = self.data[self.pos + 1];
            self.pos = self.pos + 2;
            Ok((b0 as u16) * 0x100 + (b1 as u16))
        } else {
            Err(Error::TruncatedDocument)
        }
    }

    /// Reads a 4-byte big-endian integer.
    pub fn read_u32(&mut self) -> (r: Result<u32, Error>)
        ensures
            final(self).data@ == old(self).data@,
            old(self).pos + 4 <= old(self).data@.len() ==> r == Ok::<u32, Error>(
                be32_at(old(self).data@, old(self).pos as int) as u32,
            ) && final(self).pos == old(self).pos + 4,
            old(self).pos + 4 > old(self).data@.len() ==> r == Err::<u32, Error>(
                Error::TruncatedDocument,
            ) && final(self).pos == old(self).pos,
    {
        if self.data.len() >= 4 && self.pos <= self.data.len() - 4 {
            let b0 = self.data[self.pos];
            let b1 = self.data[self.pos + 1];
            let b2 = self.data[self.pos + 2];
            let b3 = self.data[self.pos + 3];
            self.pos = self.pos + 4;
            Ok((b0 as u32) * 0x1000000 + (b1 as u32) * 0x10000 + (b2 as u32) * 0x100 + (b3 as u32))
        } else {
            Err(Error::TruncatedDocument)
        }
    }

    /// Reads an 8-byte big-endian integer.
    pub fn read_u64(&mut self) -> (r: Result<u64, Error>)
        ensures
            final(self).data@ == old(self).data@,
            old(self).pos + 8 <= old(self).data@.len() ==> r == Ok::<u64, Error>(
                be64_at(old(self).data@, old(self).pos as int) as u64,
            ) && final(self).pos == old(self).pos + 8,
            old(self).pos + 8 > old(self).data@.len() ==> r == Err::<u64, Error>(
                Error::TruncatedDocument,
            ) && final(self).pos == old(self).pos,
    {
        if self.data.len() >= 8 && self.pos <= self.data.len() - 8 {
            let hi = match self.read_u32() {
                Ok(v) => v,
                Err(e) => { return Err(e) },
            };
            let lo = match self.read_u32() {
                Ok(v) => v,
                Err(e) => { return Err(e) },
            };
            Ok((hi as u64) * 0x100000000 + (lo as u64))
        } else {
            Err(Error::TruncatedDocument)
        }
    }

    /// Reads `count` raw bytes.
    pub fn read_bytes(&mut self, count: usize) -> (r: Result<Vec<u8>, Error>)
        ensures
            final(self).data@ == old(self).data@,
            old(self).pos + count <= old(self).data@.len() ==> r is Ok && r.unwrap()@ == old(
                self,
            ).data@.subrange(old(self).pos as int, old(self).pos + count) && final(self).pos == old(
                self,
            ).pos + count,
            old(self).pos + count > old(self).data@.len() ==> r == Err::<Vec<u8>, Error>(
                Error::TruncatedDocument,
            ) && final(self).pos == old(self).pos,
    {
        if self.pos <= self.data.len() && count <= self.data.len() - self.pos {
            let piece = vstd::slice::slice_subrange(self.data, self.pos, self.pos + count);
            let out = vstd::slice::slice_to_vec(piece);
            self.pos = self.pos + count;
            Ok(out)
        } else {
            Err(Error::TruncatedDocument)
        }
    }
}

} // verus!
