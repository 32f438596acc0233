use vstd::prelude::*;

use crate::errors::DecodeError;

verus! {

/// Little-endian value of the two bytes of `d` at `p`.
pub open spec fn u16_at(d: Seq<u8>, p: int) -> int {
    d[p] as int + 256 * d[p + 1] as int
}

/// Little-endian value of the four bytes of `d` at `p`.
pub open spec fn u32_at(d: Seq<u8>, p: int) -> int {
    d[p] as int + 256 * d[p + 1] as int + 65536 * d[p + 2] as int + 16777216 * d[p + 3] as int
}

/// Whether `n` bytes are available in `d` from `p` on.
pub open spec fn avail(d: Seq<u8>, p: int, n: int) -> bool {
    p + n <= d.len()
}

/// A forward-only cursor over a byte buffer.
pub struct ByteReader {
    pub data: Vec<u8>,
    pub pos: usize,
}

impl ByteReader {
    pub open spec fn wf(&self) -> bool {
        self.pos <= self.data@.len()
    }

    pub fn new(data: Vec<u8>) -> (r: ByteReader)
        ensures
            r.data@ == data@,
            r.pos == 0,
    {
        ByteReader { data, pos: 0 }
    }

    pub fn read_u16(&mut self) -> (r: Result<u16, DecodeError>)
        requires
            old(self).wf(),
        ensures
            final(self).wf(),
            final(self).data@ == old(self).data@,
            avail(old(self).data@, old(self).pos as int, 2) ==> r is Ok && r->Ok_0 as int
                == u16_at(old(self).data@, old(self).pos as int) && final(self).pos == old(self).pos
                + 2,
            !avail(old(self).data@, old(self).pos as int, 2) ==> r is Err && r->Err_0@
                == crate::errors::Failure::UnexpectedEnd(old(self).pos as int) && final(self).pos
                == old(self).pos,
    {
        if self.data.len() - self.pos < 2 {
            return Err(DecodeError::UnexpectedEnd(self.pos));
        }
        let p = self.pos;
        let v: u16 = self.data[p] as u16 + 256 * (self.data[p + 1] as u16);
        self.pos = p + 2;
        Ok(v)
    }

    pub fn read_u32(&mut self) -> (r: Result<u32, DecodeError>)
        requires
            old(self).wf(),
        ensures
            final(self).wf(),
            final(self).data@ == old(self).data@,
            avail(old(self).data@, old(self).pos as int, 4) ==> r is Ok && r->Ok_0 as int
                == u32_at(old(self).data@, old(self).pos as int) && final(self).pos == old(self).pos
                + 4,
            !avail(old(self).data@, old(self).pos as int, 4) ==> r is Err && r->Err_0@
                == crate::errors::Failure::UnexpectedEnd(old(self).pos as int) && final(self).pos
                == old(self).pos,
    {
        if self.data.len() - self.pos < 4 {
            return Err(DecodeError::UnexpectedEnd(self.pos));
        }
        let p = self.pos;
        let v: u32 = self.data[p] as u32 + 256 * (self.data[p + 1] as u32) + 65536 * (
        self.data[p + 2] as u32) + 16777216 * (self.data[p + 3] as u32);
        self.pos = p + 4;
        Ok(v)
    }

    /// Reads the next `n` bytes.
    pub fn read_bytes(&mut self, n: usize) -> (r: Result<Vec<u8>, DecodeError>)
        requires
            old(self).wf(),
        ensures
            final(self).wf(),
            final(self).data@ == old(self).data@,
            avail(old(self).data@, old(self).pos as int, n as int) ==> r is Ok && r->Ok_0@
                == old(self).data@.subrange(old(self).pos as int, old(self).pos + n)
                && final(self).pos == old(self).pos + n,
            !avail(old(self).data@, old(self).pos as int, n as int) ==> r is Err && r->Err_0@
                == crate::errors::Failure::UnexpectedEnd(old(self).pos as int) && final(self).pos
                == old(self).pos,
    {
        if self.data.len() - self.pos < n {
            return Err(DecodeError::UnexpectedEnd(self.pos));
        }
        let start = self.pos;
        let end: usize = start + n;
        let mut out: Vec<u8> = Vec::with_capacity(n);
        let mut i: usize = 0;
        while i < n
            invariant
                self.pos == start,
                start + n <= self.data@.len(),
                end == start + n,
                i <= n,
                out@ == self.data@.subrange(start as int, start + i),
            decreases n - i,
        {
            assert(start + i < end);
            out.push(self.data[start + i]);
            i = i + 1;
            assert(out@ =~= self.data@.subrange(start as int, start + i));
        }
        self.pos = start + n;
        Ok(out)
    }
}

} // verus!
