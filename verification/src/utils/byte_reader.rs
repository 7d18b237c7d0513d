//! An in-memory input that the decoding functions consume front to back.

use vstd::prelude::*;

use crate::error::{TsFileError, TsFileResult};

verus! {

/// Bytes held in memory together with how many of them were consumed.
pub struct ByteReader {
    data: Vec<u8>,
    pos: usize,
}

impl ByteReader {
    #[verifier::type_invariant]
    spec fn inv(self) -> bool {
        self.pos <= self.data.len()
    }

    /// The bytes that are not consumed yet.
    pub closed spec fn rest(self) -> Seq<u8> {
        self.data@.subrange(self.pos as int, self.data@.len() as int)
    }

    /// The number of bytes consumed so far.
    pub closed spec fn consumed(self) -> nat {
        self.pos as nat
    }

    /// A reader positioned at the first of `data`.
    pub fn new(data: Vec<u8>) -> (r: Self)
        ensures
            r.rest() == data@,
            r.consumed() == 0,
    {
        let r = ByteReader { data, pos: 0 };
        assert(r.rest() =~= r.data@);
        r
    }

    /// The number of bytes consumed so far.
    pub fn position(&self) -> (p: usize)
        ensures
            p == self.consumed(),
    {
        self.pos
    }

    /// The number of bytes left.
    pub fn remaining(&self) -> (n: usize)
        ensures
            n == self.rest().len(),
    {
        proof {
            use_type_invariant(self);
        }
        self.data.len() - self.pos
    }

    /// Consumes one byte. At the end of the input it fails and consumes nothing.
    pub fn read_u8(&mut self) -> (r: TsFileResult<u8>)
        ensures
            old(self).rest().len() >= 1 ==> {
                &&& r == Ok::<u8, TsFileError>(old(self).rest()[0])
                &&& final(self).rest() == old(self).rest().drop_first()
                &&& final(self).consumed() == old(self).consumed() + 1
            },
            old(self).rest().len() == 0 ==> {
                &&& r matches Err(TsFileError::Io(_))
                &&& final(self).rest() == old(self).rest()
                &&& final(self).consumed() == old(self).consumed()
            },
    {
        proof {
            use_type_invariant(&*self);
        }
        if self.pos < self.data.len() {
            let b = self.data[self.pos];
            self.pos = self.pos + 1;
            assert(self.rest() =~= old(self).rest().drop_first());
            Ok(b)
        } else {
            Err(TsFileError::Io("failed to fill whole buffer".to_string()))
        }
    }

    /// Consumes exactly `n` bytes and returns them. When fewer are left it fails and
    /// consumes nothing.
    pub fn read_exact(&mut self, n: usize) -> (r: TsFileResult<Vec<u8>>)
        ensures
            n <= old(self).rest().len() ==> {
                &&& r matches Ok(v) && v@ == old(self).rest().take(n as int)
                &&& final(self).rest() == old(self).rest().skip(n as int)
                &&& final(self).consumed() == old(self).consumed() + n
            },
            n > old(self).rest().len() ==> {
                &&& r matches Err(TsFileError::Io(_))
                &&& final(self).rest() == old(self).rest()
                &&& final(self).consumed() == old(self).consumed()
            },
    {
        proof {
            use_type_invariant(&*self);
        }
        if n > self.data.len() - self.pos {
            return Err(TsFileError::Io("failed to fill whole buffer".to_string()));
        }
        let start = self.pos;
        let mut out: Vec<u8> = Vec::with_capacity(n);
        let mut i: usize = 0;
        while i < n
            invariant
                start + n <= self.data.len(),
                start == self.pos,
                i <= n,
                out@ == self.data@.subrange(start as int, start + i),
            decreases n - i,
        {
            out.push(self.data[start + i]);
            i = i + 1;
            assert(out@ =~= self.data@.subrange(start as int, start + i));
        }
        self.pos = start + n;
        assert(out@ =~= old(self).rest().take(n as int));
        assert(self.rest() =~= old(self).rest().skip(n as int));
        Ok(out)
    }
}

/// A copy of `data[start..end]`.
pub fn copy_range(data: &[u8], start: usize, end: usize) -> (out: Vec<u8>)
    requires
        start <= end <= data@.len(),
    ensures
        out@ == data@.subrange(start as int, end as int),
{
    let mut out: Vec<u8> = Vec::with_capacity(end - start);
    let mut i: usize = start;
    while i < end
        invariant
            start <= i <= end <= data@.len(),
            out@ == data@.subrange(start as int, i as int),
        decreases end - i,
    {
        out.push(data[i]);
        i = i + 1;
        assert(out@ =~= data@.subrange(start as int, i as int));
    }
    out
}

} // verus!
