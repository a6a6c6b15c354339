use vstd::prelude::*;

use super::ByteStream;
use crate::params::MARGIN_SIZE;

verus! {

/// Bytes a mock source adds each time more are asked for.
pub const MOCK_STEP: usize = 29 * 5;

/// An in-memory source that hands out a pattern in chunks growing by
/// `MOCK_STEP` bytes each time more are asked for.
pub struct MockSource {
    v: Vec<u8>,
    len: usize,
    offset: usize,
    chunk_len: usize,
}

impl MockSource {
    #[verifier::type_invariant]
    spec fn inv(&self) -> bool {
        &&& self.v@.len() == self.len + MARGIN_SIZE
        &&& self.len + MARGIN_SIZE <= usize::MAX
        &&& self.offset <= self.len
        &&& self.chunk_len <= self.len - self.offset
    }

    /// The pattern handed out.
    pub closed spec fn pattern(&self) -> Seq<u8> {
        self.v@.subrange(0, self.len as int)
    }

    /// Bytes of the pattern consumed so far.
    pub closed spec fn position(&self) -> nat {
        self.offset as nat
    }

    /// A source of `pattern`, followed by a margin of newlines.
    pub fn new(pattern: &[u8]) -> (r: Self)
        requires
            pattern@.len() + MARGIN_SIZE <= usize::MAX,
        ensures
            r.pattern() == pattern@,
            r.position() == 0,
            r.available() == 0,
            r.taken().len() == 0,
    {
        let mut v: Vec<u8> = Vec::new();
        let mut i: usize = 0;
        while i < pattern.len()
            invariant
                i <= pattern@.len(),
                v@ == pattern@.subrange(0, i as int),
            decreases pattern@.len() - i,
        {
            v.push(pattern[i]);
            i = i + 1;
        }
        let len = pattern.len();
        v.resize(len + MARGIN_SIZE, 0x0a);
        assert(v@.subrange(0, len as int) =~= pattern@);
        MockSource { v, len, offset: 0, chunk_len: 0 }
    }
}

impl ByteStream for MockSource {
    closed spec fn wf(&self) -> bool {
        true
    }

    closed spec fn available(&self) -> nat {
        self.chunk_len as nat
    }

    closed spec fn buffer(&self) -> Seq<u8> {
        self.v@.subrange(self.offset as int, self.offset + self.chunk_len + MARGIN_SIZE)
    }

    closed spec fn taken(&self) -> Seq<u8> {
        self.v@.subrange(0, self.offset as int)
    }

    fn fill_buf(&mut self) -> (r: std::io::Result<usize>)
        ensures
            r is Ok,
            final(self).pattern() == old(self).pattern(),
            final(self).position() == old(self).position(),
    {
        proof {
            use_type_invariant(&*self);
        }
        if self.offset >= self.len {
            return Ok(0);
        }
        if self.chunk_len == 0 {
            let rem = self.len - self.offset;
            self.chunk_len = if rem < MOCK_STEP {
                rem
            } else {
                MOCK_STEP
            };
        }
        Ok(self.chunk_len)
    }

    fn as_slice(&self) -> (r: &[u8])
        ensures
            r@.len() == self.available() + MARGIN_SIZE,
            r@.subrange(0, self.available() as int) == self.pattern().subrange(
                self.position() as int,
                (self.position() + self.available()) as int,
            ),
    {
        proof {
            use_type_invariant(self);
        }
        let r = vstd::slice::slice_subrange(
            self.v.as_slice(),
            self.offset,
            self.offset + self.chunk_len + MARGIN_SIZE,
        );
        assert(r@.subrange(0, self.chunk_len as int) =~= self.v@.subrange(0, self.len as int).subrange(
            self.offset as int,
            self.offset + self.chunk_len,
        ));
        r
    }

    fn consume(&mut self, amount: usize)
        ensures
            final(self).pattern() == old(self).pattern(),
            final(self).position() == old(self).position() + amount,
    {
        proof {
            use_type_invariant(&*self);
        }
        assert(self.v@.subrange(0, self.offset + amount) =~= self.v@.subrange(0, self.offset as int)
            + self.v@.subrange(self.offset as int, self.offset + self.chunk_len + MARGIN_SIZE).subrange(
            0,
            amount as int,
        ));
        let chunk = self.chunk_len - amount;
        self.chunk_len = chunk;
        self.offset = self.offset + amount;
        if amount == 0 {
            let rem = self.len - self.offset;
            self.chunk_len = if rem - chunk < MOCK_STEP {
                rem
            } else {
                chunk + MOCK_STEP
            };
        }
    }
}

} // verus!
