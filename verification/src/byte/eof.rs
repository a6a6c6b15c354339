use vstd::prelude::*;

use super::ByteStream;
use crate::params::{BLOCK_SIZE, MARGIN_SIZE};

verus! {

/// A byte stream that tells when its source has reached its end: a source
/// that, asked for more, stops growing.
pub struct EofStream<T: Sized + ByteStream> {
    src: T,
    len: usize,
    request: usize,
}

/// The least power of two not below `x`.
pub open spec fn next_pow2(x: int) -> int
    decreases x,
{
    if x <= 1 {
        1
    } else {
        2 * next_pow2((x + 1) / 2)
    }
}

/// The least power of two not below `x`.
fn next_power_of_two(x: usize) -> (r: usize)
    requires
        x <= usize::MAX / 2 + 1,
    ensures
        r == next_pow2(x as int),
    decreases x,
{
    if x <= 1 {
        1
    } else {
        proof {
            lemma_next_pow2_bound((x as int + 1) / 2);
        }
        2 * next_power_of_two((x + 1) / 2)
    }
}

proof fn lemma_next_pow2_bound(x: int)
    requires
        x >= 0,
    ensures
        next_pow2(x) >= x,
        x >= 1 ==> next_pow2(x) < 2 * x,
    decreases x,
{
    if x > 1 {
        lemma_next_pow2_bound((x + 1) / 2);
    }
}

impl<T: Sized + ByteStream> EofStream<T> {
    /// Bytes the stream has made available.
    pub closed spec fn len(&self) -> usize {
        self.len
    }

    /// Bytes the next `fill_buf` waits for before it stops asking for more.
    pub closed spec fn request(&self) -> usize {
        self.request
    }

    /// The source keeps its own invariant.
    pub closed spec fn wf(&self) -> bool {
        self.src.wf()
    }

    /// The source read from.
    pub closed spec fn source(&self) -> T {
        self.src
    }

    /// Wraps `src`; the first fill waits for a block.
    pub fn new(src: T) -> (r: Self)
        requires
            src.wf(),
        ensures
            r.wf(),
            r.len() == 0,
            r.request() == BLOCK_SIZE,
            r.source() == src,
    {
        EofStream { src, len: 0, request: BLOCK_SIZE }
    }

    /// Fills the buffer until it holds the bytes requested or the source
    /// stops growing: `(reached the end, bytes available)`.
    pub fn fill_buf(&mut self) -> (r: std::io::Result<(bool, usize)>)
        requires
            old(self).wf(),
        ensures
            final(self).wf(),
            final(self).request() == old(self).request(),
            r matches Ok(x) ==> x.1 == final(self).len() && x.1 == final(self).source().available(),
            r matches Ok(x) ==> (x.0 <==> x.1 < old(self).request()),
            final(self).source().taken() == old(self).source().taken(),
    {
        self.len = self.src.fill_buf()?;
        if self.len >= self.request {
            return Ok((false, self.len));
        }
        let mut prev_len = self.len;
        loop
            invariant
                self.src.wf(),
                prev_len == self.len,
                self.len == self.src.available(),
                self.len < self.request,
                self.request == old(self).request,
                self.src.taken() == old(self).src.taken(),
            decreases self.request - self.len,
        {
            self.src.consume(0);
            let len = self.src.fill_buf()?;
            self.len = len;
            if self.len >= self.request {
                return Ok((false, self.len));
            }
            if self.len == prev_len {
                return Ok((true, self.len));
            }
            prev_len = self.len;
        }
    }

    /// The buffer of the source.
    pub fn as_slice(&self) -> (r: &[u8])
        requires
            self.wf(),
        ensures
            r@ == self.source().buffer(),
            r@.len() >= self.source().available() + MARGIN_SIZE,
    {
        self.src.as_slice()
    }

    /// Drops `amount` bytes; a zero `amount` asks for half as much again
    /// (rounded up to a power of two), any other for at least a block.
    pub fn consume(&mut self, amount: usize)
        requires
            old(self).wf(),
            amount <= old(self).len(),
            old(self).len() == old(self).source().available(),
            old(self).len() + (old(self).len() + 1) / 2 <= usize::MAX / 2 + 1,
        ensures
            final(self).wf(),
            final(self).len() == old(self).len() - amount,
            amount == 0 ==> final(self).request() == next_pow2(
                old(self).len() + (old(self).len() + 1) / 2,
            ),
            final(self).request() > final(self).len(),
            final(self).source().taken() == old(self).source().taken() + old(
                self,
            ).source().buffer().subrange(0, amount as int),
            final(self).source().taken().len() == old(self).source().taken().len() + amount,
            amount > 0 ==> final(self).request() == (if old(self).len() - amount + 1 >= BLOCK_SIZE {
                old(self).len() - amount + 1
            } else {
                BLOCK_SIZE as int
            }),
    {
        self.src.consume(amount);
        self.len = self.len - amount;
        if amount == 0 {
            proof {
                lemma_next_pow2_bound(self.len + (self.len + 1) / 2);
            }
            self.request = next_power_of_two(self.len + (self.len + 1) / 2);
        } else {
            let l = self.len + 1;
            self.request = if l >= BLOCK_SIZE {
                l
            } else {
                BLOCK_SIZE
            };
        }
    }
}

} // verus!
