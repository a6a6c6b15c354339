use vstd::prelude::*;

use super::ByteStream;
use crate::params::{BLOCK_SIZE, MARGIN_SIZE};

verus! {

/// A stream of `len` copies of one byte.
pub struct ZeroStream {
    offset: usize,
    len: usize,
    next_len: usize,
    buf: Vec<u8>,
    filler: u8,
}

impl ZeroStream {
    #[verifier::type_invariant]
    spec fn inv(&self) -> bool {
        &&& self.offset <= self.len
        &&& self.next_len <= self.len - self.offset
        &&& forall|i: int| 0 <= i < self.buf@.len() ==> self.buf@[i] == self.filler
        &&& self.buf@.len() >= self.next_len + MARGIN_SIZE
        &&& self.len <= usize::MAX - MARGIN_SIZE
    }

    /// Bytes of the stream not yet consumed.
    pub closed spec fn remaining(&self) -> nat {
        (self.len - self.offset) as nat
    }

    /// The byte the stream is made of.
    pub closed spec fn filler_byte(&self) -> u8 {
        self.filler
    }

    /// `len` bytes of `filler`, handed out a block at a time.
    pub fn new(len: usize, filler: u8) -> (r: Self)
        requires
            len <= usize::MAX - MARGIN_SIZE,
        ensures
            r.remaining() == len,
            r.filler_byte() == filler,
            r.available() == if len < BLOCK_SIZE {
                len
            } else {
                BLOCK_SIZE
            },
    {
        let mut buf: Vec<u8> = Vec::new();
        buf.resize(BLOCK_SIZE + MARGIN_SIZE, filler);
        assert forall|i: int| 0 <= i < buf@.len() implies buf@[i] == filler by {
            assert(cloned::<u8>(filler, buf@[i]));
        }
        let next_len = if len < BLOCK_SIZE {
            len
        } else {
            BLOCK_SIZE
        };
        ZeroStream { offset: 0, len, next_len, buf, filler }
    }
}

impl ZeroStream {
    /// Every byte shown is the filler, so the bytes kept after a consume
    /// match the ones shown before.
    proof fn lemma_fillers_shift(&self, ob: Seq<u8>, on: usize, f: u8, amount: usize)
        requires
            self.inv(),
            self.filler == f,
            forall|i: int| 0 <= i < ob.len() ==> ob[i] == f,
            ob.len() == on + MARGIN_SIZE,
            amount <= on,
        ensures
            ({
                let k = if self.available() < on - amount {
                    self.available() as int
                } else {
                    on - amount
                };
                self.buffer().subrange(0, k) == ob.subrange(amount as int, amount + k)
            }),
    {
        let k = if self.available() < on - amount {
            self.available() as int
        } else {
            on - amount
        };
        assert(self.buffer().subrange(0, k) =~= ob.subrange(amount as int, amount + k));
    }

    /// Makes `next` bytes available, sizing the buffer to them and the
    /// margin (only growing it unless `exact`).
    fn set_available(&mut self, next: usize, exact: bool)
        requires
            next <= old(self).len - old(self).offset,
        ensures
            final(self).remaining() == old(self).remaining(),
            final(self).filler_byte() == old(self).filler_byte(),
            final(self).available() == next,
            final(self).offset == old(self).offset,
            final(self).len == old(self).len,
            final(self).filler == old(self).filler,
    {
        proof {
            use_type_invariant(&*self);
        }
        let filler = self.filler;
        self.next_len = 0;
        let mut buf: Vec<u8> = Vec::new();
        buf.resize(MARGIN_SIZE, filler);
        assert forall|i: int| 0 <= i < buf@.len() implies buf@[i] == filler by {
            assert(cloned::<u8>(filler, buf@[i]));
        }
        std::mem::swap(&mut buf, &mut self.buf);
        let ghost before = buf@;
        if exact || buf.len() < next + MARGIN_SIZE {
            buf.resize(next + MARGIN_SIZE, filler);
        }
        assert forall|i: int| 0 <= i < buf@.len() implies buf@[i] == filler by {
            if i >= before.len() {
                assert(cloned::<u8>(filler, buf@[i]));
            } else {
                assert(buf@[i] == before[i]);
            }
        }
        self.buf = buf;
        self.next_len = next;
    }
}

impl ByteStream for ZeroStream {
    closed spec fn wf(&self) -> bool {
        true
    }

    closed spec fn available(&self) -> nat {
        self.next_len as nat
    }

    closed spec fn buffer(&self) -> Seq<u8> {
        self.buf@.subrange(0, self.next_len + MARGIN_SIZE)
    }

    closed spec fn taken(&self) -> Seq<u8> {
        Seq::new(self.offset as nat, |i: int| self.filler)
    }

    fn fill_buf(&mut self) -> (r: std::io::Result<usize>)
        ensures
            r matches Ok(n) ==> n == final(self).available(),
            r is Ok,
            final(self).remaining() == old(self).remaining(),
            final(self).filler_byte() == old(self).filler_byte(),
            final(self).available() == old(self).available(),
    {
        proof {
            use_type_invariant(&*self);
        }
        if self.offset >= self.len {
            return Ok(0);
        }
        let next = self.next_len;
        self.set_available(next, true);
        Ok(self.next_len)
    }

    fn as_slice(&self) -> (r: &[u8])
        ensures
            forall|i: int| 0 <= i < r@.len() ==> r@[i] == self.filler_byte(),
    {
        proof {
            use_type_invariant(self);
        }
        vstd::slice::slice_subrange(self.buf.as_slice(), 0, self.next_len + MARGIN_SIZE)
    }

    fn consume(&mut self, amount: usize)
        ensures
            final(self).filler_byte() == old(self).filler_byte(),
            final(self).remaining() == old(self).remaining() - amount,
            amount == 0 ==> final(self).available() == (if old(self).available() > old(
                self,
            ).remaining() / 2 {
                old(self).remaining()
            } else {
                2 * old(self).available()
            }),
            amount > 0 ==> final(self).available() == (if old(self).remaining() - amount
                < BLOCK_SIZE {
                (old(self).remaining() - amount) as nat
            } else {
                BLOCK_SIZE as nat
            }),
    {
        proof {
            use_type_invariant(&*self);
        }
        let ghost ob = self.buf@.subrange(0, self.next_len + MARGIN_SIZE);
        let ghost on = self.next_len;
        let ghost f = self.filler;
        let rem = self.len - self.offset;
        if amount == 0 {
            let next = if self.next_len > rem / 2 {
                rem
            } else {
                2 * self.next_len
            };
            self.set_available(next, false);
            proof {
                use_type_invariant(&*self);
                self.lemma_fillers_shift(ob, on, f, amount);
            }
            return ;
        }
        let rem = rem - amount;
        let next = if rem < BLOCK_SIZE {
            rem
        } else {
            BLOCK_SIZE
        };
        self.set_available(0, false);
        proof {
            use_type_invariant(&*self);
        }
        self.offset = self.offset + amount;
        self.set_available(next, false);
        proof {
            use_type_invariant(&*self);
            self.lemma_fillers_shift(ob, on, f, amount);
        }
    }
}

} // verus!
