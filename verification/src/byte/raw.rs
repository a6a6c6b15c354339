use vstd::prelude::*;

use super::text::append_filler;
use super::{align_padding, invalid_stream_error, ByteStream};
use crate::byte::cut::{extend_bytes, set_margin};
use crate::params::{BLOCK_SIZE, MARGIN_SIZE};

verus! {

/// Where raw bytes come from: each call hands out the next at most `max`
/// bytes, none at the end.
pub trait Reader {
    fn read_chunk(&mut self, max: usize) -> std::io::Result<Vec<u8>>;
}

/// The bytes of a reader, its length brought to a multiple of `align` with
/// `filler` bytes once it has ended.
pub struct RawStream<R: Reader> {
    src: R,
    /// Bytes read and not consumed, then a margin of zeros.
    buf: Vec<u8>,
    len: usize,
    total: usize,
    align: usize,
    filler: u8,
    eof: bool,
    /// Bytes consumed so far.
    taken: Ghost<Seq<u8>>,
    /// Bytes the reader has handed out so far.
    read: Ghost<Seq<u8>>,
}

impl<R: Reader> RawStream<R> {
    /// Bytes handed out so far, consumed or not, padding included.
    pub closed spec fn total(&self) -> usize {
        self.total
    }

    /// Whether the reader has ended.
    pub closed spec fn ended(&self) -> bool {
        self.eof
    }

    /// The length the stream is padded to a multiple of.
    pub closed spec fn align(&self) -> usize {
        self.align
    }

    /// The bytes read and not consumed.
    pub closed spec fn kept(&self) -> Seq<u8> {
        self.buf@.subrange(0, self.len as int)
    }

    /// The bytes the reader has handed out so far.
    pub closed spec fn read(&self) -> Seq<u8> {
        self.read@
    }

    /// The byte the stream is padded with.
    pub closed spec fn filler(&self) -> u8 {
        self.filler
    }

    /// The reader read from.
    pub closed spec fn reader(&self) -> R {
        self.src
    }

    /// What the stream hands out is what the reader handed out, then (once
    /// it has ended) filler up to a multiple of the alignment: the bytes
    /// consumed and the bytes kept are the bytes read and the padding.
    pub proof fn lemma_read_then_padding(&self)
        requires
            self.wf(),
        ensures
            self.taken() + self.kept() == self.read() + Seq::new(
                (self.total() - self.read().len()) as nat,
                |i: int| self.filler(),
            ),
            self.read().len() <= self.total(),
            !self.ended() ==> self.read().len() == self.total(),
            self.ended() ==> (self.total() as int) % (self.align() as int) == 0,
    {
    }

    /// Takes a chunk the reader handed out: a non-empty chunk is appended
    /// to the bytes kept; an empty one ends the stream, padding it to a
    /// multiple of the alignment. Gives the bytes available.
    pub fn take_chunk(&mut self, chunk: &[u8]) -> (r: usize)
        requires
            old(self).wf(),
            !old(self).ended(),
            chunk@.len() <= BLOCK_SIZE,
            old(self).kept().len() <= usize::MAX / 4,
            old(self).total() <= usize::MAX / 2,
            old(self).align() <= usize::MAX / 4,
        ensures
            final(self).wf(),
            r == final(self).kept().len(),
            final(self).read() == old(self).read() + chunk@,
            final(self).taken() == old(self).taken(),
            final(self).align() == old(self).align(),
            final(self).filler() == old(self).filler(),
            chunk@.len() > 0 ==> !final(self).ended() && final(self).kept() == old(self).kept() + chunk@
                && final(self).total() == old(self).total() + chunk@.len(),
            chunk@.len() == 0 ==> final(self).ended() && final(self).total() - old(self).total() < old(
                self,
            ).align() && (final(self).total() as int) % (old(self).align() as int) == 0
                && final(self).kept() == old(self).kept() + Seq::new(
                (final(self).total() - old(self).total()) as nat,
                |i: int| old(self).filler(),
            ),
    {
        let n = chunk.len();
        let prev = self.len;
        let ghost before = self.buf@.subrange(0, prev as int);
        let ghost whole = self.taken@ + before;
        self.buf.truncate(prev);
        assert(self.buf@ == before);
        proof {
            assert(Seq::new((self.total - self.read@.len()) as nat, |i: int| self.filler) =~= Seq::<
                u8,
            >::empty());
            assert(whole =~= self.read@);
        }
        let ghost added: Seq<u8>;
        if n == 0 {
            let pad = align_padding(self.total, self.align);
            append_filler(&mut self.buf, pad, self.filler);
            proof {
                added = Seq::new(pad as nat, |i: int| self.filler);
            }
            self.total = self.total + pad;
            self.eof = true;
            assert(chunk@ =~= Seq::<u8>::empty());
            self.read = Ghost(self.read@ + chunk@);
            assert(self.read@ =~= whole);
        } else {
            extend_bytes(&mut self.buf, chunk);
            proof {
                added = chunk@;
            }
            self.total = self.total + n;
            self.read = Ghost(self.read@ + chunk@);
        }
        let m = self.buf.len();
        let ghost grown = self.buf@;
        assert(grown =~= before + added);
        set_margin(&mut self.buf, m);
        self.len = m;
        assert(self.buf@.subrange(0, m as int) == grown);
        proof {
            assert(self.taken@ + self.buf@.subrange(0, self.len as int) =~= whole + added);
            if n == 0 {
                assert(self.read@ + Seq::new((self.total - self.read@.len()) as nat, |i: int| self.filler)
                    =~= whole + added);
            } else {
                assert(Seq::new((self.total - self.read@.len()) as nat, |i: int| self.filler) =~= Seq::<
                    u8,
                >::empty());
                assert(self.read@ + Seq::new((self.total - self.read@.len()) as nat, |i: int| self.filler)
                    =~= whole + added);
            }
        }
        m
    }

    /// The bytes of `src`, padded with `filler` to a multiple of `align`.
    pub fn new(src: R, align: usize, filler: u8) -> (r: Self)
        requires
            align > 0,
        ensures
            r.wf(),
            r.total() == 0,
            !r.ended(),
            r.align() == align,
            r.kept().len() == 0,
            r.taken().len() == 0,
            r.read().len() == 0,
            r.reader() == src,
            r.filler() == filler,
    {
        let mut buf: Vec<u8> = Vec::new();
        buf.resize(MARGIN_SIZE, 0);
        RawStream {
            src,
            buf,
            len: 0,
            total: 0,
            align,
            filler,
            eof: false,
            taken: Ghost(Seq::empty()),
            read: Ghost(Seq::empty()),
        }
    }
}

impl<R: Reader> ByteStream for RawStream<R> {
    closed spec fn wf(&self) -> bool {
        &&& self.buf@.len() == self.len + MARGIN_SIZE
        &&& self.len <= usize::MAX / 2
        &&& self.len <= self.total
        &&& self.align > 0
        &&& self.eof ==> (self.total as int) % (self.align as int) == 0
        &&& self.read@.len() <= self.total
        &&& !self.eof ==> self.read@.len() == self.total
        &&& self.taken@ + self.buf@.subrange(0, self.len as int) == self.read@ + Seq::new(
            (self.total - self.read@.len()) as nat,
            |i: int| self.filler,
        )
    }

    closed spec fn available(&self) -> nat {
        self.len as nat
    }

    closed spec fn buffer(&self) -> Seq<u8> {
        self.buf@
    }

    closed spec fn taken(&self) -> Seq<u8> {
        self.taken@
    }

    /// Reads a block at most; at the end, pads to a multiple of the
    /// alignment.
    fn fill_buf(&mut self) -> (r: std::io::Result<usize>)
        ensures
            final(self).kept().len() >= old(self).kept().len(),
            final(self).kept().subrange(0, old(self).kept().len() as int) == old(self).kept(),
            final(self).total() - old(self).total() == final(self).kept().len() - old(self).kept().len(),
            final(self).align() == old(self).align(),
            final(self).ended() ==> (final(self).total() as int) % (final(self).align() as int) == 0,
            old(self).ended() ==> final(self).kept() == old(self).kept() && r is Ok,
            final(self).filler() == old(self).filler(),
            r is Err ==> final(self).kept() == old(self).kept() && final(self).read() == old(
                self,
            ).read(),
            !old(self).ended() && r is Ok ==> ({
                let chunk = final(self).read().subrange(
                    old(self).read().len() as int,
                    final(self).read().len() as int,
                );
                &&& final(self).read() == old(self).read() + chunk
                &&& chunk.len() <= BLOCK_SIZE
                &&& chunk.len() > 0 ==> final(self).kept() == old(self).kept() + chunk
                &&& chunk.len() == 0 ==> final(self).ended() && final(self).kept() == old(
                    self,
                ).kept() + Seq::new(
                    (final(self).total() - old(self).total()) as nat,
                    |i: int| old(self).filler(),
                )
            }),
    {
        if self.eof {
            return Ok(self.len);
        }
        if self.len > usize::MAX / 4 {
            return Err(invalid_stream_error());
        }
        let chunk = self.src.read_chunk(BLOCK_SIZE)?;
        let n = chunk.len();
        if n > BLOCK_SIZE || self.align > usize::MAX / 4 || self.total > usize::MAX / 2 {
            return Err(invalid_stream_error());
        }
        let ghost read0 = self.read@;
        let m = self.take_chunk(chunk.as_slice());
        assert(self.read@.subrange(read0.len() as int, self.read@.len() as int) =~= chunk@);
        Ok(m)
    }

    fn as_slice(&self) -> (r: &[u8]) {
        self.buf.as_slice()
    }

    /// Drops the first `amount` bytes of the buffer.
    fn consume(&mut self, amount: usize)
        ensures
            final(self).available() == old(self).available() - amount,
            final(self).buffer() == old(self).buffer().subrange(amount as int, old(self).buffer().len() as int),
    {
        let ghost whole = self.taken@ + self.buf@.subrange(0, self.len as int);
        self.taken = Ghost(self.taken@ + self.buf@.subrange(0, amount as int));
        if amount == 0 {
            assert(self.buf@.subrange(0, self.buf@.len() as int) =~= self.buf@);
            assert(self.taken@ + self.buf@.subrange(0, self.len as int) =~= whole);
            return ;
        }
        let rest = vstd::slice::slice_subrange(self.buf.as_slice(), amount, self.buf.len());
        self.buf = vstd::slice::slice_to_vec(rest);
        self.len = self.len - amount;
        assert(self.taken@ + self.buf@.subrange(0, self.len as int) =~= whole);
    }
}

} // verus!
