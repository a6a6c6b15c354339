use vstd::prelude::*;

use super::eof::EofStream;
use super::{invalid_stream_error, ByteStream};
use crate::byte::cut::{extend_bytes, set_margin};
use crate::params::MARGIN_SIZE;

verus! {

/// Byte streams read one after another, as one stream.
pub struct CatStream<S: ByteStream> {
    srcs: Vec<EofStream<S>>,
    /// The source read next; all before it have ended.
    i: usize,
    /// Bytes read and not consumed, then a margin of zeros.
    buf: Vec<u8>,
    len: usize,
    /// Bytes consumed so far.
    taken: Ghost<Seq<u8>>,
}

/// The parts one after another.
pub open spec fn joined(parts: Seq<Seq<u8>>) -> Seq<u8>
    decreases parts.len(),
{
    if parts.len() == 0 {
        seq![]
    } else {
        joined(parts.drop_last()) + parts.last()
    }
}

/// Parts after `i` that are empty add nothing.
proof fn lemma_joined_upto(parts: Seq<Seq<u8>>, i: int)
    requires
        0 <= i < parts.len(),
        forall|k: int| i < k < parts.len() ==> (#[trigger] parts[k]).len() == 0,
    ensures
        joined(parts) == joined(parts.subrange(0, i)) + parts[i],
    decreases parts.len(),
{
    if i == parts.len() - 1 {
        assert(parts.drop_last() =~= parts.subrange(0, i));
    } else {
        lemma_joined_upto(parts.drop_last(), i);
        assert(parts.drop_last().subrange(0, i) =~= parts.subrange(0, i));
        assert(joined(parts) =~= joined(parts.drop_last()) + parts.last());
        assert(parts.last().len() == 0);
        assert(joined(parts) =~= joined(parts.drop_last()));
    }
}

/// No part is anything.
proof fn lemma_joined_empty(parts: Seq<Seq<u8>>)
    requires
        forall|k: int| 0 <= k < parts.len() ==> (#[trigger] parts[k]).len() == 0,
    ensures
        joined(parts) == Seq::<u8>::empty(),
    decreases parts.len(),
{
    if parts.len() > 0 {
        lemma_joined_empty(parts.drop_last());
        assert(parts.last().len() == 0);
        assert(joined(parts) =~= Seq::<u8>::empty());
    }
}

/// Every source keeps its invariant and asks for some bytes.
pub open spec fn sources_ready<S: ByteStream>(srcs: Seq<EofStream<S>>) -> bool {
    forall|k: int| 0 <= k < srcs.len() ==> (#[trigger] srcs[k]).wf() && srcs[k].request() > 0
}

impl<S: ByteStream> CatStream<S> {
    /// The bytes read and not consumed.
    pub closed spec fn kept(&self) -> Seq<u8> {
        self.buf@.subrange(0, self.len as int)
    }

    /// Index of the source read next; the ones before it have ended.
    pub closed spec fn current(&self) -> nat {
        self.i as nat
    }

    /// The sources, in order.
    pub closed spec fn inputs(&self) -> Seq<S> {
        Seq::new(self.srcs@.len(), |k: int| self.srcs@[k].source())
    }

    /// Number of sources.
    pub closed spec fn count(&self) -> nat {
        self.srcs@.len()
    }

    /// The bytes taken from each source so far, source by source.
    pub closed spec fn drawn(&self) -> Seq<Seq<u8>> {
        Seq::new(self.srcs@.len(), |k: int| self.srcs@[k].source().taken())
    }

    /// What the stream has made of its sources: the bytes consumed and the
    /// bytes kept are the bytes taken from the sources, one source after
    /// another.
    pub proof fn lemma_concatenation(&self)
        requires
            self.wf(),
        ensures
            self.taken() + self.kept() == joined(self.drawn()),
    {
    }

    /// The sources `srcs`, read in turn.
    pub fn new(srcs: Vec<S>) -> (r: Self)
        requires
            forall|i: int| 0 <= i < srcs@.len() ==> (#[trigger] srcs@[i]).wf(),
            forall|i: int| 0 <= i < srcs@.len() ==> (#[trigger] srcs@[i]).taken().len() == 0,
        ensures
            r.wf(),
            r.kept().len() == 0,
            r.taken().len() == 0,
            r.current() == 0,
            r.count() == srcs@.len(),
            r.inputs() == srcs@,
            r.drawn().len() == srcs@.len(),
            forall|k: int| 0 <= k < srcs@.len() ==> (#[trigger] r.drawn()[k]).len() == 0,
    {
        let ghost srcs0 = srcs@;
        let mut srcs = srcs;
        let mut wrapped: Vec<EofStream<S>> = Vec::new();
        let ghost n = srcs@.len();
        while srcs.len() > 0
            invariant
                srcs@ == srcs0.subrange(wrapped@.len() as int, n as int),
                forall|i: int| 0 <= i < wrapped@.len() ==> (#[trigger] wrapped@[i]).source() == srcs0[i],
                n == srcs0.len(),
                forall|i: int| 0 <= i < srcs@.len() ==> (#[trigger] srcs@[i]).wf(),
                forall|i: int| 0 <= i < srcs@.len() ==> (#[trigger] srcs@[i]).taken().len() == 0,
                sources_ready(wrapped@),
                forall|i: int|
                    0 <= i < wrapped@.len() ==> (#[trigger] wrapped@[i]).source().taken().len() == 0,
                wrapped@.len() + srcs@.len() == n,
            decreases srcs@.len(),
        {
            let s = srcs.remove(0);
            wrapped.push(EofStream::new(s));
            proof {
                assert(srcs@ =~= srcs0.subrange(wrapped@.len() as int, n as int));
            }
        }
        let mut buf: Vec<u8> = Vec::new();
        buf.resize(MARGIN_SIZE, 0);
        let r = CatStream { srcs: wrapped, i: 0, buf, len: 0, taken: Ghost(Seq::empty()) };
        proof {
            assert forall|k: int| 0 <= k < r.drawn().len() implies (#[trigger] r.drawn()[k]).len()
                == 0 by {
                assert(r.drawn()[k] == wrapped@[k].source().taken());
            }
            lemma_joined_empty(r.drawn());
            assert(r.inputs() =~= srcs0);
            assert(r.taken() + r.kept() =~= Seq::<u8>::empty());
        }
        r
    }
}

impl<S: ByteStream> ByteStream for CatStream<S> {
    closed spec fn wf(&self) -> bool {
        &&& sources_ready(self.srcs@)
        &&& self.i <= self.srcs@.len()
        &&& forall|k: int|
            self.i < k < self.srcs@.len() ==> (#[trigger] self.srcs@[k]).source().taken().len() == 0
        &&& self.taken@ + self.buf@.subrange(0, self.len as int) == joined(self.drawn())
        &&& self.buf@.len() == self.len + MARGIN_SIZE
        &&& self.len <= usize::MAX / 2
    }

    closed spec fn available(&self) -> nat {
        self.len as nat
    }

    closed spec fn buffer(&self) -> Seq<u8> {
        self.buf@
    }

    closed spec fn taken(&self) -> Seq<u8> {
        self.taken@
    }

    /// Appends what the current source holds; a source that has ended
    /// hands over to the next, until one gives bytes or none is left.
    fn fill_buf(&mut self) -> (r: std::io::Result<usize>)
        ensures
            final(self).kept().len() >= old(self).kept().len(),
            final(self).kept().subrange(0, old(self).kept().len() as int) == old(self).kept(),
            final(self).current() >= old(self).current(),
            final(self).count() == old(self).count(),
            old(self).current() >= old(self).count() ==> r is Ok && final(self).kept() == old(
                self,
            ).kept(),
            r is Ok ==> final(self).kept().len() > old(self).kept().len() || final(self).current()
                == final(self).count(),
    {
        let n = self.srcs.len();
        let ghost kept0 = self.buf@.subrange(0, self.len as int);
        loop
            invariant
                self.taken == old(self).taken,
                self.wf(),
                n == self.srcs@.len(),
                n == old(self).srcs@.len(),
                kept0 == old(self).buf@.subrange(0, old(self).len as int),
                kept0.len() == old(self).len,
                self.len >= kept0.len(),
                self.buf@.subrange(0, kept0.len() as int) == kept0,
                self.i >= old(self).i,
                old(self).i >= n ==> self.len == old(self).len && self.buf@ == old(self).buf@,
                self.len == old(self).len,
            decreases n - self.i,
        {
            if self.i >= n {
                return Ok(self.len);
            }
            let idx = self.i;
            let ghost srcs0 = self.srcs@;
            let ghost d0 = self.drawn();
            let ghost kept1 = self.buf@.subrange(0, self.len as int);
            let mut s = self.srcs.remove(idx);
            let (is_eof, len) = match s.fill_buf() {
                Ok(x) => x,
                Err(e) => {
                    self.srcs.insert(idx, s);
                    proof {
                        assert(self.srcs@ =~= srcs0.update(idx as int, s));
                        assert(self.drawn() =~= d0);
                    }
                    return Err(e);
                },
            };
            if len > usize::MAX / 4 || self.len > usize::MAX / 4 {
                self.srcs.insert(idx, s);
                proof {
                    assert(self.srcs@ =~= srcs0.update(idx as int, s));
                    assert(self.drawn() =~= d0);
                }
                return Err(invalid_stream_error());
            }
            let prev = self.len;
            let ghost before = self.buf@.subrange(0, prev as int);
            self.buf.truncate(prev);
            assert(self.buf@ == before);
            let stream = s.as_slice();
            extend_bytes(&mut self.buf, vstd::slice::slice_subrange(stream, 0, len));
            let m = self.buf.len();
            assert(self.buf@.subrange(0, prev as int) == before);
            assert(self.buf@ =~= kept1 + stream@.subrange(0, len as int));
            set_margin(&mut self.buf, m);
            self.len = m;
            proof {
                assert(self.buf@.subrange(0, kept0.len() as int) =~= before.subrange(
                    0,
                    kept0.len() as int,
                ));
            }
            let ghost t0 = s.source().taken();
            let ghost fresh = s.source().buffer().subrange(0, len as int);
            assert(stream@ == s.source().buffer());
            assert(self.buf@.subrange(0, m as int) =~= kept1 + fresh);
            s.consume(len);
            self.srcs.insert(idx, s);
            proof {
                assert(self.srcs@ =~= srcs0.update(idx as int, s));
                let d1 = self.drawn();
                assert(d1 =~= d0.update(idx as int, t0 + fresh));
                assert(t0 == d0[idx as int]);
                assert forall|k: int| idx < k < d0.len() implies (#[trigger] d0[k]).len() == 0 by {
                    assert(d0[k] == srcs0[k].source().taken());
                }
                assert forall|k: int| idx < k < d1.len() implies (#[trigger] d1[k]).len() == 0 by {
                    assert(d1[k] == d0[k]);
                }
                lemma_joined_upto(d0, idx as int);
                lemma_joined_upto(d1, idx as int);
                assert(d1.subrange(0, idx as int) =~= d0.subrange(0, idx as int));
                assert(self.taken@ + self.buf@.subrange(0, self.len as int) =~= (self.taken@ + kept1)
                    + fresh);
                assert(joined(d1) =~= joined(d0) + fresh);
                assert(self.taken@ + self.buf@.subrange(0, self.len as int) == joined(self.drawn()));
            }
            if !is_eof {
                return Ok(self.len);
            }
            self.i = idx + 1;
            if len > 0 {
                return Ok(self.len);
            }
        }
    }

    fn as_slice(&self) -> (r: &[u8]) {
        self.buf.as_slice()
    }

    /// Drops the first `amount` bytes of the buffer.
    fn consume(&mut self, amount: usize)
        ensures
            final(self).available() == old(self).available() - amount,
            final(self).buffer() == old(self).buffer().subrange(amount as int, old(self).buffer().len() as int),
    {
        let ghost whole = self.taken@ + self.buf@.subrange(0, self.len as int);
        self.taken = Ghost(self.taken@ + self.buf@.subrange(0, amount as int));
        if amount == 0 {
            assert(self.buf@.subrange(0, self.buf@.len() as int) =~= self.buf@);
            assert(self.taken@ + self.buf@.subrange(0, self.len as int) =~= whole);
            return ;
        }
        let ghost old_buf = self.buf@;
        let rest = vstd::slice::slice_subrange(self.buf.as_slice(), amount, self.buf.len());
        self.buf = vstd::slice::slice_to_vec(rest);
        self.len = self.len - amount;
        assert(self.taken@ + self.buf@.subrange(0, self.len as int) =~= whole);
    }
}

} // verus!
