use vstd::prelude::*;

use super::eof::EofStream;
use super::{invalid_stream_error, ByteStream};
use crate::byte::cut::{extend_bytes, set_margin};
use crate::params::{BLOCK_SIZE, MARGIN_SIZE};

verus! {

/// Word `k` of every part, part after part.
pub open spec fn zip_row(parts: Seq<Seq<u8>>, w: int, k: int, m: int) -> Seq<u8>
    decreases m,
{
    if m <= 0 {
        seq![]
    } else {
        zip_row(parts, w, k, m - 1) + parts[m - 1].subrange(k * w, k * w + w)
    }
}

/// The first `words` words of the parts, interleaved: word 0 of every
/// part, then word 1 of every part, and so on.
pub open spec fn zipped(parts: Seq<Seq<u8>>, w: int, words: int) -> Seq<u8>
    decreases words,
{
    if words <= 0 {
        seq![]
    } else {
        zipped(parts, w, words - 1) + zip_row(parts, w, words - 1, parts.len() as int)
    }
}

/// Rows of words before `words` only read the parts' first `words` words.
proof fn lemma_zip_row_prefix(p: Seq<Seq<u8>>, q: Seq<Seq<u8>>, w: int, words: int, k: int, m: int)
    requires
        w > 0,
        0 <= k < words,
        0 <= m <= p.len(),
        p.len() == q.len(),
        forall|i: int| 0 <= i < p.len() ==> (#[trigger] p[i]).len() >= words * w,
        forall|i: int| 0 <= i < p.len() ==> #[trigger] q[i] == p[i].subrange(0, words * w),
    ensures
        zip_row(p, w, k, m) == zip_row(q, w, k, m),
    decreases m,
{
    if m > 0 {
        lemma_zip_row_prefix(p, q, w, words, k, m - 1);
        assert(k * w + w <= words * w) by (nonlinear_arith)
            requires
                0 <= k < words,
                w > 0,
        ;
        assert(k * w >= 0) by (nonlinear_arith)
            requires
                k >= 0,
                w > 0,
        ;
        assert(q[m - 1].subrange(k * w, k * w + w) =~= p[m - 1].subrange(k * w, k * w + w));
    }
}

/// Interleaving only reads the parts' first `words` words.
proof fn lemma_zipped_prefix(p: Seq<Seq<u8>>, q: Seq<Seq<u8>>, w: int, words: int, upto: int)
    requires
        w > 0,
        0 <= upto <= words,
        p.len() == q.len(),
        forall|i: int| 0 <= i < p.len() ==> (#[trigger] p[i]).len() >= words * w,
        forall|i: int| 0 <= i < p.len() ==> #[trigger] q[i] == p[i].subrange(0, words * w),
    ensures
        zipped(p, w, upto) == zipped(q, w, upto),
    decreases upto,
{
    if upto > 0 {
        lemma_zipped_prefix(p, q, w, words, upto - 1);
        lemma_zip_row_prefix(p, q, w, words, upto - 1, p.len() as int);
    }
}

/// Interleaves the first `words` words of `w` bytes of each part.
pub fn zip_words(parts: &Vec<Vec<u8>>, w: usize, words: usize) -> (r: Vec<u8>)
    requires
        w > 0,
        forall|i: int| 0 <= i < parts@.len() ==> words * w <= (#[trigger] parts@[i])@.len(),
        parts@.len() * words * w <= usize::MAX,
    ensures
        r@ == zipped(parts@.map_values(|p: Vec<u8>| p@), w as int, words as int),
        r@.len() == parts@.len() * words * w,
{
    let ghost ps = parts@.map_values(|p: Vec<u8>| p@);
    let n = parts.len();
    let mut out: Vec<u8> = Vec::new();
    let mut k: usize = 0;
    assert(n * 0 * w == 0) by (nonlinear_arith);
    while k < words
        invariant
            k <= words,
            w > 0,
            n == parts@.len(),
            ps == parts@.map_values(|p: Vec<u8>| p@),
            forall|i: int| 0 <= i < n ==> words * w <= (#[trigger] parts@[i])@.len(),
            n * words * w <= usize::MAX,
            out@ == zipped(ps, w as int, k as int),
            out@.len() == n * k * w,
        decreases words - k,
    {
        proof {
            assert((k + 1) * w <= words * w) by (nonlinear_arith)
                requires
                    k < words,
                    w > 0,
            ;
            assert(n * (k + 1) * w <= n * words * w) by (nonlinear_arith)
                requires
                    k < words,
                    w > 0,
            ;
        }
        let ghost before = out@;
        let mut i: usize = 0;
        while i < n
            invariant
                i <= n,
                k < words,
                w > 0,
                n == parts@.len(),
                ps == parts@.map_values(|p: Vec<u8>| p@),
                forall|j: int| 0 <= j < n ==> (k + 1) * w <= (#[trigger] parts@[j])@.len(),
                n * (k + 1) * w <= usize::MAX,
                out@ == before + zip_row(ps, w as int, k as int, i as int),
                before.len() == n * k * w,
                out@.len() == n * k * w + i * w,
            decreases n - i,
        {
            proof {
                assert(n * k * w + (i + 1) * w <= n * (k + 1) * w) by (nonlinear_arith)
                    requires
                        i < n,
                ;
                assert(k * w + w == (k + 1) * w) by (nonlinear_arith);
            }
            let plen = parts[i].len();
            assert(parts@[i as int]@.len() == plen);
            let part = vstd::slice::slice_subrange(parts[i].as_slice(), k * w, k * w + w);
            assert(ps[i as int] == parts@[i as int]@);
            extend_bytes(&mut out, part);
            proof {
                assert(n * k * w + i * w + w == n * k * w + (i + 1) * w) by (nonlinear_arith);
            }
            i = i + 1;
        }
        proof {
            assert(n * k * w + n * w == n * (k + 1) * w) by (nonlinear_arith);
        }
        k = k + 1;
    }
    out
}

/// Interleaves byte streams word by word, up to the end of the shortest.
pub struct ZipStream<S: ByteStream> {
    srcs: Vec<EofStream<S>>,
    word_size: usize,
    /// Bytes made and not consumed, then a margin of zeros.
    buf: Vec<u8>,
    len: usize,
    /// Bytes consumed so far.
    taken: Ghost<Seq<u8>>,
}

impl<S: ByteStream> ZipStream<S> {
    /// Number of streams interleaved.
    /// The sources, in order.
    pub closed spec fn inputs(&self) -> Seq<S> {
        Seq::new(self.srcs@.len(), |k: int| self.srcs@[k].source())
    }

    pub closed spec fn count(&self) -> nat {
        self.srcs@.len()
    }

    /// Bytes of a word.
    pub closed spec fn word(&self) -> usize {
        self.word_size
    }

    /// The bytes made and not consumed.
    pub closed spec fn kept(&self) -> Seq<u8> {
        self.buf@.subrange(0, self.len as int)
    }

    /// The bytes taken from each source so far, source by source.
    pub closed spec fn drawn(&self) -> Seq<Seq<u8>> {
        Seq::new(self.srcs@.len(), |k: int| self.srcs@[k].source().taken())
    }

    /// A stream interleaving `srcs` in words of `word_size` bytes; the word
    /// is at most a block, and there is at least one source.
    pub fn new(srcs: Vec<S>, word_size: usize) -> (r: std::io::Result<Self>)
        requires
            forall|i: int| 0 <= i < srcs@.len() ==> (#[trigger] srcs@[i]).wf(),
        ensures
            r is Err <==> (srcs@.len() == 0 || word_size == 0 || word_size > BLOCK_SIZE),
            r matches Ok(z) ==> z.wf() && z.count() == srcs@.len() && z.word() == word_size
                && z.kept().len() == 0 && z.inputs() == srcs@,
    {
        if srcs.len() == 0 || word_size == 0 || word_size > BLOCK_SIZE {
            return Err(invalid_stream_error());
        }
        let ghost srcs0 = srcs@;
        let mut srcs = srcs;
        let mut wrapped: Vec<EofStream<S>> = Vec::new();
        let ghost n = srcs@.len();
        while srcs.len() > 0
            invariant
                srcs@ == srcs0.subrange(wrapped@.len() as int, n as int),
                forall|i: int| 0 <= i < wrapped@.len() ==> (#[trigger] wrapped@[i]).source() == srcs0[i],
                n == srcs0.len(),
                forall|i: int| 0 <= i < srcs@.len() ==> (#[trigger] srcs@[i]).wf(),
                forall|i: int| 0 <= i < wrapped@.len() ==> (#[trigger] wrapped@[i]).wf(),
                wrapped@.len() + srcs@.len() == n,
            decreases srcs@.len(),
        {
            let s = srcs.remove(0);
            wrapped.push(EofStream::new(s));
            proof {
                assert(srcs@ =~= srcs0.subrange(wrapped@.len() as int, n as int));
            }
        }
        let mut buf: Vec<u8> = Vec::new();
        buf.resize(MARGIN_SIZE, 0);
        let r = ZipStream { srcs: wrapped, word_size, buf, len: 0, taken: Ghost(Seq::empty()) };
        assert(r.inputs() =~= srcs0);
        Ok(r)
    }
}

impl<S: ByteStream> ByteStream for ZipStream<S> {
    closed spec fn wf(&self) -> bool {
        &&& forall|i: int| 0 <= i < self.srcs@.len() ==> (#[trigger] self.srcs@[i]).wf()
        &&& 0 < self.word_size <= BLOCK_SIZE
        &&& self.buf@.len() == self.len + MARGIN_SIZE
        &&& self.len <= usize::MAX / 2
    }

    closed spec fn available(&self) -> nat {
        self.len as nat
    }

    closed spec fn buffer(&self) -> Seq<u8> {
        self.buf@
    }

    closed spec fn taken(&self) -> Seq<u8> {
        self.taken@
    }

    /// Fills every source, interleaves the whole words all of them hold,
    /// and consumes those from each: the bytes added are the words taken
    /// from the sources, word 0 of every source, then word 1, and so on.
    fn fill_buf(&mut self) -> (r: std::io::Result<usize>)
        ensures
            final(self).count() == old(self).count(),
            final(self).word() == old(self).word(),
            final(self).drawn().len() == old(self).drawn().len(),
            forall|k: int|
                0 <= k < old(self).drawn().len() ==> (#[trigger] final(self).drawn()[k]).subrange(
                    0,
                    old(self).drawn()[k].len() as int,
                ) == old(self).drawn()[k],
            r is Err ==> final(self).kept() == old(self).kept() && final(self).drawn() == old(
                self,
            ).drawn(),
            r is Ok && old(self).count() > 0 ==> ({
                let fresh = Seq::new(
                    old(self).count(),
                    |k: int|
                        final(self).drawn()[k].subrange(
                            old(self).drawn()[k].len() as int,
                            final(self).drawn()[k].len() as int,
                        ),
                );
                let words = (fresh[0].len() as int) / (old(self).word() as int);
                &&& forall|k: int| 0 <= k < fresh.len() ==> (#[trigger] fresh[k]).len() == words
                    * old(self).word()
                &&& final(self).kept() == old(self).kept() + zipped(fresh, old(self).word() as int, words)
            }),
    {
        let n = self.srcs.len();
        if self.len > usize::MAX / 4 {
            return Err(invalid_stream_error());
        }
        let ghost d0 = self.drawn();
        let mut parts: Vec<Vec<u8>> = Vec::new();
        let mut least: usize = usize::MAX;
        let mut i: usize = 0;
        while i < n
            invariant
                self.taken == old(self).taken,
                i <= n,
                n == self.srcs@.len(),
                self.wf(),
                self.len == old(self).len,
                self.buf == old(self).buf,
                self.drawn() == d0,
                d0 == old(self).drawn(),
                self.word_size == old(self).word_size,
                forall|j: int|
                    0 <= j < i ==> (#[trigger] parts@[j])@ == self.srcs@[j].source().buffer().subrange(
                        0,
                        self.srcs@[j].len() as int,
                    ),
                forall|j: int|
                    0 <= j < i ==> (#[trigger] self.srcs@[j]).source().buffer().len() >= self.srcs@[j].len(),
                self.len <= usize::MAX / 4,
                parts@.len() == i,
                least <= usize::MAX,
                forall|j: int| 0 <= j < i ==> least <= (#[trigger] parts@[j])@.len(),
                i > 0 ==> least <= usize::MAX / 4,
                forall|j: int| 0 <= j < i ==> (#[trigger] self.srcs@[j]).len() == self.srcs@[j].source().available(),
                forall|j: int| 0 <= j < i ==> (#[trigger] self.srcs@[j]).len() <= usize::MAX / 4,
                forall|j: int| 0 <= j < i ==> least <= (#[trigger] self.srcs@[j]).len(),
            decreases n - i,
        {
            let ghost srcs0 = self.srcs@;
            let mut s = self.srcs.remove(i);
            let (_, len) = match s.fill_buf() {
                Ok(x) => x,
                Err(e) => {
                    self.srcs.insert(i, s);
                    proof {
                        assert(self.srcs@ =~= srcs0.update(i as int, s));
                        assert(self.drawn() =~= d0);
                    }
                    return Err(e);
                },
            };
            if len > usize::MAX / 4 {
                self.srcs.insert(i, s);
                proof {
                    assert(self.srcs@ =~= srcs0.update(i as int, s));
                    assert(self.drawn() =~= d0);
                }
                return Err(invalid_stream_error());
            }
            let stream = s.as_slice();
            let part = vstd::slice::slice_to_vec(vstd::slice::slice_subrange(stream, 0, len));
            parts.push(part);
            if len < least {
                least = len;
            }
            self.srcs.insert(i, s);
            proof {
                assert(self.srcs@ =~= srcs0.update(i as int, s));
                assert(self.drawn() =~= d0);
                assert(stream@ == s.source().buffer());
            }
            i = i + 1;
        }
        let w = self.word_size;
        let words = if n > 0 {
            least / w
        } else {
            0
        };
        proof {
            if n > 0 {
                assert(words * w <= least) by (nonlinear_arith)
                    requires
                        words == least / w,
                        w > 0,
                ;
            }
        }
        if words == 0 {
            proof {
                let fresh = Seq::new(
                    old(self).count(),
                    |k: int|
                        self.drawn()[k].subrange(
                            old(self).drawn()[k].len() as int,
                            self.drawn()[k].len() as int,
                        ),
                );
                assert forall|k: int| 0 <= k < fresh.len() implies (#[trigger] fresh[k]).len() == 0 by {}
                if n > 0 {
                    assert(fresh[0].len() == 0);
                    let words0 = (fresh[0].len() as int) / (old(self).word() as int);
                    assert(words0 == 0);
                    assert forall|k: int| 0 <= k < fresh.len() implies (#[trigger] fresh[k]).len()
                        == words0 * old(self).word() by {}
                    assert(zipped(fresh, old(self).word() as int, words0) =~= Seq::<u8>::empty());
                }
                assert(self.buf@.subrange(0, self.len as int) =~= old(self).buf@.subrange(
                    0,
                    old(self).len as int,
                ) + zipped(fresh, w as int, 0));
            }
            return Ok(self.len);
        }
        if n > usize::MAX / 4 / least {
            return Err(invalid_stream_error());
        }
        proof {
            assert(n * words * w <= n * least) by (nonlinear_arith)
                requires
                    words * w <= least,
            ;
            assert(n * least <= usize::MAX / 4) by (nonlinear_arith)
                requires
                    n <= usize::MAX / 4 / least,
                    least > 0,
            ;
        }
        let out = zip_words(&parts, w, words);
        let used = words * w;
        let ghost mid = self.srcs@;
        let mut j: usize = 0;
        while j < n
            invariant
                self.taken == old(self).taken,
                j <= n,
                n == self.srcs@.len(),
                self.wf(),
                self.len == old(self).len,
                self.buf == old(self).buf,
                self.word_size == old(self).word_size,
                self.srcs@.len() == n,
                forall|k: int| j <= k < n ==> #[trigger] self.srcs@[k] == mid[k],
                forall|k: int|
                    0 <= k < j ==> (#[trigger] self.srcs@[k]).source().taken() == d0[k] + parts@[k]@.subrange(
                        0,
                        used as int,
                    ),
                forall|k: int|
                    0 <= k < n ==> (#[trigger] parts@[k])@ == mid[k].source().buffer().subrange(
                        0,
                        mid[k].len() as int,
                    ),
                forall|k: int| 0 <= k < n ==> #[trigger] mid[k].source().taken() == d0[k],
                forall|k: int| 0 <= k < n ==> (#[trigger] mid[k]).source().buffer().len() >= mid[k].len(),
                parts@.len() == n,
                used <= least,
                forall|k: int| j <= k < n ==> (#[trigger] self.srcs@[k]).len() == self.srcs@[k].source().available(),
                forall|k: int| j <= k < n ==> (#[trigger] self.srcs@[k]).len() <= usize::MAX / 4,
                forall|k: int| j <= k < n ==> least <= (#[trigger] self.srcs@[k]).len(),
            decreases n - j,
        {
            let ghost srcs0 = self.srcs@;
            assert(self.srcs@[j as int] == mid[j as int]);
            assert(used <= mid[j as int].len());
            let ghost pj = parts@[j as int]@;
            assert(pj == mid[j as int].source().buffer().subrange(0, mid[j as int].len() as int));
            assert(pj.subrange(0, used as int) =~= mid[j as int].source().buffer().subrange(
                0,
                used as int,
            ));
            let mut s = self.srcs.remove(j);
            assert(s == mid[j as int]);
            s.consume(used);
            self.srcs.insert(j, s);
            proof {
                assert(self.srcs@ =~= srcs0.update(j as int, s));
            }
            j = j + 1;
        }
        proof {
            let fresh = Seq::new(
                old(self).count(),
                |k: int|
                    self.drawn()[k].subrange(old(self).drawn()[k].len() as int, self.drawn()[k].len() as int),
            );
            let ps = parts@.map_values(|p: Vec<u8>| p@);
            assert forall|k: int| 0 <= k < n implies #[trigger] fresh[k] == ps[k].subrange(
                0,
                used as int,
            ) by {
                assert(self.drawn()[k] == d0[k] + parts@[k]@.subrange(0, used as int));
                assert(fresh[k] =~= parts@[k]@.subrange(0, used as int));
            }
            assert((words * w) / (w as int) == words) by (nonlinear_arith)
                requires
                    w > 0,
            ;
            lemma_zipped_prefix(ps, fresh, w as int, words as int, words as int);
        }
        let prev = self.len;
        self.buf.truncate(prev);
        extend_bytes(&mut self.buf, out.as_slice());
        let m = self.buf.len();
        set_margin(&mut self.buf, m);
        self.len = m;
        Ok(m)
    }

    fn as_slice(&self) -> (r: &[u8]) {
        self.buf.as_slice()
    }

    /// Drops the first `amount` bytes of the buffer.
    fn consume(&mut self, amount: usize)
        ensures
            final(self).available() == old(self).available() - amount,
            final(self).buffer() == old(self).buffer().subrange(amount as int, old(self).buffer().len() as int),
    {
        self.taken = Ghost(self.taken@ + self.buf@.subrange(0, amount as int));
        if amount == 0 {
            assert(self.buf@.subrange(0, self.buf@.len() as int) =~= self.buf@);
            return ;
        }
        let rest = vstd::slice::slice_subrange(self.buf.as_slice(), amount, self.buf.len());
        self.buf = vstd::slice::slice_to_vec(rest);
        self.len = self.len - amount;
    }
}

} // verus!
