use vstd::prelude::*;

use super::eof::EofStream;
use super::text::append_filler;
use super::{invalid_stream_error, ByteStream};
use crate::byte::cut::{extend_bytes, set_margin};
use crate::params::{BLOCK_SIZE, MARGIN_SIZE};

verus! {

/// Padding, clipping and length of a stream, in the order they apply:
/// `pad.0` and `pad.1` bytes of filler around the input, then `clip.0` and
/// `clip.1` bytes dropped at either end, then at most `len` bytes kept.
#[derive(Copy, Clone, Debug, PartialEq, Eq)]
pub struct ClipperParams {
    pub pad: (usize, usize),
    pub clip: (usize, usize),
    pub len: usize,
}

/// Number of positions in `start..end` (none when `end < start`).
pub open spec fn range_len(start: usize, end: usize) -> usize {
    if end >= start {
        (end - start) as usize
    } else {
        0
    }
}

/// The range kept: all of the stream when absent.
pub open spec fn range_or_all(range: Option<std::ops::Range<usize>>) -> (usize, usize) {
    match range {
        Some(r) => (r.start, r.end),
        None => (0usize, usize::MAX),
    }
}

/// Bytes to drop at the head, before padding is taken into account.
pub open spec fn head_skip(seek: Option<usize>, range: Option<std::ops::Range<usize>>) -> int {
    (match seek {
        Some(s) => s,
        None => 0usize,
    }) + range_or_all(range).0
}

/// Canonical padding, clipping and length for padding `pad`, then dropping
/// `seek` bytes, then keeping `range`: head padding and head clip cancel,
/// and padding beyond the range is cut to it.
pub open spec fn clipper_of(
    pad: Option<(usize, usize)>,
    seek: Option<usize>,
    range: Option<std::ops::Range<usize>>,
) -> ClipperParams {
    let (head_pad, tail_pad) = match pad {
        Some(p) => p,
        None => (0usize, 0usize),
    };
    let skip = head_skip(seek, range);
    let rlen = range_len(range_or_all(range).0, range_or_all(range).1);
    let (head_pad, head_clip) = if skip > head_pad {
        (0usize, (skip - head_pad) as usize)
    } else {
        ((head_pad - skip) as usize, 0usize)
    };
    let (head_pad, len) = if head_pad > rlen {
        (rlen, 0usize)
    } else if rlen != usize::MAX {
        (head_pad, (rlen - head_pad) as usize)
    } else {
        (head_pad, usize::MAX)
    };
    ClipperParams { pad: (head_pad, tail_pad), clip: (head_clip, 0), len }
}

impl ClipperParams {
    /// Fuses padding, a seek and a range into one set of parameters. Tail
    /// padding is only defined on an unbounded range.
    pub fn from_raw(
        pad: Option<(usize, usize)>,
        seek: Option<usize>,
        range: Option<std::ops::Range<usize>>,
    ) -> (r: Self)
        requires
            head_skip(seek, range) <= usize::MAX,
            (match pad {
                Some(p) => p.1,
                None => 0usize,
            }) == 0 || clipper_of(pad, seek, range).len == usize::MAX,
        ensures
            r == clipper_of(pad, seek, range),
            r.pad.0 == 0 || r.clip.0 == 0,
            r.pad.1 == 0 || r.len == usize::MAX,
    {
        let (head_pad, tail_pad) = match pad {
            Some(p) => p,
            None => (0, 0),
        };
        let seek = match seek {
            Some(s) => s,
            None => 0,
        };
        let (start, end) = match range {
            Some(r) => (r.start, r.end),
            None => (0, usize::MAX),
        };
        let rlen = if end >= start {
            end - start
        } else {
            0
        };
        let seek = seek + start;
        let (head_pad, head_clip) = if seek > head_pad {
            (0, seek - head_pad)
        } else {
            (head_pad - seek, 0)
        };
        let (head_pad, len) = if head_pad > rlen {
            (rlen, 0)
        } else if rlen != usize::MAX {
            (head_pad, rlen - head_pad)
        } else {
            (head_pad, usize::MAX)
        };
        ClipperParams { pad: (head_pad, tail_pad), clip: (head_clip, 0), len }
    }
}


/// A stream padded with a filler byte, clipped at both ends and cut to a
/// length, as `ClipperParams` say.
pub struct ClipStream<S: ByteStream> {
    src: EofStream<S>,
    /// Filler bytes still to hand out before the source.
    head: usize,
    /// Source bytes still to drop.
    skip: usize,
    /// Filler bytes after the source not yet handed out.
    tail: usize,
    /// Bytes dropped from the end of the padded stream.
    strip: usize,
    /// Bytes that may still be handed out.
    rem: usize,
    filler: u8,
    src_consumed: usize,
    /// The source has reached its end and is read no more.
    ended: bool,
    /// Bytes made and not consumed, then a margin of zeros.
    buf: Vec<u8>,
    len: usize,
    /// Bytes consumed so far.
    taken: Ghost<Seq<u8>>,
    /// Head fillers handed out so far.
    head_given: Ghost<nat>,
    /// Tail fillers handed out so far.
    tail_given: Ghost<nat>,
    /// Source bytes dropped so far.
    dropped: Ghost<nat>,
    /// Bytes the source had handed out before this stream read it.
    base: Ghost<nat>,
}

/// `n` copies of byte `b`.
pub open spec fn run_of(n: nat, b: u8) -> Seq<u8> {
    Seq::new(n, |i: int| b)
}

/// Two runs of one byte make one run.
pub(crate) proof fn lemma_run_join(a: nat, b: nat, f: u8)
    ensures
        run_of(a, f) + run_of(b, f) == run_of(a + b, f),
{
    assert(run_of(a, f) + run_of(b, f) =~= run_of(a + b, f));
}

/// What was made, then a run of fillers: the run joins the fillers at the
/// end.
proof fn lemma_tail_run(made: Seq<u8>, head: Seq<u8>, mid: Seq<u8>, tg: nat, t: nat, f: u8)
    requires
        made == head + mid + run_of(tg, f),
    ensures
        made + run_of(t, f) == head + mid + run_of(tg + t, f),
{
    lemma_run_join(tg, t, f);
    assert(made + run_of(t, f) =~= head + mid + (run_of(tg, f) + run_of(t, f)));
}

/// What was made, with no tail fillers yet, then bytes of the source: the
/// bytes join the middle.
proof fn lemma_mid_grow(made: Seq<u8>, head: Seq<u8>, mid: Seq<u8>, tail: Seq<u8>, x: Seq<u8>)
    requires
        made == head + mid + tail,
        tail.len() == 0,
    ensures
        made + x == head + (mid + x) + tail,
{
    assert(made + x =~= head + (mid + x) + tail);
}

/// Bytes that can be handed out now: those of the padded stream known so
/// far (`head` fillers, `avail` source bytes, and the tail fillers once the
/// source has ended) that are followed by at least `strip` more, at most
/// `rem`.
pub open spec fn clip_room(head: int, avail: int, tail: int, strip: int, rem: int, ended: bool) -> int {
    let room = if head + avail + tail > strip {
        head + avail + tail - strip
    } else {
        0
    };
    let room = if !ended && room > head + avail {
        head + avail
    } else {
        room
    };
    if room > rem {
        rem
    } else {
        room
    }
}

/// `clip_room` over machine integers.
fn room_of(head: usize, avail: usize, tail: usize, strip: usize, rem: usize, ended: bool) -> (r: usize)
    ensures
        r == clip_room(head as int, avail as int, tail as int, strip as int, rem as int, ended),
{
    let total: u128 = head as u128 + avail as u128 + tail as u128;
    let room: u128 = if total > strip as u128 {
        total - strip as u128
    } else {
        0
    };
    let known: u128 = head as u128 + avail as u128;
    let room: u128 = if !ended && room > known {
        known
    } else {
        room
    };
    if room > rem as u128 {
        rem
    } else {
        room as usize
    }
}

impl<S: ByteStream> ClipStream<S> {
    /// The bytes made and not consumed.
    pub closed spec fn kept(&self) -> Seq<u8> {
        self.buf@.subrange(0, self.len as int)
    }

    /// Bytes that may still be handed out.
    pub closed spec fn remaining(&self) -> usize {
        self.rem
    }

    /// Filler bytes still to come before the source.
    pub closed spec fn head_fill(&self) -> usize {
        self.head
    }

    /// Source bytes still to drop.
    pub closed spec fn to_skip(&self) -> usize {
        self.skip
    }

    /// Filler bytes after the source.
    pub closed spec fn tail_fill(&self) -> usize {
        self.tail
    }

    /// Bytes dropped from the end.
    pub closed spec fn to_strip(&self) -> usize {
        self.strip
    }

    /// The filler byte.
    pub closed spec fn filler(&self) -> u8 {
        self.filler
    }

    /// The stream clipped.
    pub closed spec fn upstream(&self) -> S {
        self.src.source()
    }

    /// The bytes taken from the source so far.
    pub closed spec fn drawn(&self) -> Seq<u8> {
        self.src.source().taken().subrange(self.base@ as int, self.src.source().taken().len() as int)
    }

    /// Head fillers handed out so far.
    pub closed spec fn head_given(&self) -> nat {
        self.head_given@
    }

    /// Tail fillers handed out so far.
    pub closed spec fn tail_given(&self) -> nat {
        self.tail_given@
    }

    /// Source bytes dropped at the head so far.
    pub closed spec fn dropped(&self) -> nat {
        self.dropped@
    }

    /// What a clip stream has made, the bytes consumed and then those kept,
    /// is its head fillers, then the bytes taken from the source past those
    /// it dropped, then its tail fillers.
    pub proof fn lemma_clip_content(s: &Self)
        requires
            s.wf(),
        ensures
            s.dropped() <= s.drawn().len(),
            s.taken() + s.kept() == run_of(s.head_given(), s.filler()) + s.drawn().subrange(
                s.dropped() as int,
                s.drawn().len() as int,
            ) + run_of(s.tail_given(), s.filler()),
    {
        let t = s.src.source().taken();
        assert(s.drawn().subrange(s.dropped() as int, s.drawn().len() as int) =~= t.subrange(
            (s.base@ + s.dropped@) as int,
            t.len() as int,
        ));
    }

    /// `src` padded with `params.pad` bytes of `filler`, with `params.clip`
    /// bytes dropped at either end, cut to `params.len` bytes.
    pub fn new(src: S, params: &ClipperParams, filler: u8) -> (r: Self)
        requires
            src.wf(),
        ensures
            r.wf(),
            r.kept().len() == 0,
            r.taken().len() == 0,
            r.drawn().len() == 0,
            r.head_given() == 0,
            r.tail_given() == 0,
            r.dropped() == 0,
            r.filler() == filler,
            r.upstream() == src,
            r.remaining() == params.len,
            r.head_fill() == if params.pad.0 > params.clip.0 { params.pad.0 - params.clip.0 } else { 0 },
            r.to_skip() == if params.clip.0 > params.pad.0 { params.clip.0 - params.pad.0 } else { 0 },
            r.tail_fill() == if params.pad.1 > params.clip.1 { params.pad.1 - params.clip.1 } else { 0 },
            r.to_strip() == if params.clip.1 > params.pad.1 { params.clip.1 - params.pad.1 } else { 0 },
    {
        let (head, skip) = if params.pad.0 > params.clip.0 {
            (params.pad.0 - params.clip.0, 0)
        } else {
            (0, params.clip.0 - params.pad.0)
        };
        let (tail, strip) = if params.pad.1 > params.clip.1 {
            (params.pad.1 - params.clip.1, 0)
        } else {
            (0, params.clip.1 - params.pad.1)
        };
        let mut buf: Vec<u8> = Vec::new();
        buf.resize(MARGIN_SIZE, 0);
        let ghost src_taken = src.taken();
        let r = ClipStream {
            src: EofStream::new(src),
            head,
            skip,
            tail,
            strip,
            rem: params.len,
            filler,
            src_consumed: 0,
            ended: false,
            buf,
            len: 0,
            taken: Ghost(Seq::empty()),
            head_given: Ghost(0),
            tail_given: Ghost(0),
            dropped: Ghost(0),
            base: Ghost(src_taken.len()),
        };
        proof {
            assert(r.taken@ + r.buf@.subrange(0, 0) =~= run_of(0, filler) + src_taken.subrange(
                src_taken.len() as int,
                src_taken.len() as int,
            ) + run_of(0, filler));
        }
        r
    }
}

impl<S: ByteStream> ByteStream for ClipStream<S> {
    closed spec fn wf(&self) -> bool {
        let t = self.src.source().taken();
        &&& self.src.wf()
        &&& self.src.request() > 0
        &&& self.buf@.len() == self.len + MARGIN_SIZE
        &&& self.len <= usize::MAX / 2
        &&& self.base@ + self.dropped@ <= t.len()
        &&& self.taken@ + self.buf@.subrange(0, self.len as int) == run_of(self.head_given@, self.filler)
            + t.subrange((self.base@ + self.dropped@) as int, t.len() as int) + run_of(self.tail_given@, self.filler)
        &&& self.skip > 0 ==> self.base@ + self.dropped@ == t.len()
        &&& self.base@ + self.dropped@ < t.len() ==> self.head == 0
        &&& self.tail_given@ > 0 ==> self.ended && self.head == 0
    }

    closed spec fn available(&self) -> nat {
        self.len as nat
    }

    closed spec fn buffer(&self) -> Seq<u8> {
        self.buf@
    }

    closed spec fn taken(&self) -> Seq<u8> {
        self.taken@
    }

    #[verifier::rlimit(80)]
    /// Drops the head clip from the source, then hands out what
    /// `clip_room` allows: head fillers (a block at most), source bytes,
    /// tail fillers (a block at most). A source that has reached its end is
    /// read no more.
    fn fill_buf(&mut self) -> (r: std::io::Result<usize>)
        ensures
            final(self).kept().len() >= old(self).kept().len(),
            final(self).kept().subrange(0, old(self).kept().len() as int) == old(self).kept(),
            final(self).kept().len() - old(self).kept().len() == old(self).remaining()
                - final(self).remaining(),
            final(self).to_strip() == old(self).to_strip(),
            old(self).remaining() == 0 ==> r is Ok && final(self).kept() == old(self).kept(),
            final(self).filler() == old(self).filler(),
            final(self).head_given() + final(self).head_fill() == old(self).head_given() + old(
                self,
            ).head_fill(),
            final(self).tail_given() + final(self).tail_fill() <= old(self).tail_given() + old(
                self,
            ).tail_fill(),
            old(self).dropped() <= final(self).dropped(),
            final(self).dropped() + final(self).to_skip() <= old(self).dropped() + old(self).to_skip(),
            final(self).drawn().len() >= old(self).drawn().len(),
            final(self).drawn().subrange(0, old(self).drawn().len() as int) == old(self).drawn(),
    {
        let ghost mut prev_len: usize = 0;
        let ghost kept0 = self.buf@.subrange(0, self.len as int);
        let ghost t0 = self.src.source().taken();
        loop
            invariant
                self.taken == old(self).taken,
                self.wf(),
                self.src.request() > prev_len,
                kept0 == old(self).buf@.subrange(0, old(self).len as int),
                kept0.len() == old(self).len,
                self.len >= kept0.len(),
                self.buf@.subrange(0, kept0.len() as int) == kept0,
                self.len - kept0.len() == old(self).rem - self.rem,
                self.rem <= old(self).rem,
                self.strip == old(self).strip,
                self.filler == old(self).filler,
                self.base == old(self).base,
                self.head_given@ + self.head == old(self).head_given@ + old(self).head,
                self.tail_given@ + self.tail <= old(self).tail_given@ + old(self).tail,
                old(self).dropped@ <= self.dropped@,
                self.dropped@ + self.skip <= old(self).dropped@ + old(self).skip,
                t0 == old(self).src.source().taken(),
                self.src.source().taken().len() >= t0.len(),
                self.src.source().taken().subrange(0, t0.len() as int) == t0,
                self.drawn().len() >= old(self).drawn().len(),
                self.drawn().subrange(0, old(self).drawn().len() as int) == old(self).drawn(),
                self.src_consumed >= old(self).src_consumed,
                old(self).rem == 0 ==> self.len == old(self).len && self.buf@ == old(self).buf@,
            decreases usize::MAX - self.src_consumed, usize::MAX - prev_len,
        {
            if self.rem == 0 {
                return Ok(self.len);
            }
            let (is_eof, d) = if self.ended {
                (true, 0usize)
            } else {
                self.src.fill_buf()?
            };
            if is_eof && d == 0 {
                self.ended = true;
            }
            if d > usize::MAX / 4 || self.len > usize::MAX / 4 {
                return Err(invalid_stream_error());
            }
            if self.skip > 0 {
                let k = if self.skip < d {
                    self.skip
                } else {
                    d
                };
                if k > 0 {
                    if usize::MAX - self.src_consumed < k {
                        return Err(invalid_stream_error());
                    }
                    let ghost t1 = self.src.source().taken();
                    let ghost b1 = self.src.source().buffer();
                    let stream = self.src.as_slice();
                    assert(stream@.len() >= k);
                    self.src.consume(k);
                    self.skip = self.skip - k;
                    self.src_consumed = self.src_consumed + k;
                    proof {
                        self.dropped@ = (self.dropped@ + k) as nat;
                        let t2 = self.src.source().taken();
                        assert(t2 == t1 + b1.subrange(0, k as int));
                        assert(t2.subrange(0, t0.len() as int) =~= t1.subrange(0, t0.len() as int));
                        assert(self.drawn().subrange(0, old(self).drawn().len() as int) =~= old(
                            self,
                        ).drawn());
                        assert(t2.subrange((self.base@ + self.dropped@) as int, t2.len() as int) =~= t1.subrange(
                            t1.len() as int,
                            t1.len() as int,
                        ));
                        prev_len = 0;
                    }
                    continue;
                }
                // the source has ended inside the clip: the rest falls on the tail
                let t = if self.skip < self.tail {
                    self.skip
                } else {
                    self.tail
                };
                self.tail = self.tail - t;
                self.skip = 0;
            }
            let e = room_of(self.head, d, self.tail, self.strip, self.rem, is_eof);
            if e == 0 {
                if is_eof {
                    return Ok(self.len);
                }
                self.src.consume(0);
                proof {
                    prev_len = d;
                    assert(self.src.source().taken() =~= self.src.source().taken().subrange(
                        0,
                        self.src.source().taken().len() as int,
                    ));
                }
                continue;
            }
            if usize::MAX - self.src_consumed < d {
                return Err(invalid_stream_error());
            }
            let prev = self.len;
            let ghost before = self.buf@.subrange(0, prev as int);
            let ghost t1 = self.src.source().taken();
            let ghost mid = t1.subrange((self.base@ + self.dropped@) as int, t1.len() as int);
            assert(self.taken@ + before == run_of(self.head_given@, self.filler) + mid + run_of(
                self.tail_given@,
                self.filler,
            ));
            self.buf.truncate(prev);
            assert(self.buf@ == before);
            let emitted: usize;
            if self.head > 0 {
                let h = if e < self.head {
                    e
                } else {
                    self.head
                };
                let h = if h < BLOCK_SIZE {
                    h
                } else {
                    BLOCK_SIZE
                };
                append_filler(&mut self.buf, h, self.filler);
                self.head = self.head - h;
                emitted = h;
                proof {
                    assert(mid.len() == 0);
                    assert(self.tail_given@ == 0);
                    lemma_run_join(self.head_given@, h as nat, self.filler);
                    assert(self.taken@ + self.buf@ =~= run_of((self.head_given@ + h) as nat, self.filler) + mid
                        + run_of(self.tail_given@, self.filler));
                    self.head_given@ = (self.head_given@ + h) as nat;
                }
            } else if d > 0 {
                let s = if e < d {
                    e
                } else {
                    d
                };
                let ghost b1 = self.src.source().buffer();
                let stream = self.src.as_slice();
                extend_bytes(&mut self.buf, vstd::slice::slice_subrange(stream, 0, s));
                self.src.consume(s);
                self.src_consumed = self.src_consumed + s;
                emitted = s;
                proof {
                    let t2 = self.src.source().taken();
                    assert(t2 == t1 + b1.subrange(0, s as int));
                    assert(t2.subrange(0, t0.len() as int) =~= t1.subrange(0, t0.len() as int));
                    assert(self.drawn().subrange(0, old(self).drawn().len() as int) =~= old(
                        self,
                    ).drawn());
                    assert(self.tail_given@ == 0);
                    assert(t2.subrange((self.base@ + self.dropped@) as int, t2.len() as int) =~= mid + b1.subrange(
                        0,
                        s as int,
                    ));
                    assert(self.buf@ == before + b1.subrange(0, s as int));
                    lemma_mid_grow(
                        self.taken@ + before,
                        run_of(self.head_given@, self.filler),
                        mid,
                        run_of(self.tail_given@, self.filler),
                        b1.subrange(0, s as int),
                    );
                    assert(self.taken@ + self.buf@ =~= self.taken@ + before + b1.subrange(0, s as int));
                }
            } else {
                let t = if e < self.tail {
                    e
                } else {
                    self.tail
                };
                let t = if t < BLOCK_SIZE {
                    t
                } else {
                    BLOCK_SIZE
                };
                append_filler(&mut self.buf, t, self.filler);
                self.tail = self.tail - t;
                emitted = t;
                proof {
                    lemma_tail_run(
                        self.taken@ + before,
                        run_of(self.head_given@, self.filler),
                        mid,
                        self.tail_given@,
                        t as nat,
                        self.filler,
                    );
                    assert(self.taken@ + self.buf@ =~= self.taken@ + before + run_of(t as nat, self.filler));
                    self.tail_given@ = (self.tail_given@ + t) as nat;
                }
            }
            let m = self.buf.len();
            assert(self.buf@.subrange(0, prev as int) == before);
            let ghost full = self.buf@;
            set_margin(&mut self.buf, m);
            self.len = m;
            self.rem = self.rem - emitted;
            proof {
                assert(self.buf@.subrange(0, m as int) =~= full);
                assert(self.buf@.subrange(0, kept0.len() as int) =~= before.subrange(
                    0,
                    kept0.len() as int,
                ));
            }
            return Ok(self.len);
        }
    }

    fn as_slice(&self) -> (r: &[u8]) {
        self.buf.as_slice()
    }

    /// Drops the first `amount` bytes of the buffer.
    fn consume(&mut self, amount: usize)
        ensures
            final(self).available() == old(self).available() - amount,
            final(self).buffer() == old(self).buffer().subrange(amount as int, old(self).buffer().len() as int),
            final(self).kept() == old(self).kept().subrange(amount as int, old(self).kept().len() as int),
            final(self).drawn() == old(self).drawn(),
            final(self).head_given() == old(self).head_given(),
            final(self).tail_given() == old(self).tail_given(),
            final(self).dropped() == old(self).dropped(),
            final(self).filler() == old(self).filler(),
            final(self).remaining() == old(self).remaining(),
            final(self).head_fill() == old(self).head_fill(),
            final(self).to_skip() == old(self).to_skip(),
            final(self).tail_fill() == old(self).tail_fill(),
            final(self).to_strip() == old(self).to_strip(),
    {
        let ghost k0 = self.buf@.subrange(0, self.len as int);
        self.taken = Ghost(self.taken@ + self.buf@.subrange(0, amount as int));
        proof {
            assert(self.taken@ + self.buf@.subrange(amount as int, self.len as int) =~= old(self).taken@
                + k0);
        }
        if amount == 0 {
            assert(self.buf@.subrange(0, self.buf@.len() as int) =~= self.buf@);
            assert(self.buf@.subrange(0, self.len as int) =~= self.buf@.subrange(
                amount as int,
                self.len as int,
            ));
            return ;
        }
        let ghost b0 = self.buf@;
        let rest = vstd::slice::slice_subrange(self.buf.as_slice(), amount, self.buf.len());
        self.buf = vstd::slice::slice_to_vec(rest);
        self.len = self.len - amount;
        proof {
            assert(self.buf@.subrange(0, self.len as int) =~= b0.subrange(
                amount as int,
                old(self).len as int,
            ));
        }
    }
}

} // verus!
