use vstd::prelude::*;

use super::bridge::{drop_consumed, shift_back};
use super::extend::seg_end;
use super::{Segment, SegmentStream};

verus! {

/// The pile of slices being merged into one: how many, and the stretch
/// they cover.
#[derive(Copy, Clone)]
pub struct Accumulator {
    count: usize,
    start: usize,
    end: usize,
    /// Slices closer than this are merged.
    merge_threshold: usize,
}

/// `a + b`, `usize::MAX` past it.
pub open spec fn sat_add(a: usize, b: usize) -> usize {
    if a + b <= usize::MAX {
        (a + b) as usize
    } else {
        usize::MAX
    }
}

impl Accumulator {
    /// Slices in the pile.
    pub closed spec fn count(&self) -> usize {
        self.count
    }

    /// Start of the stretch the pile covers.
    pub closed spec fn start(&self) -> usize {
        self.start
    }

    /// End of the stretch the pile covers.
    pub closed spec fn end(&self) -> usize {
        self.end
    }

    /// Slices closer than this are merged.
    pub closed spec fn threshold(&self) -> usize {
        self.merge_threshold
    }

    /// The stretch of a pile ends at or past its start.
    pub closed spec fn wf(&self) -> bool {
        self.count > 0 ==> self.start <= self.end
    }

    /// The pile with one slice, `[start, end)`.
    pub closed spec fn started(self, start: usize, end: usize) -> Accumulator {
        Accumulator { count: 1, start, end, merge_threshold: self.merge_threshold }
    }

    /// The empty pile.
    pub closed spec fn emptied(self) -> Accumulator {
        Accumulator { count: 0, start: usize::MAX, end: usize::MAX, merge_threshold: self.merge_threshold }
    }

    /// The slice a pile covers.
    pub closed spec fn covered(self) -> Segment {
        Segment { pos: self.start, len: (self.end - self.start) as usize }
    }

    /// How far past its end a slice may start and still be merged; zero
    /// for an empty pile.
    pub closed spec fn reach(self) -> usize {
        if self.count == 0 {
            0
        } else {
            sat_add(self.end, self.merge_threshold)
        }
    }

    /// Adds `seg` to the pile when it starts inside it or close enough;
    /// otherwise hands out the pile and starts a new one with `seg`.
    pub closed spec fn appended(self, seg: Segment) -> (Accumulator, Option<Segment>) {
        let start = seg.pos;
        let end = seg_end(seg);
        if self.end > start || start - self.end <= self.merge_threshold {
            (
                Accumulator {
                    count: if self.count < usize::MAX {
                        (self.count + 1) as usize
                    } else {
                        self.count
                    },
                    end: if self.end >= end {
                        self.end
                    } else {
                        end
                    },
                    ..self
                },
                None,
            )
        } else {
            (self.started(start, end), Some(self.covered()))
        }
    }

    /// Hands out a non-empty pile once the source has ended or bytes past
    /// its reach may be consumed.
    pub closed spec fn suspended(self, is_eof: bool, max_consume: usize) -> (Accumulator, Option<Segment>) {
        if self.count == 0 {
            (self, None)
        } else if !is_eof && max_consume <= self.reach() {
            (self, None)
        } else {
            (self.emptied(), Some(self.covered()))
        }
    }

    /// An empty pile merging slices closer than `merge_threshold`.
    pub fn new(merge_threshold: usize) -> (r: Self)
        ensures
            r.count() == 0,
            r.start() == usize::MAX,
            r.end() == usize::MAX,
            r.threshold() == merge_threshold,
            r.wf(),
    {
        Accumulator { count: 0, start: usize::MAX, end: usize::MAX, merge_threshold }
    }

    /// Starts the pile with `segment` when it is empty: whether it did.
    fn resume(&mut self, segment: &Segment) -> (r: bool)
        requires
            old(self).wf(),
        ensures
            final(self).wf(),
            r == (old(self).count == 0),
            *final(self) == (if r {
                old(self).started(segment.pos, seg_end(*segment))
            } else {
                *old(self)
            }),
    {
        if self.count > 0 {
            return false;
        }
        let end = if segment.pos <= usize::MAX - segment.len {
            segment.pos + segment.len
        } else {
            usize::MAX
        };
        self.count = 1;
        self.start = segment.pos;
        self.end = end;
        true
    }

    /// Adds `segment` to a non-empty pile, or hands the pile out.
    fn append(&mut self, segment: &Segment) -> (r: Option<Segment>)
        requires
            old(self).wf(),
            old(self).count > 0,
        ensures
            final(self).wf(),
            final(self).count > 0,
            (*final(self), r) == old(self).appended(*segment),
    {
        let start = segment.pos;
        let end = if segment.pos <= usize::MAX - segment.len {
            segment.pos + segment.len
        } else {
            usize::MAX
        };
        if self.end > start || (start - self.end) <= self.merge_threshold {
            if self.count < usize::MAX {
                self.count = self.count + 1;
            }
            if end > self.end {
                self.end = end;
            }
            return None;
        }
        let popped = Segment { pos: self.start, len: self.end - self.start };
        self.count = 1;
        self.start = start;
        self.end = end;
        Some(popped)
    }

    /// Hands out the pile once it can grow no more.
    fn suspend(&mut self, is_eof: bool, max_consume: usize) -> (r: Option<Segment>)
        requires
            old(self).wf(),
        ensures
            final(self).wf(),
            (*final(self), r) == old(self).suspended(is_eof, max_consume),
    {
        if self.count == 0 {
            return None;
        }
        let reach = if self.end <= usize::MAX - self.merge_threshold {
            self.end + self.merge_threshold
        } else {
            usize::MAX
        };
        if !is_eof && max_consume <= reach {
            return None;
        }
        let popped = Segment { pos: self.start, len: self.end - self.start };
        self.count = 0;
        self.start = usize::MAX;
        self.end = usize::MAX;
        Some(popped)
    }
}

/// Folds `segs` into the pile: the pile after, and the slices handed out.
pub closed spec fn merge_all(a: Accumulator, segs: Seq<Segment>) -> (Accumulator, Seq<Segment>)
    decreases segs.len(),
{
    if segs.len() == 0 {
        (a, seq![])
    } else {
        let (a1, out) = merge_all(a, segs.drop_last());
        let (a2, o) = a1.appended(segs.last());
        (a2, match o {
            Some(s) => out.push(s),
            None => out,
        })
    }
}

/// Merges the slices of a source stream that overlap or lie closer than a
/// threshold.
pub struct MergeStream<S: SegmentStream> {
    src: S,
    segments: Vec<Segment>,
    /// The pile left open by the last fill.
    acc: Accumulator,
    /// Source slices already folded into the pile (all the source holds).
    src_scanned: usize,
    /// Bytes that may be consumed.
    max_consume: usize,
    /// Bytes the source allowed to consume at its last fill.
    src_allowance: Ghost<usize>,
}

impl<S: SegmentStream> MergeStream<S> {
    /// Bytes the source allowed to consume at its last fill.
    pub closed spec fn source_allowance(&self) -> usize {
        self.src_allowance@
    }

    /// The source stream.
    pub closed spec fn source(&self) -> S {
        self.src
    }

    /// The pile left open.
    pub closed spec fn pile(&self) -> Accumulator {
        self.acc
    }

    /// Bytes that may be consumed: none past the start of the open pile.
    pub closed spec fn max_consume(&self) -> usize {
        self.max_consume
    }

    /// A stream over `src` merging slices closer than `merge_threshold`.
    pub fn new(src: S, merge_threshold: usize) -> (r: Self)
        requires
            src.wf(),
            src.segments().len() == 0,
        ensures
            r.wf(),
            r.segments().len() == 0,
            r.pile().count() == 0,
            r.pile().threshold() == merge_threshold,
            r.source() == src,
    {
        MergeStream {
            src,
            segments: Vec::new(),
            acc: Accumulator::new(merge_threshold),
            src_scanned: 0,
            max_consume: 0,
            src_allowance: Ghost(0),
        }
    }

    /// Folds the source slices `src_scanned..count` into the pile, handing
    /// out the piles they close, and the last pile once it is done.
    fn extend_segment_buf(&mut self, is_eof: bool, count: usize, max_consume: usize)
        requires
            old(self).acc.wf(),
            count == old(self).src.segments().len(),
            old(self).src.wf(),
            old(self).src.filled(),
        ensures
            final(self).acc.wf(),
            final(self).src == old(self).src,
            final(self).max_consume == old(self).max_consume,
            final(self).src_scanned == count,
            ({
                let news = if count > old(self).src_scanned {
                    old(self).src.segments().subrange(old(self).src_scanned as int, count as int)
                } else {
                    seq![]
                };
                let a0 = old(self).acc;
                let first = news.len() > 0 && a0.count == 0;
                let a1 = if first {
                    a0.started(news[0].pos, seg_end(news[0]))
                } else {
                    a0
                };
                let rest = if first {
                    news.drop_first()
                } else {
                    news
                };
                let (a2, outs) = merge_all(a1, rest);
                let (a3, o) = a2.suspended(is_eof, max_consume);
                &&& final(self).acc == a3
                &&& final(self).segments@ == old(self).segments@ + outs + match o {
                    Some(s) => seq![s],
                    None => seq![],
                }
            }),
    {
        let (_, segments) = self.src.as_slices();
        let start = self.src_scanned;
        let ghost news = if count > start {
            segments@.subrange(start as int, count as int)
        } else {
            seq![]
        };
        let ghost a0 = self.acc;
        let ghost base = self.segments@;
        let ghost src0 = self.src;
        let ghost mc0 = self.max_consume;
        if count > start {
            let consumed = self.acc.resume(&segments[start]);
            let from = if consumed {
                start + 1
            } else {
                start
            };
            let ghost a1 = self.acc;
            let ghost rest = segments@.subrange(from as int, count as int);
            assert(rest =~= (if consumed {
                news.drop_first()
            } else {
                news
            }));
            let mut i: usize = from;
            assert(segments@.subrange(from as int, from as int) =~= Seq::<Segment>::empty());
            while i < count
                invariant
                    from <= i <= count,
                    count == segments@.len(),
                    self.src == src0,
                    self.max_consume == mc0,
                    self.src_scanned == start,
                    self.acc.wf(),
                    self.acc.count > 0,
                    ({
                        let (a, outs) = merge_all(a1, segments@.subrange(from as int, i as int));
                        &&& self.acc == a
                        &&& self.segments@ == base + outs
                    }),
                decreases count - i,
            {
                assert(segments@.subrange(from as int, i + 1).drop_last() =~= segments@.subrange(
                    from as int,
                    i as int,
                ));
                let next = segments[i];
                match self.acc.append(&next) {
                    Some(s) => {
                        self.segments.push(s);
                    },
                    None => {},
                }
                i = i + 1;
            }
        }
        let ghost (a2, outs) = merge_all(
            if news.len() > 0 && a0.count == 0 {
                a0.started(news[0].pos, seg_end(news[0]))
            } else {
                a0
            },
            if news.len() > 0 && a0.count == 0 {
                news.drop_first()
            } else {
                news
            },
        );
        proof {
            if count <= start {
                assert(news.len() == 0);
                assert(outs =~= Seq::<Segment>::empty());
                assert(self.segments@ =~= base + outs);
            }
        }
        let ghost before = self.segments@;
        match self.acc.suspend(is_eof, max_consume) {
            Some(s) => {
                self.segments.push(s);
            },
            None => {
                assert(self.segments@ =~= before + Seq::<Segment>::empty());
            },
        }
        self.src_scanned = count;
    }
}

impl<S: SegmentStream> SegmentStream for MergeStream<S> {
    /// The source holds exactly the slices folded; an open pile starts at
    /// or past what may be consumed.
    closed spec fn wf(&self) -> bool {
        &&& self.src.wf()
        &&& self.src_scanned == self.src.segments().len()
        &&& self.acc.wf()
        &&& self.acc.count > 0 ==> self.max_consume <= self.acc.start
    }

    closed spec fn consumed(&self) -> nat {
        self.src.consumed()
    }

    closed spec fn segments(&self) -> Seq<Segment> {
        self.segments@
    }

    closed spec fn block(&self) -> Seq<u8> {
        self.src.block()
    }

    closed spec fn filled(&self) -> bool {
        self.src.filled()
    }

    /// Fills the source and merges its new slices; bytes may be consumed up
    /// to the start of an open pile, or as far as the source allows. The
    /// slices made are those the pile hands out as the source's new slices
    /// are folded into it, one by one, then the pile itself once the source
    /// has ended or what may be consumed passes its reach.
    fn fill_segment_buf(&mut self) -> (r: std::io::Result<(bool, usize, usize, usize)>)
        ensures
            r matches Ok(x) ==> ({
                let n0 = old(self).source().segments().len();
                let segs = final(self).source().segments();
                let news = if segs.len() > n0 {
                    segs.subrange(n0 as int, segs.len() as int)
                } else {
                    seq![]
                };
                let a0 = old(self).pile();
                let first = news.len() > 0 && a0.count() == 0;
                let a1 = if first {
                    a0.started(news[0].pos, seg_end(news[0]))
                } else {
                    a0
                };
                let rest = if first {
                    news.drop_first()
                } else {
                    news
                };
                let (a2, outs) = merge_all(a1, rest);
                let (a3, o) = a2.suspended(x.0, final(self).source_allowance());
                &&& final(self).pile() == a3
                &&& final(self).segments() == old(self).segments() + outs + match o {
                    Some(s) => seq![s],
                    None => seq![],
                }
            }),
    {
        let (is_eof, bytes, count, max_consume) = self.src.fill_segment_buf()?;
        self.extend_segment_buf(is_eof, count, max_consume);
        proof {
            self.src_allowance@ = max_consume;
        }
        self.max_consume = if is_eof {
            bytes
        } else if self.acc.count > 0 && max_consume <= (if self.acc.end <= usize::MAX
            - self.acc.merge_threshold {
            self.acc.end + self.acc.merge_threshold
        } else {
            usize::MAX
        }) {
            if self.acc.start < bytes {
                self.acc.start
            } else {
                bytes
            }
        } else {
            max_consume
        };
        Ok((is_eof, bytes, self.segments.len(), self.max_consume))
    }

    fn as_slices(&self) -> (r: (&[u8], &[Segment])) {
        let (stream, _) = self.src.as_slices();
        (stream, self.segments.as_slice())
    }

    /// Consumes what the source consumes of `bytes` (no further than the
    /// open pile), and drops the merged slices that start in it.
    fn consume(&mut self, bytes: usize) -> (r: std::io::Result<(usize, usize)>)
        ensures
            r matches Ok(x) ==> x.0 <= old(self).max_consume() && final(self).max_consume()
                == old(self).max_consume() - x.0 && (forall|i: int|
                0 <= i < x.1 ==> (#[trigger] old(self).segments()[i]).pos < x.0) && (x.1 < old(
                self,
            ).segments().len() ==> old(self).segments()[x.1 as int].pos >= x.0)
                && final(self).segments() == old(self).segments().subrange(
                x.1 as int,
                old(self).segments().len() as int,
            ).map_values(|s: Segment| shift_back(s, x.0)),
    {
        let bytes = if bytes < self.max_consume {
            bytes
        } else {
            self.max_consume
        };
        let (bytes, src_count) = self.src.consume(bytes)?;
        self.src_scanned = self.src_scanned - src_count;
        let (segments, from) = drop_consumed(&self.segments, bytes);
        self.segments = segments;
        if self.acc.count > 0 {
            self.acc.start = self.acc.start - bytes;
            self.acc.end = self.acc.end - bytes;
        }
        self.max_consume = self.max_consume - bytes;
        Ok((bytes, from))
    }
}

} // verus!
