use vstd::prelude::*;

use super::bridge::{
    bridge_pieces, bridge_tail, clamp, drop_consumed, is_blank, map_gap, map_one, mappers_ok, parse_mappers,
    phantom_min, shift_back, side, BridgeError,
};
use super::{Segment, SegmentStream};
use crate::mapper::SegmentMapper;

verus! {

/// A mapped slice with the end of the source slice it came from:
/// `(pos, len, source end)`.
pub type Mapped = (usize, usize, usize);

/// Whether `a` comes before `b`: by position, then length, then source end.
pub open spec fn mapped_before(a: Mapped, b: Mapped) -> bool {
    a.0 < b.0 || (a.0 == b.0 && (a.1 < b.1 || (a.1 == b.1 && a.2 < b.2)))
}

/// Where `x` goes in an ascending list: before the first entry it comes
/// before.
pub open spec fn mapped_pos(s: Seq<Mapped>, x: Mapped) -> int
    decreases s.len(),
{
    if s.len() == 0 {
        0
    } else if mapped_before(x, s[0]) {
        0
    } else {
        1 + mapped_pos(s.drop_first(), x)
    }
}

/// `s` in ascending order, equal entries kept in their order.
pub open spec fn sort_mapped(s: Seq<Mapped>) -> Seq<Mapped>
    decreases s.len(),
{
    if s.len() == 0 {
        s
    } else {
        let r = sort_mapped(s.drop_last());
        r.insert(mapped_pos(r, s.last()), s.last())
    }
}

proof fn lemma_mapped_pos(s: Seq<Mapped>, x: Mapped, i: int)
    requires
        0 <= i <= s.len(),
        forall|j: int| 0 <= j < i ==> !mapped_before(x, #[trigger] s[j]),
        i == s.len() || mapped_before(x, s[i]),
    ensures
        mapped_pos(s, x) == i,
    decreases i,
{
    if i > 0 {
        let t = s.drop_first();
        assert forall|j: int| 0 <= j < i - 1 implies !mapped_before(x, #[trigger] t[j]) by {
            assert(t[j] == s[j + 1]);
        }
        if i < s.len() {
            assert(t[i - 1] == s[i]);
        }
        lemma_mapped_pos(t, x, i - 1);
    }
}

/// Sorts mapped slices in ascending order, keeping equal ones in order.
fn sort_mapped_exec(v: Vec<Mapped>) -> (r: Vec<Mapped>)
    ensures
        r@ == sort_mapped(v@),
{
    let mut out: Vec<Mapped> = Vec::new();
    let mut i: usize = 0;
    while i < v.len()
        invariant
            i <= v@.len(),
            out@ == sort_mapped(v@.subrange(0, i as int)),
        decreases v@.len() - i,
    {
        let x = v[i];
        let mut p: usize = 0;
        while p < out.len()
            invariant
                p <= out@.len(),
                forall|j: int| 0 <= j < p ==> !mapped_before(x, #[trigger] out@[j]),
            ensures
                p <= out@.len(),
                forall|j: int| 0 <= j < p ==> !mapped_before(x, #[trigger] out@[j]),
                p == out@.len() || mapped_before(x, out@[p as int]),
            decreases out@.len() - p,
        {
            let y = out[p];
            if x.0 < y.0 || (x.0 == y.0 && (x.1 < y.1 || (x.1 == y.1 && x.2 < y.2))) {
                break;
            }
            p = p + 1;
        }
        proof {
            lemma_mapped_pos(out@, x, p as int);
            let s = v@.subrange(0, i + 1);
            assert(s.drop_last() =~= v@.subrange(0, i as int));
            assert(s.last() == x);
        }
        out.insert(p, x);
        i = i + 1;
    }
    assert(v@.subrange(0, v@.len() as int) =~= v@);
    out
}

/// The end of a slice, `usize::MAX` past it.
pub open spec fn seg_end(x: Segment) -> usize {
    if x.pos + x.len <= usize::MAX {
        (x.pos + x.len) as usize
    } else {
        usize::MAX
    }
}

/// The slices the mappers give for the source slice `x`, each with the
/// end of `x`.
pub open spec fn map_segment_all(ms: Seq<SegmentMapper>, x: Segment, tail: int) -> Seq<Mapped>
    decreases ms.len(),
{
    if ms.len() == 0 {
        seq![]
    } else {
        let rest = map_segment_all(ms.drop_last(), x, tail);
        match map_gap(ms.last(), x.pos as int, x.pos + x.len, tail) {
            Some(s) => rest.push((s.pos, s.len, seg_end(x))),
            None => rest,
        }
    }
}

/// The slices the mappers give for each source slice, slice by slice.
pub open spec fn map_segments(ms: Seq<SegmentMapper>, segs: Seq<Segment>, tail: int) -> Seq<Mapped>
    decreases segs.len(),
{
    if segs.len() == 0 {
        seq![]
    } else {
        map_segments(ms, segs.drop_last(), tail) + map_segment_all(ms, segs.last(), tail)
    }
}

/// The slice of a mapped entry.
pub open spec fn mapped_segment(m: Mapped) -> Segment {
    Segment { pos: m.0, len: m.1 }
}

/// Maps every slice of a source stream by each slice-mapping expression,
/// the slices of each fill handed out in position order.
pub struct ExtendStream<S: SegmentStream> {
    src: S,
    segments: Vec<Segment>,
    /// Source slices already mapped (all the source holds).
    src_scanned: usize,
    /// Bytes that may be consumed without cutting into a slice to come.
    max_consume: usize,
    mappers: Vec<SegmentMapper>,
}

impl<S: SegmentStream> ExtendStream<S> {
    /// The source stream.
    pub closed spec fn source(&self) -> S {
        self.src
    }

    /// The slice mappers, in order.
    pub closed spec fn mappers(&self) -> Seq<SegmentMapper> {
        self.mappers@
    }

    /// Bytes that may be consumed without cutting into a slice to come.
    pub closed spec fn max_consume(&self) -> usize {
        self.max_consume
    }

    /// A stream over `src` mapped by the comma-separated slice-mapping
    /// expressions `exprs` (one trailing comma allowed).
    pub fn new(src: S, exprs: &str) -> (r: Result<Self, BridgeError>)
        requires
            src.wf(),
            src.segments().len() == 0,
        ensures
            is_blank(exprs@) <==> r == Err::<Self, BridgeError>(BridgeError::Empty),
            r matches Ok(x) ==> x.wf() && x.source() == src && x.segments().len() == 0
                && x.max_consume() == 0 && x.mappers().len() == bridge_pieces(exprs@).len(),
    {
        let mappers = parse_mappers(exprs)?;
        Ok(ExtendStream { src, segments: Vec::new(), src_scanned: 0, max_consume: 0, mappers })
    }

    /// Maps the source slices `src_scanned..count` and appends what they
    /// give in position order.
    fn extend_segment_buf(&mut self, is_eof: bool, count: usize, bytes: usize)
        requires
            mappers_ok(old(self).mappers@),
            count == old(self).src.segments().len(),
            old(self).src.wf(),
            old(self).src.filled(),
        ensures
            mappers_ok(final(self).mappers@),
            final(self).src == old(self).src,
            final(self).mappers@ == old(self).mappers@,
            final(self).max_consume == old(self).max_consume,
            final(self).src_scanned == count,
            ({
                let news = if count > old(self).src_scanned {
                    old(self).src.segments().subrange(old(self).src_scanned as int, count as int)
                } else {
                    seq![]
                };
                final(self).segments@ == old(self).segments@ + sort_mapped(
                    map_segments(old(self).mappers@, news, bridge_tail(is_eof, bytes)),
                ).map_values(|m: Mapped| mapped_segment(m))
            }),
    {
        let tail: usize = if is_eof {
            bytes
        } else {
            usize::MAX
        };
        let ghost t = bridge_tail(is_eof, bytes);
        let ghost ms = self.mappers@;
        let (_, segments) = self.src.as_slices();
        let start = self.src_scanned;
        let ghost news = if count > start {
            segments@.subrange(start as int, count as int)
        } else {
            seq![]
        };
        let mut found: Vec<Mapped> = Vec::new();
        if count > start {
            let mut i: usize = start;
            while i < count
                invariant
                    start <= i <= count,
                    count == segments@.len(),
                    self.mappers@ == ms,
                    mappers_ok(ms),
                    tail as int == t,
                    found@ == map_segments(ms, segments@.subrange(start as int, i as int), t),
                decreases count - i,
            {
                let x = segments[i];
                let ghost base = found@;
                assert(segments@.subrange(start as int, i + 1).drop_last() =~= segments@.subrange(
                    start as int,
                    i as int,
                ));
                let lo = x.pos as i128;
                let hi = x.pos as i128 + x.len as i128;
                let end = if x.pos <= usize::MAX - x.len {
                    x.pos + x.len
                } else {
                    usize::MAX
                };
                let mut j: usize = 0;
                while j < self.mappers.len()
                    invariant
                        j <= ms.len(),
                        self.mappers@ == ms,
                        mappers_ok(ms),
                        lo == x.pos,
                        hi == x.pos + x.len,
                        end == seg_end(x),
                        tail as int == t,
                        found@ == base + map_segment_all(ms.subrange(0, j as int), x, t),
                    decreases ms.len() - j,
                {
                    assert(ms.subrange(0, j + 1).drop_last() =~= ms.subrange(0, j as int));
                    match map_one(&self.mappers[j], lo, hi, tail) {
                        Some(s) => {
                            found.push((s.pos, s.len, end));
                        },
                        None => {},
                    }
                    j = j + 1;
                }
                assert(ms.subrange(0, ms.len() as int) =~= ms);
                i = i + 1;
            }
        }
        assert(found@ == map_segments(ms, news, t));
        let sorted = sort_mapped_exec(found);
        let ghost before = self.segments@;
        let ghost src0 = self.src;
        let ghost mc0 = self.max_consume;
        let mut k: usize = 0;
        while k < sorted.len()
            invariant
                k <= sorted@.len(),
                self.mappers@ == ms,
                self.src == src0,
                self.max_consume == mc0,
                self.segments@ == before + sorted@.subrange(0, k as int).map_values(
                    |m: Mapped| mapped_segment(m),
                ),
            decreases sorted@.len() - k,
        {
            let m = sorted[k];
            self.segments.push(Segment { pos: m.0, len: m.1 });
            proof {
                assert(sorted@.subrange(0, k + 1).map_values(|m: Mapped| mapped_segment(m))
                    =~= sorted@.subrange(0, k as int).map_values(|m: Mapped| mapped_segment(m)).push(
                    mapped_segment(m),
                ));
            }
            k = k + 1;
        }
        assert(sorted@.subrange(0, sorted@.len() as int) =~= sorted@);
        self.src_scanned = count;
    }
}

impl<S: SegmentStream> SegmentStream for ExtendStream<S> {
    /// The source holds exactly the slices mapped.
    closed spec fn wf(&self) -> bool {
        &&& self.src.wf()
        &&& self.src_scanned == self.src.segments().len()
        &&& mappers_ok(self.mappers@)
    }

    closed spec fn consumed(&self) -> nat {
        self.src.consumed()
    }

    closed spec fn segments(&self) -> Seq<Segment> {
        self.segments@
    }

    closed spec fn block(&self) -> Seq<u8> {
        self.src.block()
    }

    closed spec fn filled(&self) -> bool {
        self.src.filled()
    }

    /// Fills the source, then maps its new slices; bytes may be consumed
    /// up to the least start any mapper gives for the point the source may
    /// be consumed to.
    fn fill_segment_buf(&mut self) -> (r: std::io::Result<(bool, usize, usize, usize)>)
        ensures
            final(self).mappers() == old(self).mappers(),
            r matches Ok(x) ==> ({
                let srcs = final(self).source().segments();
                let news = if srcs.len() > old(self).source().segments().len() {
                    srcs.subrange(old(self).source().segments().len() as int, srcs.len() as int)
                } else {
                    seq![]
                };
                &&& final(self).segments() == old(self).segments() + sort_mapped(
                    map_segments(old(self).mappers(), news, bridge_tail(x.0, x.1)),
                ).map_values(|m: Mapped| mapped_segment(m))
                &&& x.3 <= final(self).max_consume()
            }),
    {
        let (is_eof, bytes, count, max_consume) = self.src.fill_segment_buf()?;
        self.extend_segment_buf(is_eof, count, bytes);
        if is_eof {
            self.max_consume = bytes;
        } else {
            let e = max_consume as i128;
            let ghost ms = self.mappers@;
            let mut best: i128 = 0;
            let mut j: usize = 0;
            while j < self.mappers.len()
                invariant
                    j <= ms.len(),
                    self.mappers@ == ms,
                    mappers_ok(ms),
                    0 <= e <= usize::MAX,
                    best == phantom_min(ms.subrange(0, j as int), e as int),
                decreases ms.len() - j,
            {
                assert(ms.subrange(0, j + 1).drop_last() =~= ms.subrange(0, j as int));
                let m = &self.mappers[j];
                let s = side(&m.start, e, e + 1);
                let t = side(&m.end, e, e + 1);
                let v = if s < t {
                    s
                } else {
                    t
                };
                best = if j == 0 || v < best {
                    v
                } else {
                    best
                };
                j = j + 1;
            }
            assert(ms.subrange(0, ms.len() as int) =~= ms);
            self.max_consume = if best < 0 {
                0
            } else if best > usize::MAX as i128 {
                usize::MAX
            } else {
                best as usize
            };
        }
        let max_consume = if max_consume < self.max_consume {
            max_consume
        } else {
            self.max_consume
        };
        Ok((is_eof, bytes, self.segments.len(), max_consume))
    }

    fn as_slices(&self) -> (r: (&[u8], &[Segment])) {
        let (stream, _) = self.src.as_slices();
        (stream, self.segments.as_slice())
    }

    /// Consumes from the source no more than `max_consume` bytes; drops the
    /// slices that start before the bytes consumed, moving the rest back.
    fn consume(&mut self, bytes: usize) -> (r: std::io::Result<(usize, usize)>)
        ensures
            final(self).mappers() == old(self).mappers(),
            r matches Ok(x) ==> x.0 <= old(self).max_consume() && final(self).max_consume()
                == old(self).max_consume() - x.0 && (forall|i: int|
                0 <= i < x.1 ==> (#[trigger] old(self).segments()[i]).pos < x.0) && (x.1 < old(
                self,
            ).segments().len() ==> old(self).segments()[x.1 as int].pos >= x.0)
                && final(self).segments() == old(self).segments().subrange(
                x.1 as int,
                old(self).segments().len() as int,
            ).map_values(|s: Segment| shift_back(s, x.0)),
    {
        let bytes = if bytes < self.max_consume {
            bytes
        } else {
            self.max_consume
        };
        let (bytes, src_count) = self.src.consume(bytes)?;
        self.src_scanned = self.src_scanned - src_count;
        let (segments, from) = drop_consumed(&self.segments, bytes);
        self.segments = segments;
        self.max_consume = self.max_consume - bytes;
        Ok((bytes, from))
    }
}

} // verus!
