use vstd::prelude::*;

use super::{Segment, SegmentStream};
use vstd::string::StrSliceExecFns;

use crate::eval::text::{chars_of, split_on, split_strings, texts};
use crate::mapper::{MapError, SegmentMapper, SegmentMapperAnchor};

verus! {

/// Why a bridging expression was refused.
#[derive(Copy, Clone, Debug, PartialEq, Eq)]
pub enum BridgeError {
    /// The expression is blank.
    Empty,
    /// A slice-mapping expression was refused.
    Mapper(MapError),
}

/// Whether `c` is white space as Unicode defines it.
pub open spec fn is_white(c: char) -> bool {
    let v = c as u32;
    ||| 0x09 <= v <= 0x0d
    ||| v == 0x20
    ||| v == 0x85
    ||| v == 0xa0
    ||| v == 0x1680
    ||| 0x2000 <= v <= 0x200a
    ||| v == 0x2028
    ||| v == 0x2029
    ||| v == 0x202f
    ||| v == 0x205f
    ||| v == 0x3000
}

/// Whether `s` holds nothing but white space.
pub open spec fn is_blank(s: Seq<char>) -> bool {
    forall|i: int| 0 <= i < s.len() ==> is_white(#[trigger] s[i])
}

/// `s` without one trailing comma.
pub open spec fn strip_comma(s: Seq<char>) -> Seq<char> {
    if s.len() > 0 && s.last() == ',' {
        s.drop_last()
    } else {
        s
    }
}

/// The comma-separated slice-mapping expressions of `s`.
pub open spec fn bridge_pieces(s: Seq<char>) -> Seq<Seq<char>> {
    split_on(strip_comma(s), ',', 0, seq![])
}

/// One side of a mapping evaluated on the gap `[g0, g1)`.
pub open spec fn side_value(a: SegmentMapperAnchor, g0: int, g1: int) -> int {
    (if a.anchor == 0 {
        g0
    } else {
        g1
    }) + a.offset
}

/// `v` brought into `[0, tail]`.
pub open spec fn clamp(v: int, tail: int) -> int {
    if v < 0 {
        0
    } else if v > tail {
        tail
    } else {
        v
    }
}

/// The slice mapper `m` gives for the gap `[g0, g1)`, clipped to `[0,
/// tail]`; none when it is empty.
pub open spec fn map_gap(m: SegmentMapper, g0: int, g1: int, tail: int) -> Option<Segment> {
    let s = clamp(side_value(m.start, g0, g1), tail);
    let e = clamp(side_value(m.end, g0, g1), tail);
    if s < e {
        Some(Segment { pos: s as usize, len: (e - s) as usize })
    } else {
        None
    }
}

/// The slices the mappers give for one gap, in the mappers' order.
pub open spec fn map_gap_all(ms: Seq<SegmentMapper>, g0: int, g1: int, tail: int) -> Seq<Segment>
    decreases ms.len(),
{
    if ms.len() == 0 {
        seq![]
    } else {
        let rest = map_gap_all(ms.drop_last(), g0, g1, tail);
        match map_gap(ms.last(), g0, g1, tail) {
            Some(s) => rest.push(s),
            None => rest,
        }
    }
}

/// The slices the mappers give for each gap, gap by gap.
pub open spec fn map_gaps(ms: Seq<SegmentMapper>, g: Seq<(int, int)>, tail: int) -> Seq<Segment>
    decreases g.len(),
{
    if g.len() == 0 {
        seq![]
    } else {
        map_gaps(ms, g.drop_last(), tail) + map_gap_all(ms, g.last().0, g.last().1, tail)
    }
}

/// Walking the slices `segs` from the end mark `e`: the gaps left between
/// the stretches they cover, and the end mark after the last.
pub open spec fn gaps(e: int, segs: Seq<Segment>) -> (Seq<(int, int)>, int)
    decreases segs.len(),
{
    if segs.len() == 0 {
        (seq![], e)
    } else {
        let (g, e1) = gaps(e, segs.drop_last());
        let x = segs.last();
        let e2 = if e1 >= x.pos + x.len {
            e1
        } else {
            x.pos + x.len
        };
        if e1 >= x.pos {
            (g, e2)
        } else {
            (g.push((e1, x.pos as int)), e2)
        }
    }
}

/// The least start or end any mapper gives for the point slice at `e`
/// (zero without mappers).
pub open spec fn phantom_min(ms: Seq<SegmentMapper>, e: int) -> int
    decreases ms.len(),
{
    if ms.len() == 0 {
        0
    } else {
        let m = ms.last();
        let s = side_value(m.start, e, e + 1);
        let t = side_value(m.end, e, e + 1);
        let v = if s < t {
            s
        } else {
            t
        };
        if ms.len() == 1 {
            v
        } else {
            let rest = phantom_min(ms.drop_last(), e);
            if rest < v {
                rest
            } else {
                v
            }
        }
    }
}

/// Whether `c` is white space as Unicode defines it.
fn is_white_char(c: char) -> (r: bool)
    ensures
        r == is_white(c),
{
    let v = c as u32;
    (0x09 <= v && v <= 0x0d) || v == 0x20 || v == 0x85 || v == 0xa0 || v == 0x1680 || (0x2000 <= v
        && v <= 0x200a) || v == 0x2028 || v == 0x2029 || v == 0x202f || v == 0x205f || v == 0x3000
}

/// One side of a mapping on the gap `[g0, g1)`.
pub(crate) fn side(a: &SegmentMapperAnchor, g0: i128, g1: i128) -> (r: i128)
    requires
        -0x1_0000_0000_0000_0000_0000 <= g0 <= 0x1_0000_0000_0000_0000_0000,
        -0x1_0000_0000_0000_0000_0000 <= g1 <= 0x1_0000_0000_0000_0000_0000,
    ensures
        r == side_value(*a, g0 as int, g1 as int),
{
    let base = if a.anchor == 0 {
        g0
    } else {
        g1
    };
    base + a.offset as i128
}

/// The slice `m` gives for the gap `[g0, g1)`, clipped to `[0, tail]`.
pub(crate) fn map_one(m: &SegmentMapper, g0: i128, g1: i128, tail: usize) -> (r: Option<Segment>)
    requires
        -0x1_0000_0000_0000_0000_0000 <= g0 <= 0x1_0000_0000_0000_0000_0000,
        -0x1_0000_0000_0000_0000_0000 <= g1 <= 0x1_0000_0000_0000_0000_0000,
    ensures
        r == map_gap(*m, g0 as int, g1 as int, tail as int),
{
    let t = tail as i128;
    let s = side(&m.start, g0, g1);
    let e = side(&m.end, g0, g1);
    let s = if s < 0 {
        0
    } else if s > t {
        t
    } else {
        s
    };
    let e = if e < 0 {
        0
    } else if e > t {
        t
    } else {
        e
    };
    if s < e {
        Some(Segment { pos: s as usize, len: (e - s) as usize })
    } else {
        None
    }
}

/// Slices the gaps between the slices of a source stream: each gap is
/// mapped by each slice-mapping expression in turn.
pub struct BridgeStream<S: SegmentStream> {
    src: S,
    segments: Vec<Segment>,
    /// Source slices already walked (all the source holds).
    src_scanned: usize,
    /// End of the stretch the walked source slices cover.
    last_end: i128,
    /// Bytes that may be consumed without cutting into a gap to come.
    max_consume: usize,
    mappers: Vec<SegmentMapper>,
}

impl<S: SegmentStream> BridgeStream<S> {
    /// The source stream.
    pub closed spec fn source(&self) -> S {
        self.src
    }

    /// The slice mappers, in order.
    pub closed spec fn mappers(&self) -> Seq<SegmentMapper> {
        self.mappers@
    }

    /// End of the stretch the source slices walked so far cover.
    pub closed spec fn last_end(&self) -> int {
        self.last_end as int
    }

    /// Bytes that may be consumed without cutting into a gap to come.
    pub closed spec fn max_consume(&self) -> usize {
        self.max_consume
    }

    /// A bridge over `src` with the comma-separated slice-mapping
    /// expressions `exprs` (one trailing comma allowed).
    pub fn new(src: S, exprs: &str) -> (r: Result<Self, BridgeError>)
        requires
            src.wf(),
            src.segments().len() == 0,
        ensures
            is_blank(exprs@) <==> r == Err::<Self, BridgeError>(BridgeError::Empty),
            r matches Ok(b) ==> b.wf() && b.source() == src && b.segments().len() == 0
                && b.last_end() == 0 && b.max_consume() == 0 && b.mappers().len() == bridge_pieces(
                exprs@,
            ).len(),
    {
        let mappers = parse_mappers(exprs)?;
        Ok(
            BridgeStream {
                src,
                segments: Vec::new(),
                src_scanned: 0,
                last_end: 0,
                max_consume: 0,
                mappers,
            },
        )
    }
}

/// Whether every mapper maps boundaries of an input slice.
pub open spec fn mappers_ok(ms: Seq<SegmentMapper>) -> bool {
    forall|j: int| 0 <= j < ms.len() ==> (#[trigger] ms[j]).start.anchor <= 1 && ms[j].end.anchor <= 1
}

/// Reads comma-separated slice-mapping expressions (one trailing comma
/// allowed); a blank text is refused.
pub fn parse_mappers(exprs: &str) -> (r: Result<Vec<SegmentMapper>, BridgeError>)
    ensures
        is_blank(exprs@) <==> r == Err::<Vec<SegmentMapper>, BridgeError>(BridgeError::Empty),
        r matches Ok(ms) ==> mappers_ok(ms@) && ms@.len() == bridge_pieces(exprs@).len(),
{
    let chars = chars_of(exprs);
    let mut k: usize = 0;
    while k < chars.len()
        invariant
            chars@ == exprs@,
            k <= chars@.len(),
            forall|i: int| 0 <= i < k ==> is_white(#[trigger] chars@[i]),
        ensures
            k <= chars@.len(),
            forall|i: int| 0 <= i < k ==> is_white(#[trigger] chars@[i]),
            k < chars@.len() ==> !is_white(chars@[k as int]),
        decreases chars@.len() - k,
    {
        if !is_white_char(chars[k]) {
            break;
        }
        k = k + 1;
    }
    if k == chars.len() {
        return Err(BridgeError::Empty);
    }
    assert(!is_white(exprs@[k as int]));
    assert(!is_blank(exprs@));
    let n = chars.len();
    let body = if chars[n - 1] == ',' {
        exprs.substring_char(0, n - 1)
    } else {
        exprs
    };
    assert(body@ == strip_comma(exprs@));
    let pieces = split_strings(body, ',');
    let mut mappers: Vec<SegmentMapper> = Vec::new();
    let mut i: usize = 0;
    while i < pieces.len()
        invariant
            !is_blank(exprs@),
            i <= pieces@.len(),
            mappers@.len() == i,
            forall|j: int| 0 <= j < i ==> (#[trigger] mappers@[j]).start.anchor <= 1
                && mappers@[j].end.anchor <= 1,
        decreases pieces@.len() - i,
    {
        let m = match SegmentMapper::from_str(pieces[i].as_str()) {
            Ok(m) => m,
            Err(e) => {
                return Err(BridgeError::Mapper(e));
            },
        };
        mappers.push(m);
        i = i + 1;
    }
    proof {
        assert(texts(pieces@).len() == pieces@.len());
    }
    Ok(mappers)
}

/// A slice moved back by `bytes` (to zero if it starts before).
pub open spec fn shift_back(s: Segment, bytes: usize) -> Segment {
    Segment {
        pos: (if s.pos >= bytes {
            s.pos - bytes
        } else {
            0
        }) as usize,
        len: s.len,
    }
}

/// Drops the leading slices that start before `bytes` and moves the rest
/// back by `bytes`: `(slices kept, slices dropped)`.
pub fn drop_consumed(segs: &Vec<Segment>, bytes: usize) -> (r: (Vec<Segment>, usize))
    ensures
        r.1 <= segs@.len(),
        forall|i: int| 0 <= i < r.1 ==> (#[trigger] segs@[i]).pos < bytes,
        r.1 < segs@.len() ==> segs@[r.1 as int].pos >= bytes,
        r.0@ == segs@.subrange(r.1 as int, segs@.len() as int).map_values(
            |s: Segment| shift_back(s, bytes),
        ),
{
    let n = segs.len();
    let mut from: usize = 0;
    while from < n && segs[from].pos < bytes
        invariant
            n == segs@.len(),
            from <= n,
            forall|i: int| 0 <= i < from ==> (#[trigger] segs@[i]).pos < bytes,
        decreases n - from,
    {
        from = from + 1;
    }
    let mut kept: Vec<Segment> = Vec::new();
    let mut k: usize = from;
    while k < n
        invariant
            from <= k <= n,
            n == segs@.len(),
            kept@ == segs@.subrange(from as int, k as int).map_values(|s: Segment| shift_back(s, bytes)),
        decreases n - k,
    {
        let s = segs[k];
        let pos = if s.pos >= bytes {
            s.pos - bytes
        } else {
            0
        };
        kept.push(Segment { pos, len: s.len });
        proof {
            assert(segs@.subrange(from as int, k + 1).map_values(|s: Segment| shift_back(s, bytes))
                =~= segs@.subrange(from as int, k as int).map_values(
                |s: Segment| shift_back(s, bytes),
            ).push(shift_back(s, bytes)));
        }
        k = k + 1;
    }
    (kept, from)
}

/// The end of the stretch up to which slices are kept: the end of the
/// buffer once the source has ended, else no limit.
pub open spec fn bridge_tail(is_eof: bool, bytes: usize) -> int {
    if is_eof {
        bytes as int
    } else {
        usize::MAX as int
    }
}

/// The gaps a walk over `segs` from `e` finds, with the one left before
/// the end of the buffer once the source has ended; and the end mark after.
pub open spec fn walk(e: int, segs: Seq<Segment>, is_eof: bool, bytes: usize) -> (Seq<(int, int)>, int) {
    let (g, e1) = gaps(e, segs);
    if is_eof && e1 < bytes {
        (g.push((e1, bytes as int)), bytes as int)
    } else {
        (g, e1)
    }
}

impl<S: SegmentStream> BridgeStream<S> {
    /// Maps the gaps between the source slices `src_scanned..count`, and the
    /// last one once the source has ended.
    fn extend_segment_buf(&mut self, is_eof: bool, count: usize, bytes: usize)
        requires
            old(self).wf_fields(),
            count == old(self).src.segments().len(),
            old(self).src.wf(),
            old(self).src.filled(),
        ensures
            final(self).wf_fields(),
            final(self).src == old(self).src,
            final(self).mappers@ == old(self).mappers@,
            final(self).max_consume == old(self).max_consume,
            final(self).src_scanned == count,
            final(self).last_end >= old(self).last_end,
            is_eof ==> final(self).last_end >= bytes,
            ({
                let news = if count > old(self).src_scanned {
                    old(self).src.segments().subrange(old(self).src_scanned as int, count as int)
                } else {
                    seq![]
                };
                let (g, e) = walk(old(self).last_end as int, news, is_eof, bytes);
                &&& final(self).segments@ == old(self).segments@ + map_gaps(
                    old(self).mappers@,
                    g,
                    bridge_tail(is_eof, bytes),
                )
                &&& final(self).last_end == e
            }),
    {
        let tail: usize = if is_eof {
            bytes
        } else {
            usize::MAX
        };
        let ghost t = bridge_tail(is_eof, bytes);
        let ghost ms = self.mappers@;
        let ghost old_segments = self.segments@;
        let ghost e0 = self.last_end as int;
        let ghost src0 = self.src;
        let ghost mc0 = self.max_consume;
        let (_, segments) = self.src.as_slices();
        let start = self.src_scanned;
        let ghost news = if count > start {
            segments@.subrange(start as int, count as int)
        } else {
            seq![]
        };
        let mut prev_end: i128 = self.last_end;
        if count > start {
            let mut i: usize = start;
            while i < count
                invariant
                    start <= i <= count,
                    count == segments@.len(),
                    self.src == src0,
                    self.max_consume == mc0,
                    self.src_scanned == start,
                    self.last_end == e0,
                    news == segments@.subrange(start as int, count as int),
                    self.mappers@ == ms,
                    forall|j: int|
                        0 <= j < ms.len() ==> (#[trigger] ms[j]).start.anchor <= 1
                            && ms[j].end.anchor <= 1,
                    t == bridge_tail(is_eof, bytes),
                    tail as int == t,
                    i64::MIN <= e0 <= prev_end <= 0x2_0000_0000_0000_0000,
                    ({
                        let (g, e) = gaps(e0, segments@.subrange(start as int, i as int));
                        &&& prev_end == e
                        &&& self.segments@ == old_segments + map_gaps(ms, g, t)
                    }),
                decreases count - i,
            {
                let next = segments[i];
                let ghost before = segments@.subrange(start as int, i as int);
                let ghost (g, e) = gaps(e0, before);
                assert(segments@.subrange(start as int, i + 1).drop_last() =~= before);
                let curr_start = next.pos as i128;
                let curr_end = next.pos as i128 + next.len as i128;
                if prev_end >= curr_start {
                    if curr_end > prev_end {
                        prev_end = curr_end;
                    }
                } else {
                    let ghost base = self.segments@;
                    let mut j: usize = 0;
                    while j < self.mappers.len()
                        invariant
                            j <= ms.len(),
                            self.mappers@ == ms,
                            self.src == src0,
                            self.max_consume == mc0,
                            self.src_scanned == start,
                            self.last_end == e0,
                            forall|k: int|
                                0 <= k < ms.len() ==> (#[trigger] ms[k]).start.anchor <= 1
                                    && ms[k].end.anchor <= 1,
                            i64::MIN <= prev_end <= 0x2_0000_0000_0000_0000,
                            0 <= curr_start <= usize::MAX,
                            tail as int == t,
                            self.segments@ == base + map_gap_all(
                                ms.subrange(0, j as int),
                                prev_end as int,
                                curr_start as int,
                                t,
                            ),
                        decreases ms.len() - j,
                    {
                        assert(ms.subrange(0, j + 1).drop_last() =~= ms.subrange(0, j as int));
                        match map_one(&self.mappers[j], prev_end, curr_start, tail) {
                            Some(s) => {
                                self.segments.push(s);
                            },
                            None => {},
                        }
                        j = j + 1;
                    }
                    assert(ms.subrange(0, ms.len() as int) =~= ms);
                    let ghost gap = (prev_end as int, curr_start as int);
                    assert(g.push(gap).drop_last() =~= g);
                    assert(self.segments@ =~= old_segments + map_gaps(ms, g.push(gap), t));
                    prev_end = curr_end;
                }
                i = i + 1;
            }
        }
        let ghost (g, e) = gaps(e0, news);
        proof {
            if count <= start {
                assert(news.len() == 0);
                assert(self.segments@ =~= old_segments + map_gaps(ms, g, t));
            }
        }
        assert(prev_end == e);
        assert(self.segments@ == old_segments + map_gaps(ms, g, t));
        if is_eof && prev_end < bytes as i128 {
            let b = bytes as i128;
            let ghost base = self.segments@;
            let mut j: usize = 0;
            while j < self.mappers.len()
                invariant
                    j <= ms.len(),
                    self.mappers@ == ms,
                    self.src == src0,
                    self.max_consume == mc0,
                    self.src_scanned == start,
                    self.last_end == e0,
                    forall|k: int|
                        0 <= k < ms.len() ==> (#[trigger] ms[k]).start.anchor <= 1
                            && ms[k].end.anchor <= 1,
                    i64::MIN <= prev_end <= 0x2_0000_0000_0000_0000,
                    0 <= b <= usize::MAX,
                    tail as int == t,
                    self.segments@ == base + map_gap_all(
                        ms.subrange(0, j as int),
                        prev_end as int,
                        b as int,
                        t,
                    ),
                decreases ms.len() - j,
            {
                assert(ms.subrange(0, j + 1).drop_last() =~= ms.subrange(0, j as int));
                match map_one(&self.mappers[j], prev_end, b, tail) {
                    Some(s) => {
                        self.segments.push(s);
                    },
                    None => {},
                }
                j = j + 1;
            }
            assert(ms.subrange(0, ms.len() as int) =~= ms);
            let ghost gap = (prev_end as int, b as int);
            assert(g.push(gap).drop_last() =~= g);
            assert(self.segments@ =~= old_segments + map_gaps(ms, g.push(gap), t));
            prev_end = b;
        }
        self.last_end = prev_end;
        self.src_scanned = count;
    }

    /// Bytes that may be consumed: all once the source has ended, else up
    /// to the least start any mapper gives for the point after the last
    /// walked slice.
    fn update_max_consume(&mut self, is_eof: bool, bytes: usize)
        requires
            old(self).wf_fields(),
            is_eof ==> old(self).last_end >= bytes,
        ensures
            final(self).wf_fields(),
            final(self).src == old(self).src,
            final(self).segments == old(self).segments,
            final(self).mappers == old(self).mappers,
            final(self).last_end == old(self).last_end,
            final(self).src_scanned == old(self).src_scanned,
            final(self).max_consume == (if is_eof {
                bytes as int
            } else {
                clamp(phantom_min(old(self).mappers@, old(self).last_end as int), usize::MAX as int)
            }),
    {
        if is_eof {
            self.max_consume = bytes;
            return ;
        }
        let e = self.last_end;
        let ghost ms = self.mappers@;
        let mut best: i128 = 0;
        let mut j: usize = 0;
        while j < self.mappers.len()
            invariant
                j <= ms.len(),
                self.mappers@ == ms,
                forall|k: int|
                    0 <= k < ms.len() ==> (#[trigger] ms[k]).start.anchor <= 1
                        && ms[k].end.anchor <= 1,
                i64::MIN <= e <= 0x2_0000_0000_0000_0000,
                best == phantom_min(ms.subrange(0, j as int), e as int),
                j > 0 ==> best <= e + 1 + i64::MAX,
            decreases ms.len() - j,
        {
            assert(ms.subrange(0, j + 1).drop_last() =~= ms.subrange(0, j as int));
            let m = &self.mappers[j];
            let s = side(&m.start, e, e + 1);
            let t = side(&m.end, e, e + 1);
            let v = if s < t {
                s
            } else {
                t
            };
            best = if j == 0 || v < best {
                v
            } else {
                best
            };
            j = j + 1;
        }
        assert(ms.subrange(0, ms.len() as int) =~= ms);
        let limit = if best < 0 {
            0
        } else if best > usize::MAX as i128 {
            usize::MAX
        } else {
            best as usize
        };
        self.max_consume = limit;
    }

    /// Invariants of the fields other than the source's.
    spec fn wf_fields(&self) -> bool {
        &&& forall|j: int|
            0 <= j < self.mappers@.len() ==> (#[trigger] self.mappers@[j]).start.anchor <= 1
                && self.mappers@[j].end.anchor <= 1
        &&& i64::MIN <= self.last_end <= 0x2_0000_0000_0000_0000
        &&& self.last_end - self.max_consume >= i64::MIN
    }
}

impl<S: SegmentStream> SegmentStream for BridgeStream<S> {
    /// The source holds exactly the slices walked.
    closed spec fn wf(&self) -> bool {
        &&& self.src.wf()
        &&& self.src_scanned == self.src.segments().len()
        &&& self.wf_fields()
    }

    closed spec fn consumed(&self) -> nat {
        self.src.consumed()
    }

    closed spec fn segments(&self) -> Seq<Segment> {
        self.segments@
    }

    closed spec fn block(&self) -> Seq<u8> {
        self.src.block()
    }

    closed spec fn filled(&self) -> bool {
        self.src.filled()
    }

    /// Fills the source, then maps the gaps its new slices leave.
    fn fill_segment_buf(&mut self) -> (r: std::io::Result<(bool, usize, usize, usize)>)
        ensures
            final(self).mappers() == old(self).mappers(),
            r matches Ok(x) ==> ({
                let srcs = final(self).source().segments();
                let news = if srcs.len() > old(self).source().segments().len() {
                    srcs.subrange(old(self).source().segments().len() as int, srcs.len() as int)
                } else {
                    seq![]
                };
                let (g, e) = walk(old(self).last_end(), news, x.0, x.1);
                &&& final(self).segments() == old(self).segments() + map_gaps(
                    old(self).mappers(),
                    g,
                    bridge_tail(x.0, x.1),
                )
                &&& final(self).last_end() == e
                &&& final(self).max_consume() == (if x.0 {
                    x.1 as int
                } else {
                    clamp(phantom_min(old(self).mappers(), e), usize::MAX as int)
                })
                &&& x.3 <= final(self).max_consume()
            }),
    {
        let (is_eof, bytes, count, max_consume) = self.src.fill_segment_buf()?;
        self.extend_segment_buf(is_eof, count, bytes);
        self.update_max_consume(is_eof, bytes);
        let max_consume = if max_consume < self.max_consume {
            max_consume
        } else {
            self.max_consume
        };
        Ok((is_eof, bytes, self.segments.len(), max_consume))
    }

    fn as_slices(&self) -> (r: (&[u8], &[Segment])) {
        let (stream, _) = self.src.as_slices();
        (stream, self.segments.as_slice())
    }

    /// Consumes from the source no more than `max_consume` bytes; drops the
    /// slices that start before the bytes consumed, moving the rest back.
    fn consume(&mut self, bytes: usize) -> (r: std::io::Result<(usize, usize)>)
        ensures
            final(self).mappers() == old(self).mappers(),
            r matches Ok(x) ==> x.0 <= old(self).max_consume() && final(self).max_consume()
                == old(self).max_consume() - x.0 && final(self).last_end() == old(self).last_end()
                - x.0 && (forall|i: int| 0 <= i < x.1 ==> (#[trigger] old(self).segments()[i]).pos < x.0)
                && (x.1 < old(self).segments().len() ==> old(self).segments()[x.1 as int].pos >= x.0)
                && final(self).segments() == old(self).segments().subrange(
                x.1 as int,
                old(self).segments().len() as int,
            ).map_values(|s: Segment| shift_back(s, x.0)),
    {
        let bytes = if bytes < self.max_consume {
            bytes
        } else {
            self.max_consume
        };
        let (bytes, src_count) = self.src.consume(bytes)?;
        self.src_scanned = self.src_scanned - src_count;
        let (segments, from) = drop_consumed(&self.segments, bytes);
        self.segments = segments;
        self.last_end = self.last_end - bytes as i128;
        self.max_consume = self.max_consume - bytes;
        Ok((bytes, from))
    }
}

} // verus!
