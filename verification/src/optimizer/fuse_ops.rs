use vstd::prelude::*;

use super::{GreedyOptimizer, PipelineNode};
use crate::segment::ops::{sat_add_isize, SegmentMapper, SegmentPred};

verus! {

/// Slicer options as given: slice width, then extension, merging,
/// intersection and bridging of neighbouring slices.
#[derive(Debug)]
pub struct RawSlicerParams {
    pub width: usize,
    pub extend: Option<(isize, isize)>,
    pub merge: Option<isize>,
    pub intersection: Option<usize>,
    pub bridge: Option<(isize, isize)>,
}

/// A constant-stride slicer: either a stream that is entirely one slice
/// (`infinite`, and `vanished` when that slice is empty), or slices of
/// `span` bytes every `pitch` bytes after clipping and margins.
#[derive(Copy, Clone, Debug, PartialEq, Eq)]
pub struct ConstSlicerParams {
    pub infinite: bool,
    pub vanished: bool,
    pub clip: (usize, usize),
    pub margin: (isize, isize),
    pub pin: (bool, bool),
    pub pitch: usize,
    pub span: usize,
}

/// The slicer of a stream that is one slice, or none: intersecting an
/// unbounded slice with its neighbours empties it, bridging inverts it.
pub open spec fn infinite_params(vanished: bool, has_intersection: bool, has_bridge: bool) -> ConstSlicerParams {
    ConstSlicerParams {
        infinite: true,
        vanished: (vanished || has_intersection) != has_bridge,
        clip: (0, 0),
        margin: (0, 0),
        pin: (false, false),
        pitch: 0,
        span: 0,
    }
}

/// Whether `x` is a value of `isize`.
pub open spec fn in_isize(x: int) -> bool {
    isize::MIN <= x <= isize::MAX
}

/// The extension of raw slicer options, none when absent.
pub open spec fn raw_extend(p: &RawSlicerParams) -> (isize, isize) {
    match p.extend {
        Some(e) => e,
        None => (0isize, 0isize),
    }
}

/// Length of `[s, e)`, none when `e <= s`.
pub open spec fn ilen(s: int, e: int) -> int {
    if e > s {
        e - s
    } else {
        0
    }
}

/// Overlap at or beyond which neighbouring slices merge into one.
pub open spec fn merge_of(p: &RawSlicerParams) -> int {
    match p.merge {
        Some(m) => m as int,
        None => isize::MAX as int,
    }
}

/// Length of the phantom slice `[0, width)` after extension.
pub open spec fn extended_len(p: &RawSlicerParams) -> int {
    ilen(0 - raw_extend(p).0, p.width + raw_extend(p).1)
}

/// Where the computation ends early, the one-slice stream it yields.
pub open spec fn early_result(p: &RawSlicerParams) -> Option<ConstSlicerParams> {
    let hi = p.intersection is Some;
    let hb = p.bridge is Some;
    let len = extended_len(p);
    if len == 0 {
        Some(infinite_params(true, hi, hb))
    } else if len - p.width >= merge_of(p) {
        Some(infinite_params(false, hi, hb))
    } else if hi && len - p.width < (p.intersection.unwrap() as isize) {
        Some(infinite_params(true, false, hb))
    } else {
        None
    }
}

/// Head and tail slices `(hs, he, ts, te)` after intersection and bridging.
pub open spec fn geometry(p: &RawSlicerParams) -> (int, int, int, int) {
    let pitch = p.width as int;
    let hs = 0 - raw_extend(p).0;
    let he = pitch + raw_extend(p).1;
    let ov = extended_len(p) - pitch;
    let (hs, ts, te) = if p.intersection is Some {
        (he - ov, hs, hs + ov)
    } else {
        (hs, hs, he)
    };
    if p.bridge is Some {
        let span = he - hs;
        let b0 = (p.bridge.unwrap().0 as int) % span;
        let b1 = (p.bridge.unwrap().1 as int) % span;
        (hs - pitch + b0, hs + b1, ts + b0, ts + pitch + b1)
    } else {
        (hs, he, ts, te)
    }
}

/// Head and tail slices `(hs, he, ts, te)` after intersection, before
/// bridging.
pub open spec fn intersected(p: &RawSlicerParams) -> (int, int, int, int) {
    let pitch = p.width as int;
    let hs = 0 - raw_extend(p).0;
    let he = pitch + raw_extend(p).1;
    let ov = extended_len(p) - pitch;
    if p.intersection is Some {
        (he - ov, he, hs, hs + ov)
    } else {
        (hs, he, hs, he)
    }
}

/// No step of the slicer computation, carried out on `isize`, leaves it:
/// the extended phantom slice and its length, the bridged slices, and the
/// margins read off them.
pub open spec fn slicer_fits(p: &RawSlicerParams) -> bool {
    let w = p.width as int;
    let (hs, he, ts, te) = geometry(p);
    let (hs1, he1, ts1, te1) = intersected(p);
    &&& w <= isize::MAX
    &&& in_isize(0 - raw_extend(p).0)
    &&& in_isize(w + raw_extend(p).1)
    &&& extended_len(p) <= isize::MAX
    &&& early_result(p) is None ==> {
        &&& p.bridge is Some ==> {
            let span = he1 - hs1;
            &&& span + (p.bridge.unwrap().1 as int) % span <= isize::MAX
            &&& in_isize(hs1 - w)
            &&& in_isize(ts1 + w)
        }
        &&& in_isize(hs) && in_isize(he) && in_isize(ts) && in_isize(te)
        &&& ilen(hs, he) <= isize::MAX
        &&& ilen(ts, te) <= isize::MAX
        &&& (p.bridge is Some || hs < 0) ==> in_isize(0 - hs)
        &&& in_isize(1 - te)
    }
}

/// `m` reduced by whole pitches until it is at most `len`.
pub open spec fn reduce_margin(m: int, len: int, pitch: int) -> int
    decreases (if m > len {
        m - len
    } else {
        0
    }),
{
    if m > len && pitch > 0 {
        reduce_margin(m - pitch, len, pitch)
    } else {
        m
    }
}

/// The slicer that raw options describe, computed on the phantom slice
/// `[0, width)` and its neighbours.
pub open spec fn slicer_of(p: &RawSlicerParams) -> ConstSlicerParams {
    match early_result(p) {
        Some(r) => r,
        None => {
            let (hs, he, ts, te) = geometry(p);
            let hb = p.bridge is Some;
            let (clip, head_margin) = if hb || hs < 0 {
                (0, 0 - reduce_margin(0 - hs, ilen(hs, he), p.width as int))
            } else {
                (hs, 0)
            };
            let tail_margin = if te < 1 {
                1 - te
            } else if 1 - te >= 1 - ilen(ts, te) {
                1 - te
            } else {
                1 - ilen(ts, te)
            };
            ConstSlicerParams {
                infinite: false,
                vanished: false,
                clip: (clip as usize, 0),
                margin: (head_margin as isize, tail_margin as isize),
                pin: (hb, hb),
                pitch: p.width,
                span: ilen(hs, he) as usize,
            }
        },
    }
}

impl ConstSlicerParams {
    /// Plain slices of `pitch` bytes.
    pub fn from_pitch(pitch: usize) -> (r: Self)
        requires
            pitch as isize > isize::MIN,
        ensures
            r == (ConstSlicerParams {
                infinite: false,
                vanished: false,
                clip: (0, 0),
                margin: (0, (pitch as isize - 1) as isize),
                pin: (false, false),
                pitch,
                span: pitch,
            }),
    {
        ConstSlicerParams {
            infinite: false,
            vanished: false,
            clip: (0, 0),
            margin: (0, pitch as isize - 1),
            pin: (false, false),
            pitch,
            span: pitch,
        }
    }

    fn make_infinite(vanished: bool, has_intersection: bool, has_bridge: bool) -> (r: Self)
        ensures
            r == infinite_params(vanished, has_intersection, has_bridge),
    {
        let mut vanished = vanished;
        if has_intersection {
            vanished = true;
        }
        if has_bridge {
            vanished = !vanished;
        }
        ConstSlicerParams {
            infinite: true,
            vanished,
            clip: (0, 0),
            margin: (0, 0),
            pin: (false, false),
            pitch: 0,
            span: 0,
        }
    }

    /// Applies extension, merging, intersection and bridging to the
    /// phantom slice `[0, width)` and its neighbours, and reads the slicer
    /// off the result.
    #[verifier::rlimit(80)]
    pub fn from_raw(params: &RawSlicerParams) -> (r: Self)
        requires
            slicer_fits(params),
            // intersection must leave a non-empty slice
            early_result(params) is None && params.intersection is Some ==> extended_len(params)
                - params.width > 0,
            // a zero pitch cannot bring a margin back into the slice
            early_result(params) is None && params.width == 0 && (params.bridge is Some
                || geometry(params).0 < 0) ==> 0 - geometry(params).0 <= ilen(
                geometry(params).0,
                geometry(params).1,
            ),
        ensures
            r == slicer_of(params),
    {
        let has_intersection = params.intersection.is_some();
        let has_bridge = params.bridge.is_some();
        let pitch: i128 = params.width as i128;
        let extend = match params.extend {
            Some(e) => e,
            None => (0, 0),
        };
        let mut hs: i128 = 0 - (extend.0 as i128);
        let mut he: i128 = pitch + (extend.1 as i128);
        let mut ts: i128 = hs;
        let mut te: i128 = he;
        if hs >= he {
            return Self::make_infinite(true, has_intersection, has_bridge);
        }
        let merge: i128 = match params.merge {
            Some(m) => m as i128,
            None => isize::MAX as i128,
        };
        let ov: i128 = (he - hs) - pitch;
        if ov >= merge {
            return Self::make_infinite(false, has_intersection, has_bridge);
        }
        if has_intersection {
            let span = ov;
            if span < ((#[verifier::truncate] (params.intersection.unwrap() as isize)) as i128) {
                return Self::make_infinite(true, false, has_bridge);
            }
            hs = he - span;
            te = ts + span;
        }
        assert(intersected(params) == (hs as int, he as int, ts as int, te as int));
        assert(he > hs);
        if has_bridge {
            let span: i128 = he - hs;
            assert(span <= extended_len(params));
            let sp = span as isize;
            let raw = params.bridge.unwrap();
            let b0 = raw.0.checked_rem_euclid(sp).unwrap() as i128;
            let b1 = raw.1.checked_rem_euclid(sp).unwrap() as i128;
            if span + b1 - b0 <= 0 {
                return Self::make_infinite(true, false, false);
            }
            let nhs = hs - pitch + b0;
            let nhe = hs + b1;
            let nts = ts + b0;
            let nte = ts + pitch + b1;
            hs = nhs;
            he = nhe;
            ts = nts;
            te = nte;
        }
        assert(geometry(params) == (hs as int, he as int, ts as int, te as int));
        let hlen: i128 = if he > hs {
            he - hs
        } else {
            0
        };
        let (head_clip, head_margin): (i128, i128) = if has_bridge || hs < 0 {
            let ghost m0 = 0 - hs;
            let mut margin: i128 = 0 - hs;
            while margin > hlen
                invariant
                    hlen >= 0,
                    pitch >= 0,
                    pitch > 0 || margin <= hlen,
                    pitch <= isize::MAX,
                    hlen - pitch < margin <= m0 || margin == m0,
                    m0 <= isize::MAX,
                    reduce_margin(margin as int, hlen as int, pitch as int) == reduce_margin(
                        m0,
                        hlen as int,
                        pitch as int,
                    ),
                decreases (if margin > hlen {
                    margin - hlen
                } else {
                    0
                }),
            {
                margin = margin - pitch;
            }
            (0, 0 - margin)
        } else {
            (hs, 0)
        };
        let tlen: i128 = if te > ts {
            te - ts
        } else {
            0
        };
        let tail_margin: i128 = if te < 1 {
            1 - te
        } else if 1 - te >= 1 - tlen {
            1 - te
        } else {
            1 - tlen
        };
        ConstSlicerParams {
            infinite: false,
            vanished: false,
            clip: (head_clip as usize, 0),
            margin: (head_margin as isize, tail_margin as isize),
            pin: (has_bridge, has_bridge),
            pitch: params.width,
            span: hlen as usize,
        }
    }
}


/// A phantom slice followed through the filters: its bounds, and whether
/// each bound still moves with the stride of the slicer (`coherency`).
#[derive(Copy, Clone, Debug, PartialEq, Eq)]
pub struct SegmentTrace {
    pub coherency: (bool, bool),
    pub start: isize,
    pub end: isize,
}

/// A trace whose bounds move with the stride.
pub open spec fn coherent(t: SegmentTrace) -> bool {
    t.coherency.0 && t.coherency.1
}

/// The trace moved by `amount` (bounds clamped to `isize`).
pub open spec fn shifted(t: SegmentTrace, amount: isize) -> SegmentTrace {
    SegmentTrace {
        coherency: t.coherency,
        start: sat_add_isize(t.start, amount),
        end: sat_add_isize(t.end, amount),
    }
}

/// Whether a predicate holds of boundaries `input`.
pub open spec fn holds(pred: SegmentPred, input: Seq<isize>) -> bool {
    input[pred.positive as int] - input[pred.negative as int] + pred.offset >= 0
}

/// The slice a mapper makes of boundaries `input` with coherency flags `deps`.
pub open spec fn mapped(m: SegmentMapper, input: Seq<isize>, deps: Seq<bool>) -> SegmentTrace {
    SegmentTrace {
        coherency: (deps[m.start.0 as int], deps[m.end.0 as int]),
        start: sat_add_isize(input[m.start.0 as int], m.start.1),
        end: sat_add_isize(input[m.end.0 as int], m.end.1),
    }
}

/// Boundaries of one trace, after the constant zero.
pub open spec fn single_input(t: SegmentTrace) -> Seq<isize> {
    seq![0isize, t.start, t.end]
}

/// Coherency flags of one trace, after a constant.
pub open spec fn single_deps(t: SegmentTrace) -> Seq<bool> {
    seq![false, t.coherency.0, t.coherency.1]
}

/// Boundaries of a pair of traces, after the constant zero.
pub open spec fn pair_input(a: SegmentTrace, b: SegmentTrace) -> Seq<isize> {
    seq![0isize, a.start, a.end, b.start, b.end]
}

/// Coherency flags of a pair of traces, after a constant.
pub open spec fn pair_deps(a: SegmentTrace, b: SegmentTrace) -> Seq<bool> {
    seq![false, a.coherency.0, a.coherency.1, b.coherency.0, b.coherency.1]
}

/// The traces that satisfy `pred`, each mapped by `m`.
pub open spec fn filter_single(s: Seq<SegmentTrace>, pred: SegmentPred, m: SegmentMapper) -> Seq<
    SegmentTrace,
>
    decreases s.len(),
{
    if s.len() == 0 {
        seq![]
    } else {
        let r = filter_single(s.drop_last(), pred, m);
        let t = s.last();
        if holds(pred, single_input(t)) {
            r.push(mapped(m, single_input(t), single_deps(t)))
        } else {
            r
        }
    }
}

/// The neighbouring pairs of traces that satisfy `pred`, each mapped by `m`.
pub open spec fn filter_pairs(s: Seq<SegmentTrace>, pred: SegmentPred, m: SegmentMapper) -> Seq<
    SegmentTrace,
>
    decreases s.len(),
{
    if s.len() < 2 {
        seq![]
    } else {
        let r = filter_pairs(s.drop_last(), pred, m);
        let a = s[s.len() - 2];
        let b = s.last();
        if holds(pred, pair_input(a, b)) {
            r.push(mapped(m, pair_input(a, b), pair_deps(a, b)))
        } else {
            r
        }
    }
}

/// Distance of the last trace's end below one, which extension shrinks.
pub open spec fn below_start(s: Seq<SegmentTrace>) -> int {
    if s.len() > 0 && s.last().end <= 0 {
        1 - s.last().end
    } else {
        0
    }
}

/// Repeats the last trace, one pitch further each time, while it is
/// coherent and ends at or before zero.
pub open spec fn extend_head(s: Seq<SegmentTrace>, pitch: isize) -> Seq<SegmentTrace>
    decreases below_start(s),
{
    if s.len() == 0 || pitch <= 0 || !coherent(s.last()) || s.last().end > 0 {
        s
    } else {
        extend_head(s.push(shifted(s.last(), pitch)), pitch)
    }
}

/// Drops traces that end before zero and clips the others at zero.
pub open spec fn clip_head(s: Seq<SegmentTrace>) -> Seq<SegmentTrace>
    decreases s.len(),
{
    if s.len() == 0 {
        seq![]
    } else {
        let r = clip_head(s.drop_last());
        let t = s.last();
        if t.end < 0 {
            r
        } else {
            r.push(
                SegmentTrace {
                    coherency: (t.start >= 0, true),
                    start: if t.start >= 0 {
                        t.start
                    } else {
                        0
                    },
                    end: t.end,
                },
            )
        }
    }
}

/// Drops the anchor that marks the end of the stream.
pub open spec fn cleanup_tail(s: Seq<SegmentTrace>) -> Seq<SegmentTrace>
    decreases s.len(),
{
    if s.len() == 0 {
        seq![]
    } else {
        let r = cleanup_tail(s.drop_last());
        let t = s.last();
        if t.start == isize::MAX && t.end == isize::MAX {
            r
        } else {
            r.push(t)
        }
    }
}

/// A trace that stands for the unbounded head or tail of the stream.
pub open spec fn anchor_trace(at: isize) -> SegmentTrace {
    SegmentTrace { coherency: (false, false), start: at, end: at }
}

/// Head traces after a pair filter: a pinned head anchor in front, one more
/// slice behind, then each neighbouring pair filtered and mapped.
pub open spec fn pair_head(s: Seq<SegmentTrace>, pred: SegmentPred, m: SegmentMapper, pin: bool, pitch: isize) -> Seq<SegmentTrace> {
    if s.len() == 0 {
        s
    } else {
        let v = if pin {
            seq![anchor_trace(isize::MIN)] + s
        } else {
            s
        };
        let v = if coherent(v.last()) {
            v.push(shifted(v.last(), pitch))
        } else {
            v
        };
        filter_pairs(v, pred, m)
    }
}

/// Tail traces after a pair filter: a pinned tail anchor behind, one more
/// slice in front, then each neighbouring pair filtered and mapped.
pub open spec fn pair_tail(s: Seq<SegmentTrace>, pred: SegmentPred, m: SegmentMapper, pin: bool, pitch: isize) -> Seq<SegmentTrace> {
    if s.len() == 0 {
        s
    } else {
        let v = if pin {
            s.push(anchor_trace(isize::MAX))
        } else {
            s
        };
        let v = if coherent(v[0]) {
            seq![shifted(v[0], (0 - pitch) as isize)] + v
        } else {
            v
        };
        filter_pairs(v, pred, m)
    }
}

/// A node the tracker can follow: a single filter with single mappers, or
/// a pair filter with a pair mapper.
pub open spec fn trackable(n: PipelineNode) -> bool {
    match n {
        PipelineNode::Filter(pred, mappers) => pred.positive < 3 && pred.negative < 3 && (
        mappers@.len() > 0 ==> mappers@[0].expected_input_len == 3 && mappers@[0].start.0 < 3
            && mappers@[0].end.0 < 3),
        PipelineNode::Pair(pred, m, _) => pred.positive < 5 && pred.negative < 5
            && m.expected_input_len == 5 && m.start.0 < 5 && m.end.0 < 5,
        _ => true,
    }
}

/// Head and tail traces after one fusable node.
pub open spec fn track_step(n: PipelineNode, head: Seq<SegmentTrace>, tail: Seq<SegmentTrace>, pitch: isize) -> (Seq<SegmentTrace>, Seq<SegmentTrace>) {
    match n {
        PipelineNode::Filter(pred, mappers) => (
            clip_head(extend_head(filter_single(head, pred, mappers@[0]), pitch)),
            cleanup_tail(filter_single(tail, pred, mappers@[0])),
        ),
        PipelineNode::Pair(pred, m, pin) => (
            clip_head(extend_head(pair_head(head, pred, m, pin, pitch), pitch)),
            cleanup_tail(pair_tail(tail, pred, m, pin, pitch)),
        ),
        _ => (head, tail),
    }
}

/// Follows the traces through `nodes[i..]`, stopping once none is left:
/// the number of nodes taken, and the final head and tail traces.
pub open spec fn track_from(nodes: Seq<PipelineNode>, i: int, head: Seq<SegmentTrace>, tail: Seq<SegmentTrace>, pitch: isize) -> (int, Seq<SegmentTrace>, Seq<SegmentTrace>)
    decreases nodes.len() - i,
{
    if i < 0 || i >= nodes.len() || (head.len() == 0 && tail.len() == 0) {
        (if i < 0 {
            0
        } else if i > nodes.len() {
            nodes.len() as int
        } else {
            i
        }, head, tail)
    } else {
        let (h, t) = track_step(nodes[i], head, tail, pitch);
        track_from(nodes, i + 1, h, t, pitch)
    }
}

/// The slicer pitch as a signed stride.
pub open spec fn stride_of(pitch: usize) -> isize {
    if pitch >= isize::MAX {
        isize::MAX
    } else {
        pitch as isize
    }
}

/// The traces of the bare slicer: one slice `[0, pitch)`.
pub open spec fn initial_traces(pitch: usize) -> Seq<SegmentTrace> {
    seq![SegmentTrace { coherency: (true, true), start: 0, end: stride_of(pitch) }]
}

/// Length of `[s, e)` as a signed count.
pub open spec fn trace_len(t: SegmentTrace) -> int {
    if t.end > t.start {
        t.end - t.start
    } else {
        0
    }
}

/// Length of a trace as `isize` (wrapping where it does not fit).
pub open spec fn span_of_trace(t: SegmentTrace) -> isize {
    trace_len(t) as isize
}

/// The fused slicer read off the final traces; `None` where they admit
/// no constant-stride slicer.
pub open spec fn fused_params(head: Seq<SegmentTrace>, tail: Seq<SegmentTrace>, pitch: isize) -> Option<ConstSlicerParams> {
    if head.len() == 0 && tail.len() == 0 {
        Some(ConstSlicerParams {
            infinite: false,
            vanished: true,
            clip: (0, 0),
            margin: (0, 0),
            pin: (false, false),
            pitch: usize::MAX,
            span: 0,
        })
    } else if head.len() == 0 || tail.len() == 0 || !coherent(tail[0]) || (pitch <= 0 && head[0].start == 0 && head[0].end <= span_of_trace(tail[0]) && span_of_trace(tail[0]) - head[0].end > span_of_trace(tail[0])) {
        None
    } else {
        let len = span_of_trace(tail[0]) as int;
        let hs = head[0].start;
        let he = head[0].end;
        let (head_pin, head_clip, head_margin) = if hs == 0 {
            if he > len {
                (true, 0int, 0int)
            } else {
                (false, 0int, 0 - reduce_margin(len - he, len, pitch as int))
            }
        } else {
            (false, hs as int, 0int)
        };
        let te = tail[0].end;
        let tail_margin = if te < 1 {
            1 - te
        } else if 1 - te >= 1 - len {
            1 - te
        } else {
            1 - len
        };
        Some(ConstSlicerParams {
            infinite: false,
            vanished: false,
            clip: (head_clip as usize, 0),
            margin: (head_margin as isize, tail_margin as isize),
            pin: (head_pin, tail.last().end == isize::MAX),
            pitch: pitch as usize,
            span: len as usize,
        })
    }
}

fn sat_add(x: isize, y: isize) -> (r: isize)
    ensures
        r == sat_add_isize(x, y),
{
    let s: i128 = (x as i128) + (y as i128);
    if s > (isize::MAX as i128) {
        isize::MAX
    } else if s < (isize::MIN as i128) {
        isize::MIN
    } else {
        s as isize
    }
}

impl SegmentTrace {
    fn new(is_head_coherent: bool, is_tail_coherent: bool, start: isize, end: isize) -> (r: Self)
        ensures
            r == (SegmentTrace { coherency: (is_head_coherent, is_tail_coherent), start, end }),
    {
        SegmentTrace { coherency: (is_head_coherent, is_tail_coherent), start, end }
    }

    fn eval_single(&self, pred: &SegmentPred) -> (r: bool)
        requires
            pred.positive < 3,
            pred.negative < 3,
        ensures
            r == holds(*pred, single_input(*self)),
    {
        let input: [isize; 3] = [0, self.start, self.end];
        pred.eval_wide(input.as_slice())
    }

    fn eval_pair(&self, other: &SegmentTrace, pred: &SegmentPred) -> (r: bool)
        requires
            pred.positive < 5,
            pred.negative < 5,
        ensures
            r == holds(*pred, pair_input(*self, *other)),
    {
        let input: [isize; 5] = [0, self.start, self.end, other.start, other.end];
        pred.eval_wide(input.as_slice())
    }

    fn map_single(&self, mapper: &SegmentMapper) -> (r: Self)
        requires
            mapper.expected_input_len == 3,
            mapper.start.0 < 3,
            mapper.end.0 < 3,
        ensures
            r == mapped(*mapper, single_input(*self), single_deps(*self)),
    {
        let deps: [bool; 3] = [false, self.coherency.0, self.coherency.1];
        let input: [isize; 3] = [0, self.start, self.end];
        let coherency = mapper.map_dep(deps.as_slice());
        let (start, end) = mapper.map(input.as_slice());
        SegmentTrace { coherency, start, end }
    }

    fn map_pair(&self, other: &SegmentTrace, mapper: &SegmentMapper) -> (r: Self)
        requires
            mapper.expected_input_len == 5,
            mapper.start.0 < 5,
            mapper.end.0 < 5,
        ensures
            r == mapped(*mapper, pair_input(*self, *other), pair_deps(*self, *other)),
    {
        let deps: [bool; 5] = [false, self.coherency.0, self.coherency.1, other.coherency.0, other.coherency.1];
        let input: [isize; 5] = [0, self.start, self.end, other.start, other.end];
        let coherency = mapper.map_dep(deps.as_slice());
        let (start, end) = mapper.map(input.as_slice());
        SegmentTrace { coherency, start, end }
    }

    fn is_coherent(&self) -> (r: bool)
        ensures
            r == coherent(*self),
    {
        self.coherency.0 && self.coherency.1
    }

    fn shift(self, amount: isize) -> (r: Self)
        ensures
            r == shifted(self, amount),
    {
        SegmentTrace {
            coherency: self.coherency,
            start: sat_add(self.start, amount),
            end: sat_add(self.end, amount),
        }
    }
}

/// Traces of the first slices at the head of the stream and of the slices
/// in its body, followed through the filters.
#[derive(Debug)]
pub struct SegmentTracker {
    pub pitch: isize,
    pub head: Vec<SegmentTrace>,
    pub tail: Vec<SegmentTrace>,
}

fn filter_single_exec(s: &Vec<SegmentTrace>, pred: &SegmentPred, m: &SegmentMapper) -> (r: Vec<SegmentTrace>)
    requires
        pred.positive < 3,
        pred.negative < 3,
        m.expected_input_len == 3,
        m.start.0 < 3,
        m.end.0 < 3,
    ensures
        r@ == filter_single(s@, *pred, *m),
{
    let mut r: Vec<SegmentTrace> = Vec::new();
    let mut i: usize = 0;
    while i < s.len()
        invariant
            i <= s@.len(),
            pred.positive < 3,
            pred.negative < 3,
            m.expected_input_len == 3,
            m.start.0 < 3,
            m.end.0 < 3,
            r@ == filter_single(s@.subrange(0, i as int), *pred, *m),
        decreases s@.len() - i,
    {
        assert(s@.subrange(0, i + 1).drop_last() =~= s@.subrange(0, i as int));
        if s[i].eval_single(pred) {
            r.push(s[i].map_single(m));
        }
        i = i + 1;
    }
    assert(s@.subrange(0, s@.len() as int) =~= s@);
    r
}

fn filter_pairs_exec(s: &Vec<SegmentTrace>, pred: &SegmentPred, m: &SegmentMapper) -> (r: Vec<SegmentTrace>)
    requires
        pred.positive < 5,
        pred.negative < 5,
        m.expected_input_len == 5,
        m.start.0 < 5,
        m.end.0 < 5,
    ensures
        r@ == filter_pairs(s@, *pred, *m),
{
    let mut r: Vec<SegmentTrace> = Vec::new();
    if s.len() < 2 {
        return r;
    }
    let mut i: usize = 1;
    assert(filter_pairs(s@.subrange(0, 1), *pred, *m) =~= seq![]);
    while i < s.len()
        invariant
            1 <= i <= s@.len(),
            pred.positive < 5,
            pred.negative < 5,
            m.expected_input_len == 5,
            m.start.0 < 5,
            m.end.0 < 5,
            r@ == filter_pairs(s@.subrange(0, i as int), *pred, *m),
        decreases s@.len() - i,
    {
        let ghost w = s@.subrange(0, i + 1);
        assert(w.drop_last() =~= s@.subrange(0, i as int));
        assert(w[w.len() - 2] == s@[i - 1]);
        if s[i - 1].eval_pair(&s[i], pred) {
            r.push(s[i - 1].map_pair(&s[i], m));
        }
        i = i + 1;
    }
    assert(s@.subrange(0, s@.len() as int) =~= s@);
    r
}

impl SegmentTracker {
    fn new(pitch: usize) -> (r: Self)
        ensures
            r.pitch == stride_of(pitch),
            r.head@ == initial_traces(pitch),
            r.tail@ == initial_traces(pitch),
    {
        let pitch = if pitch >= (isize::MAX as usize) {
            isize::MAX
        } else {
            pitch as isize
        };
        let mut head: Vec<SegmentTrace> = Vec::new();
        head.push(SegmentTrace::new(true, true, 0, pitch));
        let mut tail: Vec<SegmentTrace> = Vec::new();
        tail.push(SegmentTrace::new(true, true, 0, pitch));
        SegmentTracker { pitch, head, tail }
    }

    fn adjust_head_clip(&mut self)
        requires
            old(self).pitch > 0,
        ensures
            final(self).pitch == old(self).pitch,
            final(self).tail@ == old(self).tail@,
            final(self).head@ == clip_head(extend_head(old(self).head@, old(self).pitch)),
    {
        if self.head.len() == 0 {
            assert(clip_head(seq![]) =~= seq![]);
            return;
        }
        loop
            invariant_except_break
                self.pitch > 0,
                self.head@.len() > 0,
                extend_head(self.head@, self.pitch) == extend_head(old(self).head@, old(self).pitch),
                self.pitch == old(self).pitch,
                self.tail@ == old(self).tail@,
            ensures
                self.pitch == old(self).pitch,
                self.tail@ == old(self).tail@,
                self.head@ == extend_head(old(self).head@, old(self).pitch),
            decreases below_start(self.head@),
        {
            let last = self.head[self.head.len() - 1];
            if !last.is_coherent() || last.end > 0 {
                break;
            }
            let next = last.shift(self.pitch);
            self.head.push(next);
        }
        let mut clipped: Vec<SegmentTrace> = Vec::new();
        let mut i: usize = 0;
        while i < self.head.len()
            invariant
                i <= self.head@.len(),
                clipped@ == clip_head(self.head@.subrange(0, i as int)),
            decreases self.head@.len() - i,
        {
            assert(self.head@.subrange(0, i + 1).drop_last() =~= self.head@.subrange(0, i as int));
            let x = self.head[i];
            if x.end >= 0 {
                let is_coherent = x.start >= 0;
                let start = if x.start >= 0 {
                    x.start
                } else {
                    0
                };
                clipped.push(SegmentTrace::new(is_coherent, true, start, x.end));
            }
            i = i + 1;
        }
        assert(self.head@.subrange(0, self.head@.len() as int) =~= self.head@);
        self.head = clipped;
    }

    fn cleanup_tail(&mut self)
        ensures
            final(self).pitch == old(self).pitch,
            final(self).head@ == old(self).head@,
            final(self).tail@ == cleanup_tail(old(self).tail@),
    {
        let mut kept: Vec<SegmentTrace> = Vec::new();
        let mut i: usize = 0;
        while i < self.tail.len()
            invariant
                i <= self.tail@.len(),
                kept@ == cleanup_tail(self.tail@.subrange(0, i as int)),
            decreases self.tail@.len() - i,
        {
            assert(self.tail@.subrange(0, i + 1).drop_last() =~= self.tail@.subrange(0, i as int));
            let x = self.tail[i];
            if !(x.start == isize::MAX && x.end == isize::MAX) {
                kept.push(x);
            }
            i = i + 1;
        }
        assert(self.tail@.subrange(0, self.tail@.len() as int) =~= self.tail@);
        self.tail = kept;
    }

    fn filter(&mut self, pred: &SegmentPred, mapper: &SegmentMapper)
        requires
            old(self).pitch > 0,
            pred.positive < 3,
            pred.negative < 3,
            mapper.expected_input_len == 3,
            mapper.start.0 < 3,
            mapper.end.0 < 3,
        ensures
            final(self).pitch == old(self).pitch,
            final(self).head@ == clip_head(extend_head(filter_single(old(self).head@, *pred, *mapper), old(self).pitch)),
            final(self).tail@ == cleanup_tail(filter_single(old(self).tail@, *pred, *mapper)),
    {
        let head = filter_single_exec(&self.head, pred, mapper);
        let tail = filter_single_exec(&self.tail, pred, mapper);
        self.head = head;
        self.tail = tail;
        self.adjust_head_clip();
        self.cleanup_tail();
    }

    fn pair(&mut self, pred: &SegmentPred, mapper: &SegmentMapper, pin: bool)
        requires
            old(self).pitch > 0,
            pred.positive < 5,
            pred.negative < 5,
            mapper.expected_input_len == 5,
            mapper.start.0 < 5,
            mapper.end.0 < 5,
        ensures
            final(self).pitch == old(self).pitch,
            final(self).head@ == clip_head(extend_head(pair_head(old(self).head@, *pred, *mapper, pin, old(self).pitch), old(self).pitch)),
            final(self).tail@ == cleanup_tail(pair_tail(old(self).tail@, *pred, *mapper, pin, old(self).pitch)),
    {
        let head = if self.head.len() == 0 {
            Vec::new()
        } else {
            let mut v: Vec<SegmentTrace> = Vec::new();
            if pin {
                v.push(SegmentTrace::new(false, false, isize::MIN, isize::MIN));
            }
            let mut i: usize = 0;
            let ghost v0 = v@;
            while i < self.head.len()
                invariant
                    i <= self.head@.len(),
                    v@ == v0 + self.head@.subrange(0, i as int),
                decreases self.head@.len() - i,
            {
                v.push(self.head[i]);
                assert(v0 + self.head@.subrange(0, i + 1) =~= (v0 + self.head@.subrange(0, i as int)).push(self.head@[i as int]));
                i = i + 1;
            }
            assert(self.head@.subrange(0, self.head@.len() as int) =~= self.head@);
            assert(pin ==> v@ =~= seq![anchor_trace(isize::MIN)] + self.head@);
            assert(!pin ==> v@ =~= self.head@);
            let next = v[v.len() - 1];
            if next.is_coherent() {
                v.push(next.shift(self.pitch));
            }
            filter_pairs_exec(&v, pred, mapper)
        };
        let tail = if self.tail.len() == 0 {
            Vec::new()
        } else {
            let mut v: Vec<SegmentTrace> = Vec::new();
            let prev = self.tail[0];
            let lead = prev.is_coherent();
            if lead {
                v.push(prev.shift(0 - self.pitch));
            }
            let ghost v0 = v@;
            let mut i: usize = 0;
            while i < self.tail.len()
                invariant
                    i <= self.tail@.len(),
                    v@ == v0 + self.tail@.subrange(0, i as int),
                decreases self.tail@.len() - i,
            {
                v.push(self.tail[i]);
                assert(v0 + self.tail@.subrange(0, i + 1) =~= (v0 + self.tail@.subrange(0, i as int)).push(self.tail@[i as int]));
                i = i + 1;
            }
            assert(self.tail@.subrange(0, self.tail@.len() as int) =~= self.tail@);
            if pin {
                v.push(SegmentTrace::new(false, false, isize::MAX, isize::MAX));
            }
            proof {
                let w = if pin {
                    self.tail@.push(anchor_trace(isize::MAX))
                } else {
                    self.tail@
                };
                assert(w[0] == self.tail@[0]);
                if lead {
                    assert(v@ =~= seq![shifted(w[0], (0 - self.pitch) as isize)] + w);
                } else {
                    assert(v@ =~= w);
                }
            }
            filter_pairs_exec(&v, pred, mapper)
        };
        self.head = head;
        self.tail = tail;
        self.adjust_head_clip();
        self.cleanup_tail();
    }
}

/// Fuses a constant-width slicer with the slice filters that follow it.
pub struct FuseOps();

/// How a node takes part in the fusion: the slicer ranks one, a fusable
/// filter two, anything else zero.
pub open spec fn ops_rank(n: PipelineNode) -> usize {
    match n {
        PipelineNode::Width(_) => 1,
        PipelineNode::Filter(_, mapper) => if mapper@.len() != 1 {
            0
        } else {
            2
        },
        PipelineNode::Pair(_, _, _) => 2,
        _ => 0,
    }
}

impl FuseOps {
    pub fn new() -> (r: Self) {
        FuseOps()
    }

    fn rank(&self, n: &PipelineNode) -> (r: usize)
        ensures
            r == ops_rank(*n),
    {
        match n {
            PipelineNode::Width(_) => 1,
            PipelineNode::Filter(_, mapper) => {
                if mapper.len() != 1 {
                    0
                } else {
                    2
                }
            },
            PipelineNode::Pair(_, _, _) => 2,
            _ => 0,
        }
    }

    /// Length of the run of fusable filters at the head of `nodes`.
    pub fn longest_match(&self, nodes: &[PipelineNode]) -> (r: usize)
        ensures
            r <= nodes@.len(),
            forall|i: int| 0 <= i < r ==> ops_rank(#[trigger] nodes@[i]) == 2,
            r < nodes@.len() ==> ops_rank(nodes@[r as int]) != 2,
    {
        let mut i: usize = 0;
        while i < nodes.len()
            invariant
                i <= nodes@.len(),
                forall|k: int| 0 <= k < i ==> ops_rank(#[trigger] nodes@[k]) == 2,
            decreases nodes@.len() - i,
        {
            if self.rank(&nodes[i]) != 2 {
                return i;
            }
            i = i + 1;
        }
        i
    }

    /// Follows the traces of the bare slicer through the fusable `nodes`.
    fn track(&self, pitch: usize, nodes: &[PipelineNode]) -> (r: (usize, SegmentTracker))
        requires
            pitch > 0,
            forall|i: int| 0 <= i < nodes@.len() ==> ops_rank(#[trigger] nodes@[i]) == 2
                && trackable(nodes@[i]),
        ensures
            r.0 <= nodes@.len(),
            r.1.pitch == stride_of(pitch),
            (r.0 as int, r.1.head@, r.1.tail@) == track_from(
                nodes@,
                0,
                initial_traces(pitch),
                initial_traces(pitch),
                stride_of(pitch),
            ),
    {
        let mut tracker = SegmentTracker::new(pitch);
        let mut i: usize = 0;
        while i < nodes.len()
            invariant
                i <= nodes@.len(),
                pitch > 0,
                tracker.pitch == stride_of(pitch),
                forall|k: int| 0 <= k < nodes@.len() ==> ops_rank(#[trigger] nodes@[k]) == 2
                    && trackable(nodes@[k]),
                track_from(nodes@, 0, initial_traces(pitch), initial_traces(pitch), stride_of(pitch))
                    == track_from(nodes@, i as int, tracker.head@, tracker.tail@, tracker.pitch),
            decreases nodes@.len() - i,
        {
            if tracker.head.len() == 0 && tracker.tail.len() == 0 {
                return (i, tracker);
            }
            let ghost n = nodes@[i as int];
            assert(ops_rank(n) == 2 && trackable(n));
            match &nodes[i] {
                PipelineNode::Filter(pred, mapper) => {
                    tracker.filter(pred, &mapper[0]);
                },
                PipelineNode::Pair(pred, mapper, pin) => {
                    tracker.pair(pred, mapper, *pin);
                },
                _ => {},
            }
            i = i + 1;
        }
        (nodes.len(), tracker)
    }
}

/// The number of fusable filters at the head of `nodes`.
pub open spec fn fusable_run(nodes: Seq<PipelineNode>) -> int
    decreases nodes.len(),
{
    if nodes.len() == 0 || ops_rank(nodes[0]) != 2 {
        0
    } else {
        1 + fusable_run(nodes.drop_first())
    }
}

/// The pitch of a slicer node.
pub open spec fn width_of(n: PipelineNode) -> usize {
    match n {
        PipelineNode::Width(p) => p,
        _ => 0,
    }
}

/// The traces after the fusable run that follows the slicer `nodes[0]`.
pub open spec fn fused_track(nodes: Seq<PipelineNode>, k: int) -> (int, Seq<SegmentTrace>, Seq<SegmentTrace>) {
    let pitch = width_of(nodes[0]);
    track_from(nodes.subrange(1, 1 + k), 0, initial_traces(pitch), initial_traces(pitch), stride_of(pitch))
}

fn fused_node(tracker: &SegmentTracker) -> (r: Option<PipelineNode>)
    ensures
        r matches Some(n) ==> fused_params(tracker.head@, tracker.tail@, tracker.pitch) == Some(
            n->ConstSlicer_0,
        ) && n is ConstSlicer,
        r is None ==> fused_params(tracker.head@, tracker.tail@, tracker.pitch) is None,
{
    if tracker.head.len() == 0 && tracker.tail.len() == 0 {
        return Some(
            PipelineNode::ConstSlicer(
                ConstSlicerParams {
                    infinite: false,
                    vanished: true,
                    clip: (0, 0),
                    margin: (0, 0),
                    pin: (false, false),
                    pitch: usize::MAX,
                    span: 0,
                },
            ),
        );
    }
    if tracker.head.len() == 0 || tracker.tail.len() == 0 || !tracker.tail[0].is_coherent() {
        return None;
    }
    let t0 = tracker.tail[0];
    let len: isize = if t0.end > t0.start {
        #[verifier::truncate] ((((t0.end as i128) - (t0.start as i128)) as usize) as isize)
    } else {
        0
    };
    assert(len == span_of_trace(t0));
    let head_start = tracker.head[0].start;
    let head_end = tracker.head[0].end;
    let (head_pin, head_clip, head_margin): (bool, isize, isize) = if head_start == 0 {
        if head_end > len {
            (true, 0, 0)
        } else {
            let ghost m0 = len - head_end;
            let mut margin: i128 = (len as i128) - (head_end as i128);
            if tracker.pitch <= 0 && margin > (len as i128) {
                return None;
            }
            while margin > (len as i128)
                invariant
                    tracker.pitch > 0 || margin <= len,
                    margin <= m0,
                    margin > -(0x1_0000_0000_0000_0000i128),
                    reduce_margin(margin as int, len as int, tracker.pitch as int) == reduce_margin(
                        m0,
                        len as int,
                        tracker.pitch as int,
                    ),
                decreases (if margin > len {
                    margin - len
                } else {
                    0
                }),
            {
                margin = margin - (tracker.pitch as i128);
            }
            (false, 0, #[verifier::truncate] ((0 - margin) as isize))
        }
    } else {
        (false, head_start, 0)
    };
    let tail_end = t0.end;
    let tail_margin: i128 = if tail_end < 1 {
        1 - (tail_end as i128)
    } else if 1 - (tail_end as i128) >= 1 - (len as i128) {
        1 - (tail_end as i128)
    } else {
        1 - (len as i128)
    };
    let tail_pin = tracker.tail[tracker.tail.len() - 1].end == isize::MAX;
    Some(
        PipelineNode::ConstSlicer(
            ConstSlicerParams {
                infinite: false,
                vanished: false,
                clip: (#[verifier::truncate] (head_clip as usize), 0),
                margin: (head_margin, #[verifier::truncate] (tail_margin as isize)),
                pin: (head_pin, tail_pin),
                pitch: #[verifier::truncate] (tracker.pitch as usize),
                span: #[verifier::truncate] (len as usize),
            },
        ),
    )
}

impl GreedyOptimizer for FuseOps {
    /// The slicer has a non-zero pitch, and every node can be tracked.
    open spec fn accepts(&self, nodes: Seq<PipelineNode>) -> bool {
        &&& nodes[0] is Width ==> width_of(nodes[0]) > 0
        &&& forall|i: int| 0 <= i < nodes.len() ==> trackable(#[trigger] nodes[i])
    }

    /// Replaces a constant-width slicer and the fusable filters after it by
    /// one slicer: `(start, length, node)` of the replacement.
    fn substitute(&self, nodes: &[PipelineNode]) -> (r: Option<(usize, usize, PipelineNode)>)
        ensures
            ops_rank(nodes@[0]) != 1 ==> r is None,
            ops_rank(nodes@[0]) == 1 && fusable_run(nodes@.drop_first()) == 0 ==> r is None,
            r matches Some(x) ==> ({
                let (k, head, tail) = fused_track(nodes@, fusable_run(nodes@.drop_first()));
                let pitch = stride_of(width_of(nodes@[0]));
                &&& x.0 == 0
                &&& x.1 == 1 + k
                &&& x.2 is ConstSlicer
                &&& fused_params(head, tail, pitch) == Some(x.2->ConstSlicer_0)
            }),
            ops_rank(nodes@[0]) == 1 && fusable_run(nodes@.drop_first()) > 0 ==> (r is Some
                <==> fused_params(
                fused_track(nodes@, fusable_run(nodes@.drop_first())).1,
                fused_track(nodes@, fusable_run(nodes@.drop_first())).2,
                stride_of(width_of(nodes@[0])),
            ) is Some),
    {
        if self.rank(&nodes[0]) != 1 {
            return None;
        }
        let n = nodes.len();
        let rest = vstd::slice::slice_subrange(nodes, 1, n);
        let len = self.longest_match(rest);
        proof {
            lemma_fusable_run(rest@, len as int);
        }
        if len == 0 {
            return None;
        }
        let pitch = match &nodes[0] {
            PipelineNode::Width(p) => *p,
            _ => 0,
        };
        let run = vstd::slice::slice_subrange(nodes, 1, 1 + len);
        assert(run@ =~= nodes@.subrange(1, 1 + len as int));
        assert forall|i: int| 0 <= i < run@.len() implies ops_rank(#[trigger] run@[i]) == 2 && trackable(run@[i]) by {
            assert(run@[i] == rest@[i]);
            assert(run@[i] == nodes@[i + 1]);
        }
        let (taken, tracker) = self.track(pitch, run);
        match fused_node(&tracker) {
            Some(node) => Some((0, 1 + taken, node)),
            None => None,
        }
    }
}

proof fn lemma_fusable_run(s: Seq<PipelineNode>, r: int)
    requires
        0 <= r <= s.len(),
        forall|i: int| 0 <= i < r ==> ops_rank(#[trigger] s[i]) == 2,
        r < s.len() ==> ops_rank(s[r]) != 2,
    ensures
        fusable_run(s) == r,
    decreases r,
{
    if r > 0 {
        assert(ops_rank(s[0]) == 2);
        assert forall|i: int| 0 <= i < r - 1 implies ops_rank(#[trigger] s.drop_first()[i]) == 2 by {
            assert(s.drop_first()[i] == s[i + 1]);
        }
        if r - 1 < s.drop_first().len() {
            assert(s.drop_first()[r - 1] == s[r]);
        }
        lemma_fusable_run(s.drop_first(), r - 1);
    }
}

} // verus!
