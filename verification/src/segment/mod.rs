use vstd::prelude::*;
use vstd::std_specs::convert::FromSpecImpl;

pub mod bridge;
pub mod exact;
pub mod extend;
pub mod guided;
pub mod merge;
pub mod regex;
pub mod ops;
pub mod stride;
pub mod walk;

verus! {

/// A slice `[pos, pos + len)` of a byte stream.
#[derive(Copy, Clone, Debug, Default, PartialEq, Eq)]
pub struct Segment {
    pub pos: usize,
    pub len: usize,
}

impl Segment {
    /// End position of the slice (exclusive).
    pub fn tail(&self) -> (r: usize)
        requires
            self.pos + self.len <= usize::MAX,
        ensures
            r == self.pos + self.len,
    {
        self.pos + self.len
    }

    /// The slice as a range of positions.
    pub fn as_range(&self) -> (r: std::ops::Range<usize>)
        requires
            self.pos + self.len <= usize::MAX,
        ensures
            r.start == self.pos,
            r.end == self.pos + self.len,
    {
        self.pos..self.tail()
    }
}

/// Number of positions in `start..end` (none when `end < start`).
pub open spec fn range_len(start: usize, end: usize) -> usize {
    if end >= start {
        (end - start) as usize
    } else {
        0
    }
}

impl From<std::ops::Range<usize>> for Segment {
    fn from(other: std::ops::Range<usize>) -> (r: Self) {
        let len = if other.end >= other.start {
            other.end - other.start
        } else {
            0
        };
        Segment { pos: other.start, len }
    }
}

impl FromSpecImpl<std::ops::Range<usize>> for Segment {
    open spec fn obeys_from_spec() -> bool {
        true
    }

    open spec fn from_spec(other: std::ops::Range<usize>) -> Segment {
        Segment { pos: other.start, len: range_len(other.start, other.end) }
    }
}

/// Number of leading slices that start before `bytes`: the slices a
/// `consume(bytes)` drops.
pub fn segments_before(segments: &[Segment], bytes: usize) -> (r: usize)
    ensures
        r <= segments@.len(),
        forall|i: int| 0 <= i < r ==> (#[trigger] segments@[i]).pos < bytes,
        r == segments@.len() || segments@[r as int].pos >= bytes,
{
    let mut k: usize = 0;
    while k < segments.len() && segments[k].pos < bytes
        invariant
            k <= segments@.len(),
            forall|i: int| 0 <= i < k ==> (#[trigger] segments@[i]).pos < bytes,
        decreases segments@.len() - k,
    {
        k = k + 1;
    }
    k
}

/// A byte stream cut into slices, read in chunks.
pub trait SegmentStream {
    /// What the stream keeps between calls.
    spec fn wf(&self) -> bool;

    /// The slices held, as `as_slices` hands them out.
    spec fn segments(&self) -> Seq<Segment>;

    /// Filled since the last consume: the slices and the buffer handed out
    /// are the stream's.
    spec fn filled(&self) -> bool;

    /// The buffer `as_slices` hands out.
    spec fn block(&self) -> Seq<u8>;

    /// Bytes dropped from the head of the stream so far: the position in
    /// the stream of the head of the buffer.
    spec fn consumed(&self) -> nat;

    /// Reads more: `(end reached, bytes, slices, bytes that may be
    /// consumed)`. A failed read leaves the slices as they were.
    fn fill_segment_buf(&mut self) -> (r: std::io::Result<(bool, usize, usize, usize)>)
        requires
            old(self).wf(),
        ensures
            final(self).wf(),
            final(self).consumed() == old(self).consumed(),
            r is Err ==> final(self).segments() == old(self).segments(),
            r matches Ok(x) ==> x.2 == final(self).segments().len() && x.3 <= x.1
                && final(self).filled(),
    ;

    /// The buffer and the slices in it.
    fn as_slices(&self) -> (r: (&[u8], &[Segment]))
        requires
            self.wf(),
            self.filled(),
        ensures
            r.1@ == self.segments(),
            r.0@ == self.block(),
    ;

    /// Drops at most `bytes` bytes and the slices that start in them:
    /// `(bytes dropped, slices dropped)`.
    fn consume(&mut self, bytes: usize) -> (r: std::io::Result<(usize, usize)>)
        requires
            old(self).wf(),
            old(self).filled(),
        ensures
            final(self).wf(),
            r is Err ==> final(self).segments() == old(self).segments(),
            r matches Ok(x) ==> x.0 <= bytes && x.1 <= old(self).segments().len()
                && final(self).segments().len() == old(self).segments().len() - x.1,
            r matches Ok(x) ==> final(self).consumed() == old(self).consumed() + x.0,
    ;
}

/// A boxed sliced stream reads as the stream inside.
impl<S: SegmentStream + ?Sized> SegmentStream for Box<S> {
    closed spec fn wf(&self) -> bool {
        (**self).wf()
    }

    closed spec fn segments(&self) -> Seq<Segment> {
        (**self).segments()
    }

    closed spec fn filled(&self) -> bool {
        (**self).filled()
    }

    closed spec fn block(&self) -> Seq<u8> {
        (**self).block()
    }

    closed spec fn consumed(&self) -> nat {
        (**self).consumed()
    }

    fn fill_segment_buf(&mut self) -> (r: std::io::Result<(bool, usize, usize, usize)>) {
        (**self).fill_segment_buf()
    }

    fn as_slices(&self) -> (r: (&[u8], &[Segment])) {
        (**self).as_slices()
    }

    fn consume(&mut self, bytes: usize) -> (r: std::io::Result<(usize, usize)>) {
        (**self).consume(bytes)
    }
}

} // verus!
