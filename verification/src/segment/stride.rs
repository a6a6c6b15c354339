use vstd::prelude::*;

use super::{Segment, SegmentStream};
use crate::byte::eof::EofStream;
use crate::byte::{invalid_stream_error, ByteStream};
use crate::eval::parse_error;
use crate::mapper::{anchor_var_table, mapper_of, side_text, split_dots, MapError, SegmentMapper};

verus! {

/// Why a constant-stride slicer could not be set up.
#[derive(Copy, Clone, Debug, PartialEq, Eq)]
pub enum StrideError {
    /// The slice-mapping expression was refused.
    Mapping(MapError),
    /// The mapping turns every slice into an empty one.
    Empty,
    /// A mapped boundary does not fit in `isize`.
    Overflow,
    /// Slices of width zero mapped so far back that no pitch brings them
    /// near again.
    ZeroPitch,
}

/// Slices of `span` bytes every `pitch` bytes, shifted by `margin`.
#[derive(Debug, PartialEq, Eq, Copy, Clone)]
pub struct ConstSlicerParams {
    pub margin: (isize, isize),
    pub open_ended: (bool, bool),
    pub pitch: usize,
    pub span: usize,
}

/// `m` reduced by whole pitches until it is below `span`.
pub open spec fn reduce_below(m: int, span: int, pitch: int) -> int
    decreases (if m >= span {
        m - span + 1
    } else {
        0
    }),
{
    if m >= span && pitch > 0 {
        reduce_below(m - pitch, span, pitch)
    } else {
        m
    }
}

/// The slicer whose slices map `[0, pitch)` onto `[start, end)`.
pub open spec fn params_of(pitch: int, start: int, end: int) -> (isize, isize, usize, usize) {
    let span = end - start;
    let head_margin = if start >= 0 {
        start
    } else {
        0 - reduce_below(0 - start, span, pitch)
    };
    let tail_margin = if end < 1 {
        1 - end
    } else if 1 - end >= 1 - span {
        1 - end
    } else {
        1 - span
    };
    (head_margin as isize, tail_margin as isize, pitch as usize, span as usize)
}

impl ConstSlicerParams {
    /// Whether the parameters can be handed to `ConstSlicer`.
    pub fn is_sliceable(&self) -> (r: bool)
        ensures
            r == stride_params_ok(self.margin, self.pitch, self.span),
    {
        let b: usize = usize::MAX / 16;
        assert(b <= isize::MAX) by {
            assert(usize::MAX == 0xffff_ffff || usize::MAX == 0xffff_ffff_ffff_ffff);
        }
        let bi = b as isize;
        if self.pitch == 0 || self.pitch > b || self.span == 0 || self.span > b {
            return false;
        }
        if self.margin.0 < -bi || self.margin.0 > bi || self.margin.1 < -bi || self.margin.1 > bi {
            return false;
        }
        let sp = self.span as isize;
        self.margin.0 + sp > 0 && self.margin.1 + sp > 0
    }

    /// The slicer whose `pitch`-byte slices `[0, pitch)` are mapped onto
    /// `[start, end)`.
    pub fn from_bounds(pitch: usize, start: isize, end: isize) -> (r: Result<Self, StrideError>)
        requires
            pitch <= isize::MAX,
        ensures
            start >= end ==> r == Err::<Self, StrideError>(StrideError::Empty),
            start < end && start < 0 && pitch == 0 && 0 - start >= end - start ==> r == Err::<
                Self,
                StrideError,
            >(StrideError::ZeroPitch),
            r is Ok <==> start < end && !(start < 0 && pitch == 0 && 0 - start >= end - start),
            r matches Ok(p) ==> (p.margin.0, p.margin.1, p.pitch, p.span) == params_of(
                pitch as int,
                start as int,
                end as int,
            ) && p.open_ended == (false, false),
    {
        if start >= end {
            return Err(StrideError::Empty);
        }
        let span: i128 = (end as i128) - (start as i128);
        let p: i128 = pitch as i128;
        let head_margin: i128 = if start >= 0 {
            start as i128
        } else {
            let ghost m0 = 0 - start;
            let mut margin: i128 = 0 - (start as i128);
            if pitch == 0 && margin >= span {
                return Err(StrideError::ZeroPitch);
            }
            while margin >= span
                invariant
                    span > 0,
                    p == pitch,
                    p > 0 || margin < span,
                    0 <= p <= isize::MAX,
                    -(isize::MAX as i128) <= margin <= 0x1_0000_0000_0000_0000i128,
                    reduce_below(margin as int, span as int, p as int) == reduce_below(
                        m0,
                        span as int,
                        pitch as int,
                    ),
                decreases (if margin >= span {
                    margin - span + 1
                } else {
                    0
                }),
            {
                margin = margin - p;
            }
            0 - margin
        };
        let tail_margin: i128 = if (end as i128) < 1 {
            1 - (end as i128)
        } else if 1 - (end as i128) >= 1 - span {
            1 - (end as i128)
        } else {
            1 - span
        };
        Ok(
            ConstSlicerParams {
                margin: (#[verifier::truncate] (head_margin as isize), #[verifier::truncate] (tail_margin as isize)),
                open_ended: (false, false),
                pitch,
                span: #[verifier::truncate] (span as usize),
            },
        )
    }

    /// The slicer of `pitch`-byte slices mapped by the expression `expr`;
    /// without one, the slices `[0, pitch)` themselves (`s..e`).
    pub fn from_raw(pitch: usize, expr: Option<&str>) -> (r: Result<Self, StrideError>)
        requires
            pitch <= isize::MAX,
        ensures
            r matches Ok(p) ==> p.pitch == pitch && p.span > 0 && p.open_ended == (false, false),
            expr is None && pitch > 0 ==> r == Ok::<Self, StrideError>(
                ConstSlicerParams {
                    margin: (0, (1 - pitch) as isize),
                    open_ended: (false, false),
                    pitch,
                    span: pitch,
                },
            ),
            expr is None && pitch == 0 ==> r == Err::<Self, StrideError>(StrideError::Empty),
            expr matches Some(x) ==> (parse_error(
                Some(anchor_var_table()),
                side_text(split_dots(x@, 0, seq![])[0], seq!['s']),
            ) matches Some(e) ==> r == Err::<Self, StrideError>(StrideError::Mapping(MapError::Eval(e)))),
            expr matches Some(x) ==> (split_dots(x@, 0, seq![]).len() == 2 ==> match mapper_of(
                split_dots(x@, 0, seq![])[0],
                split_dots(x@, 0, seq![])[1],
            ) {
                Err(e) => r == Err::<Self, StrideError>(StrideError::Mapping(e)),
                Ok(m) => {
                    let start = (if m.start.anchor == 0 {
                        0
                    } else {
                        pitch as int
                    }) + m.start.offset;
                    let end = (if m.end.anchor == 0 {
                        0
                    } else {
                        pitch as int
                    }) + m.end.offset;
                    &&& !(isize::MIN <= start <= isize::MAX && isize::MIN <= end <= isize::MAX)
                        ==> r == Err::<Self, StrideError>(StrideError::Overflow)
                    &&& isize::MIN <= start <= isize::MAX && isize::MIN <= end <= isize::MAX ==> {
                        &&& r is Ok <==> start < end && !(start < 0 && pitch == 0 && 0 - start
                            >= end - start)
                        &&& r matches Ok(q) ==> (q.margin.0, q.margin.1, q.pitch, q.span)
                            == params_of(pitch as int, start, end)
                    }
                },
            }),
    {
        let expr = match expr {
            Some(e) => e,
            None => {
                return Self::from_bounds(pitch, 0, pitch as isize);
            },
        };
        let mapper = match SegmentMapper::from_str(expr) {
            Ok(m) => m,
            Err(e) => {
                return Err(StrideError::Mapping(e));
            },
        };
        let p = pitch as isize;
        let segment: [isize; 2] = [0, p];
        let s: i128 = (segment[mapper.start.anchor] as i128) + (mapper.start.offset as i128);
        let e: i128 = (segment[mapper.end.anchor] as i128) + (mapper.end.offset as i128);
        if s < (isize::MIN as i128) || s > (isize::MAX as i128) || e < (isize::MIN as i128) || e > (
        isize::MAX as i128) {
            return Err(StrideError::Overflow);
        }
        let (start, end) = mapper.evaluate(&segment, &segment);
        Self::from_bounds(pitch, start, end)
    }
}

} // verus!

verus! {

/// The bound the slicer's parameters keep under, so that positions a few
/// spans past a buffer stay far from overflow.
pub open spec fn stride_bound() -> int {
    usize::MAX as int / 16
}

/// Whether the slicer parameters can be handed to `ConstSlicer`: positive
/// pitch and span, slices that end past the stream's start, and values
/// under `stride_bound`.
pub open spec fn stride_params_ok(margin: (isize, isize), pitch: usize, span: usize) -> bool {
    &&& 0 < pitch <= stride_bound()
    &&& 0 < span <= stride_bound()
    &&& -stride_bound() <= margin.0 <= stride_bound()
    &&& -stride_bound() <= margin.1 <= stride_bound()
    &&& margin.0 + span > 0
    &&& margin.1 + span > 0
}

/// `ceil(len / pitch)`.
fn count_segments(len: usize, pitch: usize) -> (r: usize)
    requires
        pitch > 0,
    ensures
        r * pitch >= len,
        r * pitch < len + pitch,
        r == (len + pitch - 1) / (pitch as int),
{
    let q = len / pitch;
    proof {
        vstd::arithmetic::div_mod::lemma_fundamental_div_mod(len as int, pitch as int);
        assert(q * pitch == pitch * q) by (nonlinear_arith);
        if len % pitch != 0 {
            assert(q * pitch <= len);
            assert(q <= q * pitch) by (nonlinear_arith)
                requires
                    pitch >= 1,
                    q >= 0,
            ;
            if q == usize::MAX {
                assert(q * pitch >= 2 * q) by (nonlinear_arith)
                    requires
                        pitch >= 2,
                        q >= 0,
                ;
            }
        }
    }
    let r = if len % pitch != 0 {
        q + 1
    } else {
        q
    };
    proof {
        assert(q * pitch == pitch * q) by (nonlinear_arith);
        assert(q * pitch + len % pitch == len);
        if len % pitch != 0 {
            assert((q + 1) * pitch == q * pitch + pitch) by (nonlinear_arith);
        }
        assert(r * pitch == (r as int) * (pitch as int));
        vstd::arithmetic::div_mod::lemma_fundamental_div_mod_converse_div(
            len + pitch - 1,
            pitch as int,
            r as int,
            len + pitch - 1 - r * pitch,
        );
    }
    r
}

/// The slices `segs` are windows of `span` bytes whose ends lie `pitch`
/// bytes apart, from the end of the first: each starts `span` bytes before
/// its end, or at the head of the buffer (the first one may be stretched to
/// the head when `open_head`).
pub open spec fn windows(segs: Seq<Segment>, pitch: int, span: int, open_head: bool) -> bool {
    forall|i: int|
        0 <= i < segs.len() ==> {
            let t = segs[0].pos + segs[0].len + i * pitch;
            &&& (#[trigger] segs[i]).pos + segs[i].len == t
            &&& (i > 0 || !open_head) ==> segs[i].pos == (if t > span {
                t - span
            } else {
                0
            })
        }
}

/// Slices precomputed for a constant-stride slicer, and what of them is
/// lent out.
struct ConstSegments {
    segments: Vec<Segment>,
    /// Bytes before the first slice that count as whole pitches.
    phase_offset: usize,
    /// Bytes to consume before the slicer leaves the head of the stream.
    min_bytes_to_escape: usize,
    /// Bytes to the head of the next slice.
    phase: usize,
    /// The phase before the last consume.
    prev_phase: usize,
    is_eof: bool,
    /// Bytes and slices lent out.
    in_lend: (usize, usize),
    tail_offset_margin: usize,
    tail_reserved_bytes: usize,
    open_ended: (bool, bool),
    pitch: usize,
    span: usize,
}

impl ConstSegments {
    spec fn wf(&self) -> bool {
        &&& 0 < self.pitch <= stride_bound()
        &&& 0 < self.span <= stride_bound()
        &&& 1 <= self.tail_offset_margin <= 2 * stride_bound()
        &&& self.tail_reserved_bytes <= 2 * stride_bound()
        &&& self.phase <= 2 * stride_bound()
        &&& self.phase_offset <= 3 * stride_bound()
        &&& self.phase_offset < self.phase + self.span
        &&& self.min_bytes_to_escape <= 2 * stride_bound() + 1
        &&& forall|i: int|
            0 <= i < self.segments@.len() ==> (#[trigger] self.segments@[i]).pos + self.segments@[i].len
                <= usize::MAX / 4
        &&& !self.is_eof ==> windows(self.segments@, self.pitch as int, self.span as int, self.open_ended.0)
    }

    /// The slices lent out (as many as lent, whatever the vector holds).
    spec fn lent(&self) -> Seq<Segment> {
        Seq::new(self.in_lend.1 as nat, |i: int| self.segments@[i])
    }

    fn new(margin: (isize, isize), open_ended: (bool, bool), pitch: usize, span: usize) -> (r: Self)
        requires
            stride_params_ok(margin, pitch, span),
        ensures
            r.wf(),
            r.in_lend == (0usize, 0usize),
            r.pitch == pitch && r.span == span && r.open_ended == open_ended && !r.is_eof,
    {
        let offset_margin = ((margin.0 + span as isize) as usize, (margin.1 + span as isize) as usize);
        let (phase, phase_offset, min_bytes_to_escape) = if margin.0 < 0 {
            let back = (0 - margin.0) as usize;
            let r = back % pitch;
            let phase = if r == 0 {
                0
            } else {
                pitch - r
            };
            (phase, phase + back, offset_margin.0)
        } else {
            let head_margin = margin.0 as usize;
            (head_margin, 0, head_margin + 1)
        };
        let tail_reserved_bytes = if offset_margin.1 > span {
            offset_margin.1 - span
        } else {
            0
        };
        ConstSegments {
            segments: Vec::new(),
            phase_offset,
            min_bytes_to_escape,
            phase,
            prev_phase: usize::MAX,
            is_eof: false,
            in_lend: (0, 0),
            tail_offset_margin: offset_margin.1,
            tail_reserved_bytes,
            open_ended,
            pitch,
            span,
        }
    }
}

impl ConstSegments {
    /// Bytes the source must hold before slices can be lent.
    fn min_fill_len(&self) -> (r: usize)
        requires
            self.wf(),
        ensures
            r <= 4 * stride_bound() + 1,
            r == (if self.span > self.min_bytes_to_escape {
                self.span
            } else {
                self.min_bytes_to_escape
            }) + self.tail_reserved_bytes,
    {
        let head = if self.span > self.min_bytes_to_escape {
            self.span
        } else {
            self.min_bytes_to_escape
        };
        head + self.tail_reserved_bytes
    }

    /// Tail of the slice after the last one held.
    fn get_next_tail(&self) -> (r: usize)
        requires
            self.wf(),
        ensures
            r <= usize::MAX / 4 + stride_bound(),
            r == (if self.segments@.len() > 0 {
                self.segments@.last().pos + self.segments@.last().len + self.pitch
            } else {
                self.phase + self.span - self.phase_offset
            }),
    {
        let n = self.segments.len();
        if n > 0 {
            let last = self.segments[n - 1];
            last.pos + last.len + self.pitch
        } else {
            self.phase + self.span - self.phase_offset
        }
    }

    /// Lends the slices before `count` and the bytes before the head of
    /// the slice ending at `next_tail` (no more than `len`).
    fn update_lend_state(&mut self, next_tail: usize, len: usize, count: usize) -> (r: (usize, usize))
        requires
            old(self).wf(),
            count <= old(self).segments@.len(),
        ensures
            final(self).wf(),
            final(self).segments == old(self).segments,
            final(self).is_eof == old(self).is_eof,
            final(self).in_lend == r,
            r.0 <= len,
            r.1 == count,
    {
        let max_fwd = if next_tail > self.span {
            next_tail - self.span
        } else {
            0
        };
        let max_fwd = if max_fwd < len {
            max_fwd
        } else {
            len
        };
        self.in_lend = (max_fwd, count);
        self.in_lend
    }

    /// Stretches the first slice to the head of the stream when the head is
    /// open and the slicer has not left the head.
    fn patch_head(&mut self)
        requires
            old(self).wf(),
        ensures
            final(self).wf(),
            final(self).segments@.len() == old(self).segments@.len(),
            final(self).in_lend == old(self).in_lend,
            final(self).is_eof == old(self).is_eof,
            forall|i: int|
                0 <= i < final(self).segments@.len() ==> (#[trigger] final(self).segments@[i]).pos
                    <= old(self).segments@[i].pos,
            final(self).segments@ == (if old(self).min_bytes_to_escape != 0 && old(self).open_ended.0
                && old(self).segments@.len() > 0 {
                old(self).segments@.update(
                    0,
                    Segment { pos: 0, len: (old(self).segments@[0].pos + old(self).segments@[0].len) as usize },
                )
            } else {
                old(self).segments@
            }),
            final(self).phase == old(self).phase,
            final(self).phase_offset == old(self).phase_offset,
            final(self).prev_phase == old(self).prev_phase,
            final(self).min_bytes_to_escape == old(self).min_bytes_to_escape,
            final(self).tail_offset_margin == old(self).tail_offset_margin,
            final(self).tail_reserved_bytes == old(self).tail_reserved_bytes,
            final(self).open_ended == old(self).open_ended,
            final(self).pitch == old(self).pitch,
            final(self).span == old(self).span,
    {
        if self.min_bytes_to_escape == 0 || !self.open_ended.0 || self.segments.len() == 0 {
            return ;
        }
        let first = self.segments[0];
        self.segments.set(0, Segment { pos: 0, len: first.pos + first.len });
    }

    /// Makes slices up to the end of the stream once it has ended, the
    /// last one stretched to the end when the tail is open.
    fn extend_segments_with_clip(&mut self, len: usize) -> (r: (usize, usize))
        requires
            old(self).wf(),
            old(self).is_eof,
            old(self).segments@.len() == 0,
            len <= usize::MAX / 4,
        ensures
            final(self).wf(),
            final(self).is_eof == old(self).is_eof,
            final(self).in_lend == r,
            r.0 == len && r.1 == final(self).segments@.len(),
    {
        let mut next_tail = self.get_next_tail();
        while next_tail + self.tail_offset_margin <= len + self.span
            invariant
                self.wf(),
                self.is_eof == old(self).is_eof,
                self.is_eof,
                len <= usize::MAX / 4,
                next_tail <= usize::MAX / 4 + 2 * stride_bound(),
                forall|i: int| 0 <= i < self.segments@.len() ==> (#[trigger] self.segments@[i]).pos <= len,
            decreases (if len + self.span + 1 > next_tail {
                len + self.span + 1 - next_tail
            } else {
                0
            }),
        {
            let pos = if next_tail > self.span {
                next_tail - self.span
            } else {
                0
            };
            let end = if next_tail < len {
                next_tail
            } else {
                len
            };
            self.segments.push(Segment { pos, len: end - pos });
            next_tail = next_tail + self.pitch;
        }
        self.patch_head();
        let n = self.segments.len();
        if self.open_ended.1 && n > 0 {
            let last = self.segments[n - 1];
            self.segments.set(n - 1, Segment { pos: last.pos, len: len - last.pos });
        }
        self.in_lend = (len, self.segments.len());
        self.in_lend
    }

    /// Makes the slices that end before the bytes reserved at the tail of
    /// the buffer.
    fn extend_segments(&mut self, next_tail: usize, len: usize) -> (r: (usize, usize))
        requires
            old(self).wf(),
            len <= usize::MAX / 4,
            next_tail <= usize::MAX / 4 + stride_bound(),
            old(self).segments@.len() > 0 ==> next_tail == old(self).segments@.last().pos + old(
                self,
            ).segments@.last().len + old(self).pitch,
        ensures
            final(self).wf(),
            final(self).is_eof == old(self).is_eof,
            final(self).in_lend == r,
            r.0 <= len,
            r.1 == final(self).segments@.len(),
    {
        let mut next_tail = next_tail;
        while next_tail + self.tail_reserved_bytes <= len
            invariant
                self.wf(),
                self.is_eof == old(self).is_eof,
                len <= usize::MAX / 4,
                next_tail <= usize::MAX / 4 + stride_bound(),
                self.segments@.len() > 0 ==> next_tail == self.segments@.last().pos
                    + self.segments@.last().len + self.pitch,
            decreases (if len + 1 > next_tail {
                len + 1 - next_tail
            } else {
                0
            }),
        {
            let pos = if next_tail > self.span {
                next_tail - self.span
            } else {
                0
            };
            let ghost s0 = self.segments@;
            self.segments.push(Segment { pos, len: next_tail - pos });
            proof {
                let s1 = self.segments@;
                let n = s0.len() as int;
                let p = self.pitch as int;
                if !self.is_eof {
                    if n > 0 {
                        assert(s1[0] == s0[0]);
                        assert(s0.last() == s0[n - 1]);
                        let t0 = s0[0].pos + s0[0].len;
                        assert(s0[n - 1].pos + s0[n - 1].len == t0 + (n - 1) * p);
                        assert((n - 1) * p + p == n * p) by (nonlinear_arith);
                        assert forall|i: int| 0 <= i < s1.len() implies {
                            let t = s1[0].pos + s1[0].len + i * p;
                            &&& (#[trigger] s1[i]).pos + s1[i].len == t
                            &&& (i > 0 || !self.open_ended.0) ==> s1[i].pos == (if t > self.span {
                                t - self.span
                            } else {
                                0
                            })
                        } by {
                            if i < n {
                                assert(s1[i] == s0[i]);
                            }
                        }
                    } else {
                        assert(s1.len() == 1);
                        assert(0 * p == 0);
                    }
                }
            }
            next_tail = next_tail + self.pitch;
        }
        self.patch_head();
        let n = self.segments.len();
        self.update_lend_state(next_tail, len, n)
    }

    /// Lends the slices a buffer of `len` bytes holds: all once the source
    /// has ended, else those clear of the bytes reserved at the tail.
    fn fill_segment_buf(&mut self, is_eof: bool, len: usize) -> (r: (usize, usize))
        requires
            old(self).wf(),
            len <= usize::MAX / 4,
        ensures
            final(self).wf(),
            final(self).in_lend == r,
            r.0 <= len,
            r.1 <= final(self).segments@.len(),
            is_eof ==> r.0 == len,
    {
        if is_eof {
            self.is_eof = true;
            if len < self.min_bytes_to_escape {
                self.min_bytes_to_escape = len;
            }
            self.segments.clear();
            return self.extend_segments_with_clip(len);
        }
        let next_tail = self.get_next_tail();
        if next_tail + self.tail_reserved_bytes <= len {
            return self.extend_segments(next_tail, len);
        }
        let n = self.segments.len();
        if next_tail + self.tail_reserved_bytes <= len + self.pitch {
            return self.update_lend_state(next_tail, len, n);
        }
        let over = if next_tail > len {
            next_tail - len
        } else {
            0
        };
        let count = count_segments(over, self.pitch);
        let n_extra = if count < n {
            count
        } else {
            n
        };
        proof {
            let p = self.pitch;
            assert(n_extra * p <= count * p) by (nonlinear_arith)
                requires
                    n_extra <= count,
                    p > 0,
            ;
        }
        let back = n_extra * self.pitch;
        let next_tail = if next_tail > back {
            next_tail - back
        } else {
            0
        };
        self.update_lend_state(next_tail, len, n - n_extra)
    }
}

/// The phase after `bytes` more bytes: the distance to the head of the next
/// slice, slices coming every `pitch` bytes.
pub open spec fn phase_after(phase: int, pitch: int, bytes: int) -> int {
    if bytes <= phase {
        phase - bytes
    } else if (bytes - phase) % pitch == 0 {
        0
    } else {
        pitch - (bytes - phase) % pitch
    }
}

/// What a move of the phase past `bytes` bytes and `count` slices gives:
/// `(bytes, slices, phase)`. Past a run of 16 slices or more the phase
/// is reset, the count cut back to whole pitches, and the bytes to those
/// pitches (plus the previous phase, less the offset of the head).
pub open spec fn phase_step(
    phase: int,
    pitch: int,
    prev_phase: int,
    bytes: int,
    count: int,
    phase_offset: int,
) -> (int, int, int) {
    let next = phase_after(phase, pitch, bytes);
    if count == 0 && bytes < phase {
        (bytes, count, phase - bytes)
    } else if count < 16 {
        (bytes, count, next)
    } else {
        let count2 = if next == 0 {
            count
        } else {
            count - 1
        };
        let whole = count2 * pitch + prev_phase;
        let whole2 = if whole >= phase_offset {
            whole - phase_offset
        } else {
            0
        };
        (if whole2 < bytes {
            whole2
        } else {
            bytes
        }, count2, 0)
    }
}

/// Bytes from the head of the next slice to `bytes` bytes past the phase
/// offset (saturated at the top of `usize`).
pub open spec fn stride_ahead(bytes: int, phase_offset: int, phase: int) -> int {
    let a = if usize::MAX - bytes >= phase_offset {
        bytes + phase_offset
    } else {
        usize::MAX as int
    };
    if a > phase {
        a - phase
    } else {
        0
    }
}

impl ConstSegments {
    /// Moves the phase past `bytes` consumed bytes and `count` slices; past
    /// a long run of slices the phase is reset and the count cut back to
    /// whole pitches.
    fn update_phase(&mut self, bytes: usize, count: usize, phase_offset: usize) -> (r: (usize, usize))
        requires
            old(self).wf(),
            old(self).phase_offset == 0,
        ensures
            final(self).wf(),
            final(self).phase_offset == 0,
            final(self).segments == old(self).segments,
            final(self).in_lend == old(self).in_lend,
            final(self).is_eof == old(self).is_eof,
            final(self).prev_phase == old(self).prev_phase,
            r.0 <= bytes,
            r.1 <= count,
            (r.0 as int, r.1 as int, final(self).phase as int) == phase_step(
                old(self).phase as int,
                old(self).pitch as int,
                old(self).prev_phase as int,
                bytes as int,
                count as int,
                phase_offset as int,
            ),
    {
        if count == 0 && bytes < self.phase {
            self.phase = self.phase - bytes;
            return (bytes, count);
        }
        let phase = if bytes <= self.phase {
            self.phase - bytes
        } else {
            let shift = (bytes - self.phase) % self.pitch;
            if shift == 0 {
                0
            } else {
                self.pitch - shift
            }
        };
        if count < 16 {
            self.phase = phase;
            return (bytes, count);
        }
        self.phase = 0;
        let count = if phase == 0 {
            count
        } else {
            count - 1
        };
        proof {
            let c = count as int;
            let p = self.pitch as int;
            assert(c * p <= 0xffff_ffff_ffff_ffff * 0xffff_ffff_ffff_ffff) by (nonlinear_arith)
                requires
                    0 <= c <= 0xffff_ffff_ffff_ffff,
                    0 <= p <= 0xffff_ffff_ffff_ffff,
            ;
        }
        let whole = count as u128 * self.pitch as u128 + self.prev_phase as u128;
        let whole = if whole >= phase_offset as u128 {
            whole - phase_offset as u128
        } else {
            0
        };
        let bytes = if whole < bytes as u128 {
            whole as usize
        } else {
            bytes
        };
        (bytes, count)
    }

    /// Consumes up to `bytes` of the bytes lent: nothing while still in the
    /// head, all once the source has ended and all are asked for, else the
    /// slices passed and the bytes up to the phase: `(bytes, slices)`.
    fn consume(&mut self, bytes: usize) -> (r: (usize, usize))
        requires
            old(self).wf(),
        ensures
            final(self).wf(),
            r.0 <= bytes,
            r.0 <= old(self).in_lend.0,
            r.1 <= old(self).in_lend.1,
            final(self).in_lend.0 == old(self).in_lend.0 - r.0,
            final(self).in_lend.1 == old(self).in_lend.1 - r.1,
            final(self).segments@.len() <= old(self).segments@.len(),
            ({
                let b = if bytes < old(self).in_lend.0 {
                    bytes
                } else {
                    old(self).in_lend.0
                };
                &&& b < old(self).min_bytes_to_escape ==> r == (0usize, 0usize)
                &&& b >= old(self).min_bytes_to_escape && old(self).is_eof && b >= old(
                    self,
                ).in_lend.0 ==> r == old(self).in_lend
                &&& b >= old(self).min_bytes_to_escape && !(old(self).is_eof && b >= old(
                    self,
                ).in_lend.0) ==> {
                        let c = (stride_ahead(
                            b as int,
                            old(self).phase_offset as int,
                            old(self).phase as int,
                        ) + old(self).pitch - 1) / (old(self).pitch as int);
                        let step = phase_step(
                            old(self).phase as int,
                            old(self).pitch as int,
                            old(self).phase as int,
                            b as int,
                            if c < old(self).in_lend.1 {
                                c
                            } else {
                                old(self).in_lend.1 as int
                            },
                            old(self).phase_offset as int,
                        );
                        &&& r.0 == step.0
                        &&& r.1 == step.1
                    }
            }),
    {
        let bytes = if bytes < self.in_lend.0 {
            bytes
        } else {
            self.in_lend.0
        };
        let ghost b0 = bytes;
        if bytes < self.min_bytes_to_escape {
            return (0, 0);
        }
        if self.min_bytes_to_escape > 0 {
            self.min_bytes_to_escape = 0;
            self.segments.clear();
        }
        let phase_offset = self.phase_offset;
        self.phase_offset = 0;
        self.prev_phase = self.phase;
        if self.is_eof && bytes >= self.in_lend.0 {
            let lent = self.in_lend;
            self.in_lend = (0, 0);
            return lent;
        }
        let ahead = if usize::MAX - bytes >= phase_offset {
            bytes + phase_offset
        } else {
            usize::MAX
        };
        let ahead = if ahead > self.phase {
            ahead - self.phase
        } else {
            0
        };
        let count = count_segments(ahead, self.pitch);
        let ghost c = count as int;
        let count = if count < self.in_lend.1 {
            count
        } else {
            self.in_lend.1
        };
        assert(self.phase == old(self).phase && self.prev_phase == old(self).phase
            && self.pitch == old(self).pitch && phase_offset == old(self).phase_offset);
        assert(count as int == if c < old(self).in_lend.1 {
            c
        } else {
            old(self).in_lend.1 as int
        });
        let ghost step = phase_step(
            old(self).phase as int,
            old(self).pitch as int,
            old(self).phase as int,
            b0 as int,
            count as int,
            old(self).phase_offset as int,
        );
        let (bytes, count) = self.update_phase(bytes, count, phase_offset);
        assert(bytes == step.0 && count == step.1);
        if self.prev_phase != self.phase {
            self.segments.clear();
        }
        self.in_lend = (self.in_lend.0 - bytes, self.in_lend.1 - count);
        (bytes, count)
    }
}

/// Slices a byte stream every `pitch` bytes into slices of `span` bytes,
/// shifted by `margin`; an open end stretches the first or last slice to
/// the end of the stream.
pub struct ConstSlicer<S: ByteStream> {
    src: EofStream<S>,
    segments: ConstSegments,
}

impl<S: ByteStream> ConstSlicer<S> {
    /// The stream sliced.
    pub closed spec fn upstream(&self) -> S {
        self.src.source()
    }

    /// Bytes between the ends of two slices.
    pub closed spec fn pitch(&self) -> usize {
        self.segments.pitch
    }

    /// Bytes in a slice.
    pub closed spec fn span(&self) -> usize {
        self.segments.span
    }

    /// Whether the first slice is stretched to the head of the stream.
    pub closed spec fn open_head(&self) -> bool {
        self.segments.open_ended.0
    }

    /// Whether the source has been seen to end.
    pub closed spec fn ended(&self) -> bool {
        self.segments.is_eof
    }

    /// Until the source ends, the slices lent after a fill are windows of
    /// `span` bytes whose ends lie `pitch` bytes apart.
    pub proof fn lemma_const_windows(s: &Self)
        requires
            s.wf(),
            s.filled(),
            !s.ended(),
        ensures
            windows(s.segments(), s.pitch() as int, s.span() as int, s.open_head()),
    {
        let v = s.segments.segments@;
        let w = s.segments();
        assert forall|i: int| 0 <= i < w.len() implies {
            let t = w[0].pos + w[0].len + i * (s.pitch() as int);
            &&& (#[trigger] w[i]).pos + w[i].len == t
            &&& (i > 0 || !s.open_head()) ==> w[i].pos == (if t > s.span() {
                t - s.span()
            } else {
                0
            })
        } by {
            assert(w[i] == v[i]);
            assert(w[0] == v[0]);
            assert(windows(v, s.pitch() as int, s.span() as int, s.open_head()));
            assert(v[i].pos + v[i].len == v[0].pos + v[0].len + i * (s.pitch() as int));
        }
    }

    /// The slicer of `params` over `src`.
    pub fn new(src: S, params: &ConstSlicerParams) -> (r: Self)
        requires
            src.wf(),
            stride_params_ok(params.margin, params.pitch, params.span),
        ensures
            r.wf(),
            r.segments().len() == 0,
            r.upstream() == src,
            r.pitch() == params.pitch && r.span() == params.span && r.open_head() == params.open_ended.0
                && !r.ended(),
    {
        Self::from_raw(src, params.margin, params.open_ended, params.pitch, params.span)
    }

    /// The slicer with the given margins, open ends, pitch and span.
    pub fn from_raw(src: S, margin: (isize, isize), open_ended: (bool, bool), pitch: usize, span: usize) -> (r: Self)
        requires
            src.wf(),
            stride_params_ok(margin, pitch, span),
        ensures
            r.wf(),
            r.segments().len() == 0,
            r.upstream() == src,
            r.pitch() == pitch && r.span() == span && r.open_head() == open_ended.0 && !r.ended(),
    {
        ConstSlicer { src: EofStream::new(src), segments: ConstSegments::new(margin, open_ended, pitch, span) }
    }
}

impl<S: ByteStream> SegmentStream for ConstSlicer<S> {
    closed spec fn wf(&self) -> bool {
        &&& self.src.wf()
        &&& self.segments.wf()
        &&& self.src.request() > 0
    }

    /// Bytes taken from the source.
    closed spec fn consumed(&self) -> nat {
        self.src.source().taken().len()
    }

    closed spec fn segments(&self) -> Seq<Segment> {
        self.segments.lent()
    }

    closed spec fn block(&self) -> Seq<u8> {
        self.src.source().buffer()
    }

    closed spec fn filled(&self) -> bool {
        &&& self.src.len() == self.src.source().available()
        &&& self.src.len() <= usize::MAX / 4
        &&& self.segments.in_lend.1 <= self.segments.segments@.len()
        &&& self.segments.in_lend.0 <= self.src.len()
    }

    /// Fills the source until it ends or holds enough for a slice, then
    /// lends the slices it holds.
    fn fill_segment_buf(&mut self) -> (r: std::io::Result<(bool, usize, usize, usize)>) {
        let ghost mut prev_len: usize = 0;
        loop
            invariant
                self.wf(),
                self.segments == old(self).segments,
                self.src.request() > prev_len,
                self.src.source().taken().len() == old(self).src.source().taken().len(),
            decreases usize::MAX - prev_len,
        {
            let (is_eof, len) = self.src.fill_buf()?;
            if len > usize::MAX / 4 {
                return Err(invalid_stream_error());
            }
            if !is_eof && len < self.segments.min_fill_len() {
                self.src.consume(0);
                proof {
                    prev_len = len;
                }
                continue;
            }
            let (max_fwd, count) = self.segments.fill_segment_buf(is_eof, len);
            return Ok((is_eof, len, count, max_fwd));
        }
    }

    fn as_slices(&self) -> (r: (&[u8], &[Segment])) {
        let n = self.segments.in_lend.1;
        let lent = vstd::slice::slice_subrange(self.segments.segments.as_slice(), 0, n);
        assert(lent@ =~= self.segments.lent());
        (self.src.as_slice(), lent)
    }

    /// Consumes what the slices lent allow, never failing.
    fn consume(&mut self, bytes: usize) -> (r: std::io::Result<(usize, usize)>)
        ensures
            r is Ok,
    {
        let (bytes, count) = self.segments.consume(bytes);
        self.src.consume(bytes);
        Ok((bytes, count))
    }
}

} // verus!
