use vstd::prelude::*;

verus! {

/// Bytes a stream hands out per block.
pub const BLOCK_SIZE: usize = 2 * 1024 * 1024;

/// Bytes of slack a stream keeps readable past its end.
pub const MARGIN_SIZE: usize = 256;

/// Stream options as given: padding, bytes to skip, and a range to keep.
pub struct RawStreamParams {
    pub pad: Option<(usize, usize)>,
    pub seek: Option<usize>,
    pub range: Option<std::ops::Range<usize>>,
}

/// Padding, clipping and length of a stream, in the order they apply.
pub struct StreamParams {
    pub pad: (usize, usize),
    pub clip: (usize, usize),
    pub len: usize,
}

/// Number of positions in `start..end` (none when `end < start`).
pub open spec fn range_len(start: usize, end: usize) -> usize {
    if end >= start {
        (end - start) as usize
    } else {
        0
    }
}

/// Saturating subtraction on `usize`.
pub open spec fn sat_sub(x: usize, y: usize) -> usize {
    if x >= y {
        (x - y) as usize
    } else {
        0
    }
}

/// The range of a raw parameter set: all of the stream when absent.
pub open spec fn raw_range(p: &RawStreamParams) -> (usize, usize) {
    match p.range {
        Some(r) => (r.start, r.end),
        None => (0usize, usize::MAX),
    }
}

/// Bytes dropped at the head before padding is taken into account.
pub open spec fn raw_head_clip(p: &RawStreamParams) -> int {
    (match p.seek {
        Some(s) => s,
        None => 0usize,
    }) + raw_range(p).0
}

impl StreamParams {
    /// Canonical form of raw stream options: head padding, applied before
    /// clipping, cancels against the head clip.
    pub fn from_raw(params: &RawStreamParams) -> (r: Self)
        requires
            raw_head_clip(params) <= usize::MAX,
        ensures
            ({
                let head_pad = match params.pad {
                    Some(p) => p.0,
                    None => 0usize,
                };
                let tail_pad = match params.pad {
                    Some(p) => p.1,
                    None => 0usize,
                };
                let clip = raw_head_clip(params);
                &&& r.pad == (if head_pad > clip {
                    ((head_pad - clip) as usize, tail_pad)
                } else {
                    (0usize, tail_pad)
                })
                &&& r.clip == (if head_pad > clip {
                    (0usize, 0usize)
                } else {
                    ((clip - head_pad) as usize, 0usize)
                })
                &&& r.len == range_len(raw_range(params).0, raw_range(params).1)
            }),
    {
        let (head_pad, tail_pad) = match params.pad {
            Some(p) => p,
            None => (0, 0),
        };
        let seek = match params.seek {
            Some(s) => s,
            None => 0,
        };
        let (start, end) = match &params.range {
            Some(r) => (r.start, r.end),
            None => (0, usize::MAX),
        };
        let head_clip = seek + start;
        let len = if end >= start {
            end - start
        } else {
            0
        };
        let (head_pad, head_clip) = if head_pad > head_clip {
            (head_pad - head_clip, 0)
        } else {
            (0, head_clip - head_pad)
        };
        StreamParams { pad: (head_pad, tail_pad), clip: (head_clip, 0), len }
    }

    /// Clips `amount` more bytes at the head and tail; a bounded length
    /// shrinks accordingly (never below zero).
    pub fn add_clip(&mut self, amount: (usize, usize))
        requires
            old(self).clip.0 + amount.0 <= usize::MAX,
            old(self).clip.1 + amount.1 <= usize::MAX,
        ensures
            final(self).pad == old(self).pad,
            final(self).clip == ((old(self).clip.0 + amount.0) as usize, (old(self).clip.1
                + amount.1) as usize),
            final(self).len == (if old(self).len == usize::MAX {
                usize::MAX
            } else {
                sat_sub(sat_sub(old(self).len, amount.0), amount.1)
            }),
    {
        self.clip.0 = self.clip.0 + amount.0;
        self.clip.1 = self.clip.1 + amount.1;
        if self.len != usize::MAX {
            self.len = self.len.saturating_sub(amount.0);
            self.len = self.len.saturating_sub(amount.1);
        }
    }
}

/// Number of positions in a range of `isize` (none when `end <= start`).
pub open spec fn span_of(start: isize, end: isize) -> usize {
    if end > start {
        (end - start) as usize
    } else {
        0
    }
}

/// Saturating subtraction on `isize`.
pub open spec fn sat_sub_isize(x: isize, y: isize) -> isize {
    if x - y > isize::MAX {
        isize::MAX
    } else if x - y < isize::MIN {
        isize::MIN
    } else {
        (x - y) as isize
    }
}

/// Length of an `isize` range.
fn span_len(start: isize, end: isize) -> (r: usize)
    ensures
        r == span_of(start, end),
{
    if end > start {
        ((end as i128) - (start as i128)) as usize
    } else {
        0
    }
}

/// Moves and widens ranges of positions.
pub trait ShiftRange: Sized {
    /// The shifted range stays representable.
    spec fn can_shift(&self, amount: isize) -> bool;

    /// The extended range stays representable.
    spec fn can_extend(&self, amount: (isize, isize)) -> bool;

    /// By how much the range is longer than `pitch` (may be negative).
    fn overlap(&self, pitch: isize) -> isize
        requires
            pitch > 0,
    ;

    /// The range moved by `amount`.
    fn shift(self, amount: isize) -> Self
        requires
            self.can_shift(amount),
    ;

    /// The range widened by `amount.0` at the head and `amount.1` at the tail.
    fn extend(self, amount: (isize, isize)) -> Self
        requires
            self.can_extend(amount),
    ;
}

impl ShiftRange for std::ops::Range<isize> {
    open spec fn can_shift(&self, amount: isize) -> bool {
        &&& isize::MIN <= self.start + amount <= isize::MAX
        &&& isize::MIN <= self.end + amount <= isize::MAX
    }

    open spec fn can_extend(&self, amount: (isize, isize)) -> bool {
        &&& isize::MIN <= self.start - amount.0 <= isize::MAX
        &&& isize::MIN <= self.end + amount.1 <= isize::MAX
    }

    fn overlap(&self, pitch: isize) -> (r: isize)
        ensures
            r == sat_sub_isize(span_of(self.start, self.end) as isize, pitch),
    {
        let len = span_len(self.start, self.end) as isize;
        let d: i128 = (len as i128) - (pitch as i128);
        if d > (isize::MAX as i128) {
            isize::MAX
        } else if d < (isize::MIN as i128) {
            isize::MIN
        } else {
            d as isize
        }
    }

    fn shift(self, amount: isize) -> (r: std::ops::Range<isize>)
        ensures
            r.start == self.start + amount,
            r.end == self.end + amount,
    {
        (self.start + amount)..(self.end + amount)
    }

    fn extend(self, amount: (isize, isize)) -> (r: std::ops::Range<isize>)
        ensures
            r.start == self.start - amount.0,
            r.end == self.end + amount.1,
    {
        (self.start - amount.0)..(self.end + amount.1)
    }
}

/// Slicer options as given: slice width, then extension, merging,
/// intersection and bridging of neighbouring slices.
pub struct RawSlicerParams {
    pub width: usize,
    pub extend: Option<(isize, isize)>,
    pub merge: Option<isize>,
    pub intersection: Option<usize>,
    pub bridge: Option<(isize, isize)>,
}

/// A constant-stride slicer: either a stream that is entirely one slice
/// (`infinite`, and `vanished` when that slice is empty), or slices of
/// `span` bytes every `pitch` bytes after clipping and margins.
#[derive(Debug, PartialEq)]
pub struct ConstSlicerParams {
    pub infinite: bool,
    pub vanished: bool,
    pub clip: (usize, usize),
    pub margin: (isize, isize),
    pub pin: (bool, bool),
    pub pitch: usize,
    pub span: usize,
}

/// The slicer of a stream that is one slice, or none: intersecting an
/// unbounded slice with its neighbours empties it, bridging inverts it.
pub open spec fn infinite_params(vanished: bool, has_intersection: bool, has_bridge: bool) -> (
    bool,
    bool,
    (usize, usize),
    (isize, isize),
    (bool, bool),
    usize,
    usize,
) {
    (true, (vanished || has_intersection) != has_bridge, (0, 0), (0, 0), (false, false), 0, 0)
}

/// The fields of a slicer, in declaration order.
pub open spec fn fields(p: ConstSlicerParams) -> (
    bool,
    bool,
    (usize, usize),
    (isize, isize),
    (bool, bool),
    usize,
    usize,
) {
    (p.infinite, p.vanished, p.clip, p.margin, p.pin, p.pitch, p.span)
}

/// Whether `x` is a value of `isize`.
pub open spec fn in_isize(x: int) -> bool {
    isize::MIN <= x <= isize::MAX
}

/// No step of the slicer computation, carried out on `isize`, leaves it:
/// the extended phantom slice and its length, and, past the early ends,
/// the bridged slices and the tail margin read off them.
pub open spec fn slicer_fits(p: &RawSlicerParams) -> bool {
    let hi = p.intersection is Some;
    let hb = p.bridge is Some;
    let pitch = p.width as int;
    let e = raw_extend(p);
    let hs = 0 - e.0;
    let he = pitch + e.1;
    let len = extended_len(p);
    let early = len == 0 || len - pitch >= merge_of(p) || (hi && len - pitch < (
    p.intersection.unwrap() as isize));
    let (hs1, ts1, te1) = if hi {
        (he - (len - pitch), hs, hs + (len - pitch))
    } else {
        (hs, hs, he)
    };
    let span = he - hs1;
    let (hs2, he2, ts2, te2) = if hb {
        let b0 = (p.bridge.unwrap().0 as int) % span;
        let b1 = (p.bridge.unwrap().1 as int) % span;
        (hs1 - pitch + b0, hs1 + b1, ts1 + b0, ts1 + pitch + b1)
    } else {
        (hs1, he, ts1, te1)
    };
    &&& pitch <= isize::MAX
    &&& in_isize(hs)
    &&& in_isize(he)
    &&& len <= isize::MAX
    &&& !early ==> {
        &&& hb ==> span + (p.bridge.unwrap().1 as int) % span <= isize::MAX && in_isize(hs1 - pitch)
            && in_isize(ts1 + pitch)
        &&& in_isize(hs2) && in_isize(he2) && in_isize(ts2) && in_isize(te2)
        &&& (if te2 > ts2 {
            te2 - ts2
        } else {
            0
        }) <= isize::MAX
        &&& in_isize(1 - te2)
    }
}

/// The extension of raw slicer options, none when absent.
pub open spec fn raw_extend(p: &RawSlicerParams) -> (isize, isize) {
    match p.extend {
        Some(e) => e,
        None => (0isize, 0isize),
    }
}

/// Length of the phantom slice `[0, width)` after extension.
pub open spec fn extended_len(p: &RawSlicerParams) -> int {
    let hs = 0 - raw_extend(p).0;
    let he = p.width + raw_extend(p).1;
    if he > hs {
        he - hs
    } else {
        0
    }
}

/// Overlap at or beyond which neighbouring slices merge into one.
pub open spec fn merge_of(p: &RawSlicerParams) -> int {
    match p.merge {
        Some(m) => m as int,
        None => isize::MAX as int,
    }
}

/// The slicer that raw options describe, computed on the phantom slice
/// `[0, width)` and its neighbours.
pub open spec fn slicer_of(p: &RawSlicerParams) -> (
    bool,
    bool,
    (usize, usize),
    (isize, isize),
    (bool, bool),
    usize,
    usize,
) {
    let hi = p.intersection is Some;
    let hb = p.bridge is Some;
    let pitch = p.width as int;
    let e = raw_extend(p);
    let hs = 0 - e.0;
    let he = pitch + e.1;
    let len = if he > hs {
        he - hs
    } else {
        0
    };
    let merge = match p.merge {
        Some(m) => m as int,
        None => isize::MAX as int,
    };
    if len == 0 {
        infinite_params(true, hi, hb)
    } else if len - pitch >= merge {
        infinite_params(false, hi, hb)
    } else if hi && len - pitch < (p.intersection.unwrap() as isize) {
        infinite_params(true, false, hb)
    } else {
        // after intersection
        let (hs, ts, te) = if hi {
            (he - (len - pitch), hs, hs + (len - pitch))
        } else {
            (hs, hs, he)
        };
        let span = he - hs;
        // after bridging
        let (hs, he, ts, te) = if hb {
            let b0 = (p.bridge.unwrap().0 as int) % span;
            let b1 = (p.bridge.unwrap().1 as int) % span;
            (hs - pitch + b0, hs + b1, ts + b0, ts + pitch + b1)
        } else {
            (hs, he, ts, te)
        };
        let (clip, head_margin) = if hb || hs < 0 {
            (0, hs)
        } else {
            (hs, 0)
        };
        let tlen = if te > ts {
            te - ts
        } else {
            0
        };
        let tail_margin = if te < 1 {
            1 - te
        } else if 1 - te >= 1 - tlen {
            1 - te
        } else {
            1 - tlen
        };
        (
            false,
            false,
            (clip as usize, 0usize),
            (head_margin as isize, tail_margin as isize),
            (hb, hb),
            p.width,
            (if he > hs {
                he - hs
            } else {
                0
            }) as usize,
        )
    }
}

impl ConstSlicerParams {
    fn make_infinite(vanished: bool, has_intersection: bool, has_bridge: bool) -> (r: Self)
        ensures
            fields(r) == infinite_params(vanished, has_intersection, has_bridge),
    {
        let mut vanished = vanished;
        if has_intersection {
            vanished = true;
        }
        if has_bridge {
            vanished = !vanished;
        }
        ConstSlicerParams {
            infinite: true,
            vanished,
            clip: (0, 0),
            margin: (0, 0),
            pin: (false, false),
            pitch: 0,
            span: 0,
        }
    }

    /// Applies extension, merging, intersection and bridging to the
    /// phantom slice `[0, width)` and its neighbours, and reads the slicer
    /// off the result.
    #[verifier::rlimit(80)]
    pub fn from_raw(params: &RawSlicerParams) -> (r: Self)
        requires
            slicer_fits(params),
            // a zero width leaves nothing to measure overlaps against
            params.width > 0 || raw_extend(params).0 + raw_extend(params).1 <= 0,
            // a bridge over an intersection that left nothing is undefined
            params.bridge is Some && params.intersection is Some && extended_len(params) > 0
                && extended_len(params) - params.width < merge_of(params) && extended_len(params)
                - params.width >= (params.intersection.unwrap() as isize) ==> extended_len(params)
                - params.width > 0,
        ensures
            fields(r) == slicer_of(params),
    {
        let has_intersection = params.intersection.is_some();
        let has_bridge = params.bridge.is_some();
        let pitch: i128 = params.width as i128;
        let extend = match params.extend {
            Some(e) => e,
            None => (0, 0),
        };
        let mut hs: i128 = 0 - (extend.0 as i128);
        let mut he: i128 = pitch + (extend.1 as i128);
        let mut ts: i128 = hs;
        let mut te: i128 = he;
        if he <= hs {
            return Self::make_infinite(true, has_intersection, has_bridge);
        }
        let merge: i128 = match params.merge {
            Some(m) => m as i128,
            None => isize::MAX as i128,
        };
        let ov: i128 = (he - hs) - pitch;
        if ov >= merge {
            return Self::make_infinite(false, has_intersection, has_bridge);
        }
        if has_intersection {
            let span = ov;
            if span < ((#[verifier::truncate] (params.intersection.unwrap() as isize)) as i128) {
                return Self::make_infinite(true, false, has_bridge);
            }
            hs = he - span;
            te = ts + span;
        }
        if has_bridge {
            assert(he > hs);
            let span: i128 = he - hs;
            let sp = span as isize;
            let raw = params.bridge.unwrap();
            let b0 = raw.0.checked_rem_euclid(sp).unwrap() as i128;
            let b1 = raw.1.checked_rem_euclid(sp).unwrap() as i128;
            if span + b1 - b0 <= 0 {
                return Self::make_infinite(true, false, false);
            }
            let nhs = hs - pitch + b0;
            let nhe = hs + b1;
            let nts = ts + b0;
            let nte = ts + pitch + b1;
            hs = nhs;
            he = nhe;
            ts = nts;
            te = nte;
        }
        let (head_clip, head_margin): (i128, i128) = if has_bridge || hs < 0 {
            (0, hs)
        } else {
            (hs, 0)
        };
        let tlen: i128 = if te > ts {
            te - ts
        } else {
            0
        };
        let tail_margin: i128 = if te < 1 {
            1 - te
        } else if 1 - te >= 1 - tlen {
            1 - te
        } else {
            1 - tlen
        };
        let hlen: i128 = if he > hs {
            he - hs
        } else {
            0
        };
        ConstSlicerParams {
            infinite: false,
            vanished: false,
            clip: (head_clip as usize, 0),
            margin: (head_margin as isize, tail_margin as isize),
            pin: (has_bridge, has_bridge),
            pitch: params.width,
            span: hlen as usize,
        }
    }
}

} // verus!
