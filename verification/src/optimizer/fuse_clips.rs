use vstd::prelude::*;

use super::{GreedyOptimizer, PipelineNode};

verus! {

/// Padding, clipping and length of a stream, in the order they apply.
#[derive(Copy, Clone, Debug, PartialEq, Eq)]
pub struct ClipperParams {
    pub pad: (usize, usize),
    pub clip: (usize, usize),
    pub len: usize,
}

/// Number of positions in `start..end` (none when `end < start`).
pub open spec fn range_len(start: usize, end: usize) -> usize {
    if end >= start {
        (end - start) as usize
    } else {
        0
    }
}

/// Saturating subtraction on `usize`.
pub open spec fn sat_sub(x: usize, y: usize) -> usize {
    if x >= y {
        (x - y) as usize
    } else {
        0
    }
}

/// The range kept: all of the stream when absent.
pub open spec fn range_or_all(range: Option<std::ops::Range<usize>>) -> (usize, usize) {
    match range {
        Some(r) => (r.start, r.end),
        None => (0usize, usize::MAX),
    }
}

/// Bytes to drop at the head, before padding is taken into account.
pub open spec fn head_skip(seek: Option<usize>, range: Option<std::ops::Range<usize>>) -> int {
    (match seek {
        Some(s) => s,
        None => 0usize,
    }) + range_or_all(range).0
}

/// Canonical padding, clipping and length for padding `pad`, then
/// dropping `seek` bytes, then keeping `range`.
pub open spec fn clipper_of(
    pad: Option<(usize, usize)>,
    seek: Option<usize>,
    range: Option<std::ops::Range<usize>>,
) -> ClipperParams {
    let (head_pad, tail_pad) = match pad {
        Some(p) => p,
        None => (0usize, 0usize),
    };
    let skip = head_skip(seek, range);
    let rlen = range_len(range_or_all(range).0, range_or_all(range).1);
    let (head_pad, head_clip) = if skip > head_pad {
        (0usize, (skip - head_pad) as usize)
    } else {
        ((head_pad - skip) as usize, 0usize)
    };
    let len = if head_pad > rlen {
        0usize
    } else if rlen != usize::MAX {
        (rlen - head_pad) as usize
    } else {
        usize::MAX
    };
    ClipperParams { pad: (head_pad, tail_pad), clip: (head_clip, 0), len }
}

impl ClipperParams {
    /// Fuses padding, a seek and a range into one set of parameters.
    pub fn from_raw(
        pad: Option<(usize, usize)>,
        seek: Option<usize>,
        range: Option<std::ops::Range<usize>>,
    ) -> (r: Self)
        requires
            head_skip(seek, range) <= usize::MAX,
        ensures
            r == clipper_of(pad, seek, range),
    {
        let (head_pad, tail_pad) = match pad {
            Some(p) => p,
            None => (0, 0),
        };
        let seek = match seek {
            Some(s) => s,
            None => 0,
        };
        let (start, end) = match range {
            Some(r) => (r.start, r.end),
            None => (0, usize::MAX),
        };
        let rlen = if end >= start {
            end - start
        } else {
            0
        };
        let seek = seek + start;
        let (head_pad, head_clip) = if seek > head_pad {
            (0, seek - head_pad)
        } else {
            (head_pad - seek, 0)
        };
        let len = if head_pad > rlen {
            0
        } else if rlen != usize::MAX {
            rlen - head_pad
        } else {
            usize::MAX
        };
        ClipperParams { pad: (head_pad, tail_pad), clip: (head_clip, 0), len }
    }

    /// Clips `amount` more bytes at the head and tail; a bounded length
    /// shrinks accordingly (never below zero).
    pub fn add_clip(&mut self, amount: (usize, usize))
        requires
            old(self).clip.0 + amount.0 <= usize::MAX,
            old(self).clip.1 + amount.1 <= usize::MAX,
        ensures
            final(self).pad == old(self).pad,
            final(self).clip == ((old(self).clip.0 + amount.0) as usize, (old(self).clip.1
                + amount.1) as usize),
            final(self).len == (if old(self).len == usize::MAX {
                usize::MAX
            } else {
                sat_sub(sat_sub(old(self).len, amount.0), amount.1)
            }),
    {
        self.clip.0 = self.clip.0 + amount.0;
        self.clip.1 = self.clip.1 + amount.1;
        if self.len != usize::MAX {
            self.len = self.len.saturating_sub(amount.0);
            self.len = self.len.saturating_sub(amount.1);
        }
    }
}

/// Fuses a run of padding, seek and range nodes into one clipper.
pub struct FuseClips();

/// Order in which the clipping nodes may follow one another: padding, then
/// seek, then range; anything else ranks zero.
pub open spec fn clip_rank(n: PipelineNode) -> usize {
    match n {
        PipelineNode::Pad(_) => 1,
        PipelineNode::Seek(_) => 2,
        PipelineNode::Bytes(_, _) => 3,
        _ => 0,
    }
}

/// Length of the longest prefix of `nodes` whose ranks strictly rise from
/// `prev`.
pub open spec fn rising_prefix(nodes: Seq<PipelineNode>, prev: usize) -> nat
    decreases nodes.len(),
{
    if nodes.len() == 0 {
        0
    } else if clip_rank(nodes[0]) <= prev {
        0
    } else {
        1 + rising_prefix(nodes.drop_first(), clip_rank(nodes[0]))
    }
}

impl FuseClips {
    pub fn new() -> (r: Self) {
        FuseClips()
    }

    fn rank(&self, n: &PipelineNode) -> (r: usize)
        ensures
            r == clip_rank(*n),
    {
        match n {
            PipelineNode::Pad(_) => 1,
            PipelineNode::Seek(_) => 2,
            PipelineNode::Bytes(_, _) => 3,
            _ => 0,
        }
    }

    /// Length of the run of clipping nodes at the head of `nodes`, in
    /// strictly rising rank.
    pub fn first_match(&self, nodes: &[PipelineNode]) -> (r: usize)
        ensures
            r == rising_prefix(nodes@, 0),
            r <= 3,
    {
        let mut prev_rank: usize = 0;
        let mut i: usize = 0;
        let n = nodes.len();
        proof {
            lemma_rising_prefix_bound(nodes@, 0);
        }
        assert(nodes@.skip(0) =~= nodes@);
        while i < n
            invariant
                n == nodes@.len(),
                i <= n,
                prev_rank <= 3,
                i <= prev_rank,
                rising_prefix(nodes@, 0) == i + rising_prefix(nodes@.skip(i as int), prev_rank),
            decreases n - i,
        {
            let rank = self.rank(&nodes[i]);
            assert(nodes@.skip(i as int)[0] == nodes@[i as int]);
            if rank <= prev_rank {
                return i;
            }
            assert(nodes@.skip(i as int).drop_first() =~= nodes@.skip(i + 1));
            prev_rank = rank;
            i = i + 1;
        }
        assert(nodes@.skip(i as int).len() == 0);
        i
    }
}

impl GreedyOptimizer for FuseClips {
    /// Fusing the run must not overflow its head clip.
    open spec fn accepts(&self, nodes: Seq<PipelineNode>) -> bool {
        let k = rising_prefix(nodes.drop_first(), 0);
        clip_rank(nodes[0]) == 0 && k > 0 ==> head_skip(
            seek_arg(nodes, k as usize),
            bytes_arg(nodes, k as usize),
        ) <= usize::MAX
    }

    /// Replaces a clipping run that follows a non-clipping node by one
    /// clipper: `(start, length, node)` of the replacement.
    fn substitute(&self, nodes: &[PipelineNode]) -> (r: Option<(usize, usize, PipelineNode)>)
        ensures
            clip_rank(nodes@[0]) != 0 ==> r is None,
            clip_rank(nodes@[0]) == 0 && rising_prefix(nodes@.drop_first(), 0) == 0 ==> r is None,
            clip_rank(nodes@[0]) == 0 && rising_prefix(nodes@.drop_first(), 0) > 0 ==> r is Some,
            r matches Some(x) ==> x.0 == 1 && x.1 == rising_prefix(nodes@.drop_first(), 0)
                && x.1 > 0,
            r matches Some(x) ==> x.2 == PipelineNode::Clipper(
                clipper_of(pad_arg(nodes@, x.1), seek_arg(nodes@, x.1), bytes_arg(nodes@, x.1)),
            ),
    {
        if self.rank(&nodes[0]) != 0 {
            return None;
        }
        let rest = slice_skip_first(nodes);
        let len = self.first_match(rest);
        proof {
            lemma_rising_prefix_bound(rest@, 0);
        }
        if len == 0 {
            return None;
        }
        let mut pad: Option<(usize, usize)> = None;
        let mut seek: Option<usize> = None;
        let mut bytes: Option<std::ops::Range<usize>> = None;
        let mut i: usize = 1;
        while i <= len
            invariant
                1 <= i <= len + 1,
                len <= 3,
                len + 1 <= nodes@.len(),
                pad == pad_arg(nodes@, (i - 1) as usize),
                seek == seek_arg(nodes@, (i - 1) as usize),
                bytes == bytes_arg(nodes@, (i - 1) as usize),
            decreases len + 1 - i,
        {
            match &nodes[i] {
                PipelineNode::Pad(p) => {
                    pad = Some(*p);
                },
                PipelineNode::Seek(s) => {
                    seek = Some(*s);
                },
                PipelineNode::Bytes(s, e) => {
                    bytes = Some(*s..*e);
                },
                _ => {},
            }
            i = i + 1;
        }
        let node = PipelineNode::Clipper(ClipperParams::from_raw(pad, seek, bytes));
        Some((1, len, node))
    }
}

/// The last padding among `nodes[1..=k]`.
pub open spec fn pad_arg(nodes: Seq<PipelineNode>, k: usize) -> Option<(usize, usize)>
    decreases k,
{
    if k == 0 {
        None
    } else {
        match nodes[k as int] {
            PipelineNode::Pad(p) => Some(p),
            _ => pad_arg(nodes, (k - 1) as usize),
        }
    }
}

/// The last seek among `nodes[1..=k]`.
pub open spec fn seek_arg(nodes: Seq<PipelineNode>, k: usize) -> Option<usize>
    decreases k,
{
    if k == 0 {
        None
    } else {
        match nodes[k as int] {
            PipelineNode::Seek(s) => Some(s),
            _ => seek_arg(nodes, (k - 1) as usize),
        }
    }
}

/// The last range among `nodes[1..=k]`.
pub open spec fn bytes_arg(nodes: Seq<PipelineNode>, k: usize) -> Option<std::ops::Range<usize>>
    decreases k,
{
    if k == 0 {
        None
    } else {
        match nodes[k as int] {
            PipelineNode::Bytes(s, e) => Some(s..e),
            _ => bytes_arg(nodes, (k - 1) as usize),
        }
    }
}

fn slice_skip_first(nodes: &[PipelineNode]) -> (r: &[PipelineNode])
    requires
        nodes@.len() > 0,
    ensures
        r@ == nodes@.drop_first(),
{
    let n = nodes.len();
    vstd::slice::slice_subrange(nodes, 1, n)
}

proof fn lemma_rising_prefix_bound(nodes: Seq<PipelineNode>, prev: usize)
    requires
        prev <= 3,
    ensures
        rising_prefix(nodes, prev) + prev <= 3,
        rising_prefix(nodes, prev) <= nodes.len(),
    decreases nodes.len(),
{
    if nodes.len() > 0 && clip_rank(nodes[0]) > prev {
        lemma_rising_prefix_bound(nodes.drop_first(), clip_rank(nodes[0]));
    }
}

} // verus!
