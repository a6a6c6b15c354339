use vstd::prelude::*;

pub mod fuse_clips;
pub mod fuse_ops;

use self::fuse_clips::ClipperParams;
use self::fuse_ops::ConstSlicerParams;
use crate::segment::ops::{SegmentMapper, SegmentPred};

verus! {

/// A node of the pipeline as the optimizer sees it.
#[derive(Debug)]
pub enum PipelineNode {
    /// Padding at the head and tail.
    Pad((usize, usize)),
    /// Bytes dropped at the head.
    Seek(usize),
    /// A range of bytes kept, as its start and end.
    Bytes(usize, usize),
    /// Fused padding, clipping and length.
    Clipper(ClipperParams),
    /// Slices of a constant width.
    Width(usize),
    /// A filter of single slices, with the mappers applied to those kept.
    Filter(SegmentPred, Vec<SegmentMapper>),
    /// A filter of pairs of neighbouring slices, with its mapper, pinned or not.
    Pair(SegmentPred, SegmentMapper, bool),
    /// Fused constant-stride slicer.
    ConstSlicer(ConstSlicerParams),
    /// A node no optimizer touches.
    Other,
}

/// A rewriting of runs of pipeline nodes.
pub trait GreedyOptimizer {
    /// The node sequences the rewriting is defined on.
    spec fn accepts(&self, nodes: Seq<PipelineNode>) -> bool;

    /// `(start, length, node)`: the run `nodes[start..start + length]` is
    /// to be replaced by `node`; `None` where nothing applies.
    fn substitute(&self, nodes: &[PipelineNode]) -> Option<(usize, usize, PipelineNode)>
        requires
            nodes@.len() > 0,
            self.accepts(nodes@),
    ;
}

} // verus!
