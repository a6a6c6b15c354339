use zd::optimizer::fuse_clips::{ClipperParams, FuseClips};
use zd::optimizer::fuse_ops::{ConstSlicerParams, FuseOps};
use zd::optimizer::{GreedyOptimizer, PipelineNode};
use zd::segment::ops::{SegmentMapper, SegmentPred};

#[test]
fn fuse_clips_substitute() {
    let f = FuseClips::new();
    let nodes = vec![PipelineNode::Other, PipelineNode::Pad((4, 0)), PipelineNode::Seek(10), PipelineNode::Bytes(0, 100), PipelineNode::Other];
    match f.substitute(&nodes) {
        Some((1, 3, PipelineNode::Clipper(c))) => {
            assert_eq!(c, ClipperParams::from_raw(Some((4, 0)), Some(10), Some(0..100)));
        }
        _ => panic!("expected a fused clipper"),
    }
    // a run out of order stops at the first node that does not rank higher
    let nodes = vec![PipelineNode::Other, PipelineNode::Seek(10), PipelineNode::Pad((4, 0))];
    assert!(matches!(f.substitute(&nodes), Some((1, 1, _))));
    assert!(f.substitute(&[PipelineNode::Pad((1, 1))]).is_none());
    assert!(f.substitute(&[PipelineNode::Other, PipelineNode::Other]).is_none());
    assert_eq!(f.first_match(&[PipelineNode::Pad((1, 1)), PipelineNode::Seek(1), PipelineNode::Seek(2)]), 2);
}

#[test]
fn fuse_ops_substitute() {
    let f = FuseOps::new();
    // a width alone is left as it is
    assert!(f.substitute(&[PipelineNode::Width(4), PipelineNode::Other]).is_none());
    assert!(f.substitute(&[PipelineNode::Other]).is_none());

    // keep every slice (e - s >= 0) and map it onto itself
    let pred = SegmentPred::from_pred_single("e - s >= 0").unwrap();
    let mapper = SegmentMapper::from_range_single("s..e").unwrap();
    let nodes = vec![PipelineNode::Width(4), PipelineNode::Filter(pred, vec![mapper])];
    match f.substitute(&nodes) {
        Some((0, 2, PipelineNode::ConstSlicer(p))) => {
            assert_eq!(p.pitch, 4);
            assert_eq!(p.span, 4);
            assert!(!p.infinite && !p.vanished);
        }
        other => panic!("unexpected {:?}", other),
    }

    // a filter that keeps nothing leaves a vanished stream
    let pred = SegmentPred::from_pred_single("s - e >= 1").unwrap();
    let nodes = vec![PipelineNode::Width(4), PipelineNode::Filter(pred, vec![mapper])];
    match f.substitute(&nodes) {
        Some((0, 2, PipelineNode::ConstSlicer(p))) => {
            assert_eq!(p, ConstSlicerParams { infinite: false, vanished: true, clip: (0, 0), margin: (0, 0), pin: (false, false), pitch: usize::MAX, span: 0 });
        }
        other => panic!("unexpected {:?}", other),
    }
}

#[test]
fn segment_ops_eval() {
    let pred = SegmentPred::from_pred_pair("s1 - e0 >= 2").unwrap();
    assert!(!pred.is_single());
    assert!(pred.eval(&[0, 0, 4, 6, 10]));
    assert!(!pred.eval(&[0, 0, 4, 5, 10]));
    assert!(pred.eval_dep(&[false, false, true, false, false]));
    let m = SegmentMapper::from_range_pair("e0..s1").unwrap();
    assert_eq!(m.map(&[0, 0, 4, 6, 10]), (4, 6));
    assert_eq!(m.map_dep(&[false, true, false, true, false]), (false, true));
    let m = SegmentMapper::from_range_single("s + 2..").unwrap();
    assert!(m.is_single());
    assert_eq!(m.map(&[0, isize::MAX - 1, 9]), (isize::MAX, 9));
    assert!(SegmentMapper::from_range_single("s").is_err());
}
