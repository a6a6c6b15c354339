use zd::params::{ConstSlicerParams, RawSlicerParams, RawStreamParams, StreamParams};

fn raw(width: usize, extend: Option<(isize, isize)>) -> RawSlicerParams {
    RawSlicerParams { width, extend, merge: None, intersection: None, bridge: None }
}

fn finite(margin: (isize, isize), span: usize) -> ConstSlicerParams {
    ConstSlicerParams {
        infinite: false,
        vanished: false,
        clip: (0, 0),
        margin,
        pin: (false, false),
        pitch: 4,
        span,
    }
}

#[test]
fn params_test_const_slicer_params() {
    assert_eq!(ConstSlicerParams::from_raw(&raw(4, None)), finite((0, -3), 4));

    // extend left
    assert_eq!(ConstSlicerParams::from_raw(&raw(4, Some((0, 1)))), finite((0, -4), 5));
    assert_eq!(ConstSlicerParams::from_raw(&raw(4, Some((0, 2)))), finite((0, -5), 6));
    assert_eq!(ConstSlicerParams::from_raw(&raw(4, Some((0, 5)))), finite((0, -8), 9));

    // extend right
    assert_eq!(ConstSlicerParams::from_raw(&raw(4, Some((1, 0)))), finite((-1, -3), 5));
    assert_eq!(ConstSlicerParams::from_raw(&raw(4, Some((2, 0)))), finite((-2, -3), 6));
    assert_eq!(ConstSlicerParams::from_raw(&raw(4, Some((5, 0)))), finite((-5, -3), 9));

    // extend both
    assert_eq!(ConstSlicerParams::from_raw(&raw(4, Some((1, 1)))), finite((-1, -4), 6));
    assert_eq!(ConstSlicerParams::from_raw(&raw(4, Some((5, 5)))), finite((-5, -8), 14));
}

#[test]
fn params_infinite_after_extension() {
    // shrinking the slice to nothing leaves an empty stream; bridging inverts it
    let p = ConstSlicerParams::from_raw(&raw(4, Some((-2, -2))));
    assert!(p.infinite && p.vanished);
    let p = ConstSlicerParams::from_raw(&RawSlicerParams {
        width: 4,
        extend: Some((-2, -2)),
        merge: None,
        intersection: None,
        bridge: Some((0, 0)),
    });
    assert!(p.infinite && !p.vanished);
    // merging overlapping neighbours gives one slice
    let p = ConstSlicerParams::from_raw(&RawSlicerParams {
        width: 4,
        extend: Some((1, 1)),
        merge: Some(2),
        intersection: None,
        bridge: None,
    });
    assert!(p.infinite && !p.vanished);
}

#[test]
fn params_stream_params() {
    let p = StreamParams::from_raw(&RawStreamParams { pad: Some((10, 20)), seek: Some(15), range: None });
    assert_eq!(p.pad, (0, 20));
    assert_eq!(p.clip, (5, 0));
    assert_eq!(p.len, usize::MAX);

    let mut p = StreamParams::from_raw(&RawStreamParams { pad: Some((40, 0)), seek: None, range: Some(20..100) });
    assert_eq!(p.pad, (20, 0));
    assert_eq!(p.clip, (0, 0));
    assert_eq!(p.len, 80);

    p.add_clip((30, 60));
    assert_eq!(p.clip, (30, 60));
    assert_eq!(p.len, 0);
}
