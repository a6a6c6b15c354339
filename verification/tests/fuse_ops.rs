use zd::optimizer::fuse_ops::{ConstSlicerParams, RawSlicerParams};

fn check(
    input: (usize, Option<(isize, isize)>, Option<isize>, Option<usize>, Option<(isize, isize)>),
    expected: (bool, bool, (usize, usize), (isize, isize), (bool, bool), usize, usize),
) {
    assert_eq!(
        ConstSlicerParams::from_raw(&RawSlicerParams {
            width: input.0,
            extend: input.1,
            merge: input.2,
            intersection: input.3,
            bridge: input.4,
        }),
        ConstSlicerParams {
            infinite: expected.0,
            vanished: expected.1,
            clip: expected.2,
            margin: expected.3,
            pin: expected.4,
            pitch: expected.5,
            span: expected.6,
        }
    );
}

#[test]
fn fuse_ops_test_const_slicer_params() {
    // default
    check((4, None, None, None, None), (false, false, (0, 0), (0, -3), (false, false), 4, 4));

    // extend right
    check((4, Some((0, 1)), None, None, None), (false, false, (0, 0), (0, -4), (false, false), 4, 5));
    check((4, Some((0, 2)), None, None, None), (false, false, (0, 0), (0, -5), (false, false), 4, 6));
    check((4, Some((0, 5)), None, None, None), (false, false, (0, 0), (0, -8), (false, false), 4, 9));

    // extend left
    check((4, Some((1, 0)), None, None, None), (false, false, (0, 0), (-1, -3), (false, false), 4, 5));
    check((4, Some((2, 0)), None, None, None), (false, false, (0, 0), (-2, -3), (false, false), 4, 6));
    check((4, Some((5, 0)), None, None, None), (false, false, (0, 0), (-5, -3), (false, false), 4, 9));

    // extend both
    check((4, Some((1, 1)), None, None, None), (false, false, (0, 0), (-1, -4), (false, false), 4, 6));
    check((4, Some((5, 5)), None, None, None), (false, false, (0, 0), (-5, -8), (false, false), 4, 14));

    // move left
    check((4, Some((7, -7)), None, None, None), (false, false, (0, 0), (-3, 4), (false, false), 4, 4));
    check((4, Some((9, -9)), None, None, None), (false, false, (0, 0), (-1, 6), (false, false), 4, 4));
    check((4, Some((9, -7)), None, None, None), (false, false, (0, 0), (-5, 4), (false, false), 4, 6));

    // merge without extension
    check((4, None, Some(1), None, None), (false, false, (0, 0), (0, -3), (false, false), 4, 4));
    check((4, None, Some(0), None, None), (true, false, (0, 0), (0, 0), (false, false), 0, 0));
    check((4, None, Some(-1), None, None), (true, false, (0, 0), (0, 0), (false, false), 0, 0));

    // merge with extension
    check((4, Some((1, 1)), Some(3), None, None), (false, false, (0, 0), (-1, -4), (false, false), 4, 6));
    check((4, Some((1, 1)), Some(2), None, None), (true, false, (0, 0), (0, 0), (false, false), 0, 0));
    check((4, Some((1, 1)), Some(1), None, None), (true, false, (0, 0), (0, 0), (false, false), 0, 0));

    // intersection without extension
    check((4, None, None, Some(1), None), (true, true, (0, 0), (0, 0), (false, false), 0, 0));
    check((4, None, None, Some(5), None), (true, true, (0, 0), (0, 0), (false, false), 0, 0));

    // intersection with extension
    check((4, Some((1, 1)), None, Some(1), None), (false, false, (3, 0), (0, 0), (false, false), 4, 2));
    check((4, Some((1, 1)), None, Some(5), None), (true, true, (0, 0), (0, 0), (false, false), 0, 0));
}

#[test]
fn fuse_ops_from_pitch() {
    let p = ConstSlicerParams::from_pitch(16);
    assert_eq!(p.margin, (0, 15));
    assert_eq!((p.pitch, p.span), (16, 16));
    assert!(!p.infinite && !p.vanished);
}

#[test]
fn fuse_ops_wide_width() {
    // a width well past an eighth of the isize range still fuses
    let w = isize::MAX as usize / 5;
    check((w, None, None, None, None), (false, false, (0, 0), (0, 1 - w as isize), (false, false), w, w));
}
