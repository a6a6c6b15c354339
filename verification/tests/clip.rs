use std::ops::Range;

use zd::byte::clip::ClipperParams;
use zd::optimizer::fuse_clips::ClipperParams as FusedClipperParams;

fn check_clip(
    input: (Option<(usize, usize)>, Option<usize>, Option<Range<usize>>),
    expected: ((usize, usize), (usize, usize), usize),
) {
    assert_eq!(
        ClipperParams::from_raw(input.0, input.1, input.2),
        ClipperParams { pad: expected.0, clip: expected.1, len: expected.2 }
    );
}

#[test]
fn clip_test_stream_params() {
    check_clip((None, None, None), ((0, 0), (0, 0), usize::MAX));
    check_clip((Some((10, 20)), None, None), ((10, 20), (0, 0), usize::MAX));
    check_clip((None, Some(15), None), ((0, 0), (15, 0), usize::MAX));
    check_clip((Some((10, 20)), Some(15), None), ((0, 20), (5, 0), usize::MAX));
    check_clip((Some((10, 20)), Some(5), None), ((5, 20), (0, 0), usize::MAX));
    check_clip((None, None, Some(100..200)), ((0, 0), (100, 0), 100));
    check_clip((Some((40, 0)), None, Some(100..200)), ((0, 0), (60, 0), 100));
    check_clip((Some((40, 0)), Some(30), Some(100..200)), ((0, 0), (90, 0), 100));
    check_clip((Some((40, 0)), Some(50), Some(100..200)), ((0, 0), (110, 0), 100));
    check_clip((Some((40, 0)), None, Some(20..100)), ((20, 0), (0, 0), 60));
    check_clip((Some((40, 0)), Some(10), Some(20..100)), ((10, 0), (0, 0), 70));
    check_clip((Some((40, 0)), Some(30), Some(20..100)), ((0, 0), (10, 0), 80));
    check_clip((Some((40, 0)), Some(50), Some(20..100)), ((0, 0), (30, 0), 80));
    check_clip((Some((100, 0)), Some(0), Some(20..100)), ((80, 0), (0, 0), 0));
    check_clip((Some((140, 0)), Some(0), Some(20..100)), ((80, 0), (0, 0), 0));
    check_clip((Some((240, 0)), Some(50), Some(20..100)), ((80, 0), (0, 0), 0));
}

fn check_fused(
    input: (Option<(usize, usize)>, Option<usize>, Option<Range<usize>>),
    expected: ((usize, usize), (usize, usize), usize),
) {
    assert_eq!(
        FusedClipperParams::from_raw(input.0, input.1, input.2),
        FusedClipperParams { pad: expected.0, clip: expected.1, len: expected.2 }
    );
}

#[test]
fn fuse_clips_test_stream_params() {
    check_fused((None, None, None), ((0, 0), (0, 0), usize::MAX));
    check_fused((Some((10, 20)), None, None), ((10, 20), (0, 0), usize::MAX));
    check_fused((None, Some(15), None), ((0, 0), (15, 0), usize::MAX));
    check_fused((Some((10, 20)), Some(15), None), ((0, 20), (5, 0), usize::MAX));
    check_fused((Some((10, 20)), Some(5), None), ((5, 20), (0, 0), usize::MAX));
    check_fused((None, None, Some(100..200)), ((0, 0), (100, 0), 100));
    check_fused((Some((40, 0)), None, Some(100..200)), ((0, 0), (60, 0), 100));
    check_fused((Some((40, 0)), Some(30), Some(100..200)), ((0, 0), (90, 0), 100));
    check_fused((Some((40, 0)), Some(50), Some(100..200)), ((0, 0), (110, 0), 100));
    check_fused((Some((40, 0)), None, Some(20..100)), ((20, 0), (0, 0), 60));
    check_fused((Some((40, 0)), Some(10), Some(20..100)), ((10, 0), (0, 0), 70));
    check_fused((Some((40, 0)), Some(30), Some(20..100)), ((0, 0), (10, 0), 80));
    check_fused((Some((40, 0)), Some(50), Some(20..100)), ((0, 0), (30, 0), 80));
}

#[test]
fn fuse_clips_add_clip_saturates() {
    let mut p = FusedClipperParams::from_raw(None, None, Some(0..10));
    p.add_clip((3, 4));
    assert_eq!(p.clip, (3, 4));
    assert_eq!(p.len, 3);
    p.add_clip((5, 0));
    assert_eq!(p.len, 0);
    let mut q = FusedClipperParams::from_raw(None, None, None);
    q.add_clip((1, 1));
    assert_eq!(q.len, usize::MAX);
}
