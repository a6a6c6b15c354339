use zd::mapper::MapError;
use zd::segment::stride::{ConstSlicerParams, StrideError};

fn check(pitch: usize, mapper: Option<&str>, expected: ((isize, isize), usize, usize)) {
    let params = ConstSlicerParams::from_raw(pitch, mapper).unwrap();
    assert_eq!(params.pitch, expected.1);
    assert_eq!(params.span, expected.2);
    assert_eq!(params.margin, expected.0);
}

#[test]
fn stride_test_const_slicer_params() {
    // without mapper
    check(4, None, ((0, -3), 4, 4));
    check(16, None, ((0, -15), 16, 16));
    check(128, None, ((0, -127), 128, 128));

    // mapper extends slices forward
    check(16, Some("s..e + 4"), ((0, -19), 16, 20));
    check(16, Some("s..e + 32"), ((0, -47), 16, 48));

    // clips
    check(16, Some("s..e - 4"), ((0, -11), 16, 12));
    check(16, Some("s + 4..e"), ((4, -11), 16, 12));
}

#[test]
fn stride_empty_and_backward() {
    assert_eq!(ConstSlicerParams::from_raw(16, Some("e..s")), Err(StrideError::Empty));
    assert_eq!(ConstSlicerParams::from_bounds(0, -5, 0), Err(StrideError::ZeroPitch));
    // a slice reaching back past the previous ones is brought within one span
    let p = ConstSlicerParams::from_bounds(4, -10, -6).unwrap();
    assert_eq!(p.margin, (-2, 7));
    assert_eq!(p.span, 4);
}

#[test]
fn stride_mapping_errors() {
    assert_eq!(
        ConstSlicerParams::from_raw(16, Some("s..e..e")),
        Err(StrideError::Mapping(MapError::NotRange))
    );
    assert!(matches!(
        ConstSlicerParams::from_raw(16, Some("s..q")),
        Err(StrideError::Mapping(MapError::Eval(_)))
    ));
    assert_eq!(ConstSlicerParams::from_raw(16, Some("s + 4..s + 4")), Err(StrideError::Empty));
}
