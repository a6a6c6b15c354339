use zd::mapper::{MapError, RangeMapper, SegmentMapper, SegmentMapperAnchor};

fn check_from_str(input: &str, expected: (usize, isize, usize, isize)) {
    let mapper = SegmentMapper::from_str(input).unwrap();
    let expected = SegmentMapper {
        start: SegmentMapperAnchor { anchor: expected.0, offset: expected.1 },
        end: SegmentMapperAnchor { anchor: expected.2, offset: expected.3 },
    };
    assert_eq!(mapper, expected);
}

#[test]
fn test_mapper_from_str() {
    assert!(SegmentMapper::from_str("").is_err());
    assert!(SegmentMapper::from_str(",").is_err());
    assert!(SegmentMapper::from_str(".").is_err());
    assert!(SegmentMapper::from_str("...").is_err());
    assert!(SegmentMapper::from_str("0...1").is_err());

    assert!(SegmentMapper::from_str("x..y").is_err());
    assert!(SegmentMapper::from_str("s * 2..e").is_err());

    // implicit anchors
    check_from_str("..", (0, 0, 1, 0));
    check_from_str("0..", (0, 0, 1, 0));
    check_from_str("-1..", (0, -1, 1, 0));
    check_from_str("10..", (0, 10, 1, 0));
    check_from_str("..0", (0, 0, 0, 0));
    check_from_str("..3", (0, 0, 0, 3));

    check_from_str("3..-1", (0, 3, 0, -1));
    check_from_str("3..10", (0, 3, 0, 10));

    // explicit anchors
    check_from_str("e..", (1, 0, 1, 0));
    check_from_str("e..3", (1, 0, 0, 3));
    check_from_str("e-1..", (1, -1, 1, 0));
    check_from_str("e+3..-1", (1, 3, 0, -1));
    check_from_str("..e", (0, 0, 1, 0));
    check_from_str("..3+e", (0, 0, 1, 3));
    check_from_str("..3+s", (0, 0, 0, 3));
    check_from_str("-1..e", (0, -1, 1, 0));
    check_from_str("+3..-1+e", (0, 3, 1, -1));
}

fn check_evaluate(input: &str, slices: ([isize; 2], [isize; 2]), expected: (isize, isize)) {
    let mapper = SegmentMapper::from_str(input).unwrap();
    let (start, end) = mapper.evaluate(&slices.0, &slices.1);
    assert_eq!(start, expected.0);
    assert_eq!(end, expected.1);
}

#[test]
fn test_mapper_evaluate() {
    check_evaluate("..", ([10, 20], [30, 40]), (10, 40));
    check_evaluate("3..", ([10, 20], [30, 40]), (13, 40));
    check_evaluate("..5", ([10, 20], [30, 40]), (10, 35));
    check_evaluate("3..5", ([10, 20], [30, 40]), (13, 35));

    check_evaluate("s..e", ([10, 20], [30, 40]), (10, 40));
    check_evaluate("3+s..e", ([10, 20], [30, 40]), (13, 40));
    check_evaluate("s..e+5", ([10, 20], [30, 40]), (10, 45));
    check_evaluate("3+s..e+5", ([10, 20], [30, 40]), (13, 45));

    check_evaluate("e..e", ([10, 20], [30, 40]), (20, 40));
    check_evaluate("3+e..e", ([10, 20], [30, 40]), (23, 40));
    check_evaluate("e..e+5", ([10, 20], [30, 40]), (20, 45));
    check_evaluate("3+e..e+5", ([10, 20], [30, 40]), (23, 45));
}

#[test]
fn test_mapper_from_str_errors() {
    assert_eq!(SegmentMapper::from_str("s..e..s"), Err(MapError::NotRange));
    assert_eq!(SegmentMapper::from_str("s"), Err(MapError::NotRange));
    assert!(matches!(SegmentMapper::from_str("s..q"), Err(MapError::Eval(_))));
    assert!(matches!(SegmentMapper::from_str("(s..e"), Err(MapError::Eval(_))));
    assert_eq!(SegmentMapper::from_str("s * e..e"), Err(MapError::NotRelative));
    assert!(matches!(RangeMapper::from_str("s..q"), Err(MapError::Eval(_))));
    assert_eq!(RangeMapper::from_str("s..e..e"), Err(MapError::NotRange));
}

#[test]
fn test_mapper_anchor_from_str() {
    assert_eq!(
        SegmentMapperAnchor::from_str("", "e", 0),
        Ok(SegmentMapperAnchor { anchor: 1, offset: 0 })
    );
    assert_eq!(
        SegmentMapperAnchor::from_str("3", "e", 1),
        Ok(SegmentMapperAnchor { anchor: 1, offset: 3 })
    );
    assert_eq!(
        SegmentMapperAnchor::from_str("s - 2", "e", 0),
        Ok(SegmentMapperAnchor { anchor: 0, offset: -2 })
    );
    assert_eq!(SegmentMapperAnchor::from_str("s + e", "e", 0), Err(MapError::NotRelative));
}
