use zd::byte::mock::{MockSource, MOCK_STEP};
use zd::params::MARGIN_SIZE;
use zd::segment::bridge::{BridgeError, BridgeStream};
use zd::segment::exact::{ExactError, ExactMatchSlicer};
use zd::segment::extend::ExtendStream;
use zd::segment::guided::GuidedSlicer;
use zd::segment::merge::MergeStream;
use zd::segment::stride::ConstSlicer;
use zd::segment::walk::{eval_spans, WalkError, WalkSlicer};
use zd::segment::regex::{RegexError, RegexPattern, RegexSlicer};
use zd::eval::{Rpn, VarAttr};
use zd::segment::{Segment, SegmentStream};

fn seg(pos: usize, end: usize) -> Segment {
    Segment { pos, len: end - pos }
}

/// A small deterministic generator standing in for random lengths.
struct Lcg(u64);

impl Lcg {
    fn next(&mut self) -> u64 {
        self.0 = self.0.wrapping_mul(6364136223846793005).wrapping_add(1442695040888963407);
        self.0 >> 33
    }
}

fn check_all_at_once<T: SegmentStream>(input: &[u8], make: &dyn Fn(&[u8]) -> T, expected: &[Segment]) {
    let mut src = make(input);
    let mut prev_len = 0;
    loop {
        let (is_eof, len, _, _) = src.fill_segment_buf().unwrap();
        if is_eof && len == prev_len {
            break;
        }
        let (len_fwd, _) = src.consume(0).unwrap();
        assert_eq!(len_fwd, 0);
        prev_len = len;
    }

    let (is_eof, len, count, max_consume) = src.fill_segment_buf().unwrap();
    assert!(is_eof);
    assert_eq!(len, input.len());
    assert_eq!(count, expected.len());
    assert_eq!(len, max_consume);

    let (stream, segments) = src.as_slices();
    assert_eq!(&stream[..len], input);
    assert_eq!(&segments[..count], expected);

    let (len_fwd, count_fwd) = src.consume(len).unwrap();
    assert_eq!(len_fwd, len);
    assert_eq!(count_fwd, count);

    let (is_eof, len, count, max_consume) = src.fill_segment_buf().unwrap();
    assert!(is_eof);
    assert_eq!(len, 0);
    assert_eq!(count, 0);
    assert_eq!(max_consume, 0);
}

fn check_stepwise<T: SegmentStream>(
    input: &[u8],
    make: &dyn Fn(&[u8]) -> T,
    expected: &[Segment],
    occasional: bool,
    seed: u64,
) {
    let mut rng = Lcg(seed);
    let mut src = make(input);
    let mut prev_is_eof = false;
    let mut prev_len = 0;
    let mut len_acc = 0;
    let mut count_acc = 0;
    let mut last_spos: isize = -1;
    loop {
        let (is_eof, len, count, max_consume) = src.fill_segment_buf().unwrap();
        if is_eof && len == 0 {
            assert_eq!(count, 0);
            assert_eq!(max_consume, 0);
            break;
        }
        if prev_is_eof {
            assert!(is_eof);
            assert_eq!(prev_len, len);
        }

        let (stream, segments) = src.as_slices();
        assert!(stream.len() >= len + MARGIN_SIZE);
        assert_eq!(&stream[..len], &input[len_acc..len_acc + len]);
        if !segments.is_empty() {
            assert!(segments[0].pos as isize > last_spos);
        }
        assert!(segments.windows(2).all(|x| x[0].pos <= x[1].pos));

        if occasional && rng.next() % 2 == 0 {
            continue;
        }

        let mut spos = Vec::new();
        for (s, e) in segments.iter().zip(&expected[count_acc..]) {
            assert_eq!(s.len, e.len);
            assert_eq!(&stream[s.as_range()], &input[e.as_range()]);
            spos.push(s.pos as isize);
        }

        let amount = if occasional {
            if is_eof {
                max_consume
            } else {
                (max_consume + 1) / 2
            }
        } else {
            1 + (rng.next() as usize) % std::cmp::max(1, max_consume)
        };
        let (len_fwd, count_fwd) = src.consume(amount).unwrap();

        prev_is_eof = is_eof;
        prev_len = len - len_fwd;
        len_acc += len_fwd;
        count_acc += count_fwd;
        if count_fwd > 0 {
            last_spos = spos[count_fwd - 1] - len_fwd as isize;
        }
    }
    assert_eq!(len_acc, input.len());
    assert_eq!(count_acc, expected.len());
}

fn check_random_len<T: SegmentStream>(input: &[u8], make: &dyn Fn(&[u8]) -> T, expected: &[Segment]) {
    for seed in 1..4 {
        check_stepwise(input, make, expected, false, seed);
    }
}

fn check_occasional_consume<T: SegmentStream>(input: &[u8], make: &dyn Fn(&[u8]) -> T, expected: &[Segment]) {
    for seed in 1..4 {
        check_stepwise(input, make, expected, true, seed);
    }
}

/// Which of the three ways to drive a stream a test takes.
#[derive(Clone, Copy)]
enum Drive {
    AllAtOnce,
    RandomLen,
    Occasional,
}

fn check<T: SegmentStream>(drive: Drive, input: &[u8], make: &dyn Fn(&[u8]) -> T, expected: &[Segment]) {
    match drive {
        Drive::AllAtOnce => check_all_at_once(input, make, expected),
        Drive::RandomLen => check_random_len(input, make, expected),
        Drive::Occasional => check_occasional_consume(input, make, expected),
    }
}

// exact-match slicer

fn exact(pattern: &str) -> impl Fn(&[u8]) -> ExactMatchSlicer<MockSource> + '_ {
    move |input: &[u8]| ExactMatchSlicer::new(MockSource::new(input), pattern).unwrap()
}

fn exact_cases(drive: Drive) {
    check(drive, b"", &exact(""), &[]);
    check(drive, b"abcdefghijklmnopqrstu", &exact(""), &[]);
    check(drive, b"abcdefghijklmnopqrstu", &exact("61"), &[seg(0, 1)]);
    check(drive, b"abcdefghijklmnopqrstu", &exact("70"), &[seg(15, 16)]);
    check(drive, b"abcdefghijklmnopqrstu", &exact("61 62 63 64 65"), &[seg(0, 5)]);
    check(drive, b"abcdefghijklmnopqrstu", &exact("70 71 72"), &[seg(15, 18)]);
    check(drive, b"abcdefghijklmnopqrstu", &exact("61 62 63 65 64"), &[]);
    check(drive, b"abcdefghijklmnopqrstu", &exact("70 71 52"), &[]);
    check(
        drive,
        b"mississippi, mississippi, and mississippi",
        &exact("70 70 69"),
        &[seg(8, 11), seg(21, 24), seg(38, 41)],
    );
    check(
        drive,
        b"mississippi, mississippi, and mississippi",
        &exact("73 73 69"),
        &[seg(2, 5), seg(5, 8), seg(15, 18), seg(18, 21), seg(32, 35), seg(35, 38)],
    );
}

#[test]
fn test_exact_all_at_once() {
    exact_cases(Drive::AllAtOnce);
}

#[test]
fn test_exact_random_len() {
    exact_cases(Drive::RandomLen);
}

#[test]
fn test_exact_occasional_consume() {
    exact_cases(Drive::Occasional);
}

fn gen_pattern(pattern: &[u8], offset: usize, len: usize, rep: usize) -> (Vec<u8>, Vec<Segment>) {
    let mut v = Vec::new();
    let mut s = Vec::new();
    for _ in 0..rep {
        let base_len = v.len();
        v.resize(base_len + offset, 0);
        v.extend_from_slice(pattern);
        v.resize(base_len + len, 0);
        if pattern.is_empty() {
            continue;
        }
        s.push(Segment { pos: base_len + offset, len: pattern.len() });
    }
    (v, s)
}

fn format_pattern(pattern: &[u8]) -> String {
    let table = ['0', '1', '2', '3', '4', '5', '6', '7', '8', '9', 'a', 'b', 'c', 'd', 'e', 'f'];
    let mut s = String::new();
    for x in pattern {
        s.push(table[(*x >> 4) as usize]);
        s.push(table[(*x & 0x0f) as usize]);
        s.push(' ');
    }
    s.pop();
    s
}

fn exact_long_cases(drive: Drive) {
    let b = MOCK_STEP;
    let cases: [(&str, usize, usize); 11] = [
        ("", 0, b),
        ("abc", 0, b),
        ("abc", b - 3, b),
        ("abc", 0, b - 1),
        ("abc", b - 4, b - 1),
        ("abcdefg", 0, b - 1),
        ("abcdefg", b - 8, b - 1),
        ("abc", 0, b + 1),
        ("abc", b - 4, b + 1),
        ("abcdefg", 0, b + 1),
        ("abcdefg", b - 8, b + 1),
    ];
    for (pattern, offset, len) in cases {
        let (v, s) = gen_pattern(pattern.as_bytes(), offset, len, 12);
        let text = format_pattern(pattern.as_bytes());
        check(drive, &v, &exact(&text), &s);
    }
}

#[test]
fn test_exact_long_all_at_once() {
    exact_long_cases(Drive::AllAtOnce);
}

#[test]
fn test_exact_long_random_len() {
    exact_long_cases(Drive::RandomLen);
}

#[test]
fn test_exact_long_occasional_consume() {
    exact_long_cases(Drive::Occasional);
}

#[test]
fn exact_rejects_bad_patterns() {
    assert!(matches!(ExactMatchSlicer::new(MockSource::new(b"ab"), "6g"), Err(ExactError::BadArray)));
    let long: Vec<String> = (0..65).map(|_| "61".to_string()).collect();
    assert!(matches!(
        ExactMatchSlicer::new(MockSource::new(b"ab"), &long.join(" ")),
        Err(ExactError::TooLong)
    ));
}

// constant-stride slicer

fn stride(
    margin: (isize, isize),
    open: bool,
    pitch: usize,
    span: usize,
) -> impl Fn(&[u8]) -> ConstSlicer<MockSource> {
    move |input: &[u8]| ConstSlicer::from_raw(MockSource::new(input), margin, (open, open), pitch, span)
}

fn stride_closed_cases(drive: Drive) {
    let c = |m, p, s| stride(m, false, p, s);
    let t = b"abcdefghij";
    check(drive, b"a", &c((0, 0), 1, 1), &[seg(0, 1)]);
    check(drive, b"abc", &c((0, 0), 1, 1), &[seg(0, 1), seg(1, 2), seg(2, 3)]);
    check(drive, b"", &c((0, 0), 1, 1), &[]);
    check(drive, b"abc", &c((0, 0), 1, 10), &[]);
    check(drive, b"abc", &c((0, 0), 10, 10), &[]);
    check(drive, t, &c((0, 0), 3, 1), &[seg(0, 1), seg(3, 4), seg(6, 7), seg(9, 10)]);
    check(drive, t, &c((0, 0), 3, 3), &[seg(0, 3), seg(3, 6), seg(6, 9)]);
    check(drive, t, &c((0, 0), 3, 4), &[seg(0, 4), seg(3, 7), seg(6, 10)]);
    check(drive, t, &c((2, 0), 3, 2), &[seg(2, 4), seg(5, 7), seg(8, 10)]);
    check(drive, t, &c((0, 2), 3, 2), &[seg(0, 2), seg(3, 5), seg(6, 8)]);
    check(drive, t, &c((3, 0), 3, 2), &[seg(3, 5), seg(6, 8)]);
    check(drive, t, &c((0, 3), 3, 2), &[seg(0, 2), seg(3, 5)]);
    check(drive, t, &c((2, 0), 3, 4), &[seg(2, 6), seg(5, 9)]);
    check(drive, t, &c((0, 2), 3, 4), &[seg(0, 4), seg(3, 7)]);
    check(drive, t, &c((-1, 0), 3, 2), &[seg(0, 1), seg(2, 4), seg(5, 7), seg(8, 10)]);
    check(drive, t, &c((0, -1), 3, 2), &[seg(0, 2), seg(3, 5), seg(6, 8), seg(9, 10)]);
    check(drive, t, &c((-2, 0), 3, 4), &[seg(0, 2), seg(1, 5), seg(4, 8)]);
    check(drive, t, &c((-3, 0), 3, 4), &[seg(0, 1), seg(0, 4), seg(3, 7), seg(6, 10)]);
    check(drive, t, &c((-2, -1), 3, 4), &[seg(0, 2), seg(1, 5), seg(4, 8), seg(7, 10)]);
    check(drive, t, &c((-2, -2), 3, 5), &[seg(0, 3), seg(1, 6), seg(4, 9), seg(7, 10)]);
    check(drive, t, &c((-2, -2), 5, 3), &[seg(0, 1), seg(3, 6), seg(8, 10)]);
    check(drive, t, &c((2, -2), 3, 4), &[seg(2, 6), seg(5, 9), seg(8, 10)]);
    check(drive, t, &c((-2, 2), 3, 4), &[seg(0, 2), seg(1, 5), seg(4, 8)]);
    check(drive, t, &c((10, 0), 3, 4), &[]);
    check(drive, t, &c((10, -2), 3, 4), &[]);
    check(drive, t, &c((100, 0), 3, 4), &[]);
    check(drive, t, &c((100, -2), 3, 4), &[]);
    check(drive, t, &c((0, 10), 3, 4), &[]);
    check(drive, t, &c((-2, 12), 3, 4), &[]);
    check(drive, t, &c((0, 100), 3, 4), &[]);
    check(drive, t, &c((-2, 100), 3, 4), &[]);
}

#[test]
fn test_stride_closed_all_at_once() {
    stride_closed_cases(Drive::AllAtOnce);
}

#[test]
fn test_stride_closed_random_len() {
    stride_closed_cases(Drive::RandomLen);
}

#[test]
fn test_stride_closed_occasional_consume() {
    stride_closed_cases(Drive::Occasional);
}

fn stride_open_cases(drive: Drive) {
    let o = |m, p, s| stride(m, true, p, s);
    let t = b"abcdefghij";
    check(drive, b"abc", &o((0, 0), 1, 1), &[seg(0, 1), seg(1, 2), seg(2, 3)]);
    check(drive, b"", &o((0, 0), 1, 1), &[]);
    check(drive, t, &o((2, 0), 3, 2), &[seg(0, 4), seg(5, 7), seg(8, 10)]);
    check(drive, t, &o((0, 2), 3, 2), &[seg(0, 2), seg(3, 5), seg(6, 10)]);
    check(drive, t, &o((3, 0), 3, 2), &[seg(0, 5), seg(6, 10)]);
    check(drive, t, &o((0, 3), 3, 2), &[seg(0, 2), seg(3, 10)]);
    check(drive, t, &o((2, 0), 3, 4), &[seg(0, 6), seg(5, 10)]);
    check(drive, t, &o((0, 2), 3, 4), &[seg(0, 4), seg(3, 10)]);
    check(drive, t, &o((-2, -2), 5, 3), &[seg(0, 1), seg(3, 6), seg(8, 10)]);
    check(drive, t, &o((2, -2), 3, 4), &[seg(0, 6), seg(5, 9), seg(8, 10)]);
    check(drive, t, &o((-2, 2), 3, 4), &[seg(0, 2), seg(1, 5), seg(4, 10)]);
}

#[test]
fn test_stride_open_all_at_once() {
    stride_open_cases(Drive::AllAtOnce);
}

#[test]
fn test_stride_open_random_len() {
    stride_open_cases(Drive::RandomLen);
}

#[test]
fn test_stride_open_occasional_consume() {
    stride_open_cases(Drive::Occasional);
}

fn gen_slices(margin: (isize, isize), pitch: usize, span: usize, stream_len: usize) -> Vec<Segment> {
    let pitch = pitch as isize;
    let span = span as isize;
    let stream_len = stream_len as isize;
    let mut v = Vec::new();
    let mut tail = span + margin.0;
    while tail + margin.1 <= stream_len {
        let pos = if tail < span { 0 } else { tail - span };
        let len = std::cmp::min(tail, stream_len) - pos;
        v.push(Segment { pos: pos as usize, len: len as usize });
        tail += pitch;
    }
    v
}

fn random_bytes(n: usize, seed: u64) -> Vec<u8> {
    let mut rng = Lcg(seed);
    (0..n).map(|_| rng.next() as u8).collect()
}

fn stride_long_cases(drive: Drive) {
    let s = random_bytes(5 * 255 * 29, 7);
    let cases: [((isize, isize), usize, usize); 23] = [
        ((0, 0), 1, 1),
        ((0, 0), 31, 109),
        ((0, 0), 109, 31),
        ((-1, 0), 31, 109),
        ((-1, 0), 109, 31),
        ((-15, 0), 31, 109),
        ((-15, 0), 109, 31),
        ((0, -1), 31, 109),
        ((0, -1), 109, 31),
        ((0, -15), 31, 109),
        ((0, -15), 109, 31),
        ((-1, -1), 31, 109),
        ((-1, -1), 109, 31),
        ((-15, -15), 31, 109),
        ((-15, -15), 109, 31),
        ((-1000, -1000), 3131, 1091),
        ((-1000, -1000), 1091, 3131),
        ((1, 1), 31, 109),
        ((1, 1), 109, 31),
        ((15, 15), 31, 109),
        ((15, 15), 109, 31),
        ((1500, 1500), 3131, 1091),
        ((1500, 1500), 1091, 3131),
    ];
    for (margin, pitch, span) in cases {
        check(drive, &s, &stride(margin, false, pitch, span), &gen_slices(margin, pitch, span, s.len()));
    }
}

#[test]
fn test_stride_long_all_at_once() {
    stride_long_cases(Drive::AllAtOnce);
}

#[test]
fn test_stride_long_random_len() {
    stride_long_cases(Drive::RandomLen);
}

#[test]
fn test_stride_long_occasional_consume() {
    stride_long_cases(Drive::Occasional);
}

// bridge

fn bridge(
    open: bool,
    pitch: usize,
    span: usize,
    exprs: &str,
) -> impl Fn(&[u8]) -> BridgeStream<ConstSlicer<MockSource>> + '_ {
    move |input: &[u8]| {
        let src = ConstSlicer::from_raw(MockSource::new(input), (3, 3), (open, open), pitch, span);
        BridgeStream::new(src, exprs).unwrap()
    }
}

fn bridge_cases(drive: Drive) {
    let t = b"abcdefghijklmnopqrstu";
    let c = |p, s, e| bridge(false, p, s, e);
    let o = |p, s, e| bridge(true, p, s, e);
    check(drive, t, &c(4, 2, "s..e"), &[seg(0, 3), seg(5, 7), seg(9, 11), seg(13, 15), seg(17, 21)]);
    check(drive, t, &o(4, 2, "s..e"), &[seg(5, 7), seg(9, 11), seg(13, 15)]);
    check(drive, t, &c(4, 2, "s - 1..e"), &[seg(0, 3), seg(4, 7), seg(8, 11), seg(12, 15), seg(16, 21)]);
    check(drive, t, &o(4, 2, "s - 1..e"), &[seg(4, 7), seg(8, 11), seg(12, 15)]);
    check(drive, t, &c(4, 2, "s..e + 1"), &[seg(0, 4), seg(5, 8), seg(9, 12), seg(13, 16), seg(17, 21)]);
    check(drive, t, &o(4, 2, "s..e + 1"), &[seg(5, 8), seg(9, 12), seg(13, 16)]);
    check(drive, t, &c(4, 2, "s - 2..e + 2"), &[seg(0, 5), seg(3, 9), seg(7, 13), seg(11, 17), seg(15, 21)]);
    check(drive, t, &o(4, 2, "s - 2..e + 2"), &[seg(3, 9), seg(7, 13), seg(11, 17)]);
    check(drive, t, &c(4, 4, "s..e"), &[seg(0, 3), seg(15, 21)]);
    check(drive, t, &c(4, 6, "s..e"), &[seg(0, 3), seg(17, 21)]);
    check(drive, t, &o(4, 4, "s..e"), &[]);
    check(drive, t, &o(4, 6, "s..e"), &[]);
    check(drive, t, &c(4, 2, "e..s"), &[]);
    check(drive, t, &o(4, 2, "e..s"), &[]);
    check(drive, t, &c(4, 2, "e - 2..s + 2"), &[seg(1, 2), seg(5, 7), seg(9, 11), seg(13, 15)]);
    check(drive, t, &c(4, 2, "e - 2..s + 3"), &[seg(1, 3), seg(5, 8), seg(9, 12), seg(13, 16), seg(19, 20)]);
    check(drive, t, &c(4, 2, "e - 4..s + 2"), &[seg(0, 2), seg(3, 7), seg(7, 11), seg(11, 15), seg(17, 19)]);
    check(drive, t, &o(4, 2, "e - 2..s + 2"), &[seg(5, 7), seg(9, 11), seg(13, 15)]);
    check(drive, t, &c(4, 2, "..1"), &[seg(0, 1), seg(5, 6), seg(9, 10), seg(13, 14), seg(17, 18)]);
    check(drive, t, &c(4, 2, "s..1"), &[seg(0, 1), seg(5, 6), seg(9, 10), seg(13, 14), seg(17, 18)]);
    check(drive, t, &c(4, 2, "s..s + 1"), &[seg(0, 1), seg(5, 6), seg(9, 10), seg(13, 14), seg(17, 18)]);
    check(drive, t, &c(4, 2, "..11"), &[seg(0, 11), seg(5, 16), seg(9, 20), seg(13, 21), seg(17, 21)]);
    check(drive, t, &c(4, 2, "e - 1.."), &[seg(2, 3), seg(6, 7), seg(10, 11), seg(14, 15), seg(20, 21)]);
    check(drive, t, &c(4, 2, "e - 1..e"), &[seg(2, 3), seg(6, 7), seg(10, 11), seg(14, 15), seg(20, 21)]);
    check(drive, t, &c(4, 2, "e - 11..e"), &[seg(0, 3), seg(0, 7), seg(0, 11), seg(4, 15), seg(10, 21)]);
    check(
        drive,
        t,
        &c(4, 2, "s - 1..e, s..e + 1"),
        &[
            seg(0, 3),
            seg(0, 4),
            seg(4, 7),
            seg(5, 8),
            seg(8, 11),
            seg(9, 12),
            seg(12, 15),
            seg(13, 16),
            seg(16, 21),
            seg(17, 21),
        ],
    );
    check(
        drive,
        t,
        &o(4, 2, "s - 1..e,s..e + 1"),
        &[seg(4, 7), seg(5, 8), seg(8, 11), seg(9, 12), seg(12, 15), seg(13, 16)],
    );
}

#[test]
fn test_bridge_all_at_once() {
    bridge_cases(Drive::AllAtOnce);
}

#[test]
fn test_bridge_random_len() {
    bridge_cases(Drive::RandomLen);
}

#[test]
fn test_bridge_occasional_consume() {
    bridge_cases(Drive::Occasional);
}

#[test]
fn bridge_rejects_blank_and_bad_expressions() {
    let src = || ConstSlicer::from_raw(MockSource::new(b"abc"), (0, 0), (false, false), 1, 1);
    assert!(matches!(BridgeStream::new(src(), "  "), Err(BridgeError::Empty)));
    assert!(matches!(BridgeStream::new(src(), ""), Err(BridgeError::Empty)));
    assert!(matches!(BridgeStream::new(src(), "s..e..e"), Err(BridgeError::Mapper(_))));
    assert!(BridgeStream::new(src(), "s..e,").is_ok());
}

// extend

fn extend(
    open: bool,
    pitch: usize,
    span: usize,
    exprs: &str,
) -> impl Fn(&[u8]) -> ExtendStream<ConstSlicer<MockSource>> + '_ {
    move |input: &[u8]| {
        let src = ConstSlicer::from_raw(MockSource::new(input), (3, 3), (open, open), pitch, span);
        ExtendStream::new(src, exprs).unwrap()
    }
}

fn extend_cases(drive: Drive) {
    let t = b"abcdefghijklmnopqrstu";
    let c = |p, s, e| extend(false, p, s, e);
    let o = |p, s, e| extend(true, p, s, e);
    check(drive, t, &c(4, 2, ".."), &[seg(3, 5), seg(7, 9), seg(11, 13), seg(15, 17)]);
    check(drive, t, &o(4, 2, ".."), &[seg(0, 5), seg(7, 9), seg(11, 13), seg(15, 21)]);
    check(drive, t, &c(4, 2, "s..e"), &[seg(3, 5), seg(7, 9), seg(11, 13), seg(15, 17)]);
    check(drive, t, &o(4, 2, "s..e"), &[seg(0, 5), seg(7, 9), seg(11, 13), seg(15, 21)]);
    check(drive, t, &c(4, 2, "s+0..e+0"), &[seg(3, 5), seg(7, 9), seg(11, 13), seg(15, 17)]);
    check(drive, t, &o(4, 2, "s+0..e+0"), &[seg(0, 5), seg(7, 9), seg(11, 13), seg(15, 21)]);
    check(drive, t, &c(4, 2, "s + 1..e"), &[seg(4, 5), seg(8, 9), seg(12, 13), seg(16, 17)]);
    check(drive, t, &o(4, 2, "s + 1..e"), &[seg(1, 5), seg(8, 9), seg(12, 13), seg(16, 21)]);
    check(drive, t, &c(4, 2, "s..e - 1"), &[seg(3, 4), seg(7, 8), seg(11, 12), seg(15, 16)]);
    check(drive, t, &o(4, 2, "s..e - 1"), &[seg(0, 4), seg(7, 8), seg(11, 12), seg(15, 20)]);
    check(drive, t, &c(4, 2, "s + 1..e - 1"), &[]);
    check(drive, t, &o(4, 2, "s + 1..e - 1"), &[seg(1, 4), seg(16, 20)]);
    check(drive, t, &c(4, 2, "e..s"), &[]);
    check(drive, t, &o(4, 2, "e..s"), &[]);
    check(drive, t, &c(4, 2, "e - 2..s + 2"), &[seg(3, 5), seg(7, 9), seg(11, 13), seg(15, 17)]);
    check(drive, t, &o(4, 2, "e - 2..s + 2"), &[seg(7, 9), seg(11, 13)]);
    check(drive, t, &c(4, 2, "e - 4..s + 4"), &[seg(1, 7), seg(5, 11), seg(9, 15), seg(13, 19)]);
    check(drive, t, &o(4, 2, "e - 4..s + 4"), &[seg(1, 4), seg(5, 11), seg(9, 15), seg(17, 19)]);
    check(drive, t, &c(4, 2, "..5"), &[seg(3, 8), seg(7, 12), seg(11, 16), seg(15, 20)]);
    check(drive, t, &c(4, 2, "-5..0"), &[seg(0, 3), seg(2, 7), seg(6, 11), seg(10, 15)]);
    check(drive, t, &c(4, 2, "s..s + 5"), &[seg(3, 8), seg(7, 12), seg(11, 16), seg(15, 20)]);
    check(drive, t, &c(4, 2, "s - 5..s"), &[seg(0, 3), seg(2, 7), seg(6, 11), seg(10, 15)]);
    check(drive, t, &o(4, 2, "s..s + 5"), &[seg(0, 5), seg(7, 12), seg(11, 16), seg(15, 20)]);
    check(drive, t, &o(4, 2, "s - 5..s"), &[seg(2, 7), seg(6, 11), seg(10, 15)]);
    check(drive, t, &c(4, 2, "e..e + 5"), &[seg(5, 10), seg(9, 14), seg(13, 18), seg(17, 21)]);
    check(drive, t, &c(4, 2, "e - 5..e"), &[seg(0, 5), seg(4, 9), seg(8, 13), seg(12, 17)]);
    check(drive, t, &o(4, 2, "e..e + 5"), &[seg(5, 10), seg(9, 14), seg(13, 18)]);
    check(drive, t, &o(4, 2, "e - 5..e"), &[seg(0, 5), seg(4, 9), seg(8, 13), seg(16, 21)]);
    check(
        drive,
        t,
        &c(4, 2, "s..e - 1, s + 1..e"),
        &[seg(3, 4), seg(4, 5), seg(7, 8), seg(8, 9), seg(11, 12), seg(12, 13), seg(15, 16), seg(16, 17)],
    );
    check(
        drive,
        t,
        &o(4, 2, "s..e - 1, s + 1..e"),
        &[seg(0, 4), seg(1, 5), seg(7, 8), seg(8, 9), seg(11, 12), seg(12, 13), seg(15, 20), seg(16, 21)],
    );
}

#[test]
fn test_extend_all_at_once() {
    extend_cases(Drive::AllAtOnce);
}

#[test]
fn test_extend_random_len() {
    extend_cases(Drive::RandomLen);
}

#[test]
fn test_extend_occasional_consume() {
    extend_cases(Drive::Occasional);
}

// guided

fn gen_guide(max_len: usize, max_count: usize, seed: u64) -> (Vec<u8>, Vec<Segment>) {
    let mut rng = Lcg(seed);
    let mut offset = 0;
    let mut v = Vec::new();
    while v.len() < max_count {
        let bound = std::cmp::min(1024, (max_len + 1) / 2);
        let fwd = (rng.next() as usize) % bound;
        let len = (rng.next() as usize) % bound;
        offset += fwd;
        if offset >= max_len {
            break;
        }
        v.push(Segment { pos: offset, len: std::cmp::min(len, max_len - offset) });
    }
    v.sort_by_key(|x| (x.pos, x.len));
    let mut s = Vec::new();
    for x in &v {
        s.extend_from_slice(format!("{:x} {:x} | \n", x.pos, x.len).as_bytes());
    }
    (s, v)
}

fn guided_cases(drive: Drive) {
    let cases: [(usize, usize); 7] = [(0, 0), (10, 0), (10, 1), (1000, 0), (1000, 1000), (20000, 2000), (20000, 2000)];
    for (k, (len, count)) in cases.iter().enumerate() {
        let v = random_bytes(*len, 31 + k as u64);
        if *len == 0 {
            let make = |x: &[u8]| GuidedSlicer::new(MockSource::new(x), MockSource::new(b""));
            check(drive, &v, &make, &[]);
            continue;
        }
        let (guide, segments) = gen_guide(*len, *count, 41 + k as u64);
        let make = |x: &[u8]| GuidedSlicer::new(MockSource::new(x), MockSource::new(&guide));
        check(drive, &v, &make, &segments);
    }
}

#[test]
fn test_guided_all_at_once() {
    guided_cases(Drive::AllAtOnce);
}

#[test]
fn test_guided_random_len() {
    guided_cases(Drive::RandomLen);
}

#[test]
fn test_guided_occasional_consume() {
    guided_cases(Drive::Occasional);
}

fn repeat_pattern(pattern: &[Segment], pitch: usize, repeat: usize) -> Vec<Segment> {
    let mut v: Vec<Segment> = Vec::new();
    for i in 0..repeat {
        let offset = i * pitch;
        let mut skip = 0;
        if let Some(last) = v.last_mut() {
            let p = &pattern[0];
            if last.pos + last.len == p.pos + offset {
                last.len = p.pos + p.len + offset - last.pos;
                skip = 1;
            }
        }
        for p in &pattern[skip..] {
            v.push(Segment { pos: p.pos + offset, len: p.len });
        }
    }
    v
}

fn guide_text(pattern: &[Segment], pitch: usize, repeat: usize) -> Vec<u8> {
    let mut s = Vec::new();
    for x in &repeat_pattern(pattern, pitch, repeat) {
        s.extend_from_slice(format!("{:x} {:x} | \n", x.pos, x.len).as_bytes());
    }
    s
}

fn ranges(r: &[(usize, usize)]) -> Vec<Segment> {
    r.iter().map(|&(a, b)| seg(a, b)).collect()
}

fn bridge_long_case(drive: Drive, pattern: &[Segment], merged: &[(usize, usize)], exprs: &str) {
    let (pitch, repeat) = (1000, 10);
    let v = random_bytes(pitch * repeat, 5);
    let guide = guide_text(pattern, pitch, repeat);
    let expected = repeat_pattern(&ranges(merged), pitch, repeat);
    let make = |x: &[u8]| {
        let src = GuidedSlicer::new(MockSource::new(x), MockSource::new(&guide));
        BridgeStream::new(src, exprs).unwrap()
    };
    check(drive, &v, &make, &expected);
}

fn bridge_long_cases(drive: Drive) {
    let p = ranges(&[(100, 220), (200, 300), (300, 450), (400, 410), (500, 600), (700, 810), (800, 900)]);
    bridge_long_case(drive, &p, &[(0, 100), (450, 500), (600, 700), (900, 1000)], "s..e");
    bridge_long_case(drive, &p, &[(0, 110), (440, 510), (590, 710), (890, 1000)], "s - 10..e + 10");
    bridge_long_case(drive, &p, &[], "e..s");
    bridge_long_case(drive, &p, &[(450, 500)], "e - 50..s + 50");
    let p = ranges(&[(100, 700), (200, 600), (300, 550), (400, 510), (500, 550), (600, 810), (700, 800), (800, 900)]);
    bridge_long_case(drive, &p, &[(0, 100), (900, 1000)], "s..e");
    bridge_long_case(drive, &p, &[(0, 150), (850, 1000)], "s - 50..e + 50");
    let p = ranges(&[(100, 600), (200, 610), (300, 550), (400, 610), (500, 510), (800, 900)]);
    bridge_long_case(drive, &p, &[(0, 100), (610, 800), (900, 1000)], "s..e");
    bridge_long_case(drive, &p, &[(0, 150), (560, 850), (850, 1000)], "s - 50..e + 50");
}

#[test]
fn test_bridge_long_all_at_once() {
    bridge_long_cases(Drive::AllAtOnce);
}

#[test]
fn test_bridge_long_random_len() {
    bridge_long_cases(Drive::RandomLen);
}

#[test]
fn test_bridge_long_occasional_consume() {
    bridge_long_cases(Drive::Occasional);
}

fn extend_long_case(drive: Drive, pattern: &[Segment], merged: &[Segment], exprs: &str) {
    let (pitch, repeat) = (1000, 2);
    let v = random_bytes(pitch * repeat, 9);
    let guide = guide_text(pattern, pitch, repeat);
    let expected = repeat_pattern(merged, pitch, repeat);
    let make = |x: &[u8]| {
        let src = GuidedSlicer::new(MockSource::new(x), MockSource::new(&guide));
        ExtendStream::new(src, exprs).unwrap()
    };
    check(drive, &v, &make, &expected);
}

fn extend_long_cases(drive: Drive) {
    let p = ranges(&[(100, 220), (200, 300), (300, 450), (400, 410), (500, 600), (700, 810), (800, 900)]);
    extend_long_case(drive, &p, &p, "s..e");
    extend_long_case(
        drive,
        &p,
        &ranges(&[(90, 230), (190, 310), (290, 460), (390, 420), (490, 610), (690, 820), (790, 910)]),
        "s - 10..e + 10",
    );
    extend_long_case(
        drive,
        &p,
        &ranges(&[(110, 210), (210, 290), (310, 440), (510, 590), (710, 800), (810, 890)]),
        "s + 10..e - 10",
    );
    extend_long_case(drive, &p, &[], "e..s");
    extend_long_case(drive, &p, &ranges(&[(360, 450)]), "e - 50..s + 50");
    extend_long_case(
        drive,
        &p,
        &ranges(&[(150, 170), (230, 270), (340, 470), (530, 570), (740, 770), (830, 870)]),
        "e - 70..s + 70",
    );
    let p = ranges(&[(100, 700), (200, 600), (300, 550), (400, 510), (500, 550), (600, 810), (700, 800), (800, 900)]);
    extend_long_case(drive, &p, &p, "s..e");
    extend_long_case(drive, &p, &ranges(&[(410, 500), (450, 600), (700, 800), (800, 900)]), "e - 100..s + 100");
    extend_long_case(
        drive,
        &p,
        &ranges(&[(210, 550), (250, 450), (250, 650), (300, 350), (500, 850), (510, 750), (600, 950)]),
        "e - 300..s + 150",
    );
    let p = ranges(&[(200, 600), (250, 550), (300, 500), (350, 450), (400, 800), (450, 750), (500, 700), (550, 650)]);
    extend_long_case(drive, &p, &ranges(&[(350, 450), (550, 650)]), "e - 100..s + 100");
    extend_long_case(
        drive,
        &p,
        &ranges(&[(250, 550), (300, 500), (350, 450), (450, 750), (500, 700), (550, 650)]),
        "e - 200..s + 200",
    );
    extend_long_case(
        drive,
        &p,
        &ranges(&[(150, 650), (200, 600), (250, 550), (300, 500), (350, 850), (400, 800), (450, 750), (500, 700)]),
        "e - 300..s + 300",
    );
}

#[test]
fn test_extend_long_all_at_once() {
    extend_long_cases(Drive::AllAtOnce);
}

#[test]
fn test_extend_long_random_len() {
    extend_long_cases(Drive::RandomLen);
}

#[test]
fn test_extend_long_occasional_consume() {
    extend_long_cases(Drive::Occasional);
}

// merge

fn merge(open: bool, pitch: usize, span: usize, thresh: usize) -> impl Fn(&[u8]) -> MergeStream<ConstSlicer<MockSource>> {
    move |input: &[u8]| {
        let src = ConstSlicer::from_raw(MockSource::new(input), (3, 3), (open, open), pitch, span);
        MergeStream::new(src, thresh)
    }
}

fn merge_cases(drive: Drive) {
    let t = b"abcdefghijklmnopqrstu";
    check(drive, t, &merge(false, 4, 2, 0), &[seg(3, 5), seg(7, 9), seg(11, 13), seg(15, 17)]);
    check(drive, t, &merge(true, 4, 2, 0), &[seg(0, 5), seg(7, 9), seg(11, 13), seg(15, 21)]);
    check(drive, t, &merge(false, 4, 4, 0), &[seg(3, 15)]);
    check(drive, t, &merge(true, 4, 4, 0), &[seg(0, 21)]);
    check(drive, t, &merge(false, 4, 6, 0), &[seg(3, 17)]);
    check(drive, t, &merge(true, 4, 6, 0), &[seg(0, 21)]);
    check(drive, t, &merge(false, 4, 2, 2), &[seg(3, 17)]);
    check(drive, t, &merge(true, 4, 2, 2), &[seg(0, 21)]);
    check(drive, t, &merge(false, 4, 4, 2), &[seg(3, 15)]);
    check(drive, t, &merge(true, 4, 4, 2), &[seg(0, 21)]);
    check(drive, t, &merge(false, 4, 6, 2), &[seg(3, 17)]);
    check(drive, t, &merge(true, 4, 6, 2), &[seg(0, 21)]);
    check(drive, t, &merge(false, 4, 2, usize::MAX), &[seg(3, 17)]);
    check(drive, t, &merge(true, 4, 2, usize::MAX), &[seg(0, 21)]);
    check(drive, t, &merge(false, 4, 4, usize::MAX), &[seg(3, 15)]);
    check(drive, t, &merge(true, 4, 4, usize::MAX), &[seg(0, 21)]);
    check(drive, t, &merge(false, 4, 6, usize::MAX), &[seg(3, 17)]);
    check(drive, t, &merge(true, 4, 6, usize::MAX), &[seg(0, 21)]);
}

#[test]
fn test_merge_all_at_once() {
    merge_cases(Drive::AllAtOnce);
}

#[test]
fn test_merge_random_len() {
    merge_cases(Drive::RandomLen);
}

#[test]
fn test_merge_occasional_consume() {
    merge_cases(Drive::Occasional);
}

fn repeat_plain(pattern: &[Segment], pitch: usize, repeat: usize) -> Vec<Segment> {
    let mut v = Vec::new();
    for i in 0..repeat {
        for p in pattern {
            v.push(Segment { pos: p.pos + i * pitch, len: p.len });
        }
    }
    v
}

fn merge_long_case(drive: Drive, merged: &[(usize, usize)], thresh: usize) {
    let pattern = ranges(&[(100, 220), (200, 300), (300, 450), (400, 410), (500, 600), (700, 810), (800, 900)]);
    let (pitch, repeat) = (1000, 2);
    let v = random_bytes(pitch * repeat, 13);
    let mut guide = Vec::new();
    for x in &repeat_plain(&pattern, pitch, repeat) {
        guide.extend_from_slice(format!("{:x} {:x} | \n", x.pos, x.len).as_bytes());
    }
    let expected = repeat_plain(&ranges(merged), pitch, repeat);
    let make = |x: &[u8]| MergeStream::new(GuidedSlicer::new(MockSource::new(x), MockSource::new(&guide)), thresh);
    check(drive, &v, &make, &expected);
}

fn merge_long_cases(drive: Drive) {
    merge_long_case(drive, &[(100, 450), (500, 600), (700, 900)], 0);
    merge_long_case(drive, &[(100, 450), (500, 600), (700, 900)], 49);
    merge_long_case(drive, &[(100, 600), (700, 900)], 50);
    merge_long_case(drive, &[(100, 600), (700, 900)], 99);
    merge_long_case(drive, &[(100, 900)], 100);
}

#[test]
fn test_merge_long_all_at_once() {
    merge_long_cases(Drive::AllAtOnce);
}

#[test]
fn test_merge_long_random_len() {
    merge_long_cases(Drive::RandomLen);
}

#[test]
fn test_merge_long_occasional_consume() {
    merge_long_cases(Drive::Occasional);
}

// walk slicer

fn walk(exprs: &str) -> impl Fn(&[u8]) -> WalkSlicer<MockSource> + '_ {
    move |input: &[u8]| {
        let exprs: Vec<String> = exprs.split(',').map(|x| x.to_string()).collect();
        WalkSlicer::new(MockSource::new(input), &exprs).unwrap()
    }
}

fn walk_cases(drive: Drive) {
    // positive integers
    check(drive, b"", &walk("b[0]"), &[]);
    check(drive, &[1u8], &walk("b[0]"), &[seg(0, 1)]);
    check(drive, &[0u8], &walk("b[0] + 1"), &[seg(0, 1)]);

    // multiple chunks
    check(drive, &[1u8, 2, 10, 1, 1], &walk("b[0]"), &[seg(0, 1), seg(1, 3), seg(3, 4), seg(4, 5)]);

    // 16, 32, and 64-bit integers
    check(drive, &[2u8, 0, 4, 0, 0, 0], &walk("h[0]"), &[seg(0, 2), seg(2, 6)]);
    check(drive, &[4u8, 0, 0, 0, 4, 0, 0, 0], &walk("i[0]"), &[seg(0, 4), seg(4, 8)]);
    check(drive, &[8u8, 0, 0, 0, 0, 0, 0, 0], &walk("l[0]"), &[seg(0, 8)]);

    // more complicated expressions
    check(drive, &[8u8, 0, 1, 2, 3, 4, 5, 6], &walk("l[0] & 0xff"), &[seg(0, 8)]);
    check(drive, &[0u8, 3, 0, 0, 0], &walk("b[0] + 1"), &[seg(0, 1), seg(1, 5)]);
    check(drive, &[2u8, 0, 0, 0, 1, 1], &walk("2 * b[0]"), &[seg(0, 4), seg(4, 6)]);

    // multiple expressions
    check(drive, &[1u8, 1], &walk("b[0], b[1]"), &[seg(0, 1), seg(1, 2)]);
    check(
        drive,
        &[1u8, 3, 0, 0, 2, 1, 0],
        &walk("b[0], b[1]"),
        &[seg(0, 1), seg(1, 4), seg(4, 6), seg(6, 7)],
    );

    // multiple expressions; long
    let mut input = Vec::new();
    let mut expected = Vec::new();
    for i in 0..10000 {
        input.extend_from_slice(&[1u8, 3, 0, 0, 2, 1, 0]);
        expected.extend_from_slice(&[
            Segment { pos: i * 7, len: 1 },
            Segment { pos: i * 7 + 1, len: 3 },
            Segment { pos: i * 7 + 4, len: 2 },
            Segment { pos: i * 7 + 6, len: 1 },
        ]);
    }
    check(drive, &input, &walk("b[0], b[1]"), &expected);

    let mut input = Vec::new();
    let mut expected = Vec::new();
    for i in 0..10000 {
        input.extend_from_slice(&[1u8, 0, 0, 0, 6, 0, 0, 5, 0, 0, 0, 1, 0]);
        expected.extend_from_slice(&[
            Segment { pos: i * 13, len: 1 },
            Segment { pos: i * 13 + 1, len: 6 },
            Segment { pos: i * 13 + 7, len: 5 },
            Segment { pos: i * 13 + 12, len: 1 },
        ]);
    }
    check(drive, &input, &walk("i[0], h[2]"), &expected);
}

#[test]
fn test_walk_all_at_once() {
    walk_cases(Drive::AllAtOnce);
}

#[test]
fn test_walk_random_len() {
    walk_cases(Drive::RandomLen);
}

#[test]
fn test_walk_occasional_consume() {
    walk_cases(Drive::Occasional);
}

#[test]
fn walk_cuts_the_last_chunk_at_the_end() {
    // the second chunk asks for 5 bytes where 2 are left
    check(Drive::AllAtOnce, &[1u8, 5, 0], &walk("b[0]"), &[seg(0, 1), seg(1, 3)]);
    // an index that is not a constant reads the whole stream first
    let input = [1u8, 2, 1, 1, 3];
    for drive in [Drive::AllAtOnce, Drive::RandomLen, Drive::Occasional] {
        check(drive, &input, &walk("b[b[0]]"), &[seg(0, 2), seg(2, 3), seg(3, 5)]);
    }
}

#[test]
fn walk_refuses_bad_expressions() {
    let none: Vec<String> = Vec::new();
    assert!(matches!(WalkSlicer::new(MockSource::new(b"ab"), &none), Err(WalkError::Empty)));
    let bad = vec!["b[".to_string()];
    assert!(matches!(WalkSlicer::new(MockSource::new(b"ab"), &bad), Err(WalkError::Parse(_))));
    // a span of zero is refused when read
    let zero = vec!["b[0]".to_string()];
    let mut w = WalkSlicer::new(MockSource::new(&[0u8, 1]), &zero).unwrap();
    assert!(w.fill_segment_buf().is_err());
}

#[test]
fn eval_spans_reads_little_endian_signed_integers() {
    let rpns: Vec<Rpn> = ["h[0]", "b[1]", "i[0] + 0"]
        .iter()
        .map(|e| {
            let vars: [(&[u8], VarAttr); 3] = [
                (b"b", VarAttr { id: 1, is_array: true }),
                (b"h", VarAttr { id: 2, is_array: true }),
                (b"i", VarAttr { id: 4, is_array: true }),
            ];
            Rpn::new(e, Some(&vars)).unwrap()
        })
        .collect();
    let block = [0x02u8, 0x01, 0x00, 0x00, 0xff];
    assert_eq!(eval_spans(&rpns, &block, 4, 0), Some(vec![0x102, 0x01, 0x102]));
    // past the bytes given, elements read as zero
    assert_eq!(eval_spans(&rpns[..1].to_vec(), &block, 1, 0), None);
    // negative values give no spans
    let neg: Vec<Rpn> = vec![Rpn::new("b[0]", Some(&[(b"b".as_slice(), VarAttr { id: 1, is_array: true })])).unwrap()];
    assert_eq!(eval_spans(&neg, &block, 5, 4), None);
}

// regex slicer

fn regex(pattern: &str) -> impl Fn(&[u8]) -> RegexSlicer<ConstSlicer<MockSource>> + '_ {
    move |input: &[u8]| {
        let src = ConstSlicer::from_raw(MockSource::new(input), (0, 0), (false, false), 4, 6);
        RegexSlicer::new(src, pattern).unwrap()
    }
}

fn regex_cases(drive: Drive) {
    check(drive, b"aaaaaaaaaa", &regex("a+"), &[seg(0, 6), seg(4, 10)]);
    check(drive, b"abcabcabca", &regex("a.+c"), &[seg(0, 6), seg(6, 9)]);
    check(drive, b"abcabcabca", &regex("abc"), &[seg(0, 3), seg(3, 6), seg(6, 9)]);
    check(drive, b"abcabcabca", &regex("abcabc"), &[seg(0, 6)]);
    check(drive, b"abcdefabcd", &regex("abc"), &[seg(0, 3), seg(6, 9)]);
    check(drive, b"abcdefabcd", &regex("abcd"), &[seg(0, 4), seg(6, 10)]);
    check(drive, b"abcdefabcd", &regex("abcde"), &[seg(0, 5)]);
}

#[test]
fn test_regex_all_at_once() {
    regex_cases(Drive::AllAtOnce);
}

#[test]
fn test_regex_random_len() {
    regex_cases(Drive::RandomLen);
}

#[test]
fn test_regex_occasional_consume() {
    regex_cases(Drive::Occasional);
}

#[test]
fn regex_refuses_bad_patterns() {
    let src = ConstSlicer::from_raw(MockSource::new(b"ab"), (0, 0), (false, false), 4, 6);
    assert!(matches!(RegexSlicer::new(src, "foo(bar"), Err(RegexError::Pattern)));
}

#[test]
fn regex_pattern_finds_matches_in_order() {
    let p = RegexPattern::new("a+").unwrap();
    assert_eq!(p.find_all(b"xaaybaz"), vec![seg(1, 3), seg(5, 6)]);
    assert_eq!(p.find_all(b""), vec![]);
}
