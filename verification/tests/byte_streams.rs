use zd::byte::cat::CatStream;
use zd::byte::clip::{ClipStream, ClipperParams};
use zd::byte::cut::CutStream;
use zd::byte::mock::MockSource;
use zd::byte::patch::{parse_patch_line, PatchStream};
use zd::byte::text::{GaplessTextStream, TextStream};
use zd::byte::zip::ZipStream;
use zd::common::InoutFormat;
use zd::byte::raw::{RawStream, Reader};
use zd::byte::{align_padding, ByteStream};
use zd::params::MARGIN_SIZE;

/// A small deterministic generator standing in for random lengths.
struct Lcg(u64);

impl Lcg {
    fn next(&mut self) -> u64 {
        self.0 = self.0.wrapping_mul(6364136223846793005).wrapping_add(1442695040888963407);
        self.0 >> 33
    }

    fn below(&mut self, n: usize) -> usize {
        (self.next() as usize) % n
    }
}

fn check_random_len<T: ByteStream>(mut src: T, expected: &[u8], seed: u64) {
    let mut rng = Lcg(seed);
    let mut v = Vec::new();
    loop {
        let len = src.fill_buf().unwrap();
        if len == 0 {
            break;
        }
        let stream = src.as_slice();
        assert!(stream.len() >= len + MARGIN_SIZE);
        let consume = 1 + rng.below(std::cmp::min(len, 2 * 145));
        v.extend_from_slice(&stream[..consume]);
        src.consume(consume);
    }
    assert_eq!(&v, expected);
}

fn check_random_consume<T: ByteStream>(mut src: T, expected: &[u8], seed: u64) {
    let mut rng = Lcg(seed);
    let mut v = Vec::new();
    loop {
        let len = src.fill_buf().unwrap();
        if len == 0 {
            break;
        }
        if rng.next() % 2 == 0 {
            src.consume(0);
            continue;
        }
        let stream = src.as_slice();
        assert!(stream.len() >= len + MARGIN_SIZE);
        v.extend_from_slice(&stream[..(len + 1) / 2]);
        src.consume((len + 1) / 2);
    }
    assert_eq!(&v, expected);
}

fn check_all_at_once<T: ByteStream>(mut src: T, expected: &[u8]) {
    let mut prev_len = 0;
    loop {
        let len = src.fill_buf().unwrap();
        if len == prev_len {
            break;
        }
        src.consume(0);
        prev_len = len;
    }
    let len = src.fill_buf().unwrap();
    assert_eq!(len, expected.len());
    let stream = src.as_slice();
    assert!(stream.len() >= len + MARGIN_SIZE);
    assert_eq!(&stream[..len], expected);
    src.consume(len);
    let len = src.fill_buf().unwrap();
    assert_eq!(len, 0);
    assert!(src.as_slice().len() >= MARGIN_SIZE);
}

/// Which of the three ways to drive a stream a test takes.
#[derive(Clone, Copy)]
enum Drive {
    RandomLen,
    RandomConsume,
    AllAtOnce,
}

fn check<T: ByteStream>(drive: Drive, make: &dyn Fn() -> T, expected: &[u8]) {
    match drive {
        Drive::RandomLen => {
            for seed in 1..4 {
                check_random_len(make(), expected, seed);
            }
        },
        Drive::RandomConsume => {
            for seed in 1..4 {
                check_random_consume(make(), expected, seed);
            }
        },
        Drive::AllAtOnce => check_all_at_once(make(), expected),
    }
}

// cut

fn cut_case(drive: Drive, input: &[u8], exprs: &str, expected: &[u8]) {
    check(drive, &|| CutStream::new(MockSource::new(input), exprs).unwrap(), expected);
}

fn cut_cases(drive: Drive) {
    let t = b"abcdefghijklmnopqrstu";
    cut_case(drive, b"", "..", b"");
    cut_case(drive, t, "..", t);
    cut_case(drive, t, "..,", t);
    cut_case(drive, t, "s..s", b"");
    cut_case(drive, t, "e..e", b"");
    cut_case(drive, t, "s - 1..s", b"");
    cut_case(drive, t, "s + 1..s", b"");
    cut_case(drive, t, "e..e - 1", b"");
    cut_case(drive, t, "e..e + 1", b"");
    cut_case(drive, t, "s..s + 3", b"abc");
    cut_case(drive, t, "s + 10..s + 13", b"klm");
    cut_case(drive, t, "s..s + 3,s + 5..s + 10,s + 10..s + 13", b"abcfghijklm");
    cut_case(drive, t, "s..s + 3,s + 1..s + 5,s + 10..s + 13,s + 12..s + 15", b"abcdeklmno");
    cut_case(drive, t, "s + 10..s + 20,s + 12..s + 15", b"klmnopqrst");
    cut_case(drive, t, "s + 10..s + 20,s + 12..s + 15,s + 17..s + 21", b"klmnopqrstu");
    cut_case(drive, t, "s..e - 11", b"abcdefghij");
    cut_case(drive, t, "e - 11..s + 13", b"klm");
    cut_case(drive, t, "e - 11..e - 8", b"klm");
    cut_case(drive, t, "s..s + 3,e - 16..s + 10,e - 11..e - 8", b"abcfghijklm");
}

#[test]
fn test_cut_random_len() {
    cut_cases(Drive::RandomLen);
}

#[test]
fn test_cut_random_consume() {
    cut_cases(Drive::RandomConsume);
}

#[test]
fn test_cut_all_at_once() {
    cut_cases(Drive::AllAtOnce);
}

fn gen_cut_pattern(len: usize, count: usize, seed: u64) -> (Vec<u8>, String, Vec<u8>) {
    let mut rng = Lcg(seed);
    let mut s = String::new();
    let mut v: Vec<std::ops::Range<usize>> = Vec::new();
    for _ in 0..count {
        let pos1 = rng.below(len);
        let pos2 = rng.below(len);
        if pos1 == pos2 {
            continue;
        }
        let (start, end) = if pos1 < pos2 { (pos1, pos2) } else { (pos2, pos1) };
        v.push(start..end);
        let anchor_range = if start < len / 2 { 1 } else { 4 };
        let dup = rng.below(10) == 0;
        let times = if dup { 2 } else { 1 };
        for _ in 0..times {
            match rng.below(anchor_range) {
                0 => s.push_str(&format!("s+{}..s+{},", start, end)),
                1 => s.push_str(&format!("s+{}..e-{},", start, len - end)),
                2 => s.push_str(&format!("e-{}..s+{},", len - start, end)),
                _ => s.push_str(&format!("e-{}..e-{},", len - start, len - end)),
            }
        }
    }
    v.sort_by_key(|x| (x.start, x.end));
    v.dedup();
    if !v.is_empty() {
        let mut i = 0;
        for j in 1..v.len() {
            if v[i].end < v[j].start {
                i += 1;
                v[i] = v[j].clone();
                continue;
            }
            v[i].end = std::cmp::max(v[i].end, v[j].end);
        }
        v.truncate(i + 1);
    }
    let t: Vec<u8> = (0..len).map(|_| rng.next() as u8).collect();
    let mut u = Vec::new();
    for r in &v {
        u.extend_from_slice(&t[r.clone()]);
    }
    (t, s, u)
}

fn cut_long_cases(drive: Drive) {
    let cases: [(usize, usize); 7] = [(0, 0), (10, 0), (10, 1), (1000, 0), (1000, 10), (20000, 100), (20000, 100)];
    for (k, (len, count)) in cases.iter().enumerate() {
        if *len == 0 {
            cut_case(drive, b"", "", b"");
            continue;
        }
        let (input, exprs, expected) = gen_cut_pattern(*len, *count, 11 + k as u64);
        cut_case(drive, &input, &exprs, &expected);
    }
}

#[test]
fn test_cut_long_random_len() {
    cut_long_cases(Drive::RandomLen);
}

#[test]
fn test_cut_long_random_consume() {
    cut_long_cases(Drive::RandomConsume);
}

#[test]
fn test_cut_long_all_at_once() {
    cut_long_cases(Drive::AllAtOnce);
}

// patch

fn patch_stream(input: &[u8], patch: &[u8]) -> PatchStream<MockSource, MockSource> {
    PatchStream::new(MockSource::new(input), MockSource::new(patch), &InoutFormat::new("xxx")).unwrap()
}

#[test]
fn test_patch_overlap() {
    let input = [0u8; 256];
    let mut src = patch_stream(&input, b"0000 03 | 01 02 03 \n0001 03 | 01 02 03");
    assert!(src.fill_buf().is_err());
}

fn patch_case(drive: Drive, input: &[u8], patch: &[u8], expected: &[u8]) {
    check(drive, &|| patch_stream(input, patch), expected);
}

fn patch_cases(drive: Drive) {
    let a = [0x80u8, 0x81, 0x82, 0x83];
    patch_case(drive, b"", b"0000 00 | \n", b"");
    patch_case(drive, b"", b"0000 01 | \n", b"");
    patch_case(drive, &[0x80u8], b"0000 01 | 00\n", &[0x00u8]);
    patch_case(drive, &[0x80u8], b"0000 01 | \n", b"");
    patch_case(drive, &a, b"0000 01 | 00\n", &[0u8, 0x81, 0x82, 0x83]);
    patch_case(drive, &a, b"0001 01 | 00\n", &[0x80u8, 0, 0x82, 0x83]);
    patch_case(drive, &a, b"0002 00 | 00\n", &[0x80u8, 0x81, 0, 0x82, 0x83]);
    patch_case(drive, &a, b"0000 03 | 00\n", &[0u8, 0x83]);
    patch_case(drive, &a, b"0002 04 | 00\n", &[0x80u8, 0x81, 0]);
    patch_case(drive, &a, b"0002 00 | 00 01 02\n", &[0x80u8, 0x81, 0, 1, 2, 0x82, 0x83]);
    patch_case(drive, &a, b"0000 03 | 00 01 02\n", &[0u8, 1, 2, 0x83]);
    patch_case(drive, &a, b"0002 04 | 00 01 02\n", &[0x80u8, 0x81, 0, 1, 2]);
    patch_case(drive, &a, b"0002 00 | \n", &[0x80u8, 0x81, 0x82, 0x83]);
    patch_case(drive, &a, b"0000 03 | \n", &[0x83u8]);
    patch_case(drive, &a, b"0002 04 | \n", &[0x80u8, 0x81]);
    let input: Vec<u8> = (0xc0..0xf0).collect();
    patch_case(
        drive,
        &input,
        b"000 05 | 00 01 02 03 04\n\
          005 07 | 10 11 12 13 14 15 16\n\
          010 03 | 20 21 22 23 24\n\
          013 00 | 30 31 32 33 34 35 36 37 38 39\n\
          014 06 | 50 51 52 53 54\n\
          01b 01 | 60 61 62 63 64 \n\
          01c 03\n\
          020 08 | 80 81 82 83 84\n\
          02a 01 | \n",
        &[
            0x00u8, 0x01, 0x02, 0x03, 0x04, 0x10, 0x11, 0x12, 0x13, 0x14, 0x15, 0x16, 0xcc, 0xcd, 0xce, 0xcf,
            0x20, 0x21, 0x22, 0x23, 0x24, 0x30, 0x31, 0x32, 0x33, 0x34, 0x35, 0x36, 0x37, 0x38, 0x39, 0xd3,
            0x50, 0x51, 0x52, 0x53, 0x54, 0xda, 0x60, 0x61, 0x62, 0x63, 0x64, 0xdf, 0x80, 0x81, 0x82, 0x83,
            0x84, 0xe8, 0xe9, 0xeb, 0xec, 0xed, 0xee, 0xef,
        ],
    );
}

#[test]
fn test_patch_random_len() {
    patch_cases(Drive::RandomLen);
}

#[test]
fn test_patch_random_consume() {
    patch_cases(Drive::RandomConsume);
}

#[test]
fn test_patch_all_at_once() {
    patch_cases(Drive::AllAtOnce);
}

fn padded(line: &[u8]) -> Vec<u8> {
    let mut v = line.to_vec();
    v.extend_from_slice(&[b'\n'; 256]);
    v
}

#[test]
fn patch_lines_parse_header_and_body() {
    assert_eq!(parse_patch_line(&padded(b"01b 01 | 60 61 62 \n")), Some((0x1b, 1, vec![0x60, 0x61, 0x62])));
    assert_eq!(parse_patch_line(&padded(b"01c 03")), Some((0x1c, 3, vec![])));
    assert_eq!(parse_patch_line(&padded(b"0000 00 | ")), Some((0, 0, vec![])));
    assert_eq!(parse_patch_line(&padded(b"0000 00 | 4g")), None);
    assert_eq!(parse_patch_line(&padded(b"00x0 00 | 41")), None);
}

// text

fn rep(pattern: &[u8], n: usize) -> Vec<u8> {
    let mut v = Vec::new();
    for _ in 0..n {
        v.extend_from_slice(pattern);
    }
    v
}

fn text_case(drive: Drive, input: &[u8], expected: &[u8]) {
    check(drive, &|| TextStream::new(MockSource::new(input), 0, &InoutFormat::new("xxx")).unwrap(), expected);
}

fn text_cases(drive: Drive) {
    text_case(drive, b"0000 00 | \n", b"");
    text_case(drive, b"0000 01 | \n", b"");
    text_case(drive, b"0000 01 | 00\n", &[0u8]);
    text_case(drive, b"0000 02 | 00 01 \n", &[0u8, 1]);
    text_case(drive, b"0002 04 | 03 04 \n", &[0u8, 0, 3, 4]);
    text_case(drive, b"0002 00 | 03 04 \n", &[0u8, 0, 3, 4]);
    text_case(
        drive,
        b"000 05 | 00 01 02 03 04\n\
          005 07 | 10 11 12 13 14 15 16\n\
          010 05 | 20 21 22 23 24\n\
          013 00 | 30 31 32 33 34 35 36 37 38 39\n\
          014 06 | 50 51 52 53 54\n\
          01b 05 | 60 61 62 63 64\n\
          01c 03 | 70 71 72 73 74\n\
          01d 05 | 80 81 82 83 84\n\
          01d 05 | 90 91 92 93 94\n",
        &[
            0x00u8, 0x01, 0x02, 0x03, 0x04, 0x10, 0x11, 0x12, 0x13, 0x14, 0x15, 0x16, 0x00, 0x00, 0x00, 0x00,
            0x20, 0x21, 0x22, 0x30, 0x31, 0x32, 0x33, 0x34, 0x35, 0x36, 0x37, 0x38, 0x39, 0x00, 0x50, 0x51,
            0x52, 0x53, 0x54, 0x00, 0x60, 0x70, 0x71, 0x72, 0x90, 0x91, 0x92, 0x93, 0x94,
        ],
    );
}

#[test]
fn test_text_random_len() {
    text_cases(Drive::RandomLen);
}

#[test]
fn test_text_random_consume() {
    text_cases(Drive::RandomConsume);
}

#[test]
fn test_text_all_at_once() {
    text_cases(Drive::AllAtOnce);
}

fn gapless_case(drive: Drive, input: &[u8], expected: &[u8]) {
    check(drive, &|| GaplessTextStream::new(MockSource::new(input), &InoutFormat::new("nnx")).unwrap(), expected);
}

fn gapless_cases(drive: Drive) {
    gapless_case(drive, b"0000 00 | \n", b"");
    gapless_case(drive, b"0000 01 | \n", b"");
    gapless_case(drive, b"0000 01 | 00\n", &[0u8]);
    gapless_case(drive, b"0000 02 | 00 01 \n", &[0u8, 1]);
    gapless_case(drive, b"0002 04 | 03 04 \n", &[3u8, 4]);
    gapless_case(drive, b"0002 00 | 03 04 \n", &[3u8, 4]);
    gapless_case(drive, &rep(b"0010 ff | 00\n", 3000), &[0u8; 3000]);
    gapless_case(
        drive,
        &rep(
            b"000 00 | 01 02 03 04 05\n\
              fff 10 | 11 12 13 14 15 16 17\n\
              010 10 | 21 22 23 24 25\n\
              020 80 | 31 32 33 34 35 36 37 38 39 3a\n\
              100 30 | 51 52 53 54 55\n",
            300,
        ),
        &rep(
            &[
                0x01u8, 0x02, 0x03, 0x04, 0x05, 0x11, 0x12, 0x13, 0x14, 0x15, 0x16, 0x17, 0x21, 0x22, 0x23, 0x24,
                0x25, 0x31, 0x32, 0x33, 0x34, 0x35, 0x36, 0x37, 0x38, 0x39, 0x3a, 0x51, 0x52, 0x53, 0x54, 0x55,
            ],
            300,
        ),
    );
}

#[test]
fn test_gapless_text_random_len() {
    gapless_cases(Drive::RandomLen);
}

#[test]
fn test_gapless_text_random_consume() {
    gapless_cases(Drive::RandomConsume);
}

#[test]
fn test_gapless_text_all_at_once() {
    gapless_cases(Drive::AllAtOnce);
}

// zip

/// Pads `x` with zeros up to a whole number of words, as an aligned reader
/// hands it out.
fn aligned(x: &[u8], w: usize) -> Vec<u8> {
    let mut v = x.to_vec();
    let rem = v.len() % w;
    if rem != 0 {
        v.resize(v.len() + w - rem, 0);
    }
    v
}

fn zip_case(drive: Drive, w: usize, inputs: &[&[u8]], expected: &[u8], align: bool) {
    let parts: Vec<Vec<u8>> =
        inputs.iter().map(|x| if align { aligned(x, w) } else { x.to_vec() }).collect();
    check(
        drive,
        &|| {
            let srcs: Vec<MockSource> = parts.iter().map(|p| MockSource::new(p)).collect();
            ZipStream::new(srcs, w).unwrap()
        },
        expected,
    );
}

const EIGHT: [[u8; 8]; 3] = [
    [0x00, 0x01, 0x02, 0x03, 0x04, 0x05, 0x06, 0x07],
    [0x10, 0x11, 0x12, 0x13, 0x14, 0x15, 0x16, 0x17],
    [0x20, 0x21, 0x22, 0x23, 0x24, 0x25, 0x26, 0x27],
];

fn zip_cases(drive: Drive) {
    for w in [1usize, 2, 3, 4, 5, 6, 7, 8, 9, 10, 11, 12, 13, 14, 15, 16, 33] {
        zip_case(drive, w, &[b""], b"", true);
    }
    for w in [1usize, 2, 3, 4, 7, 8, 9, 16, 33] {
        zip_case(drive, w, &[b"", b"", b""], b"", true);
        zip_case(drive, w, &[&[0u8], b"", b""], b"", true);
    }
    let e: Vec<&[u8]> = EIGHT.iter().map(|x| x.as_slice()).collect();
    zip_case(
        drive,
        1,
        &e,
        &[
            0x00, 0x10, 0x20, 0x01, 0x11, 0x21, 0x02, 0x12, 0x22, 0x03, 0x13, 0x23, 0x04, 0x14, 0x24, 0x05,
            0x15, 0x25, 0x06, 0x16, 0x26, 0x07, 0x17, 0x27,
        ],
        true,
    );
    zip_case(
        drive,
        2,
        &e,
        &[
            0x00, 0x01, 0x10, 0x11, 0x20, 0x21, 0x02, 0x03, 0x12, 0x13, 0x22, 0x23, 0x04, 0x05, 0x14, 0x15,
            0x24, 0x25, 0x06, 0x07, 0x16, 0x17, 0x26, 0x27,
        ],
        true,
    );
    zip_case(
        drive,
        3,
        &e,
        &[
            0x00, 0x01, 0x02, 0x10, 0x11, 0x12, 0x20, 0x21, 0x22, 0x03, 0x04, 0x05, 0x13, 0x14, 0x15, 0x23,
            0x24, 0x25, 0x06, 0x07, 0x00, 0x16, 0x17, 0x00, 0x26, 0x27, 0x00,
        ],
        true,
    );
    zip_case(
        drive,
        4,
        &e,
        &[
            0x00, 0x01, 0x02, 0x03, 0x10, 0x11, 0x12, 0x13, 0x20, 0x21, 0x22, 0x23, 0x04, 0x05, 0x06, 0x07,
            0x14, 0x15, 0x16, 0x17, 0x24, 0x25, 0x26, 0x27,
        ],
        true,
    );
    zip_case(
        drive,
        5,
        &e,
        &[
            0x00, 0x01, 0x02, 0x03, 0x04, 0x10, 0x11, 0x12, 0x13, 0x14, 0x20, 0x21, 0x22, 0x23, 0x24, 0x05,
            0x06, 0x07, 0x00, 0x00, 0x15, 0x16, 0x17, 0x00, 0x00, 0x25, 0x26, 0x27, 0x00, 0x00,
        ],
        true,
    );
    zip_case(
        drive,
        8,
        &e,
        &[
            0x00, 0x01, 0x02, 0x03, 0x04, 0x05, 0x06, 0x07, 0x10, 0x11, 0x12, 0x13, 0x14, 0x15, 0x16, 0x17,
            0x20, 0x21, 0x22, 0x23, 0x24, 0x25, 0x26, 0x27,
        ],
        true,
    );
    // the output ends with the shortest input
    zip_case(
        drive,
        1,
        &[&[0x00, 0x01, 0x02, 0x03, 0x04, 0x05, 0x06, 0x07, 0x08], &EIGHT[1], &EIGHT[2]],
        &[
            0x00, 0x10, 0x20, 0x01, 0x11, 0x21, 0x02, 0x12, 0x22, 0x03, 0x13, 0x23, 0x04, 0x14, 0x24, 0x05,
            0x15, 0x25, 0x06, 0x16, 0x26, 0x07, 0x17, 0x27,
        ],
        true,
    );
}

fn zip_clamped_cases(drive: Drive) {
    for w in [1usize, 3, 8, 9, 33] {
        zip_case(drive, w, &[b"", b"", b""], b"", false);
    }
    for w in [2usize, 4, 7, 16, 33] {
        zip_case(drive, w, &[&[0u8], b"", b""], b"", false);
    }
    zip_case(
        drive,
        2,
        &[
            &[0x00, 0x01, 0x02, 0x03, 0x04, 0x05, 0x06, 0x07, 0x08],
            &[0x10, 0x11, 0x12, 0x13, 0x14, 0x15, 0x16, 0x17, 0x18],
            &[0x20, 0x21, 0x22, 0x23, 0x24, 0x25, 0x26, 0x27, 0x28],
        ],
        &[
            0x00, 0x01, 0x10, 0x11, 0x20, 0x21, 0x02, 0x03, 0x12, 0x13, 0x22, 0x23, 0x04, 0x05, 0x14, 0x15,
            0x24, 0x25, 0x06, 0x07, 0x16, 0x17, 0x26, 0x27,
        ],
        false,
    );
    let e: Vec<&[u8]> = EIGHT.iter().map(|x| x.as_slice()).collect();
    zip_case(
        drive,
        3,
        &e,
        &[0x00, 0x01, 0x02, 0x10, 0x11, 0x12, 0x20, 0x21, 0x22, 0x03, 0x04, 0x05, 0x13, 0x14, 0x15, 0x23, 0x24, 0x25],
        false,
    );
    zip_case(
        drive,
        4,
        &[&EIGHT[0][..7], &EIGHT[1][..7], &EIGHT[2][..7]],
        &[0x00, 0x01, 0x02, 0x03, 0x10, 0x11, 0x12, 0x13, 0x20, 0x21, 0x22, 0x23],
        false,
    );
    zip_case(
        drive,
        5,
        &e,
        &[0x00, 0x01, 0x02, 0x03, 0x04, 0x10, 0x11, 0x12, 0x13, 0x14, 0x20, 0x21, 0x22, 0x23, 0x24],
        false,
    );
}

#[test]
fn test_zip_random_len() {
    zip_cases(Drive::RandomLen);
}

#[test]
fn test_zip_random_consume() {
    zip_cases(Drive::RandomConsume);
}

#[test]
fn test_zip_all_at_once() {
    zip_cases(Drive::AllAtOnce);
}

#[test]
fn test_zip_clampled_random_len() {
    zip_clamped_cases(Drive::RandomLen);
}

#[test]
fn test_zip_clampled_random_consume() {
    zip_clamped_cases(Drive::RandomConsume);
}

#[test]
fn test_zip_clampled_all_at_once() {
    zip_clamped_cases(Drive::AllAtOnce);
}

/// `count` pseudo-random inputs of `len` bytes and their interleaving; the
/// last partial word is kept, padded with zeros, unless `clamp`.
fn gen_zip_pattern(w: usize, len: usize, count: usize, clamp: bool, seed: u64) -> (Vec<Vec<u8>>, Vec<u8>) {
    let mut rng = Lcg(seed);
    let srcs: Vec<Vec<u8>> = (0..count).map(|_| (0..len).map(|_| rng.next() as u8).collect()).collect();
    let mut zipped = Vec::new();
    let chunks = len / w;
    for i in 0..chunks {
        for s in &srcs {
            zipped.extend_from_slice(&s[i * w..i * w + w]);
        }
    }
    if !clamp && len % w != 0 {
        for s in &srcs {
            let tail = zipped.len();
            zipped.extend_from_slice(&s[chunks * w..len]);
            zipped.resize(tail + w, 0);
        }
    }
    (srcs, zipped)
}

fn zip_long_cases(drive: Drive) {
    let shapes: [(usize, usize); 18] = [
        (1, 0),
        (3, 0),
        (9, 0),
        (1, 10),
        (3, 10),
        (9, 10),
        (1, 100),
        (3, 100),
        (4, 100),
        (9, 100),
        (33, 100),
        (1, 10000),
        (3, 10000),
        (4, 10000),
        (8, 10000),
        (9, 10000),
        (15, 10000),
        (33, 10000),
    ];
    for (k, (w, len)) in shapes.iter().enumerate() {
        for clamp in [false, true] {
            let (srcs, zipped) = gen_zip_pattern(*w, *len, 5, clamp, 11 + k as u64);
            let srcs: Vec<&[u8]> = srcs.iter().map(|x| x.as_slice()).collect();
            zip_case(drive, *w, &srcs, &zipped, !clamp);
        }
    }
}

#[test]
fn test_zip_long_random_len() {
    zip_long_cases(Drive::RandomLen);
}

#[test]
fn test_zip_long_random_consume() {
    zip_long_cases(Drive::RandomConsume);
}

#[test]
fn test_zip_long_all_at_once() {
    zip_long_cases(Drive::AllAtOnce);
}

#[test]
fn zip_refuses_bad_shapes() {
    assert!(ZipStream::<MockSource>::new(Vec::new(), 1).is_err());
    assert!(ZipStream::new(vec![MockSource::new(b"ab")], 0).is_err());
    assert!(ZipStream::new(vec![MockSource::new(b"ab")], 2 * 1024 * 1024 + 1).is_err());
}

// cat

fn cat_case(drive: Drive, inputs: &[&[u8]], expected: &[u8]) {
    check(
        drive,
        &|| CatStream::new(inputs.iter().map(|x| MockSource::new(x)).collect()),
        expected,
    );
}

fn cat_cases(drive: Drive) {
    cat_case(drive, &[b""], b"");
    cat_case(drive, &[b"", b"", b""], b"");
    cat_case(drive, &[&[0u8], b"", b""], &[0u8]);
    let e: Vec<&[u8]> = EIGHT.iter().map(|x| x.as_slice()).collect();
    cat_case(drive, &e, &EIGHT.concat());
    let parts: [&[u8]; 7] = [
        &[0x00, 0x01, 0x02, 0x03, 0x04, 0x05, 0x06, 0x07, 0x08],
        &[0x10, 0x11, 0x12, 0x13, 0x14, 0x15],
        &[0x20, 0x21, 0x22, 0x23, 0x24, 0x25, 0x26, 0x27, 0x20, 0x29, 0x2a, 0x2b],
        &[0x30, 0x31, 0x32, 0x33, 0x34, 0x35, 0x36, 0x37, 0x30, 0x39, 0x3a, 0x3b, 0x3c, 0x3d, 0x3e, 0x3f],
        b"",
        &[0x50, 0x51, 0x52, 0x53, 0x54, 0x55, 0x56, 0x57, 0x50, 0x59],
        &[0x60, 0x61, 0x62, 0x63, 0x64],
    ];
    cat_case(drive, &parts, &parts.concat());
}

#[test]
fn test_cat_random_len() {
    cat_cases(Drive::RandomLen);
}

#[test]
fn test_cat_random_consume() {
    cat_cases(Drive::RandomConsume);
}

#[test]
fn test_cat_all_at_once() {
    cat_cases(Drive::AllAtOnce);
}

fn cat_long_cases(drive: Drive) {
    for seed in 1..6u64 {
        let mut rng = Lcg(seed);
        let srcs: Vec<Vec<u8>> = (0..3)
            .map(|_| {
                let len = rng.below(1024);
                (0..len).map(|_| rng.next() as u8).collect()
            })
            .collect();
        let inputs: Vec<&[u8]> = srcs.iter().map(|x| x.as_slice()).collect();
        cat_case(drive, &inputs, &srcs.concat());
    }
}

#[test]
fn test_cat_long_random_len() {
    cat_long_cases(Drive::RandomLen);
}

#[test]
fn test_cat_long_random_consume() {
    cat_long_cases(Drive::RandomConsume);
}

#[test]
fn test_cat_long_all_at_once() {
    cat_long_cases(Drive::AllAtOnce);
}

// clip

fn clip_case(drive: Drive, input: &[u8], pad: (usize, usize), clip: (usize, usize), len: usize, expected: &[u8]) {
    let params = ClipperParams { pad, clip, len };
    check(drive, &|| ClipStream::new(MockSource::new(input), &params, 0), expected);
}

fn clip_cases(drive: Drive) {
    let mut rng = Lcg(7);
    let p: Vec<u8> = (0..32 * 1024).map(|_| rng.next() as u8).collect();
    let n = p.len();
    let m = usize::MAX;

    clip_case(drive, &p, (0, 0), (0, 0), m, &p);

    clip_case(drive, &p, (0, 0), (1, 0), m, &p[1..]);
    clip_case(drive, &p, (0, 0), (1000, 0), m, &p[1000..]);

    clip_case(drive, &p, (0, 0), (0, 1), m, &p[..n - 1]);
    clip_case(drive, &p, (0, 0), (0, 1000), m, &p[..n - 1000]);

    clip_case(drive, &p, (0, 0), (0, 0), 1, &p[..1]);
    clip_case(drive, &p, (0, 0), (0, 0), 1000, &p[..1000]);

    clip_case(drive, &p, (0, 0), (1, 1000), 1, &p[1..2]);
    clip_case(drive, &p, (0, 0), (1000, 1000), 100, &p[1000..1100]);
    clip_case(drive, &p, (0, 0), (3000, 1000), n - 100, &p[3000..n - 1000]);
    clip_case(drive, &p, (0, 0), (3000, 10000), n - 3000, &p[3000..n - 10000]);

    clip_case(drive, &p, (0, 0), (0, 0), 0, b"");
    clip_case(drive, &p, (0, 0), (10, 0), 0, b"");
    clip_case(drive, &p, (0, 0), (n, 0), 0, b"");
    clip_case(drive, &p, (0, 0), (0, n), 0, b"");
    clip_case(drive, &p, (0, 0), (n, n), 0, b"");

    clip_case(drive, &p, (0, 0), (n + 1, 0), n, b"");
    clip_case(drive, &p, (0, 0), (n + 1, 0), m, b"");
    clip_case(drive, &p, (0, 0), (0, n + 1), n, b"");
    clip_case(drive, &p, (0, 0), (0, n + 1), m, b"");

    let d = [[0u8; 100].as_slice(), &p, [0u8; 100].as_slice()].concat();
    let k = d.len();

    clip_case(drive, &p, (100, 100), (0, 0), m, &d);

    clip_case(drive, &p, (100, 100), (1, 0), m, &d[1..]);
    clip_case(drive, &p, (100, 100), (1000, 0), m, &d[1000..]);

    clip_case(drive, &p, (100, 100), (0, 1), m, &d[..k - 1]);
    clip_case(drive, &p, (100, 100), (0, 1000), m, &d[..k - 1000]);
}

#[test]
fn test_clip_random_len() {
    clip_cases(Drive::RandomLen);
}

#[test]
fn test_clip_random_consume() {
    clip_cases(Drive::RandomConsume);
}

#[test]
fn test_clip_all_at_once() {
    clip_cases(Drive::AllAtOnce);
}

#[test]
fn clip_tail_clip_reaches_into_head_padding() {
    // 100 filler bytes, 30 source bytes; the last 150 of them are dropped
    clip_case(Drive::AllAtOnce, &[7u8; 30], (100, 0), (0, 150), usize::MAX, b"");
    // 100 filler bytes, 30 source bytes; the last 40 dropped
    let mut expected = vec![9u8; 90];
    let params = ClipperParams { pad: (100, 0), clip: (0, 40), len: usize::MAX };
    check(Drive::AllAtOnce, &|| ClipStream::new(MockSource::new(&[7u8; 30]), &params, 9), &expected);
    // the head clip runs past the source into the tail padding
    clip_case(Drive::AllAtOnce, &[7u8; 30], (0, 100), (50, 0), usize::MAX, &[0u8; 80]);
}

// raw

/// A reader over a pattern, handing out at most `step` bytes a call.
struct ChunkReader {
    data: Vec<u8>,
    pos: usize,
    step: usize,
}

impl Reader for ChunkReader {
    fn read_chunk(&mut self, max: usize) -> std::io::Result<Vec<u8>> {
        let end = std::cmp::min(self.data.len(), self.pos + std::cmp::min(max, self.step));
        let v = self.data[self.pos..end].to_vec();
        self.pos = end;
        Ok(v)
    }
}

fn raw_case(drive: Drive, input: &[u8], align: usize, filler: u8, expected: &[u8]) {
    for step in [1usize, 7, 1000, 1 << 22] {
        check(
            drive,
            &|| RawStream::new(ChunkReader { data: input.to_vec(), pos: 0, step }, align, filler),
            expected,
        );
    }
}

fn raw_cases(drive: Drive) {
    for pattern in [b"a".as_slice(), b"abc", b"abcbc", b"abcbcdefghijklmno"] {
        let input = rep(pattern, 3000);
        raw_case(drive, &input, 1, 0, &input);
    }
    raw_case(drive, b"", 1, 0, b"");
    raw_case(drive, b"", 4, 9, b"");
    raw_case(drive, b"0123456789", 4, 9, b"0123456789\x09\x09");
    raw_case(drive, b"01234567", 4, 9, b"01234567");
    raw_case(drive, b"0", 3, b'-', b"0--");
}

#[test]
fn test_raw_stream_random_len() {
    raw_cases(Drive::RandomLen);
}

#[test]
fn test_raw_stream_random_consume() {
    raw_cases(Drive::RandomConsume);
}

#[test]
fn test_raw_stream_all_at_once() {
    raw_cases(Drive::AllAtOnce);
}

#[test]
fn align_padding_rounds_up_to_the_alignment() {
    assert_eq!(align_padding(0, 4), 0);
    assert_eq!(align_padding(10, 4), 2);
    assert_eq!(align_padding(12, 4), 0);
    assert_eq!(align_padding(13, 1), 0);
    assert_eq!(align_padding(1, 16), 15);
}

#[test]
fn boxed_streams_read_as_the_stream_inside() {
    let make = || -> Box<dyn ByteStream> {
        let srcs: Vec<Box<dyn ByteStream>> =
            vec![Box::new(MockSource::new(b"abcdef")), Box::new(MockSource::new(b"gh"))];
        Box::new(CatStream::new(srcs))
    };
    check(Drive::AllAtOnce, &make, b"abcdefgh");
    check(Drive::RandomLen, &make, b"abcdefgh");
}

#[test]
fn test_gapless_text_format_refused() {
    let input: &[u8] = b"00000000 0004 | 61 62 63 64\n";
    assert!(GaplessTextStream::new(MockSource::new(input), &InoutFormat::input_default()).is_err());
    assert!(GaplessTextStream::new(MockSource::new(input), &InoutFormat::new("xxx")).is_ok());
}

#[test]
fn test_raw_take_chunk_then_padding() {
    let mut s = RawStream::new(ChunkReader { data: Vec::new(), pos: 0, step: 1 }, 4, b'-');
    assert_eq!(s.take_chunk(b"abcde"), 5);
    assert_eq!(&s.as_slice()[..5], b"abcde");
    assert_eq!(s.take_chunk(b"f"), 6);
    // the end of the input: padded to a multiple of 4
    assert_eq!(s.take_chunk(b""), 8);
    assert_eq!(&s.as_slice()[..8], b"abcdef--");
    s.consume(3);
    assert_eq!(&s.as_slice()[..5], b"def--");
}
