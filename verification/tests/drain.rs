use zd::byte::cat::CatStream;
use zd::byte::mock::MockSource;
use zd::common::InoutFormat;
use zd::drain::binary::BinaryDrain;
use zd::drain::trans::{StreamDrain, TransparentDrain};
use zd::pipeline::parse_const_slicer_params;
use zd::segment::stride::ConstSlicer;
use zd::drain::hex::{format_hex_body, format_hex_single, format_line, format_mosaic, HexDrain};
use zd::segment::Segment;

#[test]
fn test_format_hex_single() {
    let check = |offset: usize, width: usize, expected: &str| {
        let mut buf = [0u8; 256];
        let bytes = format_hex_single(&mut buf, offset, width);
        assert_eq!(bytes, expected.len());
        assert_eq!(std::str::from_utf8(&buf[..bytes]).unwrap(), expected);
    };
    check(0, 1, "00 ");
    check(0xf, 1, "0f ");
    check(0xff, 1, "ff ");
    check(0xff, 2, "00ff ");
    check(0xff, 3, "0000ff ");
    check(0x0123456, 4, "00123456 ");
    check(0x0123456789abcd, 4, "6789abcd ");
    check(0x0123456789abcd, 7, "0123456789abcd ");
}

#[test]
fn test_format_hex_body() {
    let check = |src: &[u8], expected: &str| {
        let mut buf = [0u8; 256 * 256];
        let bytes = format_hex_body(&mut buf, src);
        assert_eq!(bytes, expected.len());
        assert_eq!(std::str::from_utf8(&buf[..bytes]).unwrap(), expected);
    };
    check(&[0; 16], "00 00 00 00 00 00 00 00 00 00 00 00 00 00 00 00 ");
    check(&[0xff; 16], "ff ff ff ff ff ff ff ff ff ff ff ff ff ff ff ff ");
    check(
        &[0x20u8, 0x11, 0x02, 0xf3, 0xe4, 0xd5, 0xc6, 0xb7, 0xa8, 0x99, 0x8a, 0x7b, 0x6c, 0x5d, 0x4e, 0x3f],
        "20 11 02 f3 e4 d5 c6 b7 a8 99 8a 7b 6c 5d 4e 3f ",
    );
    check(
        &[0xc0u8, 0xb1, 0xa2, 0x93, 0x84, 0x75, 0x66, 0x57, 0x48, 0x39, 0x2a, 0x1b, 0x0c, 0xfd, 0xee, 0xdf],
        "c0 b1 a2 93 84 75 66 57 48 39 2a 1b 0c fd ee df ",
    );
}

#[test]
fn hex_test_format_mosaic() {
    let check = |src: &[u8], expected: &str| {
        let mut buf = [0u8; 256];
        let bytes = format_mosaic(&mut buf, src);
        assert_eq!(bytes, expected.len());
        assert_eq!(std::str::from_utf8(&buf[..bytes]).unwrap(), expected);
    };
    check(&[0; 16], "................");
    check(&[0x19; 16], "................");
    check(&[0x20; 16], "                ");
    check(&[0x2e; 16], "................");
    check(&[0x7e; 16], "~~~~~~~~~~~~~~~~");
    check(&[0x7f; 16], "................");
    check(&[0xff; 16], "................");
    check(b"0123456789abcdef".as_slice(), "0123456789abcdef");
}

#[test]
fn format_line_writes_header_body_and_mosaic() {
    let mut buf = [0u8; 256];
    let n = format_line(&mut buf, b"Hi!\n", 0x1234, 4);
    assert_eq!(n, 21 + 4 * 4);
    assert_eq!(std::str::from_utf8(&buf[..n]).unwrap(), "000000001234 04 | 48 69 21 0a | Hi!.\n");
}

#[test]
fn hex_drain_pads_short_slices_with_blanks() {
    let drain = HexDrain::new(0x100, 4);
    let block = b"abcdefgh";
    let segments = [Segment { pos: 1, len: 2 }, Segment { pos: 3, len: 5 }];
    let out = drain.consume_segments(0x10, block, &segments);
    let expected = "000000000111 02 | 62 63       | bc\n000000000113 05 | 64 65 66 67 68 | defgh\n";
    assert_eq!(std::str::from_utf8(&out).unwrap(), expected);
}

fn drain_all<D: StreamDrain>(mut d: D) -> Vec<u8> {
    let mut out = Vec::new();
    while let Some(v) = d.consume_segments().unwrap() {
        out.extend_from_slice(&v);
    }
    out
}

fn width16(input: &[u8]) -> ConstSlicer<MockSource> {
    let params = parse_const_slicer_params("16").unwrap();
    assert!(params.is_sliceable());
    ConstSlicer::new(MockSource::new(input), &params)
}

#[test]
fn transparent_drain_writes_binary_slices_as_they_are() {
    let input: Vec<u8> = (0..1000u32).map(|x| (x * 7) as u8).collect();
    let d = TransparentDrain::new(width16(&input), 0, &InoutFormat::new("b"), 16).unwrap();
    assert_eq!(drain_all(d), input);
}

#[test]
fn transparent_drain_writes_hex_lines() {
    let input: Vec<u8> = (0..40u32).map(|x| x as u8 + 0x30).collect();
    let d = TransparentDrain::new(width16(&input), 0x100, &InoutFormat::new("x"), 16).unwrap();
    let segs = [
        Segment { pos: 0, len: 16 },
        Segment { pos: 16, len: 16 },
        Segment { pos: 32, len: 8 },
    ];
    let expected = HexDrain::new(0, 16).consume_segments(0x100, &input, &segs);
    assert_eq!(drain_all(d), expected);
}

#[test]
fn transparent_drain_refuses_other_formats() {
    assert!(TransparentDrain::new(width16(b"ab"), 0, &InoutFormat::new("d"), 16).is_none());
    assert!(TransparentDrain::new(width16(b"ab"), 0, &InoutFormat::new("xxa"), 16).is_none());
}

#[test]
fn binary_drain_gathers_slice_bytes() {
    let block = b"0123456789";
    let segs = [Segment { pos: 1, len: 2 }, Segment { pos: 5, len: 0 }, Segment { pos: 7, len: 3 }];
    assert_eq!(BinaryDrain::new().consume_segments(block, &segs), b"12789".to_vec());
}

fn hexdump(inputs: &[&[u8]]) -> String {
    let srcs: Vec<MockSource> = inputs.iter().map(|x| MockSource::new(x)).collect();
    let params = parse_const_slicer_params("16").unwrap();
    let slicer = ConstSlicer::new(CatStream::new(srcs), &params);
    let d = TransparentDrain::new(slicer, 0, &InoutFormat::new("x"), 16).unwrap();
    String::from_utf8(drain_all(d)).unwrap()
}

const QUICK: &[u8] = b"The quick brown fox jumps over the lazy dog.\n";

#[test]
fn readme_hexdump_of_one_input() {
    let expected = "\
000000000000 10 | 54 68 65 20 71 75 69 63 6b 20 62 72 6f 77 6e 20 | The quick brown \n\
000000000010 10 | 66 6f 78 20 6a 75 6d 70 73 20 6f 76 65 72 20 74 | fox jumps over t\n\
000000000020 0d | 68 65 20 6c 61 7a 79 20 64 6f 67 2e 0a          | he lazy dog..\n";
    assert_eq!(hexdump(&[QUICK]), expected);
}

#[test]
fn readme_hexdump_of_two_inputs() {
    let expected = "\
000000000000 10 | 54 68 65 20 71 75 69 63 6b 20 62 72 6f 77 6e 20 | The quick brown \n\
000000000010 10 | 66 6f 78 20 6a 75 6d 70 73 20 6f 76 65 72 20 74 | fox jumps over t\n\
000000000020 10 | 68 65 20 6c 61 7a 79 20 64 6f 67 2e 0a 54 68 65 | he lazy dog..The\n\
000000000030 10 | 20 71 75 69 63 6b 20 62 72 6f 77 6e 20 66 6f 78 |  quick brown fox\n\
000000000040 10 | 20 6a 75 6d 70 73 20 6f 76 65 72 20 74 68 65 20 |  jumps over the \n\
000000000050 0a | 6c 61 7a 79 20 64 6f 67 2e 0a                   | lazy dog..\n";
    assert_eq!(hexdump(&[QUICK, QUICK]), expected);
}
