use zd::parser::{parse_hex_body, parse_hex_single};

fn check_single(input: &str, expected: Option<(u64, usize)>) {
    assert_eq!(parse_hex_single(input.as_bytes()), expected);
}

#[test]
fn test_parse_hex_single() {
    check_single("                                ", Some((0, 0)));
    check_single("4                               ", Some((0x4, 1)));
    check_single("012                             ", Some((0x012, 3)));
    check_single("abcdef01                        ", Some((0xabcdef01, 8)));
    check_single("AbcDef01                        ", Some((0xabcdef01, 8)));

    check_single(" |                              ", Some((0, 0)));
    check_single("f |                             ", Some((0xf, 1)));
    check_single("012 |                           ", Some((0x012, 3)));
    check_single("abcdef01 |                      ", Some((0xabcdef01, 8)));
    check_single("aBcDEF01 |                      ", Some((0xabcdef01, 8)));

    check_single("          |                     ", Some((0, 0)));
    check_single("E         |                     ", Some((0xe, 1)));
    check_single("012                |            ", Some((0x012, 3)));
    check_single("abcdef01           |            ", Some((0xabcdef01, 8)));

    check_single("/bcdef01                        ", None);
    check_single("abcde:01                        ", None);
    check_single("abcde@01                        ", None);
    check_single("abcGef01                        ", None);
    check_single("abcde@01                        ", None);
    check_single("abcgef01                        ", None);
    check_single("abcqef01                        ", None);

    check_single("xbcdef01                        ", None);
    check_single("a-cdef01                        ", None);
    check_single("abc|ef01                        ", None);
    check_single("abcdef01|                       ", None);
}

fn check_body(is_in_tail: bool, input: &str, expected_arr: &[u8], expected_counts: Option<((usize, usize), usize)>) {
    let mut input = input.as_bytes().to_vec();
    input.resize(input.len() + 256, 0);
    let mut buf = [0u8; 256];
    let counts = parse_hex_body(is_in_tail, &input, &mut buf);
    assert_eq!(counts, expected_counts);
    if let Some((_, n)) = counts {
        assert_eq!(&buf[..n], expected_arr);
    }
}

#[test]
fn test_parse_hex_body() {
    // ends with '\n'
    check_body(false, "48 b1\n", &[0x48, 0xb1], Some(((5, 5), 2)));
    check_body(false, "48 b1 \n", &[0x48, 0xb1], Some(((6, 6), 2)));
    check_body(false, "48 b1  \n", &[0x48, 0xb1], Some(((7, 7), 2)));
    check_body(false, "48 b1   \n", &[0x48, 0xb1], Some(((8, 8), 2)));
    check_body(false, "48 b1    \n", &[0x48, 0xb1], Some(((9, 9), 2)));
    check_body(false, "48 b1     \n", &[0x48, 0xb1], Some(((10, 10), 2)));

    // ends with '|'
    check_body(false, "48 b1| H.\n", &[0x48, 0xb1], Some(((9, 5), 2)));
    check_body(false, "48 b1 | H.\n", &[0x48, 0xb1], Some(((10, 6), 2)));
    check_body(false, "48 b1  | H.\n", &[0x48, 0xb1], Some(((11, 7), 2)));
    check_body(false, "48 b1    | H.\n", &[0x48, 0xb1], Some(((13, 9), 2)));
    check_body(false, "48 b1     | H.\n", &[0x48, 0xb1], Some(((14, 10), 2)));
    check_body(
        false,
        "48 b1     |                                                                                                   \n",
        &[0x48, 0xb1],
        Some(((110, 10), 2)),
    );

    // invaid hex
    check_body(false, "48 g1 \n", &[], None);
    check_body(false, "48 g1    \n", &[], None);
    check_body(false, "48 bg | H.\n", &[], None);
    check_body(false, "48 bg    | H.\n", &[], None);

    // multiple chunks
    let e = [0x48u8, 0xb1, 0xe3, 0x9c, 0x98, 0xac, 0xa3, 0x27, 0xc9, 0x65, 0x48, 0x50, 0x2b, 0xb7, 0xbb, 0x6b, 0x48];
    check_body(false, "48 b1 e3 9c 98 ac a3 27 c9 65 48 50 2b b7 bb 6b\n", &e[..16], Some(((47, 47), 16)));
    check_body(false, "48 b1 e3 9c 98 ac a3 27 c9 65 48 50 2b b7 bb 6b \n", &e[..16], Some(((48, 48), 16)));
    check_body(false, "48 b1 e3 9c 98 ac a3 27 c9 65 48 50 2b b7 bb 6b  \n", &e[..16], Some(((49, 49), 16)));
    check_body(false, "48 b1 e3 9c 98 ac a3 27 c9 65 48 50 2b b7 bb 6b   \n", &e[..16], Some(((50, 50), 16)));
    check_body(false, "48 b1 e3 9c 98 ac a3 27 c9 65 48 50 2b b7 bb 6b    \n", &e[..16], Some(((51, 51), 16)));
    check_body(false, "48 b1 e3 9c 98 ac a3 27 c9 65 48 50 2b b7 bb 6b     \n", &e[..16], Some(((52, 52), 16)));

    check_body(false, "48 b1 e3 9c 98 ac a3 27 c9 65 48 50 2b b7 bb 6b 48 \n", &e, Some(((51, 51), 17)));
    check_body(false, "48 b1 e3 9c 98 ac a3 27 c9 65 48 50 2b b7 bb 6b 48  \n", &e, Some(((52, 52), 17)));
    check_body(false, "48 b1 e3 9c 98 ac a3 27 c9 65 48 50 2b b7 bb 6b 48   \n", &e, Some(((53, 53), 17)));
    check_body(false, "48 b1 e3 9c 98 ac a3 27 c9 65 48 50 2b b7 bb 6b 48    \n", &e, Some(((54, 54), 17)));

    // multiple chunks, ends with '|'
    check_body(false, "48 b1 e3 9c 98 ac a3 27 c9 65 48 50 2b b7 bb 6b|H......'.eHP+..k\n", &e[..16], Some(((64, 47), 16)));
    check_body(false, "48 b1 e3 9c 98 ac a3 27 c9 65 48 50 2b b7 bb 6b |H......'.eHP+..k\n", &e[..16], Some(((65, 48), 16)));
    check_body(false, "48 b1 e3 9c 98 ac a3 27 c9 65 48 50 2b b7 bb 6b  |H......'.eHP+..k\n", &e[..16], Some(((66, 49), 16)));
    check_body(false, "48 b1 e3 9c 98 ac a3 27 c9 65 48 50 2b b7 bb 6b   |H......'.eHP+..k\n", &e[..16], Some(((67, 50), 16)));
    check_body(false, "48 b1 e3 9c 98 ac a3 27 c9 65 48 50 2b b7 bb 6b    |H......'.eHP+..k\n", &e[..16], Some(((68, 51), 16)));
    check_body(false, "48 b1 e3 9c 98 ac a3 27 c9 65 48 50 2b b7 bb 6b     |H......'.eHP+..k\n", &e[..16], Some(((69, 52), 16)));

    // no comment section after the second '|'
    check_body(false, "48 b1 e3 9c 98 ac a3 27 c9 65 48 50 2b b7 bb 6b|\n", &e[..16], Some(((48, 47), 16)));
    check_body(false, "48 b1 e3 9c 98 ac a3 27 c9 65 48 50 2b b7 bb 6b |\n", &e[..16], Some(((49, 48), 16)));
    check_body(false, "48 b1 e3 9c 98 ac a3 27 c9 65 48 50 2b b7 bb 6b  |\n", &e[..16], Some(((50, 49), 16)));

    check_body(false, "48 b1 e3 9c 98 ac a3 27 c9 65 48 50 2b b7 bb 6b| \n", &e[..16], Some(((49, 47), 16)));
    check_body(false, "48 b1 e3 9c 98 ac a3 27 c9 65 48 50 2b b7 bb 6b | \n", &e[..16], Some(((50, 48), 16)));
    check_body(false, "48 b1 e3 9c 98 ac a3 27 c9 65 48 50 2b b7 bb 6b  | \n", &e[..16], Some(((51, 49), 16)));

    // intermediate blanks
    check_body(
        false,
        "48 b1 e3 9c    ac a3 27 c9 65 48 50 2b b7 bb 6b|H......'.eHP+..k\n",
        &[0x48u8, 0xb1, 0xe3, 0x9c],
        Some(((64, 47), 4)),
    );
    check_body(false, "            98                48 50 2b b7 bb 6b     |H......'.eHP+..k\n", &[], Some(((69, 52), 0)));

    // already in the tail margin
    check_body(true, "\n", &[], Some(((0, 0), 0)));
    check_body(true, "48 b1 \n", &[], Some(((6, 0), 0)));
    check_body(true, "abcdef01\n", &[], Some(((8, 0), 0)));
    check_body(true, "||||||||\n\n\n\n", &[], Some(((8, 0), 0)));
}

#[test]
fn parse_hex_body_without_line_end() {
    // a body longer than the window reports the window's size
    let mut input = "01 ".repeat(70).into_bytes();
    input.resize(input.len() + 256, 0);
    let mut buf = [0u8; 256];
    let r = parse_hex_body(false, &input, &mut buf);
    assert_eq!(r, Some(((192, 192), 64)));
    assert!(buf[..64].iter().all(|&b| b == 1));
}
