use zd::common::ToResult;
use zd::common::{signature_of, InoutFormat, Segment, FMT_ASCII, FMT_BIN, FMT_DEC, FMT_HEX, FMT_NONE};

#[test]
fn inout_format_signatures() {
    let f = InoutFormat::new("x");
    assert_eq!((f.offset, f.length, f.body), (FMT_HEX, FMT_HEX, FMT_HEX));
    let f = InoutFormat::new("b");
    assert_eq!((f.offset, f.length, f.body), (FMT_NONE, FMT_NONE, FMT_BIN));
    assert!(f.is_gapless() && f.is_binary());
    let f = InoutFormat::new("a");
    assert_eq!((f.offset, f.length, f.body), (FMT_HEX, FMT_HEX, FMT_ASCII));
    let f = InoutFormat::new("dxd");
    assert_eq!((f.offset, f.length, f.body), (FMT_DEC, FMT_HEX, FMT_DEC));
    assert!(!f.is_gapless());
    let f = InoutFormat::new("nnx");
    assert!(f.is_gapless() && !f.is_binary());
    assert_eq!(signature_of("nnd"), None);
    assert_eq!(signature_of("xxb"), None);
    assert_eq!(signature_of("q"), None);
    assert_eq!(signature_of("ddd"), Some(('d', 'd', 'd')));
}

#[test]
fn segment_ranges() {
    let s = Segment { pos: 10, len: 5 };
    assert_eq!(s.tail(), 15);
    assert_eq!(s.as_range(), 10..15);
    assert_eq!(s.unwind(4), Segment { pos: 6, len: 5 });
    assert_eq!(Segment::from(3..9), Segment { pos: 3, len: 6 });
    assert_eq!(Segment::from(9..3), Segment { pos: 9, len: 0 });
}

#[test]
fn missing_values_become_errors() {
    assert_eq!(Some(3u8).to_result().unwrap(), 3);
    let e = None::<u8>.to_result().unwrap_err();
    assert_eq!(e.kind(), std::io::ErrorKind::Other);
}
