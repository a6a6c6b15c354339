use zd::byte::eof::EofStream;
use zd::byte::mock::MockSource;
use zd::byte::zero::ZeroStream;
use zd::byte::ByteStream;
use zd::params::MARGIN_SIZE;

fn rep(pattern: &[u8], n: usize) -> Vec<u8> {
    let mut v = Vec::new();
    for _ in 0..n {
        v.extend_from_slice(pattern);
    }
    v
}

fn half_by_half(pattern: Vec<u8>) {
    let mut src = EofStream::new(MockSource::new(&pattern));
    let mut drain = Vec::new();

    // read until the first EOF report
    while drain.len() < pattern.len() {
        let (is_eof, len) = src.fill_buf().unwrap();
        if len == 0 || is_eof {
            assert!(is_eof);
            break;
        }

        drain.extend_from_slice(&src.as_slice()[..(len + 1) / 2]);
        src.consume((len + 1) / 2);
    }

    // EOF report continues
    let (is_eof, mut rem) = src.fill_buf().unwrap();
    assert!(is_eof);

    while rem > 0 {
        let (is_eof, len) = src.fill_buf().unwrap();
        assert!(is_eof);
        assert_eq!(len, rem); // no bytes added after once EOF reported

        drain.extend_from_slice(&src.as_slice()[..(rem + 1) / 2]);
        src.consume((rem + 1) / 2);
        rem -= (rem + 1) / 2;
    }

    // src gets empty
    let (is_eof, len) = src.fill_buf().unwrap();
    assert!(is_eof);
    assert_eq!(len, 0);

    // all bytes dumped to the drain
    assert_eq!(drain.len(), pattern.len());
    assert_eq!(drain, pattern);
}

#[test]
fn test_eof_stream_half_by_half() {
    half_by_half(rep(b"a", 3000));
    half_by_half(rep(b"abc", 3000));
    half_by_half(rep(b"abcbc", 3000));
    half_by_half(rep(b"abcbcdefghijklmno", 1001));
}

fn all_at_once(pattern: Vec<u8>) {
    let mut src = EofStream::new(MockSource::new(&pattern));
    let mut prev_len = 0;
    loop {
        let (is_eof, len) = src.fill_buf().unwrap();
        if len == prev_len {
            assert!(is_eof);
            break;
        }

        assert!(len < pattern.len() || is_eof);
        assert!(len > prev_len);

        src.consume(0);
        prev_len = len;
    }

    let (is_eof, len) = src.fill_buf().unwrap();
    assert!(is_eof);
    assert_eq!(len, prev_len);
    assert_eq!(len, pattern.len());

    let stream = src.as_slice();
    assert_eq!(&stream[..len], pattern.as_slice());

    src.consume(len);

    let (is_eof, len) = src.fill_buf().unwrap();
    assert!(is_eof);
    assert_eq!(len, 0);
}

#[test]
fn test_eof_stream_all_at_once() {
    all_at_once(rep(b"a", 3000));
    all_at_once(rep(b"abc", 3000));
    all_at_once(rep(b"abcbc", 3000));
    all_at_once(rep(b"abcbcdefghijklmno", 1001));
}

#[test]
fn zero_stream_all_at_once() {
    for len in [0usize, 31, 3000, 100100] {
        let mut src = ZeroStream::new(len, 0);
        let mut prev_len = 0;
        loop {
            let n = src.fill_buf().unwrap();
            if n == prev_len {
                break;
            }
            src.consume(0);
            prev_len = n;
        }
        let n = src.fill_buf().unwrap();
        assert_eq!(n, len);
        let stream = src.as_slice();
        assert!(stream.len() >= n + MARGIN_SIZE);
        assert!(stream[..n].iter().all(|&b| b == 0));
        src.consume(n);
        assert_eq!(src.fill_buf().unwrap(), 0);
    }
}

#[test]
fn zero_stream_through_eof() {
    let mut src = EofStream::new(ZeroStream::new(5000, 7));
    let (is_eof, len) = src.fill_buf().unwrap();
    assert!(is_eof);
    assert_eq!(len, 5000);
    assert!(src.as_slice()[..len].iter().all(|&b| b == 7));
    src.consume(len);
    assert_eq!(src.fill_buf().unwrap(), (true, 0));
}

#[test]
fn mock_source_grows_on_request() {
    let pattern = rep(b"xyz", 100);
    let mut src = MockSource::new(&pattern);
    assert_eq!(src.fill_buf().unwrap(), 145);
    src.consume(0);
    assert_eq!(src.fill_buf().unwrap(), 290);
    src.consume(0);
    assert_eq!(src.fill_buf().unwrap(), 300);
    assert_eq!(&src.as_slice()[..300], pattern.as_slice());
    assert_eq!(src.as_slice().len(), 300 + MARGIN_SIZE);
    src.consume(300);
    assert_eq!(src.fill_buf().unwrap(), 0);
}
