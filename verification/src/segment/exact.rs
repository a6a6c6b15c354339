use vstd::prelude::*;
use vstd::string::StringSliceAdditionalSpecFns;

use super::{Segment, SegmentStream};
use crate::byte::eof::EofStream;
use crate::byte::{invalid_stream_error, ByteStream};
use crate::parser::{body_end, column_byte, hex_body, parse_hex_body, BODY_WINDOW};

verus! {

/// Whether `n` occurs in `h` at `p`.
pub open spec fn is_match_at(h: Seq<u8>, n: Seq<u8>, p: int) -> bool {
    0 <= p && p + n.len() <= h.len() && h.subrange(p, p + n.len()) == n
}

/// `r` lists the non-overlapping occurrences of `n` in `h` found from left
/// to right: each is an occurrence, each starts past the end of the one
/// before, and every occurrence starts inside a listed one.
pub open spec fn occurrences(h: Seq<u8>, n: Seq<u8>, r: Seq<usize>) -> bool {
    &&& forall|i: int| 0 <= i < r.len() ==> is_match_at(h, n, #[trigger] r[i] as int)
    &&& forall|i: int| 0 <= i < r.len() - 1 ==> #[trigger] r[i] + n.len() <= r[i + 1]
    &&& forall|q: int|
        #[trigger] is_match_at(h, n, q) ==> exists|i: int|
            0 <= i < r.len() && #[trigger] r[i] <= q < r[i] + n.len()
}

/// The occurrences of `needle` in `haystack`, as `memmem::find_iter` reports
/// them: non-overlapping, left to right, each the leftmost one after the
/// end of the previous.
#[verifier::external_body]
fn find_all(haystack: &[u8], needle: &[u8]) -> (r: Vec<usize>)
    requires
        needle@.len() > 0,
    ensures
        occurrences(haystack@, needle@, r@),
{
    memchr::memmem::find_iter(haystack, needle).collect()
}

/// Why a search pattern was refused.
#[derive(Copy, Clone, Debug, PartialEq, Eq)]
pub enum ExactError {
    /// The pattern is not a sequence of hexadecimal byte columns.
    BadArray,
    /// The pattern runs past the body window.
    TooLong,
}

/// The pattern text as the body parser sees it: cut or padded with
/// newlines to 256 bytes.
pub open spec fn padded_pattern(s: Seq<u8>) -> Seq<u8> {
    if s.len() >= 256 {
        s.subrange(0, 256)
    } else {
        s + Seq::new((256 - s.len()) as nat, |i: int| 0x0au8)
    }
}

/// The bytes of a pattern written as hexadecimal columns.
pub open spec fn pattern_bytes(s: Seq<u8>) -> Option<Seq<u8>> {
    let p = padded_pattern(s);
    match hex_body(false, p) {
        Some(((_, parsed), filled)) => if parsed < BODY_WINDOW {
            Some(Seq::new(filled as nat, |k: int| column_byte(p, body_end(p), k)))
        } else {
            None
        },
        None => None,
    }
}

/// Slices the stream at every occurrence of a byte pattern.
pub struct ExactMatchSlicer<S: ByteStream> {
    src: EofStream<S>,
    segments: Vec<Segment>,
    scanned: usize,
    pattern: Vec<u8>,
}

impl<S: ByteStream> ExactMatchSlicer<S> {
    /// Bytes searched so far, relative to the head of the buffer.
    pub closed spec fn scanned(&self) -> usize {
        self.scanned
    }

    /// The byte pattern searched for.
    pub closed spec fn pattern(&self) -> Seq<u8> {
        self.pattern@
    }

    /// The buffer of the source.
    pub closed spec fn buffer(&self) -> Seq<u8> {
        self.src.source().buffer()
    }

    /// The stream sliced.
    pub closed spec fn upstream(&self) -> S {
        self.src.source()
    }

    /// A slicer of `src` at every occurrence of `pattern`, written as
    /// hexadecimal byte columns (`48 65 6c`).
    pub fn new(src: S, pattern: &str) -> (r: Result<Self, ExactError>)
        requires
            src.wf(),
        ensures
            r is Err <==> pattern_bytes(pattern.spec_bytes()) is None,
            r matches Ok(m) ==> Some(m.pattern()) == pattern_bytes(pattern.spec_bytes()) && m.wf()
                && m.segments().len() == 0 && m.scanned() == 0 && m.upstream() == src,
    {
        let text = vstd::slice::slice_to_vec(pattern.as_bytes());
        let mut padded = text;
        padded.resize(256, 0x0a);
        proof {
            let s = pattern.spec_bytes();
            if s.len() >= 256 {
                assert(padded@ =~= padded_pattern(s));
            } else {
                assert forall|i: int| 0 <= i < 256 implies padded@[i] == padded_pattern(s)[i] by {
                    if i >= s.len() {
                        assert(cloned::<u8>(0x0au8, padded@[i]));
                    }
                }
                assert(padded@ =~= padded_pattern(s));
            }
        }
        let mut buf: Vec<u8> = Vec::new();
        buf.resize(64, 0);
        let ((_, parsed), filled) = match parse_hex_body(false, padded.as_slice(), buf.as_mut_slice()) {
            Some(x) => x,
            None => {
                return Err(ExactError::BadArray);
            },
        };
        if parsed >= BODY_WINDOW {
            return Err(ExactError::TooLong);
        }
        let ghost full = buf@;
        buf.truncate(filled);
        proof {
            let p = padded_pattern(pattern.spec_bytes());
            assert(padded@ == p);
            assert forall|k: int| 0 <= k < filled implies buf@[k] == column_byte(p, body_end(p), k) by {
                assert(buf@[k] == full[k]);
            }
            assert(buf@ =~= pattern_bytes(pattern.spec_bytes()).unwrap());
        }
        Ok(ExactMatchSlicer { src: EofStream::new(src), segments: Vec::new(), scanned: 0, pattern: buf })
    }

}

impl<S: ByteStream> SegmentStream for ExactMatchSlicer<S> {
    /// Occurrences found so far are ordered, each one pattern long and
    /// starting before the scanned mark.
    closed spec fn wf(&self) -> bool {
        &&& self.src.wf()
        &&& self.pattern@.len() == 0 ==> self.segments@.len() == 0
        &&& forall|i: int, j: int|
            0 <= i < j < self.segments@.len() ==> self.segments@[i].pos < self.segments@[j].pos
        &&& forall|i: int|
            0 <= i < self.segments@.len() ==> (#[trigger] self.segments@[i]).pos < self.scanned
                && self.segments@[i].len == self.pattern@.len()
    }

    /// Bytes taken from the source.
    closed spec fn consumed(&self) -> nat {
        self.src.source().taken().len()
    }

    closed spec fn segments(&self) -> Seq<Segment> {
        self.segments@
    }

    /// The source's bytes are all known and the scanned mark is among them.
    closed spec fn block(&self) -> Seq<u8> {
        self.buffer()
    }

    closed spec fn filled(&self) -> bool {
        &&& self.src.len() == self.src.source().available()
        &&& self.scanned <= self.src.len()
        &&& self.src.len() <= usize::MAX / 4
    }

    /// Reads more of the source and records the occurrences of the pattern
    /// in the newly scanned bytes: `(end reached, bytes, slices, bytes that
    /// may be consumed)`.
    fn fill_segment_buf(&mut self) -> (r: std::io::Result<(bool, usize, usize, usize)>)
        ensures
            final(self).pattern() == old(self).pattern(),
            r matches Ok(x) ==> x.2 == final(self).segments().len() && x.3 == final(self).scanned()
                && final(self).segments().len() >= old(self).segments().len()
                && final(self).segments().subrange(0, old(self).segments().len() as int) == old(
                self,
            ).segments(),
            r matches Ok(x) ==> old(self).scanned() <= x.1,
            r matches Ok(x) ==> old(self).scanned() <= x.1 && old(self).pattern().len() > 0 ==> occurrences(
                final(self).buffer().subrange(old(self).scanned() as int, x.1 as int),
                old(self).pattern(),
                final(self).segments().subrange(
                    old(self).segments().len() as int,
                    final(self).segments().len() as int,
                ).map_values(|s: Segment| (s.pos - old(self).scanned()) as usize),
            ),
    {
        let (is_eof, bytes) = self.src.fill_buf()?;
        if self.scanned > bytes || bytes > usize::MAX / 4 {
            return Err(invalid_stream_error());
        }
        if self.pattern.len() == 0 {
            self.scanned = bytes;
            return Ok((is_eof, bytes, 0, bytes));
        }
        let stream = self.src.as_slice();
        let len = self.pattern.len();
        let start = self.scanned;
        let window = vstd::slice::slice_subrange(stream, start, bytes);
        let found = find_all(window, self.pattern.as_slice());
        let ghost old_segments = self.segments@;
        let ghost src_now = self.src;
        let ghost pattern_now = self.pattern@;
        assert(stream@ == src_now.source().buffer());
        assert forall|i: int| 0 <= i < found@.len() implies #[trigger] found@[i] + len <= bytes
            - start by {
            assert(is_match_at(window@, self.pattern@, found@[i] as int));
        }
        let mut k: usize = 0;
        while k < found.len()
            invariant
                k <= found@.len(),
                start <= bytes,
                self.src == src_now,
                self.pattern@ == pattern_now,
                self.scanned == start,
                forall|i: int| 0 <= i < found@.len() ==> #[trigger] found@[i] + len <= bytes - start,
                self.segments@.len() == old_segments.len() + k,
                self.segments@.subrange(0, old_segments.len() as int) == old_segments,
                forall|i: int|
                    0 <= i < k ==> #[trigger] self.segments@[old_segments.len() + i] == (Segment {
                        pos: (start + found@[i]) as usize,
                        len,
                    }),
            decreases found@.len() - k,
        {
            assert(found@[k as int] + len <= bytes - start);
            self.segments.push(Segment { pos: start + found[k], len });
            k = k + 1;
        }
        let next = if is_eof {
            bytes
        } else if bytes >= len - 1 {
            bytes - (len - 1)
        } else {
            0
        };
        self.scanned = if next < start {
            start
        } else {
            next
        };
        proof {
            lemma_appended(old_segments, self.segments@, found@, start, len, bytes, self.scanned);
        }
        Ok((is_eof, bytes, self.segments.len(), self.scanned))
    }

    /// The buffer and the slices found in it.
    fn as_slices(&self) -> (r: (&[u8], &[Segment]))
        ensures
            r.0@ == self.buffer(),
    {
        (self.src.as_slice(), self.segments.as_slice())
    }

    /// Drops up to `bytes` bytes from the head, no more than were scanned,
    /// with the slices that start in them: `(bytes dropped, slices
    /// dropped)`. The slices kept move back by the bytes dropped.
    fn consume(&mut self, bytes: usize) -> (r: std::io::Result<(usize, usize)>)
        ensures
            final(self).pattern() == old(self).pattern(),
            r matches Ok(x) && x.0 == (if bytes < old(self).scanned() {
                bytes
            } else {
                old(self).scanned()
            }) && x.1 <= old(self).segments().len() && (forall|i: int|
                0 <= i < x.1 ==> (#[trigger] old(self).segments()[i]).pos < x.0) && (forall|i: int|
                x.1 <= i < old(self).segments().len() ==> (#[trigger] old(self).segments()[i]).pos
                    >= x.0) && final(self).segments() == old(self).segments().subrange(
                x.1 as int,
                old(self).segments().len() as int,
            ).map_values(|s: Segment| Segment { pos: (s.pos - x.0) as usize, len: s.len })
                && final(self).scanned() == old(self).scanned() - x.0,
    {
        let bytes = if bytes < self.scanned {
            bytes
        } else {
            self.scanned
        };
        self.src.consume(bytes);
        let ghost old_segments = self.segments@;
        let n = self.segments.len();
        let mut from: usize = 0;
        while from < n && self.segments[from].pos < bytes
            invariant
                n == self.segments@.len(),
                from <= n,
                forall|i: int| 0 <= i < from ==> (#[trigger] self.segments@[i]).pos < bytes,
            decreases n - from,
        {
            from = from + 1;
        }
        proof {
            assert forall|i: int| from <= i < n implies (#[trigger] old_segments[i]).pos >= bytes by {
                if i > from {
                    assert(old_segments[from as int].pos < old_segments[i].pos);
                }
            }
        }
        let mut kept: Vec<Segment> = Vec::new();
        let mut k: usize = from;
        while k < n
            invariant
                from <= k <= n,
                n == old_segments.len(),
                self.segments@ == old_segments,
                forall|i: int| from <= i < n ==> (#[trigger] old_segments[i]).pos >= bytes,
                kept@.len() == k - from,
                forall|i: int|
                    0 <= i < k - from ==> #[trigger] kept@[i] == (Segment {
                        pos: (old_segments[from + i].pos - bytes) as usize,
                        len: old_segments[from + i].len,
                    }),
            decreases n - k,
        {
            let s = self.segments[k];
            kept.push(Segment { pos: s.pos - bytes, len: s.len });
            k = k + 1;
        }
        self.segments = kept;
        self.scanned = self.scanned - bytes;
        proof {
            let tail = old_segments.subrange(from as int, n as int).map_values(
                |s: Segment| Segment { pos: (s.pos - bytes) as usize, len: s.len },
            );
            assert(self.segments@ =~= tail);
        }
        Ok((bytes, from))
    }
}

proof fn lemma_appended(
    old_segments: Seq<Segment>,
    segs: Seq<Segment>,
    found: Seq<usize>,
    start: usize,
    len: usize,
    bytes: usize,
    scanned: usize,
)
    requires
        len > 0,
        start <= bytes,
        scanned >= start,
        scanned == bytes || scanned + len >= bytes + 1,
        forall|i: int| 0 <= i < found.len() ==> #[trigger] found[i] + len <= bytes - start,
        forall|i: int| 0 <= i < found.len() - 1 ==> #[trigger] found[i] + len <= found[i + 1],
        segs.len() == old_segments.len() + found.len(),
        segs.subrange(0, old_segments.len() as int) == old_segments,
        forall|i: int, j: int|
            0 <= i < j < old_segments.len() ==> old_segments[i].pos < old_segments[j].pos,
        forall|i: int|
            0 <= i < old_segments.len() ==> (#[trigger] old_segments[i]).pos < start
                && old_segments[i].len == len,
        forall|i: int|
            0 <= i < found.len() ==> #[trigger] segs[old_segments.len() + i] == (Segment {
                pos: (start + found[i]) as usize,
                len,
            }),
    ensures
        segs.subrange(old_segments.len() as int, segs.len() as int).map_values(
            |s: Segment| (s.pos - start) as usize,
        ) == found,
        forall|i: int, j: int| 0 <= i < j < segs.len() ==> segs[i].pos < segs[j].pos,
        forall|i: int|
            0 <= i < segs.len() ==> (#[trigger] segs[i]).pos < scanned && segs[i].len == len,
{
    let n = old_segments.len() as int;
    assert forall|i: int| 0 <= i < found.len() implies #[trigger] segs[n + i].pos == start
        + found[i] by {
        assert(segs[n + i] == (Segment { pos: (start + found[i]) as usize, len }));
    }
    let tail = segs.subrange(n, segs.len() as int).map_values(|s: Segment| (s.pos - start) as usize);
    assert forall|i: int| 0 <= i < found.len() implies tail[i] == found[i] by {
        assert(segs[n + i].pos == start + found[i]);
    }
    assert(tail =~= found);
    assert forall|i: int, j: int| 0 <= i < j < segs.len() implies segs[i].pos < segs[j].pos by {
        if i >= n {
            lemma_increasing(found, len as int, i - n, j - n);
            assert(segs[n + (i - n)].pos == start + found[i - n]);
            assert(segs[n + (j - n)].pos == start + found[j - n]);
        } else if j >= n {
            assert(segs[i] == segs.subrange(0, n)[i]);
            assert(segs[n + (j - n)].pos == start + found[j - n]);
        } else {
            assert(segs[i] == segs.subrange(0, n)[i]);
            assert(segs[j] == segs.subrange(0, n)[j]);
        }
    }
    assert forall|i: int| 0 <= i < segs.len() implies (#[trigger] segs[i]).pos < scanned
        && segs[i].len == len by {
        if i >= n {
            assert(segs[n + (i - n)].pos == start + found[i - n]);
            assert(found[i - n] + len <= bytes - start);
        } else {
            assert(segs[i] == segs.subrange(0, n)[i]);
        }
    }
}

proof fn lemma_increasing(r: Seq<usize>, len: int, a: int, b: int)
    requires
        len > 0,
        0 <= a < b < r.len(),
        forall|i: int| 0 <= i < r.len() - 1 ==> #[trigger] r[i] + len <= r[i + 1],
    ensures
        r[a] < r[b],
    decreases b - a,
{
    assert(r[b - 1] + len <= r[b]);
    if a < b - 1 {
        lemma_increasing(r, len, a, b - 1);
    }
}

} // verus!
