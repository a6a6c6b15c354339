use vstd::prelude::*;

use super::cat::joined;
use super::eof::EofStream;
use super::text::{is_record_line, lemma_drawn_push, line_record};
use super::{invalid_stream_error, ByteStream};
use crate::common::InoutFormat;
use crate::params::MARGIN_SIZE;
use crate::parser::{
    body_end, column_byte, hex_body, hex_prefix, hex_value, leading_hex, parse_hex_body, BODY_BYTES,
    BODY_WINDOW, FIELD_WINDOW,
};

verus! {

/// Newlines a patch line is padded with before it is parsed.
pub const LINE_PAD: usize = 256;

/// A header field: hexadecimal digits closed by a space (or by a newline
/// where `newline_ok`), with the number of digits.
pub open spec fn patch_field(s: Seq<u8>, newline_ok: bool) -> Option<(u64, usize)> {
    let n = leading_hex(s, 0);
    if n < FIELD_WINDOW && n < s.len() && (s[n] == 0x20 || (newline_ok && s[n] == 0x0a)) {
        Some((hex_value(s, n) as u64, n as usize))
    } else {
        None
    }
}

/// The header of a patch line `pl`: offset, span, and where the body
/// starts (`-1` for a line without one). The span is closed by a newline,
/// a space and a newline, or a space and `| `.
pub open spec fn patch_header(pl: Seq<u8>) -> Option<(u64, u64, int)> {
    match patch_field(pl, false) {
        None => None,
        Some((offset, n1)) => {
            let rest = pl.subrange(n1 + 1, pl.len() as int);
            match patch_field(rest, true) {
                None => None,
                Some((span, n2)) => {
                    let p = n1 + 1 + n2;
                    if pl[p] == 0x0a {
                        Some((offset, span, -1))
                    } else if pl[p + 1] == 0x0a {
                        Some((offset, span, -1))
                    } else if pl[p + 1] == 0x7c && pl[p + 2] == 0x20 {
                        Some((offset, span, p + 3))
                    } else {
                        None
                    }
                },
            }
        },
    }
}

/// The bytes of a patch body read window by window from `q`: the full
/// columns of each window, until a window holds the end of the line; past
/// a `|` the rest of the line is not read.
pub open spec fn patch_body(pl: Seq<u8>, q: int, in_tail: bool) -> Option<Seq<u8>>
    decreases pl.len() - q,
{
    if q < 0 || q + BODY_WINDOW > pl.len() {
        None
    } else {
        let w = pl.subrange(q, pl.len() as int);
        match hex_body(in_tail, w) {
            None => None,
            Some((ends, filled)) => {
                let bytes = Seq::new(filled as nat, |k: int| column_byte(w, body_end(w), k));
                if ends.0 < BODY_WINDOW {
                    Some(bytes)
                } else {
                    match patch_body(pl, q + BODY_WINDOW, ends.1 < BODY_WINDOW) {
                        None => None,
                        Some(rest) => Some(bytes + rest),
                    }
                }
            },
        }
    }
}

/// A patch line: offset, span, and the bytes to put in place of the span.
pub open spec fn patch_line(pl: Seq<u8>) -> Option<(u64, u64, Seq<u8>)> {
    match patch_header(pl) {
        None => None,
        Some((offset, span, q)) => if q < 0 {
            Some((offset, span, seq![]))
        } else {
            match patch_body(pl, q, false) {
                None => None,
                Some(body) => Some((offset, span, body)),
            }
        },
    }
}

/// Whether the last `LINE_PAD` bytes of `pl` are newlines.
pub open spec fn padded(pl: Seq<u8>) -> bool {
    &&& pl.len() >= LINE_PAD
    &&& forall|i: int| pl.len() - LINE_PAD <= i < pl.len() ==> #[trigger] pl[i] == 0x0a
}

/// Reads a header field of `s` closed by a space (or a newline where
/// `newline_ok`).
fn parse_patch_field(s: &[u8], newline_ok: bool) -> (r: Option<(u64, usize)>)
    requires
        s@.len() >= FIELD_WINDOW,
    ensures
        r == patch_field(s@, newline_ok),
        r matches Some(x) ==> x.1 < FIELD_WINDOW,
{
    let (value, n) = hex_prefix(s);
    if n < FIELD_WINDOW && (s[n] == 0x20 || (newline_ok && s[n] == 0x0a)) {
        Some((value, n))
    } else {
        None
    }
}

/// Reads a padded patch line: `(offset, span, bytes)`.
pub fn parse_patch_line(pl: &[u8]) -> (r: Option<(u64, u64, Vec<u8>)>)
    requires
        padded(pl@),
    ensures
        r is Some <==> patch_line(pl@) is Some,
        r matches Some(x) ==> patch_line(pl@) == Some((x.0, x.1, x.2@)),
{
    let len = pl.len();
    let (offset, n1) = match parse_patch_field(pl, false) {
        Some(x) => x,
        None => {
            return None;
        },
    };
    assert(n1 < FIELD_WINDOW);
    let rest = vstd::slice::slice_subrange(pl, n1 + 1, len);
    let (span, n2) = match parse_patch_field(rest, true) {
        Some(x) => x,
        None => {
            return None;
        },
    };
    assert(n2 < FIELD_WINDOW);
    let p = n1 + 1 + n2;
    assert(pl@[p as int] == rest@[n2 as int]);
    let q: usize = if pl[p] == 0x0a {
        return Some((offset, span, Vec::new()));
    } else if pl[p + 1] == 0x0a {
        return Some((offset, span, Vec::new()));
    } else if pl[p + 1] == 0x7c && pl[p + 2] == 0x20 {
        p + 3
    } else {
        return None;
    };
    assert(patch_header(pl@) == Some((offset, span, q as int)));
    let mut body: Vec<u8> = Vec::new();
    let mut dst: Vec<u8> = Vec::new();
    dst.resize(BODY_BYTES, 0);
    let mut at: usize = q;
    let mut in_tail = false;
    loop
        invariant
            padded(pl@),
            len == pl@.len(),
            patch_header(pl@) == Some((offset, span, q as int)),
            dst@.len() == BODY_BYTES,
            q <= at <= len,
            ({
                let whole = patch_body(pl@, q as int, false);
                let here = patch_body(pl@, at as int, in_tail);
                &&& whole is Some <==> here is Some
                &&& here matches Some(h) ==> whole == Some(body@ + h)
            }),
        decreases len - at,
    {
        if at > len - BODY_WINDOW {
            assert(patch_body(pl@, at as int, in_tail) is None);
            return None;
        }
        let window = vstd::slice::slice_subrange(pl, at, len);
        let ((line_end, body_stop), filled) = match parse_hex_body(in_tail, window, dst.as_mut_slice()) {
            Some(x) => x,
            None => {
                assert(patch_body(pl@, at as int, in_tail) is None);
                return None;
            },
        };
        let ghost w = window@;
        let ghost bytes = Seq::new(filled as nat, |k: int| column_byte(w, body_end(w), k));
        let ghost before = body@;
        let mut k: usize = 0;
        while k < filled
            invariant
                k <= filled,
                filled <= BODY_BYTES,
                bytes == Seq::new(filled as nat, |k: int| column_byte(w, body_end(w), k)),
                w == window@,
                dst@.len() == BODY_BYTES,
                forall|j: int| 0 <= j < filled ==> dst@[j] == column_byte(w, body_end(w), j),
                body@ == before + bytes.subrange(0, k as int),
            decreases filled - k,
        {
            body.push(dst[k]);
            proof {
                assert(bytes[k as int] == dst@[k as int]);
                assert(bytes.subrange(0, k + 1) =~= bytes.subrange(0, k as int).push(dst@[k as int]));
            }
            k = k + 1;
        }
        assert(bytes.subrange(0, filled as int) =~= bytes);
        if line_end < BODY_WINDOW {
            proof {
                assert(body@ =~= before + bytes);
            }
            return Some((offset, span, body));
        }
        in_tail = body_stop < BODY_WINDOW;
        at = at + BODY_WINDOW;
        proof {
            let here = patch_body(pl@, at as int, in_tail);
            if here is Some {
                assert(before + (bytes + here.unwrap()) =~= body@ + here.unwrap());
            }
        }
    }
}

/// The first `n` bytes of `s` followed by `LINE_PAD` newlines.
pub open spec fn pad_line(s: Seq<u8>, n: int) -> Seq<u8> {
    s.subrange(0, n) + Seq::new(LINE_PAD as nat, |i: int| 0x0au8)
}

/// The text of a line taken from a stream: without its closing newline.
pub open spec fn line_text(line: Seq<u8>) -> Seq<u8> {
    if line.len() > 0 && line.last() == 0x0au8 {
        line.drop_last()
    } else {
        line
    }
}

/// Copies the first `n` bytes of `s` and pads them with newlines.
fn copy_padded(s: &[u8], n: usize) -> (r: Vec<u8>)
    requires
        n <= s@.len(),
        n + LINE_PAD <= usize::MAX,
    ensures
        r@ == pad_line(s@, n as int),
        padded(r@),
{
    let mut v: Vec<u8> = Vec::new();
    let mut i: usize = 0;
    while i < n
        invariant
            i <= n <= s@.len(),
            v@ == s@.subrange(0, i as int),
        decreases n - i,
    {
        v.push(s[i]);
        proof {
            assert(s@.subrange(0, i + 1) =~= s@.subrange(0, i as int).push(s@[i as int]));
        }
        i = i + 1;
    }
    let mut k: usize = 0;
    while k < LINE_PAD
        invariant
            k <= LINE_PAD,
            v@ == s@.subrange(0, n as int) + Seq::new(k as nat, |i: int| 0x0au8),
        decreases LINE_PAD - k,
    {
        v.push(0x0a);
        proof {
            assert(Seq::new((k + 1) as nat, |i: int| 0x0au8) =~= Seq::new(k as nat, |i: int| 0x0au8).push(
                0x0au8,
            ));
            assert(s@.subrange(0, n as int) + Seq::new((k + 1) as nat, |i: int| 0x0au8) =~= (s@.subrange(
                0,
                n as int,
            ) + Seq::new(k as nat, |i: int| 0x0au8)).push(0x0au8));
        }
        k = k + 1;
    }
    v
}

/// Reads patch records, one per line, from a byte stream.
pub struct PatchReader<P: ByteStream> {
    src: EofStream<P>,
    /// Bytes of the patch stream read so far.
    consumed: usize,
    /// The last line read, padded with newlines.
    last_line: Ghost<Seq<u8>>,
}

impl<P: ByteStream> PatchReader<P> {
    /// What the reader keeps between reads.
    pub closed spec fn wf(&self) -> bool {
        &&& self.src.wf()
        &&& self.src.request() > 0
    }

    /// Bytes of the patch stream read so far.
    pub closed spec fn consumed(&self) -> usize {
        self.consumed
    }

    /// The last line read, padded with newlines.
    pub closed spec fn last_line(&self) -> Seq<u8> {
        self.last_line@
    }

    /// The bytes taken from the patch stream so far.
    pub closed spec fn source_taken(&self) -> Seq<u8> {
        self.src.source().taken()
    }

    /// The stream the lines are read from.
    pub closed spec fn upstream(&self) -> P {
        self.src.source()
    }

    /// A reader of the records of `src`.
    pub fn new(src: P) -> (r: Self)
        requires
            src.wf(),
        ensures
            r.wf(),
            r.consumed() == 0,
            r.upstream() == src,
    {
        PatchReader { src: EofStream::new(src), consumed: 0, last_line: Ghost(Seq::empty()) }
    }

    /// Reads the next record: `(offset, span, bytes)`, `None` once the
    /// stream has ended. A line runs to its newline, or to the end of the
    /// stream; a line that is not a record is an error.
    pub fn read_line(&mut self) -> (r: std::io::Result<Option<(u64, u64, Vec<u8>)>>)
        requires
            old(self).wf(),
        ensures
            final(self).wf(),
            r matches Ok(Some(x)) ==> patch_line(final(self).last_line()) == Some((x.0, x.1, x.2@))
                && final(self).consumed() > old(self).consumed(),
            r matches Ok(None) ==> final(self).consumed() == old(self).consumed(),
            final(self).consumed() >= old(self).consumed(),
            r matches Ok(None) ==> final(self).source_taken() == old(self).source_taken(),
            r is Err ==> final(self).source_taken() == old(self).source_taken(),
            r matches Ok(Some(x)) ==> ({
                let line = final(self).source_taken().subrange(
                    old(self).source_taken().len() as int,
                    final(self).source_taken().len() as int,
                );
                &&& final(self).source_taken() == old(self).source_taken() + line
                &&& line.len() > 0
                &&& forall|j: int| 0 <= j < line.len() - 1 ==> line[j] != 0x0au8
                &&& patch_line(pad_line(line_text(line), line_text(line).len() as int)) == Some(
                    (x.0, x.1, x.2@),
                )
            }),
    {
        let ghost mut prev_len: usize = 0;
        loop
            invariant
                self.wf(),
                self.src.request() > prev_len,
                self.consumed == old(self).consumed,
                self.src.source().taken() == old(self).src.source().taken(),
            decreases usize::MAX - prev_len,
        {
            let (is_eof, len) = self.src.fill_buf()?;
            if len > usize::MAX / 4 {
                return Err(invalid_stream_error());
            }
            if len == 0 {
                return Ok(None);
            }
            let stream = self.src.as_slice();
            let mut e: usize = 0;
            while e < len && stream[e] != 0x0a
                invariant
                    e <= len,
                    len < stream@.len(),
                    forall|j: int| 0 <= j < e ==> stream@[j] != 0x0au8,
                decreases len - e,
            {
                e = e + 1;
            }
            if e == len && !is_eof {
                self.src.consume(0);
                proof {
                    prev_len = len;
                }
                continue;
            }
            let pl = copy_padded(stream, e);
            let rec = match parse_patch_line(pl.as_slice()) {
                Some(x) => x,
                None => {
                    return Err(invalid_stream_error());
                },
            };
            let used = if e < len {
                e + 1
            } else {
                len
            };
            if usize::MAX - self.consumed < used {
                return Err(invalid_stream_error());
            }
            let ghost t0 = self.src.source().taken();
            let ghost line = stream@.subrange(0, used as int);
            proof {
                assert(stream@ == self.src.source().buffer());
                if e < len {
                    assert(line.last() == 0x0au8);
                    assert(line_text(line) =~= stream@.subrange(0, e as int));
                } else {
                    assert(line_text(line) =~= stream@.subrange(0, e as int));
                }
                assert(pad_line(line_text(line), line_text(line).len() as int) =~= pad_line(
                    stream@,
                    e as int,
                ));
            }
            self.src.consume(used);
            self.consumed = self.consumed + used;
            self.last_line = Ghost(pl@);
            assert(self.src.source().taken().subrange(t0.len() as int, self.src.source().taken().len() as int)
                =~= line);
            return Ok(Some(rec));
        }
    }
}

/// Why a patch stream stopped.
#[derive(Copy, Clone, Debug, PartialEq, Eq)]
pub enum PatchError {
    /// A patch record does not start past the end of the one before.
    Overlap,
}

/// Hands out patch records one at a time, each checked against the next.
pub struct PatchFeeder<P: ByteStream> {
    patch: PatchReader<P>,
    /// The record to apply next: offset (`usize::MAX` past the last
    /// record), span and bytes.
    next_offset: usize,
    next_span: usize,
    next_body: Vec<u8>,
    /// The lines read, each with its newline; the last is the pending
    /// record's while there is one.
    lines: Ghost<Seq<Seq<u8>>>,
    /// Bytes the patch stream had handed out before the feeder read it.
    base: Ghost<Seq<u8>>,
    /// A record out of range was read.
    broken: Ghost<bool>,
}

impl<P: ByteStream> PatchFeeder<P> {
    /// What the feeder keeps between calls: the lines read are the bytes
    /// taken from the patch stream, each a record, the last the pending
    /// one.
    pub closed spec fn wf(&self) -> bool {
        &&& self.wf_lines()
        &&& !self.broken@ && self.next_offset != usize::MAX ==> self.lines@.len() > 0 && line_record(
            self.lines@.last(),
        ) == (self.next_offset as u64, self.next_span as u64, self.next_body@)
    }

    /// The lines read are the bytes taken from the patch stream, each a
    /// record.
    closed spec fn wf_lines(&self) -> bool {
        let t = self.patch.source_taken();
        &&& self.patch.wf()
        &&& self.base@.len() <= t.len()
        &&& t.subrange(0, self.base@.len() as int) == self.base@
        &&& t.subrange(self.base@.len() as int, t.len() as int) == joined(self.lines@)
        &&& forall|i: int| 0 <= i < self.lines@.len() ==> is_record_line(#[trigger] self.lines@[i])
    }

    /// The lines read from the patch stream, each with its newline.
    pub closed spec fn lines(&self) -> Seq<Seq<u8>> {
        self.lines@
    }

    /// Whether a record out of range was read.
    pub closed spec fn broken(&self) -> bool {
        self.broken@
    }

    /// The offset of the next record (`usize::MAX` past the last).
    pub closed spec fn next_offset(&self) -> usize {
        self.next_offset
    }

    /// Bytes of the patch stream read so far.
    pub closed spec fn consumed(&self) -> usize {
        self.patch.consumed()
    }

    /// The span of the next record.
    pub closed spec fn next_span(&self) -> usize {
        self.next_span
    }

    /// The bytes of the next record.
    pub closed spec fn next_body(&self) -> Seq<u8> {
        self.next_body@
    }

    /// A feeder of the records of `patch`, the first one read.
    pub fn new(patch: P) -> (r: std::io::Result<Self>)
        requires
            patch.wf(),
        ensures
            r matches Ok(f) ==> f.wf() && f.lines().len() <= 1 && !f.broken() && (f.next_offset()
                == usize::MAX ==> f.lines().len() == 0),
    {
        let reader = PatchReader::new(patch);
        let ghost base = reader.source_taken();
        let mut f = PatchFeeder {
            patch: reader,
            next_offset: usize::MAX,
            next_span: 0,
            next_body: Vec::new(),
            lines: Ghost(Seq::empty()),
            base: Ghost(base),
            broken: Ghost(false),
        };
        proof {
            let n0 = base.len() as int;
            assert(base.subrange(n0, n0) =~= joined(Seq::<Seq<u8>>::empty()));
            assert(base.subrange(0, n0) =~= base);
        }
        f.next_record()?;
        Ok(f)
    }

    /// Reads the next record into the pending one: `Ok(true)` once there
    /// are no more records. A record beyond `usize` is an error.
    fn next_record(&mut self) -> (r: std::io::Result<bool>)
        requires
            old(self).wf_lines(),
        ensures
            final(self).wf(),
            final(self).consumed() >= old(self).consumed(),
            r matches Ok(false) ==> final(self).consumed() > old(self).consumed() && final(self).next_offset
                < usize::MAX,
            r matches Ok(true) ==> final(self).next_offset == usize::MAX && final(self).next_span == 0,
            r is Err ==> final(self).next_offset == old(self).next_offset,
            r is Ok ==> final(self).broken@ == old(self).broken@,
            r is Err ==> final(self).broken@,
            final(self).lines@.len() >= old(self).lines@.len(),
            final(self).lines@.subrange(0, old(self).lines@.len() as int) == old(self).lines@,
            r matches Ok(false) ==> final(self).lines@ == old(self).lines@.push(final(self).lines@.last()),
            r matches Ok(true) ==> final(self).lines@ == old(self).lines@,
    {
        let ghost t1 = self.patch.source_taken();
        let ghost l1 = self.lines@;
        assert(l1.subrange(0, l1.len() as int) =~= l1);
        let res = match self.patch.read_line() {
            Ok(x) => x,
            Err(e) => {
                proof {
                    self.broken@ = true;
                }
                return Err(e);
            },
        };
        proof {
            if res is Some {
                let t2 = self.patch.source_taken();
                let line = t2.subrange(t1.len() as int, t2.len() as int);
                lemma_drawn_push(t1, self.base@.len() as int, l1, line);
                self.lines@ = l1.push(line);
                assert(self.lines@.subrange(0, l1.len() as int) =~= l1);
                assert forall|i: int| 0 <= i < self.lines@.len() implies is_record_line(
                    #[trigger] self.lines@[i],
                ) by {
                    if i < l1.len() {
                        assert(self.lines@[i] == l1[i]);
                    }
                }
                reveal(line_record);
            }
        }
        match res {
            Some((offset, span, body)) => {
                if offset >= usize::MAX as u64 || span > usize::MAX as u64 {
                    proof {
                        self.broken@ = true;
                    }
                    return Err(invalid_stream_error());
                }
                self.next_offset = offset as usize;
                self.next_span = span as usize;
                self.next_body = body;
                Ok(false)
            },
            None => {
                self.next_offset = usize::MAX;
                self.next_span = 0;
                self.next_body = Vec::new();
                Ok(true)
            },
        }
    }

    /// Takes the pending record, which starts at `offset`, and reads the
    /// next one: `(span, bytes)` of the record taken. The next record must
    /// not start before the end of the span.
    pub fn feed(&mut self, offset: usize) -> (r: Result<std::io::Result<(usize, Vec<u8>)>, PatchError>)
        requires
            old(self).wf(),
            old(self).next_offset() == offset,
            offset < usize::MAX,
        ensures
            final(self).wf(),
            final(self).consumed() >= old(self).consumed(),
            r matches Ok(Err(_)) ==> final(self).next_offset() == old(self).next_offset(),
            r matches Ok(Ok(x)) ==> {
                &&& x.0 == old(self).next_span()
                &&& x.1@ == old(self).next_body()
                &&& offset + x.0 <= final(self).next_offset()
                &&& (final(self).next_offset() < usize::MAX ==> final(self).consumed() > old(
                    self,
                ).consumed())
            },
            r is Err ==> offset + old(self).next_span() > final(self).next_offset(),
            r matches Ok(Err(_)) ==> final(self).broken(),
            r matches Ok(Ok(_)) ==> final(self).broken() == old(self).broken(),
            final(self).lines().len() >= old(self).lines().len(),
            final(self).lines().subrange(0, old(self).lines().len() as int) == old(self).lines(),
            !final(self).broken() && final(self).next_offset() != usize::MAX ==> final(self).lines().len()
                == old(self).lines().len() + 1,
            !final(self).broken() && final(self).next_offset() == usize::MAX ==> final(self).lines()
                == old(self).lines(),
    {
        let span = self.next_span;
        let mut body: Vec<u8> = Vec::new();
        std::mem::swap(&mut body, &mut self.next_body);
        match self.next_record() {
            Ok(_) => {},
            Err(e) => {
                return Ok(Err(e));
            },
        }
        if (offset as u128) + (span as u128) > (self.next_offset as u128) {
            return Err(PatchError::Overlap);
        }
        Ok(Ok((span, body)))
    }
}

/// The bytes of `s` with the records on `lines` applied in turn: each
/// record's bytes in place of the `span` bytes at its `offset` (as far as
/// `s` reaches).
#[verifier::opaque]
pub open spec fn patched(lines: Seq<Seq<u8>>, s: Seq<u8>) -> Seq<u8>
    decreases lines.len(),
{
    if lines.len() == 0 {
        s
    } else {
        let r = line_record(lines.last());
        let off = if r.0 < s.len() {
            r.0 as int
        } else {
            s.len() as int
        };
        let end = if r.0 + r.1 < s.len() {
            r.0 + r.1
        } else {
            s.len() as int
        };
        patched(lines.drop_last(), s.subrange(0, off)) + r.2 + s.subrange(end, s.len() as int)
    }
}

/// Each record on `lines` starts at or past the end of the one before.
pub open spec fn records_in_order(lines: Seq<Seq<u8>>) -> bool {
    forall|i: int|
        0 < i < lines.len() ==> line_record(lines[i - 1]).0 + line_record(lines[i - 1]).1
            <= #[trigger] line_record(lines[i]).0
}

/// Where the last record of `lines` ends (0 with none).
pub open spec fn last_end(lines: Seq<Seq<u8>>) -> int {
    if lines.len() == 0 {
        0
    } else {
        line_record(lines.last()).0 + line_record(lines.last()).1
    }
}

/// Bytes past the end of the last record are passed as they are.
proof fn lemma_patched_append(lines: Seq<Seq<u8>>, s: Seq<u8>, x: Seq<u8>)
    requires
        last_end(lines) <= s.len(),
    ensures
        patched(lines, s + x) == patched(lines, s) + x,
{
    reveal(patched);
    if lines.len() > 0 {
        let r = line_record(lines.last());
        assert((s + x).subrange(0, r.0 as int) =~= s.subrange(0, r.0 as int));
        assert((s + x).subrange(r.0 + r.1, (s + x).len() as int) =~= s.subrange(
            r.0 + r.1,
            s.len() as int,
        ) + x);
    } else {
        assert(patched(lines, s + x) == s + x);
    }
}

/// Bytes under the span of the last record are dropped.
proof fn lemma_patched_within(lines: Seq<Seq<u8>>, s: Seq<u8>, x: Seq<u8>)
    requires
        lines.len() > 0,
        line_record(lines.last()).0 <= s.len(),
        last_end(lines) >= (s + x).len(),
    ensures
        patched(lines, s + x) == patched(lines, s),
{
    reveal(patched);
    let r = line_record(lines.last());
    assert((s + x).subrange(0, r.0 as int) =~= s.subrange(0, r.0 as int));
    assert((s + x).subrange((s + x).len() as int, (s + x).len() as int) =~= s.subrange(
        s.len() as int,
        s.len() as int,
    ));
}

/// A record at the end of what was passed puts its bytes there.
proof fn lemma_patched_push(lines: Seq<Seq<u8>>, line: Seq<u8>, s: Seq<u8>)
    requires
        line_record(line).0 == s.len(),
    ensures
        patched(lines.push(line), s) == patched(lines, s) + line_record(line).2,
{
    reveal(patched);
    assert(lines.push(line).drop_last() =~= lines);
    assert(s.subrange(0, s.len() as int) =~= s);
    assert(s.subrange(s.len() as int, s.len() as int) =~= Seq::<u8>::empty());
}

/// Applying the pending record, the last of `lines`, at the end of what was
/// passed: its bytes follow what was made, and the source bytes under its
/// span that follow are dropped.
proof fn lemma_apply(lines: Seq<Seq<u8>>, ap: int, made: Seq<u8>, d: Seq<u8>, x: Seq<u8>)
    requires
        0 <= ap,
        ap + 1 == lines.len(),
        records_in_order(lines.take(ap)),
        last_end(lines.take(ap)) <= d.len(),
        line_record(lines.last()).0 == d.len(),
        made == patched(lines.take(ap), d),
        d.len() + x.len() <= line_record(lines.last()).0 + line_record(lines.last()).1,
    ensures
        made + line_record(lines.last()).2 == patched(lines, d + x),
        records_in_order(lines),
        last_end(lines) == line_record(lines.last()).0 + line_record(lines.last()).1,
        line_record(lines.last()).0 <= (d + x).len(),
{
    let dn = lines.take(ap);
    assert(dn.push(lines.last()) =~= lines);
    lemma_patched_push(dn, lines.last(), d);
    lemma_patched_within(lines, d, x);
    assert forall|i: int|
        0 < i < lines.len() implies line_record(lines[i - 1]).0 + line_record(lines[i - 1]).1
        <= #[trigger] line_record(lines[i]).0 by {
        if i < ap {
            assert(lines[i] == dn[i]);
            assert(lines[i - 1] == dn[i - 1]);
        } else {
            assert(lines[i - 1] == dn.last());
        }
    }
}

/// A byte stream with patch records applied: each record puts its bytes in
/// place of `span` bytes at `offset` of the source.
pub struct PatchStream<S: ByteStream, P: ByteStream> {
    src: EofStream<S>,
    feeder: PatchFeeder<P>,
    /// Bytes of the source still to drop under the last record applied.
    skip: usize,
    /// Bytes of the source passed so far.
    offset: usize,
    /// Bytes of the source consumed so far.
    src_consumed: usize,
    /// Bytes made and not consumed, then a margin of filler bytes.
    buf: Vec<u8>,
    len: usize,
    /// Set once records were found to overlap.
    failed: bool,
    /// Bytes consumed so far.
    taken: Ghost<Seq<u8>>,
    /// Number of records applied.
    applied: Ghost<nat>,
    /// Bytes the source had handed out before this stream read it.
    base: Ghost<Seq<u8>>,
    /// An error cut the stream short.
    broken: Ghost<bool>,
}

/// Whether patch records can be read in `f`: offsets and spans in
/// hexadecimal (`x`, or `n` read as `x`), a body in any text form.
pub open spec fn is_record_format(f: InoutFormat) -> bool {
    &&& f.offset == 0x78 || f.offset == 0x6e
    &&& f.length == 0x78 || f.length == 0x6e
    &&& f.body == 0x61 || f.body == 0x64 || f.body == 0x78 || f.body == 0x6e
}

pub(crate) fn record_format(f: &InoutFormat) -> (r: bool)
    ensures
        r == is_record_format(*f),
{
    (f.offset == 0x78 || f.offset == 0x6e) && (f.length == 0x78 || f.length == 0x6e) && (f.body == 0x61
        || f.body == 0x64 || f.body == 0x78 || f.body == 0x6e)
}

/// Appends `s[from..from + n]` to `v`.
fn append_range(v: &mut Vec<u8>, s: &[u8], from: usize, n: usize)
    requires
        from + n <= s@.len(),
    ensures
        final(v)@ == old(v)@ + s@.subrange(from as int, from + n),
{
    let l = s.len();
    let part = vstd::slice::slice_subrange(s, from, from + n);
    crate::byte::cut::extend_bytes(v, part);
}

impl<S: ByteStream, P: ByteStream> PatchStream<S, P> {
    /// Bytes of the source passed so far.
    pub closed spec fn offset(&self) -> usize {
        self.offset
    }

    /// The stream patched.
    pub closed spec fn upstream(&self) -> S {
        self.src.source()
    }

    /// The bytes taken from the source so far.
    pub closed spec fn drawn(&self) -> Seq<u8> {
        let t = self.src.source().taken();
        t.subrange(self.base@.len() as int, t.len() as int)
    }

    /// The lines read from the patch stream, each a record.
    pub closed spec fn patch_lines(&self) -> Seq<Seq<u8>> {
        self.feeder.lines()
    }

    /// Number of records applied.
    pub closed spec fn applied(&self) -> nat {
        self.applied@
    }

    /// Whether records were found to overlap.
    pub closed spec fn overlapped(&self) -> bool {
        self.failed
    }

    /// Whether an error cut the stream short.
    pub closed spec fn broken(&self) -> bool {
        self.broken@
    }

    /// The bytes made and not consumed.
    pub closed spec fn kept(&self) -> Seq<u8> {
        self.buf@.subrange(0, self.len as int)
    }

    /// Everything but what the stream has made.
    closed spec fn wf_core(&self) -> bool {
        let t = self.src.source().taken();
        &&& self.src.wf()
        &&& self.src.request() > 0
        &&& self.feeder.wf()
        &&& !self.failed ==> self.offset <= self.feeder.next_offset()
        &&& self.buf@.len() == self.len + MARGIN_SIZE
        &&& self.len <= usize::MAX / 2
        &&& self.base@.len() <= t.len()
        &&& t.subrange(0, self.base@.len() as int) == self.base@
    }

    /// What the stream has made, with `extra` bytes not yet kept, over the
    /// source bytes `d` passed.
    closed spec fn made_ok(&self, d: Seq<u8>, extra: Seq<u8>) -> bool {
        let lines = self.feeder.lines();
        let done = lines.take(self.applied@ as int);
        !self.failed && !self.broken@ ==> {
            &&& !self.feeder.broken()
            &&& self.applied@ <= lines.len()
            &&& self.feeder.next_offset() == usize::MAX ==> self.applied@ == lines.len()
            &&& self.feeder.next_offset() != usize::MAX ==> self.applied@ + 1 == lines.len()
            &&& self.offset == d.len() + self.skip
            &&& last_end(done) <= self.offset
            &&& self.applied@ > 0 ==> line_record(done.last()).0 <= d.len()
            &&& self.skip > 0 ==> self.applied@ > 0 && last_end(done) == self.offset
            &&& self.taken@ + self.buf@.subrange(0, self.len as int) + extra == patched(done, d)
            &&& records_in_order(done)
        }
    }

    /// What a patch stream has made, the bytes consumed and then those
    /// kept, is the bytes taken from the source with the records applied so
    /// far put in place of their spans, unless records overlapped or an
    /// error cut the stream short; the records applied are the first lines
    /// read from the patch stream.
    pub proof fn lemma_patch_content(s: &Self)
        requires
            s.wf(),
            !s.overlapped(),
            !s.broken(),
        ensures
            s.applied() <= s.patch_lines().len(),
            s.taken() + s.kept() == patched(s.patch_lines().take(s.applied() as int), s.drawn()),
            records_in_order(s.patch_lines().take(s.applied() as int)),
            s.applied() < s.patch_lines().len() ==> last_end(s.patch_lines().take(s.applied() as int))
                <= line_record(s.patch_lines()[s.applied() as int]).0,
    {
        let lines = s.patch_lines();
        if s.applied() < lines.len() {
            assert(lines[s.applied() as int] == lines.last());
        }
    }

    /// A stream of `src` with the records read from `patch`, in the text
    /// format `format`, applied. Offsets and spans are read in hexadecimal;
    /// other header formats are refused.
    pub fn new(src: S, patch: P, format: &InoutFormat) -> (r: std::io::Result<Self>)
        requires
            src.wf(),
            patch.wf(),
        ensures
            !is_record_format(*format) ==> r is Err,
            r matches Ok(p) ==> p.wf() && p.offset() == 0 && p.upstream() == src && p.applied() == 0
                && !p.overlapped() && !p.broken() && p.taken().len() == 0,
    {
        if !(record_format(format)) {
            return Err(invalid_stream_error());
        }
        let feeder = PatchFeeder::new(patch)?;
        let mut buf: Vec<u8> = Vec::new();
        buf.resize(MARGIN_SIZE, 0);
        let ghost base = src.taken();
        let r = PatchStream {
            src: EofStream::new(src),
            feeder,
            skip: 0,
            offset: 0,
            src_consumed: 0,
            buf,
            len: 0,
            failed: false,
            taken: Ghost(Seq::empty()),
            applied: Ghost(0),
            base: Ghost(base),
            broken: Ghost(false),
        };
        proof {
            reveal(patched);
            let t = r.src.source().taken();
            assert(t.subrange(0, base.len() as int) =~= base);
            assert(t.subrange(base.len() as int, t.len() as int) =~= Seq::<u8>::empty());
            assert(r.feeder.lines().take(0) =~= Seq::<Seq<u8>>::empty());
            assert(r.taken@ + r.buf@.subrange(0, 0) =~= Seq::<u8>::empty());
        }
        Ok(r)
    }
}

impl<S: ByteStream, P: ByteStream> ByteStream for PatchStream<S, P> {
    /// The pending record starts at or past the source bytes passed.
    closed spec fn wf(&self) -> bool {
        &&& self.wf_core()
        &&& self.made_ok(self.drawn(), Seq::empty())
    }

    closed spec fn available(&self) -> nat {
        self.len as nat
    }

    closed spec fn buffer(&self) -> Seq<u8> {
        self.buf@
    }

    closed spec fn taken(&self) -> Seq<u8> {
        self.taken@
    }

    /// Reads rounds of the source until one makes bytes or the source
    /// ends: each round drops what the last record still covers, keeps the
    /// source up to the next record, puts the record's bytes in place of
    /// its span, and so on to the end of the round.
    #[verifier::rlimit(100)]
    #[verifier::spinoff_prover]
    fn fill_buf(&mut self) -> (r: std::io::Result<usize>)
        ensures
            old(self).overlapped() ==> r is Err,
            r is Ok ==> final(self).overlapped() == old(self).overlapped() && final(self).broken()
                == old(self).broken(),
    {
        if self.failed {
            return Err(invalid_stream_error());
        }
        loop
            invariant
                self.taken == old(self).taken,
                self.wf(),
                self.len >= old(self).len,
                !self.failed,
                !old(self).failed,
                self.broken == old(self).broken,
            decreases usize::MAX - self.src_consumed,
        {
            let ghost consumed0 = self.src_consumed;
            while self.skip > 0
                invariant
                    self.taken == old(self).taken,
                    self.wf(),
                    self.len >= old(self).len,
                    self.src_consumed >= consumed0,
                    !self.failed,
                    !old(self).failed,
                    self.broken == old(self).broken,
                decreases self.skip,
            {
                let (is_eof, len) = self.src.fill_buf()?;
                if len > usize::MAX / 4 {
                    return Err(invalid_stream_error());
                }
                if is_eof && len == 0 {
                    return Ok(self.len);
                }
                let c = if self.skip < len {
                    self.skip
                } else {
                    len
                };
                if usize::MAX - self.src_consumed < c {
                    return Err(invalid_stream_error());
                }
                let ghost d1 = self.drawn();
                let ghost t1 = self.src.source().taken();
                let ghost b1 = self.src.source().buffer();
                let stream = self.src.as_slice();
                assert(stream@.len() >= c);
                self.src.consume(c);
                self.src_consumed = self.src_consumed + c;
                self.skip = self.skip - c;
                proof {
                    let t2 = self.src.source().taken();
                    let n0 = self.base@.len() as int;
                    assert(t2.subrange(0, n0) =~= t1.subrange(0, n0));
                    assert(self.drawn() =~= d1 + b1.subrange(0, c as int));
                    if !self.failed && !self.broken@ {
                        let done = self.feeder.lines().take(self.applied@ as int);
                        lemma_patched_within(done, d1, b1.subrange(0, c as int));
                    }
                }
            }
            let (_, len) = self.src.fill_buf()?;
            if len > usize::MAX / 4 || self.len > usize::MAX / 4 {
                return Err(invalid_stream_error());
            }
            if len == 0 {
                return Ok(self.len);
            }
            if usize::MAX - self.src_consumed < len || usize::MAX - self.offset < len {
                return Err(invalid_stream_error());
            }
            let ghost src0 = self.src;
            let ghost consumed1 = self.src_consumed;
            let ghost d0 = self.drawn();
            let stream = self.src.as_slice();
            let mut out: Vec<u8> = Vec::new();
            let mut rem = len;
            let mut pos: usize = 0;
            assert(d0 + stream@.subrange(0, 0) =~= d0);
            assert(self.taken@ + self.buf@.subrange(0, self.len as int) + out@ =~= self.taken@
                + self.buf@.subrange(0, self.len as int));
            while rem > 0
                invariant
                    self.taken == old(self).taken,
                    self.wf_core(),
                    self.made_ok(d0 + stream@.subrange(0, pos as int), out@),
                    rem > 0 ==> self.skip == 0,
                    self.src == src0,
                    stream@ == src0.source().buffer(),
                    d0 == self.drawn(),
                    self.src_consumed == consumed1,
                    consumed1 >= consumed0,
                    self.len >= old(self).len,
                    self.len <= usize::MAX / 4,
                    !self.failed,
                    self.broken == old(self).broken,
                    pos + rem == len,
                    len < stream@.len(),
                    self.offset + rem <= usize::MAX,
                    out@.len() <= usize::MAX / 4,
                decreases rem, usize::MAX - self.feeder.consumed(), (if self.feeder.next_offset() == usize::MAX {
                    0int
                } else {
                    1int
                }),
            {
                let next = if self.offset + rem < self.feeder.next_offset {
                    self.offset + rem
                } else {
                    self.feeder.next_offset
                };
                let fwd = next - self.offset;
                if out.len() > usize::MAX / 8 || fwd > usize::MAX / 8 {
                    proof {
                        self.broken@ = true;
                    }
                    return Err(invalid_stream_error());
                }
                let ghost o1 = out@;
                let ghost dd = d0 + stream@.subrange(0, pos as int);
                append_range(&mut out, stream, pos, fwd);
                proof {
                    if !self.failed && !self.broken@ {
                        let done = self.feeder.lines().take(self.applied@ as int);
                        let x = stream@.subrange(pos as int, pos + fwd);
                        lemma_patched_append(done, dd, x);
                        assert(d0 + stream@.subrange(0, pos + fwd) =~= dd + x);
                        assert(self.taken@ + self.buf@.subrange(0, self.len as int) + out@ =~= self.taken@
                            + self.buf@.subrange(0, self.len as int) + o1 + x);
                    }
                }
                self.offset = self.offset + fwd;
                rem = rem - fwd;
                pos = pos + fwd;
                if rem > 0 {
                    let ghost lines0 = self.feeder.lines();
                    let ghost ap = self.applied@;
                    let (span, body) = match self.feeder.feed(self.offset) {
                        Ok(Ok(x)) => x,
                        Ok(Err(e)) => {
                            proof {
                                self.broken@ = true;
                            }
                            return Err(e);
                        },
                        Err(PatchError::Overlap) => {
                            self.failed = true;
                            return Err(invalid_stream_error());
                        },
                    };
                    if out.len() > usize::MAX / 8 || body.len() > usize::MAX / 8 {
                        proof {
                            self.broken@ = true;
                        }
                        return Err(invalid_stream_error());
                    }
                    let ghost o2 = out@;
                    let ghost dd2 = d0 + stream@.subrange(0, pos as int);
                    let ghost kept = self.taken@ + self.buf@.subrange(0, self.len as int);
                    crate::byte::cut::extend_bytes(&mut out, body.as_slice());
                    let ghost step = if span >= rem { rem } else { span };
                    proof {
                        if !self.failed && !self.broken@ {
                            let lines = self.feeder.lines();
                            assert(lines.take((ap + 1) as int) =~= lines0);
                            let x = stream@.subrange(pos as int, pos + step);
                            lemma_apply(lines0, ap as int, kept + o2, dd2, x);
                            assert(kept + out@ =~= kept + o2 + body@);
                            assert(d0 + stream@.subrange(0, pos + step) =~= dd2 + x);
                            self.applied@ = ap + 1;
                        } else {
                            self.applied@ = if ap < lines0.len() { ap + 1 } else { ap };
                        }
                    }
                    if span >= rem {
                        self.offset = self.offset + span;
                        self.skip = span - rem;
                        rem = 0;
                        pos = len;
                    } else {
                        self.offset = self.offset + span;
                        rem = rem - span;
                        pos = pos + span;
                    }
                }
            }
            let prev = self.len;
            let ghost k0 = self.buf@.subrange(0, prev as int);
            self.buf.truncate(prev);
            crate::byte::cut::extend_bytes(&mut self.buf, out.as_slice());
            let n = self.buf.len();
            let ghost full = self.buf@;
            crate::byte::cut::set_margin(&mut self.buf, n);
            self.len = n;
            let ghost t1 = self.src.source().taken();
            self.src.consume(len);
            self.src_consumed = self.src_consumed + len;
            proof {
                let t2 = self.src.source().taken();
                let n0 = self.base@.len() as int;
                assert(t2.subrange(0, n0) =~= t1.subrange(0, n0));
                assert(self.drawn() =~= d0 + stream@.subrange(0, len as int));
                assert(self.buf@.subrange(0, n as int) =~= full);
                assert(full =~= k0 + out@);
                assert(self.taken@ + self.buf@.subrange(0, self.len as int) + Seq::<u8>::empty() =~= self.taken@
                    + k0 + out@);
            }
            if n > prev {
                return Ok(n);
            }
        }
    }

    fn as_slice(&self) -> (r: &[u8]) {
        self.buf.as_slice()
    }

    /// Drops the first `amount` bytes of the buffer.
    fn consume(&mut self, amount: usize)
        ensures
            final(self).available() == old(self).available() - amount,
            final(self).buffer() == old(self).buffer().subrange(amount as int, old(self).buffer().len() as int),
            final(self).kept() == old(self).kept().subrange(amount as int, old(self).kept().len() as int),
            final(self).drawn() == old(self).drawn(),
            final(self).patch_lines() == old(self).patch_lines(),
            final(self).applied() == old(self).applied(),
            final(self).overlapped() == old(self).overlapped(),
            final(self).broken() == old(self).broken(),
    {
        let ghost k0 = self.buf@.subrange(0, self.len as int);
        self.taken = Ghost(self.taken@ + self.buf@.subrange(0, amount as int));
        proof {
            assert(self.taken@ + self.buf@.subrange(amount as int, self.len as int) =~= old(self).taken@
                + k0);
        }
        if amount == 0 {
            assert(self.buf@.subrange(0, self.buf@.len() as int) =~= self.buf@);
            assert(self.buf@.subrange(0, self.len as int) =~= self.buf@.subrange(
                amount as int,
                self.len as int,
            ));
            assert(self.taken@ + self.buf@.subrange(0, self.len as int) + Seq::<u8>::empty() =~= self.taken@
                + self.buf@.subrange(0, self.len as int));
            assert(old(self).taken@ + k0 + Seq::<u8>::empty() =~= old(self).taken@ + k0);
            return ;
        }
        let ghost b0 = self.buf@;
        let rest = vstd::slice::slice_subrange(self.buf.as_slice(), amount, self.buf.len());
        self.buf = vstd::slice::slice_to_vec(rest);
        self.len = self.len - amount;
        proof {
            assert(self.buf@.subrange(0, self.len as int) =~= b0.subrange(
                amount as int,
                old(self).len as int,
            ));
            assert(self.taken@ + self.buf@.subrange(0, self.len as int) + Seq::<u8>::empty() =~= self.taken@
                + self.buf@.subrange(0, self.len as int));
            assert(old(self).taken@ + k0 + Seq::<u8>::empty() =~= old(self).taken@ + k0);
        }
    }
}

} // verus!
