use vstd::prelude::*;

use super::cat::joined;
use super::clip::{lemma_run_join, run_of};
use super::patch::{is_record_format, line_text, pad_line, patch_line, PatchReader};
use super::{invalid_stream_error, ByteStream};
use crate::byte::cut::{extend_bytes, set_margin};
use crate::common::InoutFormat;
use crate::params::{BLOCK_SIZE, MARGIN_SIZE};

verus! {

/// Appends `n` copies of `b` to `v`.
pub(crate) fn append_filler(v: &mut Vec<u8>, n: usize, b: u8)
    requires
        old(v)@.len() + n <= usize::MAX,
    ensures
        final(v)@ == old(v)@ + Seq::new(n as nat, |i: int| b),
{
    let ghost before = v@;
    let mut k: usize = 0;
    while k < n
        invariant
            k <= n,
            before.len() + n <= usize::MAX,
            v@ == before + Seq::new(k as nat, |i: int| b),
        decreases n - k,
    {
        v.push(b);
        proof {
            assert(before + Seq::new((k + 1) as nat, |i: int| b) =~= (before + Seq::new(
                k as nat,
                |i: int| b,
            )).push(b));
        }
        k = k + 1;
    }
}

/// A binary stream made of text records: each record's bytes are put at
/// its offset, gaps filled with a filler byte; a record starting before
/// the end of the one before cuts it back.
pub struct TextStream<S: ByteStream> {
    reader: PatchReader<S>,
    /// The record to put next: offset (`usize::MAX` past the last), span
    /// and bytes.
    next_offset: usize,
    next_span: usize,
    next_body: Vec<u8>,
    /// Position reached in the stream made.
    offset: usize,
    /// The byte gaps are filled with.
    filler: u8,
    /// Bytes made and not consumed, then a margin of zeros.
    buf: Vec<u8>,
    len: usize,
    /// Bytes consumed so far.
    taken: Ghost<Seq<u8>>,
    /// The lines read so far, each with its newline; the last is the
    /// pending record's while there is one.
    lines: Ghost<Seq<Seq<u8>>>,
    /// Bytes the source had handed out before the stream read it.
    base: Ghost<Seq<u8>>,
    /// Number of records put.
    placed: Ghost<nat>,
    /// An error cut the stream short.
    failed: Ghost<bool>,
}

/// The record on a line of a record stream: offset, span and bytes.
#[verifier::opaque]
pub open spec fn line_record(line: Seq<u8>) -> (u64, u64, Seq<u8>) {
    match patch_line(pad_line(line_text(line), line_text(line).len() as int)) {
        Some(x) => x,
        None => (0u64, 0u64, Seq::empty()),
    }
}

/// The records on `lines` put one after another, each at its offset, the
/// gaps filled with `f`.
#[verifier::opaque]
pub open spec fn text_layout(lines: Seq<Seq<u8>>, f: u8) -> Seq<u8>
    decreases lines.len(),
{
    if lines.len() == 0 {
        Seq::empty()
    } else {
        let prev = text_layout(lines.drop_last(), f);
        let rec = line_record(lines.last());
        prev + run_of((rec.0 - prev.len()) as nat, f) + rec.2
    }
}

/// The records on `lines` come in order, each after the end of the one
/// before, and each holds its span of bytes.
pub open spec fn in_order(lines: Seq<Seq<u8>>) -> bool {
    &&& forall|i: int|
        0 <= i < lines.len() ==> (#[trigger] line_record(lines[i])).2.len() == line_record(lines[i]).1
    &&& forall|i: int|
        0 < i < lines.len() ==> line_record(lines[i - 1]).0 + line_record(lines[i - 1]).1
            <= #[trigger] line_record(lines[i]).0
}

/// The lines before the last of lines in order are in order, and the
/// last one's record holds its span and starts after the one before ends.
proof fn lemma_in_order_push(lines: Seq<Seq<u8>>, line: Seq<u8>)
    requires
        in_order(lines.push(line)),
    ensures
        in_order(lines),
        line_record(line).2.len() == line_record(line).1,
        lines.len() > 0 ==> line_record(lines.last()).0 + line_record(lines.last()).1 <= line_record(
            line,
        ).0,
{
    let l2 = lines.push(line);
    assert forall|i: int|
        0 <= i < lines.len() implies (#[trigger] line_record(lines[i])).2.len() == line_record(
            lines[i],
        ).1 by {
        assert(lines[i] == l2[i]);
    }
    assert forall|i: int|
        0 < i < lines.len() implies line_record(lines[i - 1]).0 + line_record(lines[i - 1]).1
        <= #[trigger] line_record(lines[i]).0 by {
        assert(lines[i] == l2[i]);
        assert(lines[i - 1] == l2[i - 1]);
    }
    assert(l2[lines.len() as int] == line);
    if lines.len() > 0 {
        assert(l2[lines.len() - 1] == lines.last());
    }
}

/// Bytes taken after a start, as lines: one more line read joins them.
pub(crate) proof fn lemma_drawn_push(t: Seq<u8>, n0: int, lines: Seq<Seq<u8>>, line: Seq<u8>)
    requires
        0 <= n0 <= t.len(),
        t.subrange(n0, t.len() as int) == joined(lines),
    ensures
        (t + line).subrange(n0, (t + line).len() as int) == joined(lines.push(line)),
        (t + line).subrange(0, n0) == t.subrange(0, n0),
{
    lemma_lines_push(lines, line);
    assert((t + line).subrange(n0, (t + line).len() as int) =~= t.subrange(n0, t.len() as int) + line);
    assert((t + line).subrange(0, n0) =~= t.subrange(0, n0));
}

/// What was made, then more fillers: the fillers run on.
proof fn lemma_fill(prefix: Seq<u8>, made: Seq<u8>, offset: int, fwd: nat, f: u8)
    requires
        made.len() <= offset,
        prefix == made + run_of((offset - made.len()) as nat, f),
    ensures
        prefix + run_of(fwd, f) == made + run_of((offset + fwd - made.len()) as nat, f),
{
    lemma_run_join((offset - made.len()) as nat, fwd, f);
    assert(prefix + run_of(fwd, f) =~= made + (run_of((offset - made.len()) as nat, f) + run_of(fwd, f)));
}

/// What was made up to the pending record's offset, then its bytes: the
/// records put so far with it.
proof fn lemma_place(lines: Seq<Seq<u8>>, p: int, prefix: Seq<u8>, offset: int, f: u8)
    requires
        0 <= p,
        p + 1 == lines.len(),
        in_order(lines),
        text_layout(lines.take(p), f).len() <= offset,
        prefix == text_layout(lines.take(p), f) + run_of(
            (offset - text_layout(lines.take(p), f).len()) as nat,
            f,
        ),
        offset == line_record(lines.last()).0,
    ensures
        prefix + line_record(lines.last()).2 == text_layout(lines.take(p + 1), f) + run_of(0, f),
        text_layout(lines.take(p + 1), f).len() == offset + line_record(lines.last()).1,
{
    let line = lines.last();
    assert(lines.take(p + 1) =~= lines.take(p).push(line));
    lemma_layout_push(lines.take(p), line, f);
    assert(line == lines[p]);
    assert(line_record(lines[p]).2.len() == line_record(lines[p]).1);
    assert(prefix + line_record(line).2 =~= text_layout(lines.take(p + 1), f) + run_of(0, f));
}

/// Putting one more record after its gap.
proof fn lemma_layout_push(lines: Seq<Seq<u8>>, line: Seq<u8>, f: u8)
    ensures
        text_layout(lines.push(line), f) == text_layout(lines, f) + run_of(
            (line_record(line).0 - text_layout(lines, f).len()) as nat,
            f,
        ) + line_record(line).2,
{
    reveal(text_layout);
    assert(lines.push(line).drop_last() =~= lines);
}

/// No records, nothing put.
proof fn lemma_layout_empty(lines: Seq<Seq<u8>>, f: u8)
    requires
        lines.len() == 0,
    ensures
        text_layout(lines, f) == Seq::<u8>::empty(),
{
    reveal(text_layout);
}

impl<S: ByteStream> TextStream<S> {
    /// The byte gaps are filled with.
    pub closed spec fn filler(&self) -> u8 {
        self.filler
    }

    /// Position reached in the stream made.
    pub closed spec fn offset(&self) -> usize {
        self.offset
    }

    /// The stream the records are read from.
    pub closed spec fn upstream(&self) -> S {
        self.reader.upstream()
    }

    /// Whether every record has been put.
    pub closed spec fn records_done(&self) -> bool {
        self.next_offset == usize::MAX
    }

    /// The lines read from the source so far, each with its newline.
    pub closed spec fn lines(&self) -> Seq<Seq<u8>> {
        self.lines@
    }

    /// Number of records put.
    pub closed spec fn placed(&self) -> nat {
        self.placed@
    }

    /// Whether an error cut the stream short.
    pub closed spec fn failed(&self) -> bool {
        self.failed@
    }

    /// The bytes taken from the source so far.
    pub closed spec fn drawn(&self) -> Seq<u8> {
        self.reader.source_taken().subrange(self.base@.len() as int, self.reader.source_taken().len() as int)
    }

    /// The bytes made and not consumed.
    pub closed spec fn kept(&self) -> Seq<u8> {
        self.buf@.subrange(0, self.len as int)
    }

    /// What a text stream has made, the bytes consumed and then those kept,
    /// is the records put so far, each at its offset with the gap before it
    /// filled, then fillers up to the position reached, while the records
    /// read come in order, each with its span of bytes, and no error has cut
    /// the stream short; the lines read, each a record, are the bytes taken
    /// from the source.
    pub proof fn lemma_text_content(s: &Self)
        requires
            s.wf(),
        ensures
            s.drawn() == joined(s.lines()),
            forall|i: int| 0 <= i < s.lines().len() ==> is_record_line(#[trigger] s.lines()[i]),
            s.placed() <= s.lines().len(),
            !s.failed() && s.records_done() ==> s.placed() == s.lines().len(),
            !s.failed() && in_order(s.lines()) ==> {
                let made = text_layout(s.lines().take(s.placed() as int), s.filler());
                &&& made.len() <= s.offset()
                &&& s.taken() + s.kept() == made + run_of((s.offset() - made.len()) as nat, s.filler())
            },
    {
    }

    /// Reads the next record into the pending one: `Ok(true)` once there
    /// are none. A line read joins the lines.
    fn next_record(&mut self) -> (r: std::io::Result<bool>)
        requires
            old(self).reader.wf(),
        ensures
            final(self).reader.wf(),
            final(self).offset == old(self).offset,
            final(self).filler == old(self).filler,
            final(self).buf == old(self).buf,
            final(self).len == old(self).len,
            final(self).taken == old(self).taken,
            final(self).base == old(self).base,
            final(self).placed == old(self).placed,
            final(self).failed == old(self).failed,
            final(self).reader.consumed() >= old(self).reader.consumed(),
            r matches Ok(false) ==> final(self).reader.consumed() > old(self).reader.consumed()
                && final(self).next_offset < usize::MAX / 4,
            r matches Ok(true) ==> final(self).next_offset == usize::MAX,
            r is Ok ==> (final(self).next_offset == usize::MAX || final(self).next_offset < usize::MAX / 4)
                && final(self).next_span < usize::MAX / 4,
            r is Err ==> final(self).next_offset == old(self).next_offset && final(self).next_span
                == old(self).next_span,
            final(self).lines@.len() == old(self).lines@.len() ==> final(self).lines@ == old(self).lines@
                && final(self).reader.source_taken() == old(self).reader.source_taken(),
            final(self).lines@.len() != old(self).lines@.len() ==> final(self).lines@ == old(
                self,
            ).lines@.push(final(self).lines@.last()) && final(self).reader.source_taken() == old(
                self,
            ).reader.source_taken() + final(self).lines@.last() && is_record_line(
                final(self).lines@.last(),
            ),
            r matches Ok(true) ==> final(self).lines@ == old(self).lines@,
            r matches Ok(false) ==> final(self).lines@.len() == old(self).lines@.len() + 1 && line_record(
                final(self).lines@.last(),
            ) == (final(self).next_offset as u64, final(self).next_span as u64, final(self).next_body@),
    {
        let ghost t1 = self.reader.source_taken();
        match self.reader.read_line()? {
            Some((offset, span, body)) => {
                proof {
                    let t2 = self.reader.source_taken();
                    let line = t2.subrange(t1.len() as int, t2.len() as int);
                    self.lines@ = self.lines@.push(line);
                    assert(self.lines@.last() == line);
                    reveal(line_record);
                }
                if offset >= (usize::MAX / 4) as u64 || span >= (usize::MAX / 4) as u64 {
                    return Err(invalid_stream_error());
                }
                self.next_offset = offset as usize;
                self.next_span = span as usize;
                self.next_body = body;
                Ok(false)
            },
            None => {
                self.next_offset = usize::MAX;
                self.next_span = 0;
                self.next_body = Vec::new();
                Ok(true)
            },
        }
    }

    /// A stream made of the text records read from `src`, in the text
    /// format `format` (offsets and spans in hexadecimal), gaps filled with
    /// `filler`.
    pub fn new(src: S, filler: u8, format: &InoutFormat) -> (r: std::io::Result<Self>)
        requires
            src.wf(),
        ensures
            !is_record_format(*format) ==> r is Err,
            r matches Ok(t) ==> t.wf() && t.offset() == 0 && t.filler() == filler && t.taken().len()
                == 0 && t.kept().len() == 0 && t.placed() == 0 && !t.failed(),
    {
        if !(super::patch::record_format(format)) {
            return Err(invalid_stream_error());
        }
        let mut buf: Vec<u8> = Vec::new();
        buf.resize(MARGIN_SIZE, 0);
        let reader = PatchReader::new(src);
        let ghost base = reader.source_taken();
        let mut t = TextStream {
            reader,
            next_offset: 0,
            next_span: 0,
            next_body: Vec::new(),
            offset: 0,
            filler,
            buf,
            len: 0,
            taken: Ghost(Seq::empty()),
            lines: Ghost(Seq::empty()),
            base: Ghost(base),
            placed: Ghost(0),
            failed: Ghost(false),
        };
        let done = t.next_record()?;
        proof {
            if done {
                assert(t.lines@.len() == 0);
            }
            let n0 = base.len() as int;
            assert(base.subrange(n0, n0) =~= joined(Seq::<Seq<u8>>::empty()));
            assert(base.subrange(0, n0) =~= base);
            if t.lines@.len() != 0 {
                lemma_drawn_push(base, n0, Seq::<Seq<u8>>::empty(), t.lines@.last());
            } else {
                assert(t.reader.source_taken() == base);
            }
            assert(t.lines@.take(0) =~= Seq::<Seq<u8>>::empty());
            lemma_layout_empty(t.lines@.take(0), filler);
            assert(t.taken@ + t.buf@.subrange(0, 0) =~= text_layout(t.lines@.take(0), filler) + run_of(
                0,
                filler,
            ));
        }
        Ok(t)
    }
}

impl<S: ByteStream> TextStream<S> {
    /// Everything but what the stream has made.
    closed spec fn wf_core(&self) -> bool {
        let t = self.reader.source_taken();
        &&& self.reader.wf()
        &&& self.buf@.len() == self.len + MARGIN_SIZE
        &&& self.len <= usize::MAX / 2
        &&& self.offset <= usize::MAX / 4
        &&& self.next_offset == usize::MAX || self.next_offset < usize::MAX / 4
        &&& self.next_span < usize::MAX / 4
        &&& self.base@.len() <= t.len()
        &&& t.subrange(0, self.base@.len() as int) == self.base@
        &&& t.subrange(self.base@.len() as int, t.len() as int) == joined(self.lines@)
        &&& forall|i: int| 0 <= i < self.lines@.len() ==> is_record_line(#[trigger] self.lines@[i])
        &&& self.placed@ <= self.lines@.len()
        &&& !self.failed@ && self.next_offset == usize::MAX ==> self.placed@ == self.lines@.len()
        &&& !self.failed@ && self.next_offset != usize::MAX ==> self.placed@ + 1 == self.lines@.len()
            && line_record(self.lines@.last()) == (
            self.next_offset as u64,
            self.next_span as u64,
            self.next_body@,
        )
    }

    /// What the stream has made, with `extra` bytes not yet kept: the
    /// records put and fillers up to the position reached.
    closed spec fn made_ok(&self, extra: Seq<u8>) -> bool {
        let made = text_layout(self.lines@.take(self.placed@ as int), self.filler);
        !self.failed@ && in_order(self.lines@) ==> {
            &&& made.len() <= self.offset
            &&& self.taken@ + self.buf@.subrange(0, self.len as int) + extra == made + run_of(
                (self.offset - made.len()) as nat,
                self.filler,
            )
            &&& self.next_offset != usize::MAX ==> self.next_offset >= self.offset
        }
    }
}

impl<S: ByteStream> ByteStream for TextStream<S> {
    closed spec fn wf(&self) -> bool {
        &&& self.wf_core()
        &&& self.made_ok(Seq::empty())
    }

    closed spec fn available(&self) -> nat {
        self.len as nat
    }

    closed spec fn buffer(&self) -> Seq<u8> {
        self.buf@
    }

    closed spec fn taken(&self) -> Seq<u8> {
        self.taken@
    }

    /// Puts records, gaps filled, until a block of filler or the records
    /// end; once they have ended there is nothing more to read.
    #[verifier::rlimit(60)]
    fn fill_buf(&mut self) -> (r: std::io::Result<usize>)
        ensures
            old(self).records_done() && old(self).available() <= usize::MAX / 4 ==> r is Ok
                && final(self).available() == old(self).available(),
            r is Ok ==> final(self).failed() == old(self).failed(),
            final(self).lines().len() >= old(self).lines().len(),
            final(self).lines().subrange(0, old(self).lines().len() as int) == old(self).lines(),
            final(self).placed() >= old(self).placed(),
    {
        let prev = self.len;
        let mut out: Vec<u8> = Vec::new();
        assert(self.lines@.subrange(0, self.lines@.len() as int) =~= self.lines@);
        assert(self.taken@ + self.buf@.subrange(0, self.len as int) + out@ =~= self.taken@
            + self.buf@.subrange(0, self.len as int));
        loop
            invariant
                self.taken == old(self).taken,
                self.buf == old(self).buf,
                self.filler == old(self).filler,
                self.base == old(self).base,
                self.failed == old(self).failed,
                self.wf_core(),
                self.made_ok(out@),
                self.len == prev,
                out@.len() <= usize::MAX / 4,
                old(self).next_offset == usize::MAX ==> out@.len() == 0 && self.next_offset == usize::MAX,
                self.lines@.len() >= old(self).lines@.len(),
                self.lines@.subrange(0, old(self).lines@.len() as int) == old(self).lines@,
                self.placed@ >= old(self).placed@,
            decreases usize::MAX - self.reader.consumed(),
        {
            if self.next_offset == usize::MAX {
                break;
            }
            let next = if self.next_offset < self.offset + BLOCK_SIZE {
                self.next_offset
            } else {
                self.offset + BLOCK_SIZE
            };
            let fwd = if next > self.offset {
                next - self.offset
            } else {
                0
            };
            if out.len() > usize::MAX / 16 || self.next_body.len() > usize::MAX / 16 {
                proof {
                    self.failed@ = true;
                }
                return Err(invalid_stream_error());
            }
            let ghost made = text_layout(self.lines@.take(self.placed@ as int), self.filler);
            let ghost o1 = out@;
            append_filler(&mut out, fwd, self.filler);
            proof {
                if !self.failed@ && in_order(self.lines@) {
                    let kept = self.taken@ + self.buf@.subrange(0, self.len as int);
                    lemma_fill(kept + o1, made, self.offset as int, fwd as nat, self.filler);
                    assert(kept + out@ =~= kept + o1 + run_of(fwd as nat, self.filler));
                }
            }
            self.offset = self.offset + fwd;
            if fwd == BLOCK_SIZE {
                break;
            }
            let ghost o2 = out@;
            extend_bytes(&mut out, self.next_body.as_slice());
            if self.offset + self.next_span > usize::MAX / 4 {
                proof {
                    self.failed@ = true;
                }
                return Err(invalid_stream_error());
            }
            proof {
                if !self.failed@ && in_order(self.lines@) {
                    let kept = self.taken@ + self.buf@.subrange(0, self.len as int);
                    assert(self.offset == self.next_offset);
                    lemma_place(self.lines@, self.placed@ as int, kept + o2, self.offset as int, self.filler);
                    assert(kept + out@ =~= kept + o2 + self.next_body@);
                }
            }
            self.offset = self.offset + self.next_span;
            proof {
                if !self.failed@ {
                    self.placed@ = self.placed@ + 1;
                }
            }
            let ghost l1 = self.lines@;
            let ghost t1 = self.reader.source_taken();
            let res = self.next_record();
            proof {
                if self.lines@.len() != l1.len() {
                    let line = self.lines@.last();
                    lemma_drawn_push(t1, self.base@.len() as int, l1, line);
                    assert forall|i: int| 0 <= i < self.lines@.len() implies is_record_line(
                        #[trigger] self.lines@[i],
                    ) by {
                        if i < l1.len() {
                            assert(self.lines@[i] == l1[i]);
                        }
                    }
                    assert(self.lines@.take(self.placed@ as int) =~= l1.take(self.placed@ as int));
                    if in_order(self.lines@) {
                        lemma_in_order_push(l1, line);
                    }
                }
                assert(self.lines@.subrange(0, old(self).lines@.len() as int) =~= l1.subrange(
                    0,
                    old(self).lines@.len() as int,
                ));
            }
            let done = match res {
                Ok(d) => d,
                Err(e) => {
                    proof {
                        self.failed@ = true;
                    }
                    return Err(e);
                },
            };
            if done {
                break;
            }
            let overlap = if self.offset > self.next_offset {
                self.offset - self.next_offset
            } else {
                0
            };
            let cut = if overlap < out.len() {
                overlap
            } else {
                out.len()
            };
            let ghost o3 = out@;
            out.truncate(out.len() - cut);
            self.offset = self.offset - overlap;
            proof {
                if !self.failed@ && in_order(self.lines@) {
                    assert(overlap == 0);
                    assert(out@ =~= o3);
                }
            }
        }
        if out.len() > usize::MAX / 8 || self.len > usize::MAX / 4 {
            proof {
                self.failed@ = true;
            }
            return Err(invalid_stream_error());
        }
        let ghost k0 = self.buf@.subrange(0, prev as int);
        self.buf.truncate(prev);
        extend_bytes(&mut self.buf, out.as_slice());
        let n = self.buf.len();
        let ghost full = self.buf@;
        set_margin(&mut self.buf, n);
        self.len = n;
        proof {
            assert(self.buf@.subrange(0, n as int) =~= full);
            assert(full =~= k0 + out@);
            assert(self.taken@ + self.buf@.subrange(0, self.len as int) + Seq::<u8>::empty() =~= self.taken@
                + k0 + out@);
        }
        Ok(n)
    }

    fn as_slice(&self) -> (r: &[u8]) {
        self.buf.as_slice()
    }

    /// Drops the first `amount` bytes of the buffer.
    fn consume(&mut self, amount: usize)
        ensures
            final(self).available() == old(self).available() - amount,
            final(self).buffer() == old(self).buffer().subrange(amount as int, old(self).buffer().len() as int),
            final(self).kept() == old(self).kept().subrange(amount as int, old(self).kept().len() as int),
            final(self).lines() == old(self).lines(),
            final(self).placed() == old(self).placed(),
            final(self).failed() == old(self).failed(),
            final(self).offset() == old(self).offset(),
    {
        let ghost k0 = self.buf@.subrange(0, self.len as int);
        self.taken = Ghost(self.taken@ + self.buf@.subrange(0, amount as int));
        proof {
            assert(self.taken@ + self.buf@.subrange(amount as int, self.len as int) =~= old(self).taken@
                + k0);
        }
        if amount == 0 {
            assert(self.buf@.subrange(0, self.buf@.len() as int) =~= self.buf@);
            assert(self.buf@.subrange(0, self.len as int) =~= self.buf@.subrange(
                amount as int,
                self.len as int,
            ));
            assert(self.taken@ + self.buf@.subrange(0, self.len as int) + Seq::<u8>::empty() =~= self.taken@
                + self.buf@.subrange(0, self.len as int));
            return ;
        }
        let ghost b0 = self.buf@;
        let rest = vstd::slice::slice_subrange(self.buf.as_slice(), amount, self.buf.len());
        self.buf = vstd::slice::slice_to_vec(rest);
        self.len = self.len - amount;
        proof {
            assert(self.buf@.subrange(0, self.len as int) =~= b0.subrange(
                amount as int,
                old(self).len as int,
            ));
            assert(self.taken@ + self.buf@.subrange(0, self.len as int) + Seq::<u8>::empty() =~= self.taken@
                + self.buf@.subrange(0, self.len as int));
            assert(old(self).taken@ + k0 + Seq::<u8>::empty() =~= old(self).taken@ + k0);
        }
    }
}

/// A binary stream of the bytes of text records, one after another; the
/// offsets and spans of the records are not used.
pub struct GaplessTextStream<S: ByteStream> {
    reader: PatchReader<S>,
    /// Bytes made and not consumed, then a margin of zeros.
    buf: Vec<u8>,
    len: usize,
    /// Bytes consumed so far.
    taken: Ghost<Seq<u8>>,
    /// The lines read so far, each with its newline.
    lines: Ghost<Seq<Seq<u8>>>,
    /// Bytes the source had handed out before the stream read it.
    base: Ghost<Seq<u8>>,
    /// A record was too long to hold.
    failed: Ghost<bool>,
}

/// A line of a record stream: not empty, a newline at most at its end,
/// and a record.
pub open spec fn is_record_line(line: Seq<u8>) -> bool {
    &&& line.len() > 0
    &&& forall|j: int| 0 <= j < line.len() - 1 ==> line[j] != 0x0au8
    &&& patch_line(pad_line(line_text(line), line_text(line).len() as int)) is Some
}

/// The bytes of the record on a line.
pub open spec fn line_bytes(line: Seq<u8>) -> Seq<u8> {
    match patch_line(pad_line(line_text(line), line_text(line).len() as int)) {
        Some(x) => x.2,
        None => Seq::empty(),
    }
}

/// The bytes of the records on `lines`, line by line.
pub open spec fn lines_bytes(lines: Seq<Seq<u8>>) -> Seq<Seq<u8>> {
    Seq::new(lines.len(), |i: int| line_bytes(lines[i]))
}

/// One more line adds its record's bytes.
pub(crate) proof fn lemma_lines_push(lines: Seq<Seq<u8>>, line: Seq<u8>)
    ensures
        joined(lines_bytes(lines.push(line))) == joined(lines_bytes(lines)) + line_bytes(line),
        joined(lines.push(line)) == joined(lines) + line,
{
    assert(lines_bytes(lines.push(line)).drop_last() =~= lines_bytes(lines));
    assert(lines.push(line).drop_last() =~= lines);
}

impl<S: ByteStream> GaplessTextStream<S> {
    /// The bytes made and not consumed.
    pub closed spec fn kept(&self) -> Seq<u8> {
        self.buf@.subrange(0, self.len as int)
    }

    /// The lines read from the source so far, each with its newline.
    pub closed spec fn lines(&self) -> Seq<Seq<u8>> {
        self.lines@
    }

    /// The stream the records are read from.
    pub closed spec fn upstream(&self) -> S {
        self.reader.upstream()
    }

    /// The bytes taken from the source so far.
    pub closed spec fn drawn(&self) -> Seq<u8> {
        self.reader.source_taken().subrange(self.base@.len() as int, self.reader.source_taken().len() as int)
    }

    /// Whether a record was too long to hold.
    pub closed spec fn failed(&self) -> bool {
        self.failed@
    }

    /// What a gapless stream has made, the bytes consumed and then those
    /// kept, is the bytes of the records on the lines it read, one after
    /// another (unless a record was too long to hold); those lines, each a
    /// record, are the bytes it took from the source.
    pub proof fn lemma_gapless_content(s: &Self)
        requires
            s.wf(),
        ensures
            s.drawn() == joined(s.lines()),
            !s.failed() ==> s.taken() + s.kept() == joined(lines_bytes(s.lines())),
            forall|i: int| 0 <= i < s.lines().len() ==> is_record_line(#[trigger] s.lines()[i]),
    {
    }
}

impl<S: ByteStream> GaplessTextStream<S> {
    /// A stream of the bytes of the text records read from `src`, in the
    /// text format `format`.
    pub fn new(src: S, format: &InoutFormat) -> (r: std::io::Result<Self>)
        requires
            src.wf(),
        ensures
            r is Ok <==> is_record_format(*format),
            r matches Ok(t) ==> t.wf() && t.taken().len() == 0 && t.kept().len() == 0 && t.lines().len()
                == 0 && !t.failed() && t.upstream() == src,
    {
        if !(super::patch::record_format(format)) {
            return Err(invalid_stream_error());
        }
        let mut buf: Vec<u8> = Vec::new();
        buf.resize(MARGIN_SIZE, 0);
        let reader = PatchReader::new(src);
        let ghost base = reader.source_taken();
        let r = GaplessTextStream {
            reader,
            buf,
            len: 0,
            taken: Ghost(Seq::empty()),
            lines: Ghost(Seq::empty()),
            base: Ghost(base),
            failed: Ghost(false),
        };
        proof {
            assert(r.reader.source_taken().subrange(0, base.len() as int) =~= base);
            assert(r.drawn() =~= joined(Seq::<Seq<u8>>::empty()));
            assert(r.taken@ + r.buf@.subrange(0, 0) =~= joined(lines_bytes(Seq::<Seq<u8>>::empty())));
        }
        Ok(r)
    }
}

impl<S: ByteStream> ByteStream for GaplessTextStream<S> {
    closed spec fn wf(&self) -> bool {
        let t = self.reader.source_taken();
        &&& self.reader.wf()
        &&& self.buf@.len() == self.len + MARGIN_SIZE
        &&& self.len <= usize::MAX / 2
        &&& self.base@.len() <= t.len()
        &&& t.subrange(0, self.base@.len() as int) == self.base@
        &&& t.subrange(self.base@.len() as int, t.len() as int) == joined(self.lines@)
        &&& !self.failed@ ==> self.taken@ + self.buf@.subrange(0, self.len as int) == joined(
            lines_bytes(self.lines@),
        )
        &&& forall|i: int| 0 <= i < self.lines@.len() ==> is_record_line(#[trigger] self.lines@[i])
    }

    closed spec fn available(&self) -> nat {
        self.len as nat
    }

    closed spec fn buffer(&self) -> Seq<u8> {
        self.buf@
    }

    closed spec fn taken(&self) -> Seq<u8> {
        self.taken@
    }

    /// Reads records until one has bytes or the records end.
    fn fill_buf(&mut self) -> (r: std::io::Result<usize>)
        ensures
            final(self).kept().len() >= old(self).kept().len(),
            final(self).kept().subrange(0, old(self).kept().len() as int) == old(self).kept(),
            final(self).lines().len() >= old(self).lines().len(),
            final(self).lines().subrange(0, old(self).lines().len() as int) == old(self).lines(),
            r is Ok ==> final(self).failed() == old(self).failed(),
    {
        let ghost k0 = self.buf@.subrange(0, self.len as int);
        assert(self.lines@.subrange(0, self.lines@.len() as int) =~= self.lines@);
        loop
            invariant
                self.taken == old(self).taken,
                self.base == old(self).base,
                self.wf(),
                self.len >= old(self).len,
                k0 == old(self).buf@.subrange(0, old(self).len as int),
                self.buf@.subrange(0, old(self).len as int) == k0,
                self.lines@.len() >= old(self).lines@.len(),
                self.lines@.subrange(0, old(self).lines@.len() as int) == old(self).lines@,
                self.failed == old(self).failed,
            decreases usize::MAX - self.reader.consumed(),
        {
            let ghost l0 = self.lines@;
            let ghost t1 = self.reader.source_taken();
            let ghost b1 = self.buf@;
            let (_, _, body) = match self.reader.read_line()? {
                Some(x) => x,
                None => {
                    return Ok(self.len);
                },
            };
            let ghost t2 = self.reader.source_taken();
            let ghost line = t2.subrange(t1.len() as int, t2.len() as int);
            proof {
                let n0 = self.base@.len() as int;
                lemma_lines_push(self.lines@, line);
                assert(t2.subrange(0, n0) =~= t1.subrange(0, n0));
                assert(t2.subrange(n0, t2.len() as int) =~= t1.subrange(n0, t1.len() as int) + line);
                assert(line_bytes(line) == body@);
                self.lines@ = self.lines@.push(line);
                assert(self.lines@.subrange(0, old(self).lines@.len() as int) =~= l0.subrange(
                    0,
                    old(self).lines@.len() as int,
                ));
                assert forall|i: int| 0 <= i < self.lines@.len() implies is_record_line(
                    #[trigger] self.lines@[i],
                ) by {
                    if i < l0.len() {
                        assert(self.lines@[i] == l0[i]);
                    }
                }
            }
            if body.len() > usize::MAX / 4 || self.len > usize::MAX / 4 {
                proof {
                    self.failed@ = true;
                }
                return Err(invalid_stream_error());
            }
            if body.len() > 0 {
                let prev = self.len;
                self.buf.truncate(prev);
                let ghost before = self.buf@;
                extend_bytes(&mut self.buf, body.as_slice());
                let n = self.buf.len();
                let ghost full = self.buf@;
                set_margin(&mut self.buf, n);
                self.len = n;
                proof {
                    assert(before =~= b1.subrange(0, prev as int));
                    assert(self.buf@.subrange(0, n as int) =~= full);
                    assert(self.taken@ + self.buf@.subrange(0, n as int) =~= self.taken@ + b1.subrange(
                        0,
                        prev as int,
                    ) + body@);
                    assert(self.buf@.subrange(0, old(self).len as int) =~= b1.subrange(
                        0,
                        old(self).len as int,
                    ));
                }
                return Ok(n);
            }
            proof {
                assert(joined(lines_bytes(l0)) + body@ =~= joined(lines_bytes(l0)));
            }
        }
    }

    fn as_slice(&self) -> (r: &[u8]) {
        self.buf.as_slice()
    }

    /// Drops the first `amount` bytes of the buffer.
    fn consume(&mut self, amount: usize)
        ensures
            final(self).available() == old(self).available() - amount,
            final(self).buffer() == old(self).buffer().subrange(amount as int, old(self).buffer().len() as int),
            final(self).kept() == old(self).kept().subrange(amount as int, old(self).kept().len() as int),
            final(self).lines() == old(self).lines(),
            final(self).drawn() == old(self).drawn(),
    {
        let ghost k0 = self.buf@.subrange(0, self.len as int);
        self.taken = Ghost(self.taken@ + self.buf@.subrange(0, amount as int));
        proof {
            assert(self.taken@ + self.buf@.subrange(amount as int, self.len as int) =~= old(self).taken@
                + k0);
        }
        if amount == 0 {
            assert(self.buf@.subrange(0, self.buf@.len() as int) =~= self.buf@);
            assert(self.buf@.subrange(0, self.len as int) =~= self.buf@.subrange(
                amount as int,
                self.len as int,
            ));
            return ;
        }
        let ghost b0 = self.buf@;
        let rest = vstd::slice::slice_subrange(self.buf.as_slice(), amount, self.buf.len());
        self.buf = vstd::slice::slice_to_vec(rest);
        self.len = self.len - amount;
        proof {
            assert(self.buf@.subrange(0, self.len as int) =~= b0.subrange(
                amount as int,
                old(self).len as int,
            ));
        }
    }
}

} // verus!
