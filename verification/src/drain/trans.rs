use vstd::prelude::*;

use super::binary::{gathered, BinaryDrain};
use super::hex::{hex_lines, hex_lines_fit, hex_lines_len, HexDrain};
use crate::byte::invalid_stream_error;
use crate::common::InoutFormat;
use crate::segment::{segments_before, Segment, SegmentStream};

verus! {

/// How slices are written out: their bytes as they are, or lines of
/// hexadecimal text.
#[derive(Copy, Clone, Debug, PartialEq, Eq)]
pub enum SliceFormat {
    Binary,
    Hex,
}

/// What is written for the slices `segs` of `block`, which sits at
/// `offset` in the stream.
pub open spec fn formatted(format: SliceFormat, block: Seq<u8>, segs: Seq<Segment>, offset: int, pad: usize) -> Seq<u8> {
    match format {
        SliceFormat::Binary => gathered(block, segs),
        SliceFormat::Hex => hex_lines(block, segs, offset, pad),
    }
}

/// The slice format an output format asks for, if it is one of them.
pub open spec fn slice_format_of(f: InoutFormat) -> Option<SliceFormat> {
    if f.offset == 0x6e && f.length == 0x6e && f.body == 0x62 {
        Some(SliceFormat::Binary)
    } else if f.offset == 0x78 && f.length == 0x78 && f.body == 0x78 {
        Some(SliceFormat::Hex)
    } else {
        None
    }
}

/// A consumer of a sliced stream.
pub trait StreamDrain {
    /// What the drain keeps between calls.
    spec fn wf(&self) -> bool;

    /// The bytes to write for the next batch of slices; `None` once the
    /// stream has ended.
    fn consume_segments(&mut self) -> (r: std::io::Result<Option<Vec<u8>>>)
        requires
            old(self).wf(),
        ensures
            final(self).wf(),
    ;
}

/// Writes each batch of slices as the stream hands it out.
pub struct TransparentDrain<S: SegmentStream> {
    src: S,
    offset: usize,
    format: SliceFormat,
    pad: usize,
    last_block: Ghost<Seq<u8>>,
    last_segments: Ghost<Seq<Segment>>,
    /// The source as the last batch was cut from it.
    last_source: Ghost<S>,
    /// The bytes the last batch dropped from the source.
    last_amount: Ghost<usize>,
}

impl<S: SegmentStream> TransparentDrain<S> {
    /// Position in the stream of the head of the source's buffer.
    pub closed spec fn offset(&self) -> usize {
        self.offset
    }

    /// How slices are written.
    pub closed spec fn format(&self) -> SliceFormat {
        self.format
    }

    /// Elements a hexadecimal line is padded to.
    pub closed spec fn pad(&self) -> usize {
        self.pad
    }

    /// The buffer the last batch was cut from.
    pub closed spec fn last_block(&self) -> Seq<u8> {
        self.last_block@
    }

    /// The slices of the last batch.
    pub closed spec fn last_segments(&self) -> Seq<Segment> {
        self.last_segments@
    }

    /// The source as the last batch was cut from it, once filled.
    pub closed spec fn last_source(&self) -> S {
        self.last_source@
    }

    /// The bytes the last batch dropped from the source: all it held once
    /// it had ended, else as many as it allowed.
    pub closed spec fn last_amount(&self) -> usize {
        self.last_amount@
    }

    /// The source.
    pub closed spec fn source(&self) -> S {
        self.src
    }

    /// A drain of `src`, whose first byte sits at `offset`, in the output
    /// format `format` (binary or `xxx`; `None` for any other), hexadecimal
    /// lines padded to `pad` elements.
    pub fn new(src: S, offset: usize, format: &InoutFormat, pad: usize) -> (r: Option<Self>)
        requires
            src.wf(),
        ensures
            r is Some <==> slice_format_of(*format) is Some,
            r matches Some(d) ==> d.wf() && d.offset() == offset && Some(d.format()) == slice_format_of(
                *format,
            ) && d.pad() == pad && d.source() == src,
    {
        let f = if format.offset == 0x6e && format.length == 0x6e && format.body == 0x62 {
            SliceFormat::Binary
        } else if format.offset == 0x78 && format.length == 0x78 && format.body == 0x78 {
            SliceFormat::Hex
        } else {
            return None;
        };
        let ghost s0 = src;
        Some(
            TransparentDrain {
                src,
                offset,
                format: f,
                pad,
                last_block: Ghost(Seq::empty()),
                last_segments: Ghost(Seq::empty()),
                last_source: Ghost(s0),
                last_amount: Ghost(0),
            },
        )
    }
}

impl<S: SegmentStream> StreamDrain for TransparentDrain<S> {
    closed spec fn wf(&self) -> bool {
        self.src.wf()
    }

    /// Fills the source, formats the slices that start in the bytes it may
    /// drop (all of them at the end), and drops those bytes.
    fn consume_segments(&mut self) -> (r: std::io::Result<Option<Vec<u8>>>)
        ensures
            final(self).format() == old(self).format(),
            final(self).pad() == old(self).pad(),
            r matches Ok(Some(out)) ==> out@ == formatted(
                final(self).format(),
                final(self).last_block(),
                final(self).last_segments(),
                old(self).offset() as int,
                final(self).pad(),
            ) && final(self).offset() >= old(self).offset(),
            r matches Ok(Some(_)) ==> final(self).offset() + old(self).source().consumed() == old(
                self,
            ).offset() + final(self).source().consumed(),
            r matches Ok(None) ==> final(self).offset() == old(self).offset()
                && final(self).source().consumed() == old(self).source().consumed(),
            r matches Ok(Some(out)) ==> ({
                let segs = final(self).last_source().segments();
                let k = final(self).last_segments().len();
                &&& final(self).last_block() == final(self).last_source().block()
                &&& k <= segs.len()
                &&& final(self).last_segments() == segs.subrange(0, k as int)
                &&& forall|i: int| 0 <= i < k ==> (#[trigger] segs[i]).pos < final(self).last_amount()
                &&& k < segs.len() ==> segs[k as int].pos >= final(self).last_amount()
            }),
    {
        let (is_eof, bytes, count, max_consume) = self.src.fill_segment_buf()?;
        if is_eof && bytes == 0 {
            return Ok(None);
        }
        let amount = if is_eof {
            bytes
        } else {
            max_consume
        };
        let (block, segments) = self.src.as_slices();
        if count > segments.len() {
            return Err(invalid_stream_error());
        }
        let segments = vstd::slice::slice_subrange(segments, 0, count);
        let k = segments_before(segments, amount);
        let done = vstd::slice::slice_subrange(segments, 0, k);
        let blen = block.len();
        let mut j: usize = 0;
        while j < k
            invariant
                j <= k,
                k == done@.len(),
                self.src.wf(),
                self.src.filled(),
                self.pad == old(self).pad,
                self.format == old(self).format,
                self.offset == old(self).offset,
                blen == block@.len(),
                forall|i: int|
                    0 <= i < j ==> (#[trigger] done@[i]).pos + done@[i].len <= block@.len(),
            decreases k - j,
        {
            let s = done[j];
            if s.pos > blen || s.len > blen - s.pos {
                return Err(invalid_stream_error());
            }
            j = j + 1;
        }
        let out = match self.format {
            SliceFormat::Binary => BinaryDrain::new().consume_segments(block, done),
            SliceFormat::Hex => {
                if !hex_lines_fit(done, self.pad) || self.offset > usize::MAX - blen {
                    return Err(invalid_stream_error());
                }
                HexDrain::new(0, self.pad).consume_segments(self.offset, block, done)
            },
        };
        let ghost b = block@;
        let ghost d = done@;
        let ghost s1 = self.src;
        assert(segments@ =~= s1.segments());
        assert(d =~= s1.segments().subrange(0, k as int));
        assert(b == s1.block());
        let (fwd, _) = self.src.consume(amount)?;
        if self.offset > usize::MAX - fwd {
            return Err(invalid_stream_error());
        }
        let start = self.offset;
        self.offset = self.offset + fwd;
        self.last_block = Ghost(b);
        self.last_segments = Ghost(d);
        self.last_source = Ghost(s1);
        self.last_amount = Ghost(amount);
        assert(start == old(self).offset);
        Ok(Some(out))
    }
}

} // verus!
