use vstd::prelude::*;

use super::bridge::{drop_consumed, shift_back};
use super::{Segment, SegmentStream};
use crate::byte::eof::EofStream;
use crate::byte::patch::PatchReader;
use crate::byte::{invalid_stream_error, ByteStream};

verus! {

/// Slices a byte stream at the `offset span` records of a guide stream.
pub struct GuidedSlicer<S: ByteStream, G: ByteStream> {
    src: EofStream<S>,
    guide: PatchReader<G>,
    /// Slices read from the guide and not consumed; the last one may be
    /// held back until the buffer reaches its end.
    segments: Vec<Segment>,
    /// Slices lent out.
    guide_consumed: usize,
    /// Bytes of the source consumed so far.
    src_consumed: usize,
    /// Bytes that may be consumed: none past the head of a slice held back.
    max_consume: usize,
}

impl<S: ByteStream, G: ByteStream> GuidedSlicer<S, G> {
    /// The slices read from the guide and not consumed, held back ones too.
    pub closed spec fn all_segments(&self) -> Seq<Segment> {
        self.segments@
    }

    /// Bytes of the source consumed so far.
    pub closed spec fn src_consumed(&self) -> usize {
        self.src_consumed
    }

    /// Bytes that may be consumed: none past the head of a slice held back.
    pub closed spec fn max_consume(&self) -> usize {
        self.max_consume
    }

    /// The stream sliced.
    pub closed spec fn upstream(&self) -> S {
        self.src.source()
    }

    /// The stream of guide records.
    pub closed spec fn guide(&self) -> G {
        self.guide.upstream()
    }

    /// A slicer of `src` at the records of `guide`.
    pub fn new(src: S, guide: G) -> (r: Self)
        requires
            src.wf(),
            guide.wf(),
        ensures
            r.wf(),
            r.segments().len() == 0,
            r.src_consumed() == 0,
            r.upstream() == src,
            r.guide() == guide,
    {
        GuidedSlicer {
            src: EofStream::new(src),
            guide: PatchReader::new(guide),
            segments: Vec::new(),
            guide_consumed: 0,
            src_consumed: 0,
            max_consume: 0,
        }
    }

    /// Reads guide records until one reaches past the buffer of `bytes`
    /// bytes (held back), or the guide ends; a slice held back from the
    /// last fill is kept back while it still reaches past the buffer.
    fn extend_segment_buf(&mut self, is_eof: bool, bytes: usize) -> (r: std::io::Result<()>)
        requires
            old(self).wf(),
            bytes <= usize::MAX / 4,
            old(self).src_consumed <= usize::MAX / 4,
        ensures
            final(self).wf(),
            final(self).src == old(self).src,
            final(self).src_consumed == old(self).src_consumed,
            r is Ok ==> final(self).max_consume <= bytes,
            final(self).segments@.len() >= old(self).segments@.len(),
            final(self).segments@.subrange(0, old(self).segments@.len() as int) == old(self).segments@,
            old(self).segments@.len() > 0 && old(self).segments@.last().pos
                + old(self).segments@.last().len > bytes ==> r is Ok && final(self).segments@ == old(
                self,
            ).segments@,
    {
        let n = self.segments.len();
        if n > 0 {
            let last = self.segments[n - 1];
            if last.pos as u128 + last.len as u128 > bytes as u128 {
                if last.pos <= bytes {
                    self.max_consume = last.pos;
                } else if self.max_consume > bytes {
                    self.max_consume = bytes;
                }
                self.guide_consumed = n - 1;
                assert(self.segments@.subrange(0, n as int) =~= self.segments@);
                return Ok(());
            }
        }
        self.max_consume = bytes;
        self.guide_consumed = self.segments.len();
        let tail = self.src_consumed + bytes;
        let ghost before = self.segments@;
        loop
            invariant
                self.wf(),
                self.src == old(self).src,
                self.src_consumed == old(self).src_consumed,
                self.src_consumed + bytes == tail,
                tail <= usize::MAX / 2,
                self.max_consume <= bytes,
                self.guide_consumed == self.segments@.len(),
                self.segments@.len() >= before.len(),
                self.segments@.subrange(0, before.len() as int) == before,
                before.len() >= old(self).segments@.len(),
                before.subrange(0, old(self).segments@.len() as int) == old(self).segments@,
                !(old(self).segments@.len() > 0 && old(self).segments@.last().pos
                    + old(self).segments@.last().len > bytes),
            decreases usize::MAX - self.guide.consumed(),
        {
            let (offset, span, _) = match self.guide.read_line()? {
                Some(x) => x,
                None => {
                    return Ok(());
                },
            };
            if offset > (usize::MAX / 4) as u64 || span > (usize::MAX / 4) as u64 || (offset as usize)
                < self.src_consumed {
                return Err(invalid_stream_error());
            }
            let offset = offset as usize;
            let span = span as usize;
            let pos = offset - self.src_consumed;
            let end = offset + span;
            let len = if is_eof {
                let stop = if end < tail {
                    end
                } else {
                    tail
                };
                if stop > offset {
                    stop - offset
                } else {
                    0
                }
            } else {
                span
            };
            let ghost prev = self.segments@;
            self.segments.push(Segment { pos, len });
            proof {
                assert(self.segments@.subrange(0, before.len() as int) =~= prev.subrange(
                    0,
                    before.len() as int,
                ));
            }
            if end > tail {
                if pos <= bytes {
                    self.max_consume = pos;
                }
                self.guide_consumed = self.segments.len() - 1;
                return Ok(());
            }
            self.guide_consumed = self.segments.len();
        }
    }
}

impl<S: ByteStream, G: ByteStream> SegmentStream for GuidedSlicer<S, G> {
    /// Slices held back start at or past what may be consumed.
    closed spec fn wf(&self) -> bool {
        &&& self.src.wf()
        &&& self.src.request() > 0
        &&& self.guide.wf()
        &&& self.guide_consumed <= self.segments@.len()
        &&& forall|i: int|
            self.guide_consumed <= i < self.segments@.len() ==> (#[trigger] self.segments@[i]).pos
                >= self.max_consume
    }

    /// Bytes taken from the source.
    closed spec fn consumed(&self) -> nat {
        self.src.source().taken().len()
    }

    closed spec fn segments(&self) -> Seq<Segment> {
        self.segments@.subrange(0, self.guide_consumed as int)
    }

    closed spec fn block(&self) -> Seq<u8> {
        self.src.source().buffer()
    }

    closed spec fn filled(&self) -> bool {
        &&& self.src.len() == self.src.source().available()
        &&& self.src.len() <= usize::MAX / 4
        &&& self.max_consume <= self.src.len()
    }

    fn fill_segment_buf(&mut self) -> (r: std::io::Result<(bool, usize, usize, usize)>) {
        let (is_eof, bytes) = self.src.fill_buf()?;
        if bytes > usize::MAX / 4 || self.src_consumed > usize::MAX / 4 {
            return Err(invalid_stream_error());
        }
        let n0 = self.segments.len();
        let gc0 = self.guide_consumed;
        let mc0 = self.max_consume;
        let ghost segs0 = self.segments@;
        match self.extend_segment_buf(is_eof, bytes) {
            Ok(()) => {},
            Err(e) => {
                self.segments.truncate(n0);
                self.guide_consumed = gc0;
                self.max_consume = mc0;
                assert(self.segments@ =~= segs0);
                return Err(e);
            },
        }
        Ok((is_eof, bytes, self.guide_consumed, self.max_consume))
    }

    fn as_slices(&self) -> (r: (&[u8], &[Segment])) {
        let lent = vstd::slice::slice_subrange(self.segments.as_slice(), 0, self.guide_consumed);
        (self.src.as_slice(), lent)
    }

    /// Consumes up to `bytes`, no further than the head of a slice held
    /// back; fails where the count of bytes consumed would overflow.
    fn consume(&mut self, bytes: usize) -> (r: std::io::Result<(usize, usize)>)
        ensures
            ({
                let b = if bytes < old(self).max_consume() {
                    bytes
                } else {
                    old(self).max_consume()
                };
                &&& r is Err <==> usize::MAX - old(self).src_consumed() < b
                &&& r matches Ok(x) ==> x.0 == b && final(self).src_consumed() == old(
                    self,
                ).src_consumed() + b
            }),
    {
        let bytes = if bytes < self.max_consume {
            bytes
        } else {
            self.max_consume
        };
        if usize::MAX - self.src_consumed < bytes {
            return Err(invalid_stream_error());
        }
        self.src.consume(bytes);
        let ghost old_segs = self.segments@;
        let (segments, from) = drop_consumed(&self.segments, bytes);
        proof {
            if from > self.guide_consumed {
                assert(old_segs[self.guide_consumed as int].pos >= self.max_consume);
            }
        }
        self.segments = segments;
        self.guide_consumed = self.guide_consumed - from;
        self.src_consumed = self.src_consumed + bytes;
        self.max_consume = self.max_consume - bytes;
        proof {
            assert forall|i: int|
                self.guide_consumed <= i < self.segments@.len() implies (#[trigger] self.segments@[i]).pos
                >= self.max_consume by {
                assert(self.segments@[i] == shift_back(old_segs[i + from], bytes));
            }
            assert(self.segments@.subrange(0, self.guide_consumed as int) =~= old_segs.subrange(
                from as int,
                old_segs.len() as int,
            ).map_values(|s: Segment| shift_back(s, bytes)).subrange(0, self.guide_consumed as int));
        }
        Ok((bytes, from))
    }
}

} // verus!
