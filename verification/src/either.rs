use vstd::prelude::*;

use crate::byte::ByteStream;
use crate::segment::{Segment, SegmentStream};

verus! {

/// One of two streams, read as the one it holds.
pub enum Either<A, B> {
    Left(A),
    Right(B),
}

impl<A: ByteStream, B: ByteStream> ByteStream for Either<A, B> {
    open spec fn wf(&self) -> bool {
        match self {
            Either::Left(a) => a.wf(),
            Either::Right(b) => b.wf(),
        }
    }

    open spec fn available(&self) -> nat {
        match self {
            Either::Left(a) => a.available(),
            Either::Right(b) => b.available(),
        }
    }

    open spec fn buffer(&self) -> Seq<u8> {
        match self {
            Either::Left(a) => a.buffer(),
            Either::Right(b) => b.buffer(),
        }
    }

    open spec fn taken(&self) -> Seq<u8> {
        match self {
            Either::Left(a) => a.taken(),
            Either::Right(b) => b.taken(),
        }
    }

    fn fill_buf(&mut self) -> (r: std::io::Result<usize>) {
        match self {
            Either::Left(a) => a.fill_buf(),
            Either::Right(b) => b.fill_buf(),
        }
    }

    fn as_slice(&self) -> (r: &[u8]) {
        match self {
            Either::Left(a) => a.as_slice(),
            Either::Right(b) => b.as_slice(),
        }
    }

    fn consume(&mut self, amount: usize) {
        match self {
            Either::Left(a) => a.consume(amount),
            Either::Right(b) => b.consume(amount),
        }
    }
}

impl<A: SegmentStream, B: SegmentStream> SegmentStream for Either<A, B> {
    open spec fn wf(&self) -> bool {
        match self {
            Either::Left(a) => a.wf(),
            Either::Right(b) => b.wf(),
        }
    }

    open spec fn segments(&self) -> Seq<Segment> {
        match self {
            Either::Left(a) => a.segments(),
            Either::Right(b) => b.segments(),
        }
    }

    open spec fn filled(&self) -> bool {
        match self {
            Either::Left(a) => a.filled(),
            Either::Right(b) => b.filled(),
        }
    }

    open spec fn block(&self) -> Seq<u8> {
        match self {
            Either::Left(a) => a.block(),
            Either::Right(b) => b.block(),
        }
    }

    open spec fn consumed(&self) -> nat {
        match self {
            Either::Left(a) => a.consumed(),
            Either::Right(b) => b.consumed(),
        }
    }

    fn fill_segment_buf(&mut self) -> (r: std::io::Result<(bool, usize, usize, usize)>) {
        match self {
            Either::Left(a) => a.fill_segment_buf(),
            Either::Right(b) => b.fill_segment_buf(),
        }
    }

    fn as_slices(&self) -> (r: (&[u8], &[Segment])) {
        match self {
            Either::Left(a) => a.as_slices(),
            Either::Right(b) => b.as_slices(),
        }
    }

    fn consume(&mut self, bytes: usize) -> (r: std::io::Result<(usize, usize)>) {
        match self {
            Either::Left(a) => a.consume(bytes),
            Either::Right(b) => b.consume(bytes),
        }
    }
}

} // verus!
