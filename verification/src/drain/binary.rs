use vstd::prelude::*;

use crate::segment::Segment;

verus! {

/// The bytes of the slices `segs` of `block`, one after another.
pub open spec fn gathered(block: Seq<u8>, segs: Seq<Segment>) -> Seq<u8>
    decreases segs.len(),
{
    if segs.len() == 0 {
        seq![]
    } else {
        gathered(block, segs.drop_last()) + block.subrange(
            segs.last().pos as int,
            segs.last().pos + segs.last().len,
        )
    }
}

/// Writes the bytes of the slices as they are.
pub struct BinaryDrain {}

impl BinaryDrain {
    /// The drain.
    pub fn new() -> (r: Self) {
        BinaryDrain {  }
    }

    /// The bytes of the slices `segments` of `block`, one after another.
    pub fn consume_segments(&self, block: &[u8], segments: &[Segment]) -> (r: Vec<u8>)
        requires
            forall|i: int|
                0 <= i < segments@.len() ==> (#[trigger] segments@[i]).pos + segments@[i].len
                    <= block@.len(),
        ensures
            r@ == gathered(block@, segments@),
    {
        let n = segments.len();
        let blen = block.len();
        let mut out: Vec<u8> = Vec::new();
        let mut k: usize = 0;
        while k < n
            invariant
                k <= n,
                n == segments@.len(),
                blen == block@.len(),
                forall|i: int|
                    0 <= i < segments@.len() ==> (#[trigger] segments@[i]).pos + segments@[i].len
                        <= block@.len(),
                out@ == gathered(block@, segments@.subrange(0, k as int)),
            decreases n - k,
        {
            let s = segments[k];
            assert(segments@[k as int] == s);
            let part = vstd::slice::slice_subrange(block, s.pos, s.pos + s.len);
            crate::byte::cut::extend_bytes(&mut out, part);
            proof {
                assert(segments@.subrange(0, k + 1).drop_last() =~= segments@.subrange(0, k as int));
                assert(segments@.subrange(0, k + 1).last() == s);
            }
            k = k + 1;
        }
        assert(segments@.subrange(0, n as int) =~= segments@);
        out
    }
}

} // verus!
