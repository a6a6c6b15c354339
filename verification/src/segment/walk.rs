use vstd::prelude::*;

use super::{Segment, SegmentStream};
use crate::byte::eof::EofStream;
use crate::byte::{invalid_stream_error, ByteStream};
use crate::eval::run::{agrees, spec_eval, Env};
use crate::eval::{canonical_form, elem_size, spec_sorted, EvalError, Rpn, VarAttr};
use crate::eval::lexer::vars_view;

verus! {

/// `256^n`.
pub open spec fn pow256(n: nat) -> nat
    decreases n,
{
    if n == 0 {
        1
    } else {
        256 * pow256((n - 1) as nat)
    }
}

/// The `n`-byte little-endian unsigned integer at `off` in `b`.
pub open spec fn le_unsigned(b: Seq<u8>, off: int, n: nat) -> nat
    decreases n,
{
    if n == 0 {
        0
    } else {
        b[off] as nat + 256 * le_unsigned(b, off + 1, (n - 1) as nat)
    }
}

/// The `n`-byte little-endian two's-complement integer at `off` in `b`.
pub open spec fn le_signed(b: Seq<u8>, off: int, n: nat) -> int {
    let u = le_unsigned(b, off, n);
    if 2 * u >= pow256(n) {
        u - pow256(n)
    } else {
        u as int
    }
}

/// Element `idx` of the array variable `id` (`b`, `h`, `i`, `l`: 1-, 2-, 4-
/// and 8-byte little-endian integers) laid from `skip` over the first
/// `bytes` bytes of `block`; zero where it does not lie in them.
pub open spec fn array_elem(block: Seq<u8>, bytes: int, skip: int, id: usize, idx: i64) -> i64 {
    let size = elem_size(id);
    let off = skip + idx * size;
    if size == 0 || idx < 0 || off + size > bytes || off + size > block.len() {
        0
    } else {
        le_signed(block, off, size as nat) as i64
    }
}

/// The values the array variables take at `skip`.
pub open spec fn walk_env(block: Seq<u8>, bytes: int, skip: int) -> Env {
    |id: usize, idx: i64| array_elem(block, bytes, skip, id, idx)
}

proof fn lemma_pow256_8()
    ensures
        pow256(8) == 0x1_0000_0000_0000_0000,
        pow256(7) == 0x100_0000_0000_0000,
        pow256(4) == 0x1_0000_0000,
        pow256(2) == 0x1_0000,
        pow256(1) == 0x100,
{
    reveal_with_fuel(pow256, 9);
}

proof fn lemma_le_bound(b: Seq<u8>, off: int, n: nat)
    ensures
        le_unsigned(b, off, n) < pow256(n),
    decreases n,
{
    if n > 0 {
        lemma_le_bound(b, off + 1, (n - 1) as nat);
        let r = le_unsigned(b, off + 1, (n - 1) as nat);
        let p = pow256((n - 1) as nat);
        assert(b[off] as nat + 256 * r < 256 * p) by (nonlinear_arith)
            requires
                r < p,
                b[off] < 256,
        ;
    }
}

/// Reads `array_elem(block, bytes, skip, id, idx)`.
fn read_elem(block: &[u8], bytes: usize, skip: usize, id: usize, idx: i64) -> (r: i64)
    ensures
        r == array_elem(block@, bytes as int, skip as int, id, idx),
{
    let size: usize = if id == 1 || id == 2 || id == 4 || id == 8 {
        id
    } else {
        0
    };
    if size == 0 || idx < 0 {
        return 0;
    }
    assert((idx as u128) * (size as u128) <= 0x8000_0000_0000_0000u128 * 8) by (nonlinear_arith)
        requires
            0 <= idx <= i64::MAX,
            size <= 8,
    ;
    let off128: u128 = skip as u128 + (idx as u128) * (size as u128);
    if off128 + size as u128 > bytes as u128 || off128 + size as u128 > block.len() as u128 {
        return 0;
    }
    let off = off128 as usize;
    let blen = block.len();
    assert(off == skip + idx * size);
    let mut acc: u64 = 0;
    let mut k: usize = size;
    proof {
        lemma_pow256_8();
    }
    while k > 0
        invariant
            0 <= k <= size,
            size <= 8,
            off + size <= block@.len(),
            blen == block@.len(),
            acc == le_unsigned(block@, off + k, (size - k) as nat),
            pow256(8) == 0x1_0000_0000_0000_0000,
        decreases k,
    {
        let j = k - 1;
        proof {
            lemma_le_bound(block@, off + k, (size - k) as nat);
            lemma_pow_mono((size - k) as nat, 7);
            lemma_pow256_8();
            assert(acc < 0x100_0000_0000_0000);
        }
        acc = acc * 256 + block[off + j] as u64;
        k = j;
    }
    proof {
        lemma_le_bound(block@, off as int, size as nat);
        lemma_pow256_8();
    }
    let modulus_minus_one: u64 = if size == 8 {
        0xffff_ffff_ffff_ffff
    } else if size == 4 {
        0xffff_ffff
    } else if size == 2 {
        0xffff
    } else {
        0xff
    };
    let half: u64 = modulus_minus_one / 2 + 1;
    if acc < half {
        acc as i64
    } else {
        let neg: u64 = (modulus_minus_one - acc) + 1;
        if neg == 0x8000_0000_0000_0000 {
            i64::MIN
        } else {
            -(neg as i64)
        }
    }
}

proof fn lemma_pow_mono(a: nat, b: nat)
    requires
        a <= b,
    ensures
        pow256(a) <= pow256(b),
    decreases b,
{
    if a < b {
        lemma_pow_mono(a, (b - 1) as nat);
    }
}

/// `segs` lie one after another from `from` to `to`, with no gap.
pub open spec fn tiles(segs: Seq<Segment>, from: int, to: int) -> bool {
    &&& segs.len() == 0 ==> from == to
    &&& segs.len() > 0 ==> segs[0].pos == from && segs.last().pos + segs.last().len == to
    &&& forall|i: int| 0 <= i < segs.len() - 1 ==> #[trigger] segs[i].pos + segs[i].len == segs[i + 1].pos
}

/// A slice that starts where tiling slices end extends them.
proof fn lemma_tiles_push(segs: Seq<Segment>, from: int, to: int, seg: Segment)
    requires
        tiles(segs, from, to),
        seg.pos == to,
    ensures
        tiles(segs.push(seg), from, to + seg.len),
{
    let s2 = segs.push(seg);
    assert forall|i: int| 0 <= i < s2.len() - 1 implies #[trigger] s2[i].pos + s2[i].len == s2[i + 1].pos by {
        assert(s2[i] == segs[i]);
        if i < segs.len() - 1 {
            assert(s2[i + 1] == segs[i + 1]);
        } else {
            assert(segs.last() == segs[i]);
        }
    }
}

/// Slice `i` of `segs`, walked in chunks of one slice per expression from
/// the first, lies as the expressions say over the first `bytes` bytes of
/// `block` at the start of its chunk: as long as its expression's value,
/// cut at `bytes`.
pub open spec fn walked_at(rpns: Seq<Rpn>, block: Seq<u8>, bytes: int, segs: Seq<Segment>, i: int) -> bool {
    let n = rpns.len() as int;
    let c = i - i % n;
    exists|spans: Seq<usize>|
        #[trigger] spans_of(rpns, walk_env(block, bytes, segs[c].pos as int), spans) && segs[i].len == (
        if spans[i % n] < bytes - segs[i].pos {
            spans[i % n] as int
        } else {
            bytes - segs[i].pos
        })
}

/// Every slice of `segs` lies as `walked_at` says.
pub open spec fn walked(rpns: Seq<Rpn>, block: Seq<u8>, bytes: int, segs: Seq<Segment>) -> bool {
    forall|i: int| 0 <= i < segs.len() ==> #[trigger] walked_at(rpns, block, bytes, segs, i)
}

/// The slice `m` into a chunk starting at a multiple `c` of `n` is at `m`
/// in its chunk.
proof fn lemma_chunk_index(c: int, m: int, n: int)
    requires
        n > 0,
        c >= 0,
        c % n == 0,
        0 <= m < n,
    ensures
        (c + m) % n == m,
        (c + m) - (c + m) % n == c,
{
    vstd::arithmetic::div_mod::lemma_fundamental_div_mod(c, n);
    vstd::arithmetic::div_mod::lemma_mod_multiples_vanish(c / n, m, n);
    vstd::arithmetic::div_mod::lemma_small_mod(m as nat, n as nat);
}

/// Slices added after `segs` leave what `walked` says of `segs` as it is.
proof fn lemma_walked_prefix(rpns: Seq<Rpn>, block: Seq<u8>, bytes: int, segs: Seq<Segment>, more: Seq<Segment>, i: int)
    requires
        rpns.len() > 0,
        0 <= i < segs.len(),
        walked_at(rpns, block, bytes, segs, i),
        more.len() >= segs.len(),
        more.subrange(0, segs.len() as int) == segs,
    ensures
        walked_at(rpns, block, bytes, more, i),
{
    let n = rpns.len() as int;
    let c = i - i % n;
    vstd::arithmetic::div_mod::lemma_mod_bound(i, n);
    vstd::arithmetic::div_mod::lemma_mod_decreases(i as nat, n as nat);
    assert(more.subrange(0, segs.len() as int)[c] == more[c]);
    assert(more[c] == segs[c]);
    assert(more.subrange(0, segs.len() as int)[i] == more[i]);
    assert(more[i] == segs[i]);
    let sp = choose|spans: Seq<usize>|
        #[trigger] spans_of(rpns, walk_env(block, bytes, segs[c].pos as int), spans) && segs[i].len == (
        if spans[i % n] < bytes - segs[i].pos {
            spans[i % n] as int
        } else {
            bytes - segs[i].pos
        });
    assert(spans_of(rpns, walk_env(block, bytes, more[c].pos as int), sp));
}

/// `spans` are the values of the expressions over the stream at a chunk's
/// start, all positive.
pub open spec fn spans_of(rpns: Seq<Rpn>, env: Env, spans: Seq<usize>) -> bool {
    &&& spans.len() == rpns.len()
    &&& forall|k: int|
        0 <= k < spans.len() ==> spec_eval(rpns[k]@, env) == Ok::<i64, EvalError>(
            (#[trigger] spans[k]) as i64,
        ) && spans[k] > 0
}

/// Some expression fails, is not positive or does not fit in `usize` over
/// the stream at a chunk's start.
pub open spec fn no_spans(rpns: Seq<Rpn>, env: Env) -> bool {
    exists|k: int|
        0 <= k < rpns.len() && !(spec_eval((#[trigger] rpns[k])@, env) matches Ok(v) && 0 < v
            <= usize::MAX)
}

/// The span each expression gives when evaluated with the arrays laid from
/// `skip` over the first `bytes` bytes of `block`.
pub fn eval_spans(rpns: &Vec<Rpn>, block: &[u8], bytes: usize, skip: usize) -> (r: Option<Vec<usize>>)
    ensures
        r matches Some(v) ==> spans_of(rpns@, walk_env(block@, bytes as int, skip as int), v@),
        r is None ==> no_spans(rpns@, walk_env(block@, bytes as int, skip as int)),
{
    let ghost env = walk_env(block@, bytes as int, skip as int);
    let n = rpns.len();
    let mut spans: Vec<usize> = Vec::new();
    let mut k: usize = 0;
    while k < n
        invariant
            k <= n,
            n == rpns@.len(),
            env == walk_env(block@, bytes as int, skip as int),
            spans@.len() == k,
            forall|j: int|
                0 <= j < k ==> spec_eval((#[trigger] rpns@[j])@, env) == Ok::<i64, EvalError>(
                    spans@[j] as i64,
                ) && spans@[j] > 0,
        decreases n - k,
    {
        let getter = |id: usize, idx: i64| -> (v: i64)
            ensures
                v == array_elem(block@, bytes as int, skip as int, id, idx),
            { read_elem(block, bytes, skip, id, idx) };
        assert forall|a: usize, b: i64, v: i64| call_ensures(getter, (a, b), v) implies v == env(
            a,
            b,
        ) by {}
        assert(agrees(getter, env));
        let r = rpns[k].evaluate(getter);
        let v = match r {
            Ok(v) => v,
            Err(_) => {
                assert(!(spec_eval(rpns@[k as int]@, env) matches Ok(v) && 0 < v <= usize::MAX));
                return None;
            },
        };
        if v <= 0 {
            assert(!(spec_eval(rpns@[k as int]@, env) matches Ok(v) && 0 < v <= usize::MAX));
            return None;
        }
        let u = v as u64;
        if u > usize::MAX as u64 {
            assert(!(spec_eval(rpns@[k as int]@, env) matches Ok(v) && 0 < v <= usize::MAX));
            return None;
        }
        spans.push(u as usize);
        k = k + 1;
    }
    Some(spans)
}

/// The arrays walk expressions read: `b`, `h`, `i` and `l`, of 1-, 2-, 4-
/// and 8-byte integers.
pub open spec fn walk_vars() -> Seq<(Seq<u8>, VarAttr)> {
    seq![
        (seq![0x62u8], VarAttr { id: 1, is_array: true }),
        (seq![0x68u8], VarAttr { id: 2, is_array: true }),
        (seq![0x69u8], VarAttr { id: 4, is_array: true }),
        (seq![0x6cu8], VarAttr { id: 8, is_array: true }),
    ]
}

/// The span expression a text gives: parsed over the walk arrays and
/// brought into canonical form.
pub open spec fn walk_expr(e: Seq<char>) -> Option<Seq<crate::eval::simplify::Node>> {
    canonical_form(spec_sorted(Some(walk_vars()), e)->Some_0)
}

/// Why span expressions were refused.
#[derive(Copy, Clone, Debug, PartialEq, Eq)]
pub enum WalkError {
    /// No expression given.
    Empty,
    /// An expression does not parse.
    Parse(EvalError),
}

/// Cuts the stream into chunks whose pieces are as long as the expressions
/// say, evaluated over the bytes at each chunk's start (`b[k]`, `h[k]`,
/// `i[k]`, `l[k]`: the k-th 1-, 2-, 4- or 8-byte little-endian integer).
pub struct WalkSlicer<S: ByteStream> {
    src: EofStream<S>,
    rpns: Vec<Rpn>,
    /// Bytes past a chunk's start the expressions read, when known.
    reach: Option<usize>,
    segments: Vec<Segment>,
    /// Start of the next chunk.
    pos: usize,
}

impl<S: ByteStream> WalkSlicer<S> {
    /// The span expressions.
    pub closed spec fn exprs(&self) -> Seq<Rpn> {
        self.rpns@
    }

    /// Start of the next chunk, relative to the head of the buffer.
    pub closed spec fn next_pos(&self) -> usize {
        self.pos
    }

    /// The buffer of the source.
    pub closed spec fn buffer(&self) -> Seq<u8> {
        self.src.source().buffer()
    }

    /// The stream walked.
    pub closed spec fn upstream(&self) -> S {
        self.src.source()
    }

    /// A slicer of `src` into chunks of the spans that `exprs` give.
    pub fn new(src: S, exprs: &[String]) -> (r: Result<Self, WalkError>)
        requires
            src.wf(),
        ensures
            exprs@.len() == 0 ==> r == Err::<Self, WalkError>(WalkError::Empty),
            r matches Ok(w) ==> w.wf() && w.exprs().len() == exprs@.len() && w.segments().len() == 0
                && w.next_pos() == 0 && w.upstream() == src,
            r matches Ok(w) ==> forall|k: int|
                0 <= k < exprs@.len() ==> walk_expr(exprs@[k]@) == Some(#[trigger] w.exprs()[k]@),
    {
        if exprs.len() == 0 {
            return Err(WalkError::Empty);
        }
        let nb: [u8; 1] = [0x62];
        let nh: [u8; 1] = [0x68];
        let ni: [u8; 1] = [0x69];
        let nl: [u8; 1] = [0x6c];
        let vars: [(&[u8], VarAttr); 4] = [
            (nb.as_slice(), VarAttr { id: 1, is_array: true }),
            (nh.as_slice(), VarAttr { id: 2, is_array: true }),
            (ni.as_slice(), VarAttr { id: 4, is_array: true }),
            (nl.as_slice(), VarAttr { id: 8, is_array: true }),
        ];
        let mut rpns: Vec<Rpn> = Vec::new();
        let mut reach: Option<usize> = Some(0);
        let mut k: usize = 0;
        assert(nb@ =~= seq![0x62u8]);
        assert(nh@ =~= seq![0x68u8]);
        assert(ni@ =~= seq![0x69u8]);
        assert(nl@ =~= seq![0x6cu8]);
        let vs = vars.as_slice();
        assert(vs@ == vars@);
        assert(vars_view(vs) =~= walk_vars());
        while k < exprs.len()
            invariant
                k <= exprs@.len(),
                rpns@.len() == k,
                vars_view(vs) == walk_vars(),
                forall|j: int| 0 <= j < k ==> walk_expr(exprs@[j]@) == Some(#[trigger] rpns@[j]@),
                reach matches Some(x) ==> x <= 0x1000_0000,
            decreases exprs@.len() - k,
        {
            let rpn = match Rpn::new(exprs[k].as_str(), Some(vs)) {
                Ok(r) => r,
                Err(e) => {
                    return Err(WalkError::Parse(e));
                },
            };
            reach = match (reach, rpn.array_reach()) {
                (Some(a), Some(b)) => {
                    Some(
                        if a > b {
                            a
                        } else {
                            b
                        },
                    )
                },
                _ => None,
            };
            rpns.push(rpn);
            k = k + 1;
        }
        Ok(WalkSlicer { src: EofStream::new(src), rpns, reach, segments: Vec::new(), pos: 0 })
    }
}

impl<S: ByteStream> SegmentStream for WalkSlicer<S> {
    /// The chunks walked so far are ordered, non-empty and end before the
    /// next chunk's start.
    closed spec fn wf(&self) -> bool {
        &&& self.src.wf()
        &&& self.src.request() > 0
        &&& self.rpns@.len() > 0
        &&& self.reach matches Some(x) ==> x <= 0x1000_0000
        &&& forall|i: int, j: int|
            0 <= i < j < self.segments@.len() ==> self.segments@[i].pos < self.segments@[j].pos
        &&& forall|i: int|
            0 <= i < self.segments@.len() ==> (#[trigger] self.segments@[i]).pos
                + self.segments@[i].len <= self.pos && self.segments@[i].len > 0
    }

    /// Bytes taken from the source.
    closed spec fn consumed(&self) -> nat {
        self.src.source().taken().len()
    }

    closed spec fn segments(&self) -> Seq<Segment> {
        self.segments@
    }

    /// The source's bytes are all known and the next chunk starts among
    /// them.
    closed spec fn block(&self) -> Seq<u8> {
        self.buffer()
    }

    closed spec fn filled(&self) -> bool {
        &&& self.src.len() == self.src.source().available()
        &&& self.pos <= self.src.len()
        &&& self.src.len() <= usize::MAX / 4
    }

    /// Walks chunk after chunk while whole chunks fit in the bytes read (at
    /// the end, the last chunk is cut to the bytes left): `(end reached,
    /// bytes, slices, bytes that may be consumed)`.
    #[verifier::spinoff_prover]
    #[verifier::rlimit(40)]
    fn fill_segment_buf(&mut self) -> (r: std::io::Result<(bool, usize, usize, usize)>)
        ensures
            final(self).exprs() == old(self).exprs(),
            r matches Ok(x) ==> x.3 == final(self).next_pos() && final(self).next_pos() >= old(self).next_pos() && final(self).segments().len() >= old(self).segments().len()
                && final(self).segments().subrange(0, old(self).segments().len() as int) == old(self).segments(),
            r matches Ok(x) ==> tiles(
                final(self).segments().subrange(
                    old(self).segments().len() as int,
                    final(self).segments().len() as int,
                ),
                old(self).next_pos() as int,
                final(self).next_pos() as int,
            ),
            r matches Ok(x) ==> walked(
                final(self).exprs(),
                final(self).buffer(),
                x.1 as int,
                final(self).segments().subrange(
                    old(self).segments().len() as int,
                    final(self).segments().len() as int,
                ),
            ),
    {
        let (e0, b0) = self.src.fill_buf()?;
        let mut is_eof = e0;
        let mut bytes = b0;
        if bytes > usize::MAX / 4 || self.pos > bytes {
            return Err(invalid_stream_error());
        }
        if is_eof && self.pos >= bytes {
            return Ok((is_eof, bytes, self.segments.len(), self.pos));
        }
        let start = self.pos;
        let mut pos = self.pos;
        let mut fresh: Vec<Segment> = Vec::new();
        loop
            invariant_except_break
                !(is_eof && pos >= bytes) || fresh@.len() > 0,
                (fresh@.len() as int) % (self.rpns@.len() as int) == 0,
            invariant
                old(self).wf(),
                self.src.wf(),
                self.src.request() > 0,
                self.src.source().taken().len() == old(self).src.source().taken().len(),
                self.src.len() == bytes,
                self.src.source().available() == bytes,
                bytes <= usize::MAX / 4,
                start == old(self).pos,
                start <= pos <= bytes,
                self.pos == old(self).pos,
                self.rpns == old(self).rpns,
                self.reach == old(self).reach,
                self.segments == old(self).segments,
                self.reach matches Some(x) ==> x <= 0x1000_0000,
                forall|i: int, j: int| 0 <= i < j < fresh@.len() ==> fresh@[i].pos < fresh@[j].pos,
                forall|i: int|
                    0 <= i < fresh@.len() ==> (#[trigger] fresh@[i]).pos + fresh@[i].len <= pos
                        && fresh@[i].len > 0 && fresh@[i].pos >= start,
                tiles(fresh@, start as int, pos as int),
                walked(self.rpns@, self.src.source().buffer(), bytes as int, fresh@),
            ensures
                old(self).wf(),
                self.src.wf(),
                self.src.request() > 0,
                self.src.source().taken().len() == old(self).src.source().taken().len(),
                self.src.len() == bytes,
                self.src.source().available() == bytes,
                bytes <= usize::MAX / 4,
                start <= pos <= bytes,
                self.pos == old(self).pos,
                self.rpns == old(self).rpns,
                self.reach == old(self).reach,
                self.segments == old(self).segments,
                forall|i: int, j: int| 0 <= i < j < fresh@.len() ==> fresh@[i].pos < fresh@[j].pos,
                forall|i: int|
                    0 <= i < fresh@.len() ==> (#[trigger] fresh@[i]).pos + fresh@[i].len <= pos
                        && fresh@[i].len > 0 && fresh@[i].pos >= start,
                tiles(fresh@, start as int, pos as int),
                walked(self.rpns@, self.src.source().buffer(), bytes as int, fresh@),
            decreases usize::MAX - pos,
        {
            let need: usize = match self.reach {
                Some(x) => pos + x,
                None => usize::MAX,
            };
            if fresh.len() == 0 {
                while !is_eof && bytes < need
                    invariant
                        old(self).wf(),
                        self.src.wf(),
                        self.src.request() > 0,
                        self.src.source().taken().len() == old(self).src.source().taken().len(),
                        self.src.len() == bytes,
                        self.src.source().available() == bytes,
                        bytes <= usize::MAX / 4,
                        pos <= bytes,
                        self.pos == old(self).pos,
                        self.rpns == old(self).rpns,
                        self.reach == old(self).reach,
                        self.segments == old(self).segments,
                    decreases (if is_eof {
                        0int
                    } else {
                        1int
                    }), usize::MAX / 4 - bytes,
                {
                    self.src.consume(0);
                    let (e, b) = self.src.fill_buf()?;
                    if b > usize::MAX / 4 || b < bytes {
                        return Err(invalid_stream_error());
                    }
                    is_eof = e;
                    bytes = b;
                }
            }
            if !is_eof && bytes < need {
                // more bytes are needed: the chunks walked so far are handed out first
                break;
            }
            let stream = self.src.as_slice();
            let spans = match eval_spans(&self.rpns, stream, bytes, pos) {
                Some(v) => v,
                None => {
                    return Err(invalid_stream_error());
                },
            };
            let n = spans.len();
            let mut chunk: usize = 0;
            let mut k: usize = 0;
            while k < n
                invariant
                    k <= n,
                    n == spans@.len(),
                    chunk <= usize::MAX / 4,
                    old(self).wf(),
                    self.src.wf(),
                    self.src.request() > 0,
                    self.src.source().taken().len() == old(self).src.source().taken().len(),
                    self.pos == old(self).pos,
                    self.rpns == old(self).rpns,
                    self.reach == old(self).reach,
                    self.segments == old(self).segments,
                decreases n - k,
            {
                if spans[k] > usize::MAX / 4 - chunk {
                    return Err(invalid_stream_error());
                }
                chunk = chunk + spans[k];
                k = k + 1;
            }
            let fits = chunk <= bytes - pos;
            if !fits && !is_eof {
                break;
            }
            let ghost pos0 = pos;
            let ghost c0 = fresh@.len() as int;
            let ghost fresh0 = fresh@;
            let ghost blk = self.src.source().buffer();
            assert(stream@ == blk);
            let mut k: usize = 0;
            while k < n && pos < bytes
                invariant
                    pos >= pos0,
                    k == 0 ==> pos == pos0,
                    n == self.rpns@.len(),
                    n > 0,
                    c0 >= 0,
                    c0 % (n as int) == 0,
                    fresh@.len() == c0 + k,
                    fresh@.subrange(0, c0) == fresh0,
                    k > 0 ==> fresh@[c0].pos == pos0,
                    walked(self.rpns@, blk, bytes as int, fresh@),
                    spans_of(self.rpns@, walk_env(blk, bytes as int, pos0 as int), spans@),
                    k > 0 ==> pos > pos0,
                    k <= n,
                    n == spans@.len(),
                    forall|j: int| 0 <= j < n ==> (#[trigger] spans@[j]) > 0,
                    start <= pos <= bytes,
                    bytes <= usize::MAX / 4,
                    k > 0 ==> fresh@.len() > 0,
                    forall|i: int, j: int| 0 <= i < j < fresh@.len() ==> fresh@[i].pos < fresh@[j].pos,
                    forall|i: int|
                        0 <= i < fresh@.len() ==> (#[trigger] fresh@[i]).pos + fresh@[i].len <= pos
                            && fresh@[i].len > 0 && fresh@[i].pos >= start,
                    tiles(fresh@, start as int, pos as int),
                decreases n - k,
            {
                let span = spans[k];
                let len = if span < bytes - pos {
                    span
                } else {
                    bytes - pos
                };
                proof {
                    lemma_tiles_push(fresh@, start as int, pos as int, Segment { pos, len });
                }
                let ghost f1 = fresh@;
                fresh.push(Segment { pos, len });
                proof {
                    let f2 = fresh@;
                    let i = c0 + k;
                    lemma_chunk_index(c0, k as int, n as int);
                    assert(f2[c0].pos == pos0);
                    assert(f2[i] == Segment { pos, len });
                    assert(spans_of(self.rpns@, walk_env(blk, bytes as int, f2[c0].pos as int), spans@));
                    assert(walked_at(self.rpns@, blk, bytes as int, f2, i));
                    assert(f2.subrange(0, f1.len() as int) =~= f1);
                    assert forall|j: int| 0 <= j < f2.len() implies #[trigger] walked_at(
                        self.rpns@,
                        blk,
                        bytes as int,
                        f2,
                        j,
                    ) by {
                        if j < f1.len() {
                            lemma_walked_prefix(self.rpns@, blk, bytes as int, f1, f2, j);
                        }
                    }
                    assert(f2.subrange(0, c0) =~= f1.subrange(0, c0));
                }
                pos = pos + len;
                k = k + 1;
            }
            if !fits || pos >= bytes {
                break;
            }
            proof {
                vstd::arithmetic::div_mod::lemma_mod_multiples_vanish(1, c0, n as int);
            }
        }
        let prev = self.segments.len();
        let ghost before = self.segments@;
        let ghost fresh0 = fresh@;
        self.segments.append(&mut fresh);
        self.pos = pos;
        proof {
            assert forall|i: int, j: int|
                0 <= i < j < self.segments@.len() implies self.segments@[i].pos
                < self.segments@[j].pos by {
                if j >= prev && i < prev {
                    assert(before[i].pos + before[i].len <= start);
                }
            }
            assert(self.segments@.subrange(0, prev as int) =~= before);
            assert(self.segments@.subrange(prev as int, self.segments@.len() as int) =~= fresh0);
            assert(self.segments@.subrange(prev as int, self.segments@.len() as int) == fresh0);
        }
        Ok((is_eof, bytes, self.segments.len(), self.pos))
    }

    /// The buffer and the chunks walked in it.
    fn as_slices(&self) -> (r: (&[u8], &[Segment]))
        ensures
            r.0@ == self.buffer(),
    {
        (self.src.as_slice(), self.segments.as_slice())
    }

    /// Drops up to `bytes` bytes from the head, no more than were walked,
    /// with the chunks that start in them; the others move back.
    fn consume(&mut self, bytes: usize) -> (r: std::io::Result<(usize, usize)>)
        ensures
            final(self).exprs() == old(self).exprs(),
            r matches Ok(x) && x.0 == (if bytes < old(self).next_pos() {
                bytes
            } else {
                old(self).next_pos()
            }) && final(self).next_pos() == old(self).next_pos() - x.0 && (forall|i: int|
                0 <= i < x.1 ==> (#[trigger] old(self).segments()[i]).pos < x.0) && final(self).segments() == old(self).segments().subrange(
                x.1 as int,
                old(self).segments().len() as int,
            ).map_values(|s: Segment| Segment { pos: (s.pos - x.0) as usize, len: s.len }),
    {
        let bytes = if bytes < self.pos {
            bytes
        } else {
            self.pos
        };
        self.src.consume(bytes);
        let ghost old_segments = self.segments@;
        let n = self.segments.len();
        let mut from: usize = 0;
        while from < n && self.segments[from].pos < bytes
            invariant
                n == self.segments@.len(),
                from <= n,
                forall|i: int| 0 <= i < from ==> (#[trigger] self.segments@[i]).pos < bytes,
            decreases n - from,
        {
            from = from + 1;
        }
        proof {
            assert forall|i: int| from <= i < n implies (#[trigger] old_segments[i]).pos >= bytes by {
                if i > from {
                    assert(old_segments[from as int].pos < old_segments[i].pos);
                }
            }
        }
        let mut kept: Vec<Segment> = Vec::new();
        let mut k: usize = from;
        while k < n
            invariant
                from <= k <= n,
                n == old_segments.len(),
                self.segments@ == old_segments,
                forall|i: int| from <= i < n ==> (#[trigger] old_segments[i]).pos >= bytes,
                kept@.len() == k - from,
                forall|i: int|
                    0 <= i < k - from ==> #[trigger] kept@[i] == (Segment {
                        pos: (old_segments[from + i].pos - bytes) as usize,
                        len: old_segments[from + i].len,
                    }),
            decreases n - k,
        {
            let s = self.segments[k];
            kept.push(Segment { pos: s.pos - bytes, len: s.len });
            k = k + 1;
        }
        self.segments = kept;
        self.pos = self.pos - bytes;
        proof {
            let tail = old_segments.subrange(from as int, n as int).map_values(
                |s: Segment| Segment { pos: (s.pos - bytes) as usize, len: s.len },
            );
            assert(self.segments@ =~= tail);
        }
        Ok((bytes, from))
    }
}

} // verus!
