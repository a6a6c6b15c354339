use vstd::prelude::*;

use crate::parser::{lemma_pow16_bound, pow16};
use crate::segment::Segment;

verus! {

/// The lower-case hexadecimal digit for `n` (0 to 15).
pub open spec fn hex_char(n: int) -> u8 {
    if n < 10 {
        (0x30 + n) as u8
    } else {
        (0x57 + n) as u8
    }
}

/// Digit `k` of `x` in base 16, counted from the right.
pub open spec fn nibble(x: int, k: nat) -> int {
    (x / (pow16(k) as int)) % 16
}

/// `x` written as `2 * bytes` hexadecimal digits (its low `bytes` bytes),
/// then a space.
pub open spec fn hex_text(x: int, bytes: nat) -> Seq<u8> {
    Seq::new(2 * bytes, |i: int| hex_char(nibble(x, (2 * bytes - 1 - i) as nat))).push(0x20)
}

/// Three characters for each of `n` elements: two hexadecimal digits of
/// the byte and a space; blanks for the elements at and past `valid`.
pub open spec fn body_text(s: Seq<u8>, n: nat, valid: int) -> Seq<u8> {
    Seq::new(
        3 * n,
        |j: int|
            {
                let i = j / 3;
                let r = j % 3;
                if r == 2 || i >= valid {
                    0x20u8
                } else if r == 0 {
                    hex_char((s[i] / 16) as int)
                } else {
                    hex_char((s[i] % 16) as int)
                }
            },
    )
}

/// The character shown for a byte: itself when printable, else a dot.
pub open spec fn mosaic_char(c: u8) -> u8 {
    if 0x20 <= c < 0x7f {
        c
    } else {
        0x2e
    }
}

/// One character for each of `n` elements; blanks at and past `valid`.
pub open spec fn mosaic_text(s: Seq<u8>, n: nat, valid: int) -> Seq<u8> {
    Seq::new(n, |i: int| if i >= valid { 0x20u8 } else { mosaic_char(s[i]) })
}

/// A line at `offset` showing the count `shown`, `n` elements in
/// hexadecimal and `m` as characters; elements past `valid` blank.
pub open spec fn line_text_with(s: Seq<u8>, offset: int, shown: int, n: nat, valid: int, m: nat) -> Seq<u8> {
    hex_text(offset, 6) + hex_text(shown, 1) + seq![0x7cu8, 0x20u8] + body_text(s, n, valid) + seq![
        0x7cu8,
        0x20u8,
    ] + mosaic_text(s, m, valid) + seq![0x0au8]
}

/// A line of `n` elements at `offset`: offset and count, the bytes in
/// hexadecimal, and the bytes as characters; elements past `valid` blank.
pub open spec fn line_text(s: Seq<u8>, offset: int, n: nat, valid: int) -> Seq<u8> {
    line_text_with(s, offset, n as int, n, valid, n)
}

proof fn lemma_pow16_step(k: nat)
    ensures
        pow16(k + 1) == 16 * pow16(k),
        pow16(k + 1) / 16 == pow16(k),
{
    assert(pow16(k + 1) == 16 * pow16(k));
}

proof fn lemma_pow16_le(k: nat)
    requires
        k <= 15,
    ensures
        1 <= pow16(k) <= 0x1000_0000_0000_0000,
    decreases k,
{
    lemma_pow16_bound(k);
    if k > 0 {
        lemma_pow16_le((k - 1) as nat);
    }
}

/// Writes `hex_text(x, bytes)` into `dst` at `at`.
fn write_hex(dst: &mut [u8], at: usize, x: u64, bytes: usize) -> (r: usize)
    requires
        1 <= bytes <= 8,
        at + 2 * bytes + 1 <= old(dst)@.len(),
    ensures
        r == 2 * bytes + 1,
        final(dst)@.len() == old(dst)@.len(),
        final(dst)@.subrange(at as int, at + r) == hex_text(x as int, bytes as nat),
        forall|i: int|
            0 <= i < old(dst)@.len() && !(at <= i < at + r) ==> final(dst)@[i] == old(dst)@[i],
{
    let n = 2 * bytes;
    let mut p: u64 = 1;
    let mut k: usize = 1;
    while k < n
        invariant
            1 <= k <= n <= 16,
            p == pow16((k - 1) as nat),
        decreases n - k,
    {
        proof {
            lemma_pow16_step((k - 1) as nat);
            lemma_pow16_le(k as nat);
        }
        p = p * 16;
        k = k + 1;
    }
    let dlen = dst.len();
    let ghost d0 = dst@;
    let mut i: usize = 0;
    while i < n
        invariant
            dst@.len() == dlen,
            n == 2 * bytes,
            2 <= n <= 16,
            at + n + 1 <= dst@.len(),
            dst@.len() == d0.len(),
            i <= n,
            i < n ==> p == pow16((n - 1 - i) as nat),
            forall|j: int|
                at <= j < at + i ==> #[trigger] dst@[j] == hex_char(nibble(x as int, (n - 1 - (j - at)) as nat)),
            forall|j: int| 0 <= j < d0.len() && !(at <= j < at + i) ==> dst@[j] == d0[j],
        decreases n - i,
    {
        proof {
            lemma_pow16_le((n - 1 - i) as nat);
        }
        let d = ((x / p) % 16) as u8;
        dst[at + i] = if d < 10 {
            0x30 + d
        } else {
            0x57 + d
        };
        if i + 1 < n {
            proof {
                lemma_pow16_step((n - 2 - i) as nat);
            }
            p = p / 16;
        }
        i = i + 1;
    }
    dst[at + n] = 0x20;
    proof {
        let t = hex_text(x as int, bytes as nat);
        assert forall|j: int| 0 <= j < n + 1 implies dst@.subrange(at as int, at + n + 1)[j] == t[j] by {
            if j < n {
                assert(dst@[at + j] == hex_char(nibble(x as int, (n - 1 - ((at + j) - at)) as nat)));
            }
        }
        assert(dst@.subrange(at as int, at + n + 1) =~= t);
    }
    n + 1
}

/// The digit for `n` (0 to 15).
fn hex_digit_char(n: u8) -> (r: u8)
    requires
        n < 16,
    ensures
        r == hex_char(n as int),
{
    if n < 10 {
        0x30 + n
    } else {
        0x57 + n
    }
}

/// Writes `body_text(src[from..], n, valid)` into `dst` at `at`.
fn write_body(dst: &mut [u8], at: usize, src: &[u8], from: usize, n: usize, valid: usize) -> (r: usize)
    requires
        from + valid <= src@.len(),
        at + 3 * n <= old(dst)@.len(),
    ensures
        r == 3 * n,
        final(dst)@.len() == old(dst)@.len(),
        final(dst)@.subrange(at as int, at + r) == body_text(src@.subrange(from as int, src@.len() as int), n as nat, valid as int),
        forall|i: int|
            0 <= i < old(dst)@.len() && !(at <= i < at + r) ==> final(dst)@[i] == old(dst)@[i],
{
    let dlen = dst.len();
    let slen = src.len();
    let ghost d0 = dst@;
    let ghost s = src@.subrange(from as int, src@.len() as int);
    let ghost t = body_text(s, n as nat, valid as int);
    let mut i: usize = 0;
    while i < n
        invariant
            dst@.len() == dlen,
            src@.len() == slen,
            from + valid <= src@.len(),
            s == src@.subrange(from as int, src@.len() as int),
            t == body_text(s, n as nat, valid as int),
            at + 3 * n <= dst@.len(),
            dst@.len() == d0.len(),
            i <= n,
            forall|j: int| 0 <= j < 3 * i ==> dst@[at + j] == t[j],
            forall|j: int| 0 <= j < d0.len() && !(at <= j < at + 3 * i) ==> dst@[j] == d0[j],
        decreases n - i,
    {
        if i < valid {
            let c = src[from + i];
            assert(s[i as int] == c);
            dst[at + 3 * i] = hex_digit_char(c / 16);
            dst[at + 3 * i + 1] = hex_digit_char(c % 16);
        } else {
            dst[at + 3 * i] = 0x20;
            dst[at + 3 * i + 1] = 0x20;
        }
        dst[at + 3 * i + 2] = 0x20;
        proof {
            assert forall|j: int| 3 * i <= j < 3 * i + 3 implies dst@[at + j] == t[j] by {
                assert(j / 3 == i);
            }
        }
        i = i + 1;
    }
    assert(dst@.subrange(at as int, at + 3 * n) =~= t);
    3 * n
}

/// Writes `mosaic_text(src[from..], n, valid)` into `dst` at `at`.
fn write_mosaic(dst: &mut [u8], at: usize, src: &[u8], from: usize, n: usize, valid: usize) -> (r: usize)
    requires
        from + valid <= src@.len(),
        at + n <= old(dst)@.len(),
    ensures
        r == n,
        final(dst)@.len() == old(dst)@.len(),
        final(dst)@.subrange(at as int, at + r) == mosaic_text(src@.subrange(from as int, src@.len() as int), n as nat, valid as int),
        forall|i: int|
            0 <= i < old(dst)@.len() && !(at <= i < at + r) ==> final(dst)@[i] == old(dst)@[i],
{
    let dlen = dst.len();
    let slen = src.len();
    let ghost d0 = dst@;
    let ghost s = src@.subrange(from as int, src@.len() as int);
    let ghost t = mosaic_text(s, n as nat, valid as int);
    let mut i: usize = 0;
    while i < n
        invariant
            dst@.len() == dlen,
            src@.len() == slen,
            from + valid <= src@.len(),
            s == src@.subrange(from as int, src@.len() as int),
            t == mosaic_text(s, n as nat, valid as int),
            at + n <= dst@.len(),
            dst@.len() == d0.len(),
            i <= n,
            forall|j: int| 0 <= j < i ==> dst@[at + j] == t[j],
            forall|j: int| 0 <= j < d0.len() && !(at <= j < at + i) ==> dst@[j] == d0[j],
        decreases n - i,
    {
        if i < valid {
            let c = src[from + i];
            assert(s[i as int] == c);
            dst[at + i] = if 0x20 <= c && c < 0x7f {
                c
            } else {
                0x2e
            };
        } else {
            dst[at + i] = 0x20;
        }
        i = i + 1;
    }
    assert(dst@.subrange(at as int, at + n) =~= t);
    n
}

/// Writes the low `bytes` bytes of `offset` in hexadecimal and a space:
/// the number of characters written.
pub fn format_hex_single(dst: &mut [u8], offset: usize, bytes: usize) -> (r: usize)
    requires
        1 <= bytes <= 8,
        2 * bytes + 1 <= old(dst)@.len(),
    ensures
        r == 2 * bytes + 1,
        final(dst)@.len() == old(dst)@.len(),
        final(dst)@.subrange(0, r as int) == hex_text(offset as int, bytes as nat),
{
    write_hex(dst, 0, offset as u64, bytes)
}

/// Writes the first 16 bytes of `src`, each as two hexadecimal digits and
/// a space.
pub fn format_hex_body(dst: &mut [u8], src: &[u8]) -> (r: usize)
    requires
        16 <= src@.len(),
        48 <= old(dst)@.len(),
    ensures
        r == 48,
        final(dst)@.len() == old(dst)@.len(),
        final(dst)@.subrange(0, 48) == body_text(src@, 16, 16),
{
    let r = write_body(dst, 0, src, 0, 16, 16);
    assert(src@.subrange(0, src@.len() as int) =~= src@);
    r
}

/// Writes the first 16 bytes of `src` as characters, a dot for each that
/// is not printable.
pub fn format_mosaic(dst: &mut [u8], src: &[u8]) -> (r: usize)
    requires
        16 <= src@.len(),
        16 <= old(dst)@.len(),
    ensures
        r == 16,
        final(dst)@.len() == old(dst)@.len(),
        final(dst)@.subrange(0, 16) == mosaic_text(src@, 16, 16),
{
    let r = write_mosaic(dst, 0, src, 0, 16, 16);
    assert(src@.subrange(0, src@.len() as int) =~= src@);
    r
}

/// Writes `line_text_with(src[from..], offset, shown, n, valid, m)` into
/// `dst` at `at`.
#[verifier::spinoff_prover]
#[verifier::rlimit(40)]
fn write_line(
    dst: &mut [u8],
    at: usize,
    src: &[u8],
    from: usize,
    valid: usize,
    offset: u64,
    shown: u64,
    n: usize,
    m: usize,
) -> (r: usize)
    requires
        from + valid <= src@.len(),
        at + 21 + 3 * n + m <= old(dst)@.len(),
    ensures
        r == 21 + 3 * n + m,
        final(dst)@.len() == old(dst)@.len(),
        final(dst)@.subrange(at as int, at + r) == line_text_with(
            src@.subrange(from as int, src@.len() as int),
            offset as int,
            shown as int,
            n as nat,
            valid as int,
            m as nat,
        ),
        forall|i: int|
            0 <= i < old(dst)@.len() && !(at <= i < at + r) ==> final(dst)@[i] == old(dst)@[i],
{
    let dlen = dst.len();
    let ghost d0 = dst@;
    let ghost s = src@.subrange(from as int, src@.len() as int);
    let p0 = at;
    let w0 = write_hex(dst, p0, offset, 6);
    let ghost d1 = dst@;
    let p1 = p0 + w0;
    let w1 = write_hex(dst, p1, shown, 1);
    let ghost d2 = dst@;
    let p2 = p1 + w1;
    dst[p2] = 0x7c;
    dst[p2 + 1] = 0x20;
    let ghost d3 = dst@;
    let p3 = p2 + 2;
    let w3 = write_body(dst, p3, src, from, n, valid);
    let ghost d4 = dst@;
    let p4 = p3 + w3;
    dst[p4] = 0x7c;
    dst[p4 + 1] = 0x20;
    let ghost d5 = dst@;
    let p5 = p4 + 2;
    let w5 = write_mosaic(dst, p5, src, from, m, valid);
    let ghost d6 = dst@;
    let p6 = p5 + w5;
    dst[p6] = 0x0a;
    proof {
        let t = line_text_with(s, offset as int, shown as int, n as nat, valid as int, m as nat);
        let h0 = hex_text(offset as int, 6);
        let h1 = hex_text(shown as int, 1);
        let b = body_text(s, n as nat, valid as int);
        let mo = mosaic_text(s, m as nat, valid as int);
        assert forall|j: int| 0 <= j < 21 + 3 * n + m implies dst@[at + j] == t[j] by {
            if j < 13 {
                assert(d1.subrange(at as int, at + 13)[j] == h0[j]);
            } else if j < 16 {
                assert(d2.subrange(p1 as int, p1 + 3)[j - 13] == h1[j - 13]);
            } else if j < 18 {
            } else if j < 18 + 3 * n {
                assert(d4.subrange(p3 as int, p3 + 3 * n)[j - 18] == b[j - 18]);
            } else if j < 20 + 3 * n {
            } else if j < 20 + 3 * n + m {
                assert(d6.subrange(p5 as int, p5 + m)[j - 20 - 3 * n] == mo[j - 20 - 3 * n]);
            }
        }
        assert(dst@.subrange(at as int, at + 21 + 3 * n + m) =~= t);
    }
    21 + 3 * n + m
}

/// Writes a line of `elems_per_line` bytes of `src` at `offset`: the
/// offset and count, the bytes in hexadecimal and as characters.
pub fn format_line(dst: &mut [u8], src: &[u8], offset: usize, elems_per_line: usize) -> (r: usize)
    requires
        elems_per_line <= src@.len(),
        21 + 4 * elems_per_line <= old(dst)@.len(),
    ensures
        r == 21 + 4 * elems_per_line,
        final(dst)@.len() == old(dst)@.len(),
        final(dst)@.subrange(0, r as int) == line_text(
            src@,
            offset as int,
            elems_per_line as nat,
            elems_per_line as int,
        ),
{
    let r = write_line(
        dst,
        0,
        src,
        0,
        elems_per_line,
        offset as u64,
        elems_per_line as u64,
        elems_per_line,
        elems_per_line,
    );
    assert(src@.subrange(0, src@.len() as int) =~= src@);
    r
}

/// Elements on the line of a slice: its length, at least `pad`.
pub open spec fn line_elems(s: Segment, pad: usize) -> usize {
    if s.len >= pad {
        s.len
    } else {
        pad
    }
}

/// The lines of the slices of `block`, which sits at `base` in the stream:
/// each slice on a line of its own with its length, its bytes in
/// hexadecimal padded with blanks to `pad` elements, and as characters.
pub open spec fn hex_lines(block: Seq<u8>, segs: Seq<Segment>, base: int, pad: usize) -> Seq<u8>
    decreases segs.len(),
{
    if segs.len() == 0 {
        seq![]
    } else {
        let s = segs.last();
        hex_lines(block, segs.drop_last(), base, pad) + line_text_with(
            block.subrange(s.pos as int, block.len() as int),
            base + s.pos,
            s.len as int,
            line_elems(s, pad) as nat,
            s.len as int,
            s.len as nat,
        )
    }
}

/// Characters of the lines of the slices.
pub open spec fn hex_lines_len(segs: Seq<Segment>, pad: usize) -> int
    decreases segs.len(),
{
    if segs.len() == 0 {
        0
    } else {
        hex_lines_len(segs.drop_last(), pad) + 21 + 3 * line_elems(segs.last(), pad) + segs.last().len
    }
}

proof fn lemma_hex_lines_len_prefix(segs: Seq<Segment>, pad: usize, k: int)
    requires
        0 <= k <= segs.len(),
    ensures
        0 <= hex_lines_len(segs.subrange(0, k), pad) <= hex_lines_len(segs, pad),
    decreases segs.len(),
{
    if k < segs.len() {
        assert(segs.drop_last().subrange(0, k) =~= segs.subrange(0, k));
        lemma_hex_lines_len_prefix(segs.drop_last(), pad, k);
    } else {
        assert(segs.subrange(0, k) =~= segs);
    }
    if segs.len() > 0 {
        lemma_hex_lines_len_prefix(segs.drop_last(), pad, segs.len() - 1);
        assert(segs.drop_last().subrange(0, segs.len() - 1) =~= segs.drop_last());
    }
}

/// Whether the lines of `segments` fit in memory: their length is at most
/// `usize::MAX`.
pub fn hex_lines_fit(segments: &[Segment], pad: usize) -> (r: bool)
    ensures
        r <==> hex_lines_len(segments@, pad) <= usize::MAX,
{
    let n = segments.len();
    let mut total: usize = 0;
    let mut k: usize = 0;
    while k < n
        invariant
            k <= n,
            n == segments@.len(),
            total == hex_lines_len(segments@.subrange(0, k as int), pad),
        decreases n - k,
    {
        let s = segments[k];
        let elems = if s.len >= pad {
            s.len
        } else {
            pad
        };
        proof {
            assert(segments@.subrange(0, k + 1).drop_last() =~= segments@.subrange(0, k as int));
            assert(segments@.subrange(0, k + 1).last() == s);
        }
        let size: u128 = 21 + 3 * (elems as u128) + s.len as u128;
        if total as u128 + size > usize::MAX as u128 {
            proof {
                lemma_hex_lines_len_prefix(segments@, pad, k + 1);
            }
            return false;
        }
        total = (total as u128 + size) as usize;
        k = k + 1;
    }
    assert(segments@.subrange(0, n as int) =~= segments@);
    true
}

/// Formats slices as lines of hexadecimal text: offset and count, the
/// bytes in hexadecimal and as characters, short slices padded with
/// blanks.
pub struct HexDrain {
    offset: usize,
    pad: usize,
}

impl HexDrain {
    /// Offset added to the positions shown.
    pub closed spec fn offset(&self) -> usize {
        self.offset
    }

    /// Elements a line is padded to.
    pub closed spec fn pad(&self) -> usize {
        self.pad
    }

    /// A formatter that adds `offset` to the positions shown and pads lines
    /// to `pad_blank_to` elements.
    pub fn new(offset: usize, pad_blank_to: usize) -> (r: Self)
        ensures
            r.offset() == offset,
            r.pad() == pad_blank_to,
    {
        HexDrain { offset, pad: pad_blank_to }
    }

    /// The lines of the slices `segments` of `block`, which sits at
    /// `offset` in the stream.
    pub fn consume_segments(&self, offset: usize, block: &[u8], segments: &[Segment]) -> (r: Vec<u8>)
        requires
            forall|i: int|
                0 <= i < segments@.len() ==> (#[trigger] segments@[i]).pos + segments@[i].len
                    <= block@.len(),
            self.offset() + offset + block@.len() <= usize::MAX,
            hex_lines_len(segments@, self.pad()) <= usize::MAX,
        ensures
            r@ == hex_lines(block@, segments@, self.offset() + offset, self.pad()),
    {
        let base = self.offset + offset;
        let mut out: Vec<u8> = Vec::new();
        let mut k: usize = 0;
        proof {
            assert(segments@.subrange(0, 0) =~= Seq::<Segment>::empty());
        }
        while k < segments.len()
            invariant
                k <= segments@.len(),
                base == self.offset() + offset,
                forall|i: int|
                    0 <= i < segments@.len() ==> (#[trigger] segments@[i]).pos + segments@[i].len
                        <= block@.len(),
                self.offset() + offset + block@.len() <= usize::MAX,
                hex_lines_len(segments@, self.pad()) <= usize::MAX,
                out@ == hex_lines(block@, segments@.subrange(0, k as int), base as int, self.pad()),
                out@.len() == hex_lines_len(segments@.subrange(0, k as int), self.pad()),
            decreases segments@.len() - k,
        {
            let s = segments[k];
            let elems = if s.len >= self.pad {
                s.len
            } else {
                self.pad
            };
            proof {
                let next = segments@.subrange(0, k + 1);
                assert(next.drop_last() =~= segments@.subrange(0, k as int));
                lemma_hex_lines_len_prefix(segments@, self.pad, k + 1);
                assert(segments@[k as int] == s);
            }
            let start = out.len();
            let size = 21 + 3 * elems + s.len;
            out.resize(start + size, 0);
            let w = write_line(
                out.as_mut_slice(),
                start,
                block,
                s.pos,
                s.len,
                (base + s.pos) as u64,
                s.len as u64,
                elems,
                s.len,
            );
            proof {
                let line = line_text_with(
                    block@.subrange(s.pos as int, block@.len() as int),
                    base + s.pos,
                    s.len as int,
                    elems as nat,
                    s.len as int,
                    s.len as nat,
                );
                assert(out@ =~= hex_lines(block@, segments@.subrange(0, k as int), base as int, self.pad) + line);
            }
            k = k + 1;
        }
        assert(segments@.subrange(0, segments@.len() as int) =~= segments@);
        out
    }
}

} // verus!
