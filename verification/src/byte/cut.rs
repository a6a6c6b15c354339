use vstd::prelude::*;
use vstd::string::StrSliceExecFns;

use super::eof::EofStream;
use super::{invalid_stream_error, ByteStream};
use crate::eval::text::{chars_of, split_strings, texts};
use crate::params::MARGIN_SIZE;
use crate::mapper::{left_anchored_spec, sat_sub, MapError, RangeMapper, RangeMapperAnchor};
use crate::segment::bridge::bridge_pieces;

verus! {

/// The sort key of a start-anchored range: its two offsets; `(0, 0)` for
/// any other range.
pub open spec fn range_key(m: RangeMapper) -> (usize, usize) {
    match (m.start, m.end) {
        (RangeMapperAnchor::StartAnchored(x), RangeMapperAnchor::StartAnchored(y)) => (x, y),
        _ => (0usize, 0usize),
    }
}

/// Whether the key of `a` is below that of `b` (offsets compared in turn).
pub open spec fn key_below(a: RangeMapper, b: RangeMapper) -> bool {
    let (a0, a1) = range_key(a);
    let (b0, b1) = range_key(b);
    a0 < b0 || (a0 == b0 && a1 < b1)
}

/// Where `x` goes in a list sorted by descending key: before the first
/// entry whose key is below its own.
pub open spec fn insert_pos(s: Seq<RangeMapper>, x: RangeMapper) -> int
    decreases s.len(),
{
    if s.len() == 0 {
        0
    } else if key_below(s[0], x) {
        0
    } else {
        1 + insert_pos(s.drop_first(), x)
    }
}

/// `s` sorted by descending key, equal keys kept in their order.
pub open spec fn sort_desc(s: Seq<RangeMapper>) -> Seq<RangeMapper>
    decreases s.len(),
{
    if s.len() == 0 {
        s
    } else {
        let r = sort_desc(s.drop_last());
        r.insert(insert_pos(r, s.last()), s.last())
    }
}

proof fn lemma_insert_pos(s: Seq<RangeMapper>, x: RangeMapper, i: int)
    requires
        0 <= i <= s.len(),
        forall|j: int| 0 <= j < i ==> !key_below(#[trigger] s[j], x),
        i == s.len() || key_below(s[i], x),
    ensures
        insert_pos(s, x) == i,
    decreases i,
{
    if i > 0 {
        let t = s.drop_first();
        assert forall|j: int| 0 <= j < i - 1 implies !key_below(#[trigger] t[j], x) by {
            assert(t[j] == s[j + 1]);
        }
        if i < s.len() {
            assert(t[i - 1] == s[i]);
        }
        lemma_insert_pos(t, x, i - 1);
    }
}

/// No entry's key is below that of a later entry.
pub open spec fn sorted_desc(s: Seq<RangeMapper>) -> bool {
    forall|i: int, j: int| 0 <= i < j < s.len() ==> !key_below(#[trigger] s[i], #[trigger] s[j])
}

proof fn lemma_insert_pos_bounds(s: Seq<RangeMapper>, x: RangeMapper)
    ensures
        0 <= insert_pos(s, x) <= s.len(),
        forall|j: int| 0 <= j < insert_pos(s, x) ==> !key_below(#[trigger] s[j], x),
        insert_pos(s, x) < s.len() ==> key_below(s[insert_pos(s, x)], x),
    decreases s.len(),
{
    if s.len() > 0 && !key_below(s[0], x) {
        let t = s.drop_first();
        lemma_insert_pos_bounds(t, x);
        assert forall|j: int| 0 <= j < insert_pos(s, x) implies !key_below(#[trigger] s[j], x) by {
            if j > 0 {
                assert(s[j] == t[j - 1]);
            }
        }
        if insert_pos(s, x) < s.len() {
            assert(s[insert_pos(s, x)] == t[insert_pos(t, x)]);
        }
    }
}

/// Sorting yields a list sorted by descending key, of the same entries.
proof fn lemma_sort_desc(s: Seq<RangeMapper>)
    ensures
        sorted_desc(sort_desc(s)),
        sort_desc(s).len() == s.len(),
        forall|i: int| 0 <= i < s.len() ==> exists|j: int| 0 <= j < s.len() && #[trigger] sort_desc(s)[i] == s[j],
    decreases s.len(),
{
    if s.len() > 0 {
        let d = s.drop_last();
        lemma_sort_desc(d);
        let r = sort_desc(d);
        let x = s.last();
        lemma_insert_pos_bounds(r, x);
        let p = insert_pos(r, x);
        let t = r.insert(p, x);
        assert(t == sort_desc(s));
        assert forall|i: int, j: int| 0 <= i < j < t.len() implies !key_below(#[trigger] t[i], #[trigger] t[j]) by {
            if j < p {
                assert(t[i] == r[i] && t[j] == r[j]);
            } else if j == p {
                assert(t[i] == r[i]);
            } else if i == p {
                assert(t[j] == r[j - 1]);
                if p < r.len() && j - 1 > p {
                    assert(!key_below(r[p], r[j - 1]));
                }
            } else if i < p {
                assert(t[i] == r[i] && t[j] == r[j - 1]);
            } else {
                assert(t[i] == r[i - 1] && t[j] == r[j - 1]);
            }
        }
        assert forall|i: int| 0 <= i < s.len() implies exists|j: int|
            0 <= j < s.len() && #[trigger] t[i] == s[j] by {
            if i < p {
                assert(t[i] == r[i]);
                let k = choose|k: int| 0 <= k < d.len() && r[i] == d[k];
                assert(s[k] == d[k]);
            } else if i == p {
                assert(t[i] == s[s.len() - 1]);
            } else {
                assert(t[i] == r[i - 1]);
                let k = choose|k: int| 0 <= k < d.len() && r[i - 1] == d[k];
                assert(s[k] == d[k]);
            }
        }
    }
}

/// The key of a range, as `range_key` gives it.
fn left_key(m: &RangeMapper) -> (r: (usize, usize))
    ensures
        r == range_key(*m),
{
    m.left_anchor_key()
}

/// Sorts ranges by descending key, keeping ranges of equal keys in order.
pub fn sort_ranges(v: Vec<RangeMapper>) -> (r: Vec<RangeMapper>)
    ensures
        r@ == sort_desc(v@),
{
    let mut out: Vec<RangeMapper> = Vec::new();
    let mut i: usize = 0;
    while i < v.len()
        invariant
            i <= v@.len(),
            out@ == sort_desc(v@.subrange(0, i as int)),
        decreases v@.len() - i,
    {
        let x = v[i];
        let kx = left_key(&x);
        let mut p: usize = 0;
        while p < out.len()
            invariant
                p <= out@.len(),
                kx == range_key(x),
                forall|j: int| 0 <= j < p ==> !key_below(#[trigger] out@[j], x),
            ensures
                p <= out@.len(),
                forall|j: int| 0 <= j < p ==> !key_below(#[trigger] out@[j], x),
                p == out@.len() || key_below(out@[p as int], x),
            decreases out@.len() - p,
        {
            let k = left_key(&out[p]);
            if k.0 < kx.0 || (k.0 == kx.0 && k.1 < kx.1) {
                break;
            }
            p = p + 1;
        }
        proof {
            lemma_insert_pos(out@, x, p as int);
            let s = v@.subrange(0, i + 1);
            assert(s.drop_last() =~= v@.subrange(0, i as int));
            assert(s.last() == x);
        }
        out.insert(p, x);
        i = i + 1;
    }
    assert(v@.subrange(0, v@.len() as int) =~= v@);
    out
}

/// The least of the bodies, `usize::MAX` when there are none.
pub open spec fn min_body(s: Seq<RangeMapper>) -> usize
    decreases s.len(),
{
    if s.len() == 0 {
        usize::MAX
    } else {
        let m = min_body(s.drop_last());
        let b = match (s.last().start, s.last().end) {
            (RangeMapperAnchor::StartAnchored(x), RangeMapperAnchor::EndAnchored(_)) => x,
            _ => usize::MAX,
        };
        if b < m {
            b
        } else {
            m
        }
    }
}

/// The greatest of the tails, zero when there are none.
pub open spec fn max_tail(s: Seq<RangeMapper>) -> usize
    decreases s.len(),
{
    if s.len() == 0 {
        0
    } else {
        let m = max_tail(s.drop_last());
        let t = match (s.last().start, s.last().end) {
            (RangeMapperAnchor::StartAnchored(_), RangeMapperAnchor::StartAnchored(_)) => 0,
            (RangeMapperAnchor::StartAnchored(_), RangeMapperAnchor::EndAnchored(y)) => y,
            (RangeMapperAnchor::EndAnchored(x), RangeMapperAnchor::StartAnchored(_)) => x,
            (RangeMapperAnchor::EndAnchored(x), RangeMapperAnchor::EndAnchored(y)) => if x >= y {
                x
            } else {
                y
            },
        };
        if t > m {
            t
        } else {
            m
        }
    }
}

/// Keeps the byte ranges of a stream given by range expressions, in stream
/// order, each byte once.
pub struct Cutter {
    /// Ranges with both ends anchored at the start, by descending key.
    filters: Vec<RangeMapper>,
    /// Ranges with an end anchored at the end of the stream.
    tail_filters: Vec<RangeMapper>,
    /// Least start of a range from the start to the end of the stream.
    pass_after: usize,
    /// Bytes at the tail of the stream the end-anchored ranges depend on.
    tail_margin: usize,
}

impl Cutter {
    /// The start-anchored ranges waiting, by descending key.
    pub closed spec fn filters(&self) -> Seq<RangeMapper> {
        self.filters@
    }

    /// The end-anchored ranges waiting for the end of the stream.
    pub closed spec fn tail_filters(&self) -> Seq<RangeMapper> {
        self.tail_filters@
    }

    /// Least start of a range from the start to the end of the stream.
    pub closed spec fn pass_after(&self) -> usize {
        self.pass_after
    }

    /// Bytes at the tail of the stream the end-anchored ranges depend on.
    pub closed spec fn tail_margin(&self) -> usize {
        self.tail_margin
    }

    /// Reads the comma-separated range expressions `exprs` (one trailing
    /// comma allowed; none for an empty text).
    pub fn from_str(exprs: &str) -> (r: Result<Self, MapError>)
        ensures
            exprs@.len() == 0 ==> r is Ok,
            r matches Ok(c) ==> {
                &&& sorted_desc(c.filters())
                &&& forall|i: int|
                    0 <= i < c.filters().len() ==> !((#[trigger] c.filters()[i]).start is EndAnchored
                        || c.filters()[i].end is EndAnchored)
                &&& forall|i: int|
                    0 <= i < c.tail_filters().len() ==> (#[trigger] c.tail_filters()[i]).start is EndAnchored
                        || c.tail_filters()[i].end is EndAnchored
                &&& exprs@.len() == 0 ==> c.filters().len() == 0 && c.tail_filters().len() == 0
                &&& exprs@.len() > 0 ==> c.filters().len() + c.tail_filters().len() == bridge_pieces(
                    exprs@,
                ).len()
                &&& c.pass_after() == min_body(c.tail_filters())
                &&& c.tail_margin() == max_tail(c.tail_filters())
            },
    {
        let mut filters: Vec<RangeMapper> = Vec::new();
        let mut tail_filters: Vec<RangeMapper> = Vec::new();
        let chars = chars_of(exprs);
        let n = chars.len();
        if n > 0 {
            let body = if chars[n - 1] == ',' {
                exprs.substring_char(0, n - 1)
            } else {
                exprs
            };
            assert(body@ == crate::segment::bridge::strip_comma(exprs@));
            let pieces = split_strings(body, ',');
            proof {
                assert(texts(pieces@).len() == pieces@.len());
            }
            let mut i: usize = 0;
            while i < pieces.len()
                invariant
                    exprs@.len() > 0,
                    i <= pieces@.len(),
                    filters@.len() + tail_filters@.len() == i,
                    forall|j: int|
                        0 <= j < filters@.len() ==> !((#[trigger] filters@[j]).start is EndAnchored
                            || filters@[j].end is EndAnchored),
                    forall|j: int|
                        0 <= j < tail_filters@.len() ==> (#[trigger] tail_filters@[j]).start is EndAnchored
                            || tail_filters@[j].end is EndAnchored,
                decreases pieces@.len() - i,
            {
                let m = RangeMapper::from_str(pieces[i].as_str())?;
                if m.has_right_anchor() {
                    tail_filters.push(m);
                } else {
                    filters.push(m);
                }
                i = i + 1;
            }
        }
        let ghost unsorted = filters@;
        let filters = sort_ranges(filters);
        proof {
            lemma_sort_desc(unsorted);
            assert forall|i: int| 0 <= i < filters@.len() implies !((#[trigger] filters@[i]).start is EndAnchored
                || filters@[i].end is EndAnchored) by {
                let j = choose|j: int| 0 <= j < unsorted.len() && sort_desc(unsorted)[i] == unsorted[j];
            }
        }
        let mut pass_after: usize = usize::MAX;
        let mut tail_margin: usize = 0;
        let mut k: usize = 0;
        while k < tail_filters.len()
            invariant
                k <= tail_filters@.len(),
                pass_after == min_body(tail_filters@.subrange(0, k as int)),
                tail_margin == max_tail(tail_filters@.subrange(0, k as int)),
            decreases tail_filters@.len() - k,
        {
            let b = tail_filters[k].body_len();
            let t = tail_filters[k].tail_len();
            proof {
                let s = tail_filters@.subrange(0, k + 1);
                assert(s.drop_last() =~= tail_filters@.subrange(0, k as int));
            }
            if b < pass_after {
                pass_after = b;
            }
            if t > tail_margin {
                tail_margin = t;
            }
            k = k + 1;
        }
        assert(tail_filters@.subrange(0, tail_filters@.len() as int) =~= tail_filters@);
        Ok(Cutter { filters, tail_filters, pass_after, tail_margin })
    }
}

/// Appends the bytes of `s` to `v`.
pub fn extend_bytes(v: &mut Vec<u8>, s: &[u8])
    ensures
        final(v)@ == old(v)@ + s@,
{
    let ghost before = v@;
    v.extend_from_slice(s);
    proof {
        assert forall|i: int| 0 <= i < v@.len() implies v@[i] == (before + s@)[i] by {
            if i >= before.len() {
                assert(cloned::<u8>(s@[i - before.len()], v@[i]));
            }
        }
        assert(v@ =~= before + s@);
    }
}

/// A start-anchored range relative to `base`, clamped at zero and never
/// inverted; empty for any other range.
pub open spec fn left_range(m: RangeMapper, base: usize) -> (usize, usize) {
    match (m.start, m.end) {
        (RangeMapperAnchor::StartAnchored(x), RangeMapperAnchor::StartAnchored(y)) => {
            let s = sat_sub(x, base);
            let e = sat_sub(y, base);
            (s, if s >= e {
                s
            } else {
                e
            })
        },
        _ => (0usize, 0usize),
    }
}

/// The least of two positions.
pub open spec fn min_pos(a: usize, b: usize) -> usize {
    if a <= b {
        a
    } else {
        b
    }
}

/// The greatest of two positions.
pub open spec fn max_pos(a: usize, b: usize) -> usize {
    if a >= b {
        a
    } else {
        b
    }
}

/// Walking the ranges `fs` from the last one, on a buffer of `bytes`
/// bytes at `offset` in the stream, with bytes before `scanned` already
/// kept: the bytes kept, the ranges left for later, and the end of the
/// bytes kept. A range past the buffer stops the walk until the stream
/// has ended; ranges are clipped at `pass_after`.
pub open spec fn cut_scan(
    fs: Seq<RangeMapper>,
    offset: usize,
    pass_after: usize,
    scanned: usize,
    bytes: usize,
    is_eof: bool,
    stream: Seq<u8>,
) -> (Seq<u8>, Seq<RangeMapper>, usize)
    decreases fs.len(),
{
    if fs.len() == 0 {
        (seq![], fs, scanned)
    } else {
        let (rs, re) = left_range(fs.last(), offset);
        let start = min_pos(max_pos(min_pos(rs, pass_after), scanned), bytes);
        let end = min_pos(max_pos(re, scanned), bytes);
        let piece = stream.subrange(start as int, end as int);
        if !is_eof && re > bytes {
            (piece, fs, end)
        } else {
            let (o, r, l) = cut_scan(fs.drop_last(), offset, pass_after, end, bytes, is_eof, stream);
            (piece + o, r, l)
        }
    }
}

proof fn lemma_cut_scan_len(
    fs: Seq<RangeMapper>,
    offset: usize,
    pass_after: usize,
    scanned: usize,
    bytes: usize,
    is_eof: bool,
    stream: Seq<u8>,
)
    requires
        scanned <= bytes <= stream.len(),
    ensures
        ({
            let (o, r, l) = cut_scan(fs, offset, pass_after, scanned, bytes, is_eof, stream);
            &&& scanned <= l <= bytes
            &&& o.len() <= l - scanned
        }),
    decreases fs.len(),
{
    if fs.len() > 0 {
        let (rs, re) = left_range(fs.last(), offset);
        let end = min_pos(max_pos(re, scanned), bytes);
        lemma_cut_scan_len(fs.drop_last(), offset, pass_after, end, bytes, is_eof, stream);
    }
}

/// The end-anchored ranges turned start-anchored for a stream of `tail`
/// bytes.
pub open spec fn settle(t: Seq<RangeMapper>, tail: usize) -> Seq<RangeMapper> {
    t.map_values(|m: RangeMapper| left_anchored_spec(m, tail))
}

impl Cutter {
    /// Bytes of a buffer of `bytes` bytes that may be consumed: all once the
    /// stream has ended, else all but the tail margin.
    pub fn max_consume(&self, is_eof: bool, bytes: usize) -> (r: usize)
        ensures
            r == (if is_eof {
                bytes
            } else {
                sat_sub(bytes, self.tail_margin())
            }),
    {
        if is_eof {
            bytes
        } else {
            bytes.saturating_sub(self.tail_margin)
        }
    }

    /// Turns the end-anchored ranges start-anchored for a stream of `tail`
    /// bytes and sorts them in with the others.
    fn settle_at(&mut self, tail: usize)
        ensures
            final(self).filters() == sort_desc(old(self).filters() + settle(old(self).tail_filters(), tail)),
            final(self).tail_filters() == Seq::<RangeMapper>::empty(),
            final(self).pass_after() == old(self).pass_after(),
            final(self).tail_margin() == old(self).tail_margin(),
    {
        let mut all = self.filters.clone();
        let ghost base = all@;
        assert(base == self.filters@);
        let mut k: usize = 0;
        while k < self.tail_filters.len()
            invariant
                k <= self.tail_filters@.len(),
                all@ == base + settle(self.tail_filters@.subrange(0, k as int), tail),
            decreases self.tail_filters@.len() - k,
        {
            let m = self.tail_filters[k].to_left_anchored(tail);
            all.push(m);
            proof {
                assert(settle(self.tail_filters@.subrange(0, k + 1), tail) =~= settle(
                    self.tail_filters@.subrange(0, k as int),
                    tail,
                ).push(m));
            }
            k = k + 1;
        }
        assert(self.tail_filters@.subrange(0, self.tail_filters@.len() as int) =~= self.tail_filters@);
        self.tail_filters.clear();
        self.filters = sort_ranges(all);
    }

    /// Appends to `v` the bytes kept of the first `bytes` bytes of `stream`,
    /// which sit at `offset` in the stream. Once the stream has ended the
    /// end-anchored ranges are turned start-anchored; ranges not done wait
    /// for the next buffer; past `pass_after` every byte is kept.
    pub fn accumulate(&mut self, offset: usize, is_eof: bool, bytes: usize, stream: &[u8], v: &mut Vec<u8>)
        requires
            bytes <= stream@.len(),
            offset + bytes <= usize::MAX,
        ensures
            final(self).pass_after() == old(self).pass_after(),
            final(self).tail_margin() == old(self).tail_margin(),
            final(self).tail_filters() == (if is_eof && old(self).tail_filters().len() > 0 {
                seq![]
            } else {
                old(self).tail_filters()
            }),
            ({
                let fs = if is_eof && old(self).tail_filters().len() > 0 {
                    sort_desc(
                        old(self).filters() + settle(old(self).tail_filters(), (offset + bytes) as usize),
                    )
                } else {
                    old(self).filters()
                };
                let pa = if !is_eof {
                    sat_sub(old(self).pass_after(), offset)
                } else {
                    usize::MAX
                };
                let (o, r, l) = cut_scan(fs, offset, pa, 0, bytes, is_eof, stream@);
                let p = max_pos(pa, l);
                &&& final(v)@ == old(v)@ + o + (if p < bytes {
                    stream@.subrange(p as int, bytes as int)
                } else {
                    seq![]
                })
                &&& final(self).filters() == r
            }),
            final(v)@.len() <= old(v)@.len() + bytes,
    {
        if is_eof && self.tail_filters.len() > 0 {
            self.settle_at(offset + bytes);
        }
        let pass_after = if !is_eof {
            self.pass_after.saturating_sub(offset)
        } else {
            usize::MAX
        };
        let ghost fs0 = self.filters@;
        let ghost v0 = v@;
        let mut last_scanned: usize = 0;
        let ghost total = cut_scan(fs0, offset, pass_after, 0, bytes, is_eof, stream@);
        let ghost pa0 = self.pass_after;
        let ghost tm0 = self.tail_margin;
        let ghost tf0 = self.tail_filters@;
        proof {
            let e = Seq::<u8>::empty();
            assert(v@ =~= v0 + e);
            assert(total.0 =~= e + total.0);
        }
        loop
            invariant
                bytes <= stream@.len(),
                self.pass_after == pa0,
                self.tail_margin == tm0,
                self.tail_filters@ == tf0,
                last_scanned <= bytes,
                total == cut_scan(fs0, offset, pass_after, 0, bytes, is_eof, stream@),
                ({
                    let (o1, r1, l1) = cut_scan(
                        self.filters@,
                        offset,
                        pass_after,
                        last_scanned,
                        bytes,
                        is_eof,
                        stream@,
                    );
                    &&& exists|acc: Seq<u8>| v@ == v0 + acc && total.0 == acc + o1
                    &&& total.1 == r1
                    &&& total.2 == l1
                }),
            ensures
                last_scanned <= bytes,
                v@ == v0 + total.0,
                self.filters@ == total.1,
                last_scanned == total.2,
            decreases self.filters@.len(),
        {
            let ghost fs = self.filters@;
            let filter = match self.filters.pop() {
                Some(f) => f,
                None => {
                    proof {
                        let acc = choose|acc: Seq<u8>| v@ == v0 + acc && total.0 == acc + seq![];
                        assert(total.0 =~= acc);
                    }
                    break;
                },
            };
            let range = filter.left_anchored_range(offset);
            let start = if range.start < pass_after {
                range.start
            } else {
                pass_after
            };
            let start = if start > last_scanned {
                start
            } else {
                last_scanned
            };
            let start = if start < bytes {
                start
            } else {
                bytes
            };
            let end = if range.end > last_scanned {
                range.end
            } else {
                last_scanned
            };
            let end = if end < bytes {
                end
            } else {
                bytes
            };
            let ghost acc = choose|acc: Seq<u8>|
                v@ == v0 + acc && total.0 == acc + cut_scan(
                    fs,
                    offset,
                    pass_after,
                    last_scanned,
                    bytes,
                    is_eof,
                    stream@,
                ).0;
            let piece = vstd::slice::slice_subrange(stream, start, end);
            extend_bytes(v, piece);
            assert(fs.drop_last() == self.filters@);
            assert(fs.last() == filter);
            last_scanned = end;
            if !is_eof && range.end > bytes {
                self.filters.push(filter);
                assert(self.filters@ =~= fs);
                proof {
                    assert(v@ =~= v0 + (acc + piece@));
                    assert(total.0 =~= acc + piece@);
                }
                break;
            }
            proof {
                assert(v@ =~= v0 + (acc + piece@));
                let rest = cut_scan(self.filters@, offset, pass_after, end, bytes, is_eof, stream@);
                assert(total.0 =~= (acc + piece@) + rest.0);
            }
        }
        proof {
            lemma_cut_scan_len(fs0, offset, pass_after, 0, bytes, is_eof, stream@);
        }
        let p = if pass_after > last_scanned {
            pass_after
        } else {
            last_scanned
        };
        if p < bytes {
            let tail = vstd::slice::slice_subrange(stream, p, bytes);
            extend_bytes(v, tail);
        } else {
            assert(v@ =~= v@ + Seq::<u8>::empty());
        }
    }
}

/// A byte stream of the ranges of another that range expressions keep.
pub struct CutStream<S: ByteStream> {
    src: EofStream<S>,
    /// Bytes of the source consumed so far.
    src_consumed: usize,
    /// Bytes kept and not consumed, then a margin of filler bytes.
    buf: Vec<u8>,
    len: usize,
    cutter: Cutter,
    /// Bytes consumed so far.
    taken: Ghost<Seq<u8>>,
}

/// Sets the bytes past the first `len` of `buf` to a margin of zeros.
pub(crate) fn set_margin(buf: &mut Vec<u8>, len: usize)
    requires
        len <= old(buf)@.len(),
        len + MARGIN_SIZE <= usize::MAX,
    ensures
        final(buf)@.len() == len + MARGIN_SIZE,
        final(buf)@.subrange(0, len as int) == old(buf)@.subrange(0, len as int),
{
    buf.truncate(len);
    buf.resize(len + MARGIN_SIZE, 0);
}

impl<S: ByteStream> CutStream<S> {
    /// The source read from.
    /// The stream cut.
    pub closed spec fn upstream(&self) -> S {
        self.src.source()
    }

    pub closed spec fn source(&self) -> EofStream<S> {
        self.src
    }

    /// The cutter applied.
    pub closed spec fn cutter(&self) -> Cutter {
        self.cutter
    }

    /// Bytes of the source consumed so far.
    pub closed spec fn src_consumed(&self) -> usize {
        self.src_consumed
    }

    /// The bytes kept and not consumed.
    pub closed spec fn kept(&self) -> Seq<u8> {
        self.buf@.subrange(0, self.len as int)
    }

    /// A stream of the ranges of `src` that the comma-separated range
    /// expressions `exprs` keep.
    pub fn new(src: S, exprs: &str) -> (r: Result<Self, MapError>)
        requires
            src.wf(),
        ensures
            exprs@.len() == 0 ==> r is Ok,
            r matches Ok(c) ==> c.wf() && c.kept().len() == 0 && c.src_consumed() == 0 && c.upstream()
                == src,
    {
        let cutter = Cutter::from_str(exprs)?;
        let mut buf: Vec<u8> = Vec::new();
        buf.resize(MARGIN_SIZE, 0);
        Ok(CutStream { src: EofStream::new(src), src_consumed: 0, buf, len: 0, cutter, taken: Ghost(Seq::empty()) })
    }
}

impl<S: ByteStream> ByteStream for CutStream<S> {
    closed spec fn wf(&self) -> bool {
        &&& self.src.wf()
        &&& self.src.request() > 0
        &&& self.buf@.len() == self.len + MARGIN_SIZE
        &&& self.len <= usize::MAX / 2
    }

    closed spec fn available(&self) -> nat {
        self.len as nat
    }

    closed spec fn buffer(&self) -> Seq<u8> {
        self.buf@
    }

    closed spec fn taken(&self) -> Seq<u8> {
        self.taken@
    }

    /// Reads the source until a round keeps some bytes or the source ends:
    /// each round cuts the bytes that may be consumed and consumes them
    /// from the source.
    fn fill_buf(&mut self) -> (r: std::io::Result<usize>)
        ensures
            final(self).kept().len() >= old(self).kept().len(),
            final(self).kept().subrange(0, old(self).kept().len() as int) == old(self).kept(),
            final(self).src_consumed() >= old(self).src_consumed(),
    {
        let ghost mut prev_len: usize = 0;
        let ghost kept0 = self.buf@.subrange(0, self.len as int);
        loop
            invariant
                self.taken == old(self).taken,
                self.wf(),
                self.src.request() > prev_len,
                kept0 == old(self).buf@.subrange(0, old(self).len as int),
                kept0.len() == old(self).len,
                self.len >= kept0.len(),
                self.buf@.subrange(0, kept0.len() as int) == kept0,
                self.src_consumed >= old(self).src_consumed,
            decreases usize::MAX - self.src_consumed, usize::MAX - prev_len,
        {
            let (is_eof, len) = self.src.fill_buf()?;
            if len > usize::MAX / 4 || self.len > usize::MAX / 4 {
                return Err(invalid_stream_error());
            }
            let bytes = self.cutter.max_consume(is_eof, len);
            if !is_eof && bytes == 0 {
                self.src.consume(0);
                proof {
                    prev_len = len;
                }
                continue;
            }
            if usize::MAX - self.src_consumed < bytes {
                return Err(invalid_stream_error());
            }
            let prev = self.len;
            let ghost before = self.buf@.subrange(0, prev as int);
            self.buf.truncate(prev);
            assert(self.buf@ == before);
            let stream = self.src.as_slice();
            self.cutter.accumulate(self.src_consumed, is_eof, bytes, stream, &mut self.buf);
            let n = self.buf.len();
            assert(self.buf@.subrange(0, prev as int) == before);
            set_margin(&mut self.buf, n);
            self.len = n;
            proof {
                assert(self.buf@.subrange(0, kept0.len() as int) =~= before.subrange(0, kept0.len() as int));
            }
            self.src.consume(bytes);
            self.src_consumed = self.src_consumed + bytes;
            if !is_eof && n == prev {
                proof {
                    prev_len = 0;
                }
                continue;
            }
            return Ok(n);
        }
    }

    fn as_slice(&self) -> (r: &[u8]) {
        self.buf.as_slice()
    }

    /// Drops the first `amount` bytes of the buffer.
    fn consume(&mut self, amount: usize)
        ensures
            final(self).available() == old(self).available() - amount,
            final(self).buffer() == old(self).buffer().subrange(amount as int, old(self).buffer().len() as int),
    {
        self.taken = Ghost(self.taken@ + self.buf@.subrange(0, amount as int));
        if amount == 0 {
            assert(self.buf@.subrange(0, self.buf@.len() as int) =~= self.buf@);
            return ;
        }
        let rest = vstd::slice::slice_subrange(self.buf.as_slice(), amount, self.buf.len());
        self.buf = vstd::slice::slice_to_vec(rest);
        self.len = self.len - amount;
    }
}

} // verus!
