use vstd::prelude::*;
use vstd::string::StringExecFns;

use super::{Segment, SegmentStream};
use crate::byte::invalid_stream_error;

verus! {

/// Regular expressions over bytes, as the `regex` crate compiles them.
#[verifier::external_type_specification]
#[verifier::external_body]
pub struct ExRegex(::regex::bytes::Regex);

/// Why the `regex` crate refused a pattern.
#[verifier::external_type_specification]
#[verifier::external_body]
pub struct ExRegexError(::regex::Error);

/// Whether `regex::bytes::Regex::new` accepts `pattern`.
pub uninterp spec fn regex_accepts(pattern: Seq<char>) -> bool;

/// The `(start, end)` offsets of the matches that `find_iter` of the regex
/// compiled from `pattern` yields on `hay`.
pub uninterp spec fn regex_matches(pattern: Seq<char>, hay: Seq<u8>) -> Seq<(usize, usize)>;

/// What the `regex` documentation promises of matches: each lies in the
/// haystack (`start <= end`, `&hay[start..end]` is valid), and they come
/// in order without overlapping.
pub open spec fn matches_ok(m: Seq<(usize, usize)>, hay_len: nat) -> bool {
    &&& forall|i: int| 0 <= i < m.len() ==> (#[trigger] m[i]).0 <= m[i].1 <= hay_len
    &&& forall|i: int| 0 <= i < m.len() - 1 ==> (#[trigger] m[i]).1 <= m[i + 1].0
}

/// `regex::bytes::Regex::new`: a pattern is accepted or not by its text
/// alone.
#[verifier::external_body]
fn compile(pattern: &str) -> (r: Result<::regex::bytes::Regex, ::regex::Error>)
    ensures
        r is Ok <==> regex_accepts(pattern@),
{
    ::regex::bytes::Regex::new(pattern)
}

/// `find_iter` of the regex of `p` on `hay`, each match as its start and
/// end offsets: the matches that `regex_matches` names, in the haystack and
/// in order.
#[verifier::external_body]
fn find_matches(p: &RegexPattern, hay: &[u8]) -> (r: Vec<(usize, usize)>)
    ensures
        r@ == regex_matches(p@, hay@),
        matches_ok(r@, hay@.len()),
{
    p.re.find_iter(hay).map(|m| (m.start(), m.end())).collect()
}

/// A compiled regular expression with the text it was compiled from.
pub struct RegexPattern {
    re: ::regex::bytes::Regex,
    text: String,
}

impl View for RegexPattern {
    type V = Seq<char>;

    closed spec fn view(&self) -> Seq<char> {
        self.text@
    }
}

/// Why a regular expression was refused.
#[derive(Copy, Clone, Debug, PartialEq, Eq)]
pub enum RegexError {
    /// The `regex` crate does not accept the pattern.
    Pattern,
}

impl RegexPattern {
    /// Compiles `pattern`.
    pub fn new(pattern: &str) -> (r: Result<Self, RegexError>)
        ensures
            r is Ok <==> regex_accepts(pattern@),
            r matches Ok(p) ==> p@ == pattern@,
    {
        match compile(pattern) {
            Ok(re) => Ok(RegexPattern { re, text: String::from_str(pattern) }),
            Err(_) => Err(RegexError::Pattern),
        }
    }

    /// The matches in `hay`, as slices of it.
    pub fn find_all(&self, hay: &[u8]) -> (r: Vec<Segment>)
        ensures
            r@ == regex_matches(self@, hay@).map_values(
                |m: (usize, usize)| Segment { pos: m.0, len: (m.1 - m.0) as usize },
            ),
            forall|i: int| 0 <= i < r@.len() ==> (#[trigger] r@[i]).pos + r@[i].len <= hay@.len(),
    {
        let found = find_matches(self, hay);
        let mut v: Vec<Segment> = Vec::new();
        let mut k: usize = 0;
        while k < found.len()
            invariant
                k <= found@.len(),
                found@ == regex_matches(self@, hay@),
                matches_ok(found@, hay@.len()),
                v@ == found@.subrange(0, k as int).map_values(
                    |m: (usize, usize)| Segment { pos: m.0, len: (m.1 - m.0) as usize },
                ),
            decreases found@.len() - k,
        {
            let (a, b) = found[k];
            assert(found@[k as int].0 <= found@[k as int].1);
            v.push(Segment { pos: a, len: b - a });
            proof {
                assert(found@.subrange(0, k + 1).map_values(
                    |m: (usize, usize)| Segment { pos: m.0, len: (m.1 - m.0) as usize },
                ) =~= found@.subrange(0, k as int).map_values(
                    |m: (usize, usize)| Segment { pos: m.0, len: (m.1 - m.0) as usize },
                ).push(Segment { pos: a, len: (b - a) as usize }));
            }
            k = k + 1;
        }
        assert(found@.subrange(0, found@.len() as int) =~= found@);
        v
    }
}

/// The matches in the slices `segs[from..to]` of `block`, slice after
/// slice, placed at their slice.
pub open spec fn found_in(p: Seq<char>, block: Seq<u8>, segs: Seq<Segment>, from: int, to: int) -> Seq<Segment>
    decreases to - from,
{
    if to <= from {
        seq![]
    } else {
        let s = segs[to - 1];
        found_in(p, block, segs, from, to - 1) + regex_matches(
            p,
            block.subrange(s.pos as int, s.pos + s.len),
        ).map_values(|m: (usize, usize)| Segment { pos: (s.pos + m.0) as usize, len: (m.1 - m.0) as usize })
    }
}

/// Leaves the matches of a regular expression in each slice of a sliced
/// stream.
pub struct RegexSlicer<S: SegmentStream> {
    src: S,
    pattern: RegexPattern,
    matches: Vec<Segment>,
    /// Slices of the source searched already.
    done: usize,
    /// The buffer searched at the last fill.
    seen: Ghost<Seq<u8>>,
}

impl<S: SegmentStream> RegexSlicer<S> {
    /// The pattern searched for.
    pub closed spec fn pattern(&self) -> Seq<char> {
        self.pattern@
    }

    /// The source.
    pub closed spec fn source(&self) -> S {
        self.src
    }

    /// Slices of the source searched already.
    pub closed spec fn searched(&self) -> usize {
        self.done
    }

    /// The buffer searched at the last fill.
    pub closed spec fn seen(&self) -> Seq<u8> {
        self.seen@
    }

    /// A slicer leaving the matches of `pattern` in each slice of `src`.
    pub fn new(src: S, pattern: &str) -> (r: Result<Self, RegexError>)
        requires
            src.wf(),
            src.segments().len() == 0,
        ensures
            r is Ok <==> regex_accepts(pattern@),
            r matches Ok(x) ==> x.wf() && x.pattern() == pattern@ && x.segments().len() == 0 && x.source() == src
                && x.searched() == 0,
    {
        let p = RegexPattern::new(pattern)?;
        Ok(RegexSlicer { src, pattern: p, matches: Vec::new(), done: 0, seen: Ghost(Seq::empty()) })
    }
}

impl<S: SegmentStream> SegmentStream for RegexSlicer<S> {
    closed spec fn wf(&self) -> bool {
        &&& self.src.wf()
        &&& self.done <= self.src.segments().len()
    }

    closed spec fn consumed(&self) -> nat {
        self.src.consumed()
    }

    closed spec fn segments(&self) -> Seq<Segment> {
        self.matches@
    }

    /// Every slice of the source has been searched.
    closed spec fn block(&self) -> Seq<u8> {
        self.src.block()
    }

    closed spec fn filled(&self) -> bool {
        &&& self.src.filled()
        &&& self.done == self.src.segments().len()
    }

    /// Fills the source and searches the slices it added.
    fn fill_segment_buf(&mut self) -> (r: std::io::Result<(bool, usize, usize, usize)>)
        ensures
            final(self).pattern() == old(self).pattern(),
            r matches Ok(x) ==> final(self).segments() == old(self).segments() + found_in(
                final(self).pattern(),
                final(self).seen(),
                final(self).source().segments(),
                old(self).searched() as int,
                final(self).source().segments().len() as int,
            ),
    {
        let x = self.src.fill_segment_buf()?;
        let (block, segs) = self.src.as_slices();
        let n = segs.len();
        let blen = block.len();
        if self.done > n {
            self.done = n;
            return Err(invalid_stream_error());
        }
        let ghost src0 = self.src;
        let ghost pat0 = self.pattern;
        let ghost done0 = self.done;
        let mut k: usize = self.done;
        while k < n
            invariant
                self.done <= k <= n,
                n == segs@.len(),
                self.src == src0,
                src0.consumed() == old(self).src.consumed(),
                src0.wf(),
                segs@ == src0.segments(),
                self.pattern == pat0,
                pat0 == old(self).pattern,
                self.done == done0,
                self.matches@ == old(self).matches@,
                blen == block@.len(),
                forall|i: int|
                    self.done <= i < k ==> (#[trigger] segs@[i]).pos + segs@[i].len <= blen,
            decreases n - k,
        {
            let s = segs[k];
            if s.pos > blen || s.len > blen - s.pos {
                return Err(invalid_stream_error());
            }
            k = k + 1;
        }
        let ghost old_matches = self.matches@;
        let ghost from = self.done;
        let mut k: usize = self.done;
        while k < n
            invariant
                from <= k <= n,
                n == segs@.len(),
                self.src == src0,
                src0.consumed() == old(self).src.consumed(),
                src0.wf(),
                segs@ == src0.segments(),
                self.pattern == pat0,
                pat0 == old(self).pattern,
                self.done == done0,
                from == done0,
                blen == block@.len(),
                forall|i: int| from <= i < n ==> (#[trigger] segs@[i]).pos + segs@[i].len <= blen,
                self.matches@ == old_matches + found_in(self.pattern@, block@, segs@, from as int, k as int),
            decreases n - k,
        {
            let s = segs[k];
            let part = vstd::slice::slice_subrange(block, s.pos, s.pos + s.len);
            let found = self.pattern.find_all(part);
            let ghost before = self.matches@;
            let mut j: usize = 0;
            while j < found.len()
                invariant
                    j <= found@.len(),
                    self.src == src0,
                    src0.consumed() == old(self).src.consumed(),
                    self.pattern == pat0,
                    pat0 == old(self).pattern,
                    self.done == done0,
                    self.matches@ == before + regex_matches(self.pattern@, part@).map_values(
                        |m: (usize, usize)| Segment { pos: (s.pos + m.0) as usize, len: (m.1 - m.0) as usize },
                    ).subrange(0, j as int),
                    found@ == regex_matches(self.pattern@, part@).map_values(
                        |m: (usize, usize)| Segment { pos: m.0, len: (m.1 - m.0) as usize },
                    ),
                    forall|i: int| 0 <= i < found@.len() ==> (#[trigger] found@[i]).pos + found@[i].len <= part@.len(),
                    s.pos + part@.len() <= blen,
                decreases found@.len() - j,
            {
                let m = found[j];
                self.matches.push(Segment { pos: s.pos + m.pos, len: m.len });
                proof {
                    let all = regex_matches(self.pattern@, part@).map_values(
                        |m: (usize, usize)| Segment { pos: (s.pos + m.0) as usize, len: (m.1 - m.0) as usize },
                    );
                    assert(all.subrange(0, j + 1) =~= all.subrange(0, j as int).push(all[j as int]));
                }
                j = j + 1;
            }
            proof {
                let all = regex_matches(self.pattern@, part@).map_values(
                    |m: (usize, usize)| Segment { pos: (s.pos + m.0) as usize, len: (m.1 - m.0) as usize },
                );
                assert(all.subrange(0, all.len() as int) =~= all);
                assert(part@ == block@.subrange(s.pos as int, s.pos + s.len));
            }
            k = k + 1;
        }
        self.done = n;
        self.seen = Ghost(block@);
        Ok((x.0, x.1, self.matches.len(), x.3))
    }

    fn as_slices(&self) -> (r: (&[u8], &[Segment])) {
        let (block, _) = self.src.as_slices();
        (block, self.matches.as_slice())
    }

    /// Drops up to `bytes` bytes from the head of the source, with the
    /// matches that start in them; the others move back.
    fn consume(&mut self, bytes: usize) -> (r: std::io::Result<(usize, usize)>)
        ensures
            final(self).pattern() == old(self).pattern(),
            r matches Ok(x) ==> final(self).segments() == old(self).segments().filter(
                |s: Segment| s.pos >= x.0,
            ).map_values(|s: Segment| Segment { pos: (s.pos - x.0) as usize, len: s.len }),
    {
        let (fwd, cnt) = self.src.consume(bytes)?;
        self.done = self.done - cnt;
        let ghost old_matches = self.matches@;
        let n = self.matches.len();
        let mut kept: Vec<Segment> = Vec::new();
        let mut k: usize = 0;
        while k < n
            invariant
                k <= n,
                n == old_matches.len(),
                self.matches@ == old_matches,
                kept@ == old_matches.subrange(0, k as int).filter(|s: Segment| s.pos >= fwd).map_values(
                    |s: Segment| Segment { pos: (s.pos - fwd) as usize, len: s.len },
                ),
            decreases n - k,
        {
            let s = self.matches[k];
            proof {
                assert(old_matches.subrange(0, k + 1) =~= old_matches.subrange(0, k as int).push(s));
                old_matches.subrange(0, k as int).lemma_filter_push(s, |s: Segment| s.pos >= fwd);
            }
            if s.pos >= fwd {
                kept.push(Segment { pos: s.pos - fwd, len: s.len });
            }
            k = k + 1;
        }
        assert(old_matches.subrange(0, n as int) =~= old_matches);
        proof {
            old_matches.lemma_filter_len(|s: Segment| s.pos >= fwd);
        }
        let dropped = n - kept.len();
        self.matches = kept;
        Ok((fwd, dropped))
    }
}

} // verus!
