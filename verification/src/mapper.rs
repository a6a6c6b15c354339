use vstd::prelude::*;
use vstd::string::StrSliceExecFns;

use crate::eval::text::chars_of;
use crate::eval::lexer::{opt_vars_view, vars_view};
use crate::eval::{parse_error, parsed_tokens, EvalError, Rpn, Token, VarAttr};

verus! {

/// Why a slice-mapping expression was refused.
#[derive(Copy, Clone, Debug, PartialEq, Eq)]
pub enum MapError {
    /// The expression of one side could not be evaluated.
    Eval(EvalError),
    /// A side is not an input boundary plus a constant.
    NotRelative,
    /// Not of the form `S..E`.
    NotRange,
}

/// One side of a slice mapping: input boundary `anchor` (0 for the start of
/// the input slice, 1 for its end) plus `offset`.
#[derive(Debug, Copy, Clone, PartialEq, Eq)]
pub struct SegmentMapperAnchor {
    pub anchor: usize,
    pub offset: isize,
}

/// Shape of a canonical side expression: a constant, a variable, or a
/// variable plus a constant.
pub open spec fn anchor_of_tokens(t: Seq<Token>, const_default: usize) -> Option<(usize, isize)> {
    if t.len() == 1 && t[0] is Val {
        Some((const_default, t[0]->Val_0 as isize))
    } else if t.len() == 1 && t[0] == Token::Var(t[0]->Var_0, 1) {
        Some((t[0]->Var_0, 0isize))
    } else if t.len() == 3 && t[0] == Token::Var(t[0]->Var_0, 1) && t[1] is Val && t[2]
        == Token::Op('+') {
        Some((t[0]->Var_0, t[1]->Val_0 as isize))
    } else {
        None
    }
}

fn anchor_from_tokens(t: &Vec<Token>, const_default: usize) -> (r: Option<(usize, isize)>)
    ensures
        r == anchor_of_tokens(t@, const_default),
{
    if t.len() == 1 {
        match t[0] {
            Token::Val(c) => {
                return Some((const_default, c as isize));
            },
            Token::Var(id, 1) => {
                return Some((id, 0));
            },
            _ => {
                return None;
            },
        }
    }
    if t.len() == 3 {
        match (t[0], t[1], t[2]) {
            (Token::Var(id, 1), Token::Val(c), Token::Op('+')) => {
                return Some((id, c as isize));
            },
            _ => {
                return None;
            },
        }
    }
    None
}

/// The variable table of a slice-mapping side: `s` (id 0) and `e` (id 1).
pub open spec fn anchor_var_table() -> Seq<(Seq<u8>, VarAttr)> {
    seq![
        (seq![0x73u8], VarAttr { is_array: false, id: 0 }),
        (seq![0x65u8], VarAttr { is_array: false, id: 1 }),
    ]
}

/// The text of a side: `empty_default` in place of an empty one.
pub open spec fn side_text(expr: Seq<char>, empty_default: Seq<char>) -> Seq<char> {
    if expr.len() == 0 {
        empty_default
    } else {
        expr
    }
}

/// One side of a slice mapping read from `expr`, as `from_str` reads it.
pub open spec fn anchor_parse(expr: Seq<char>, empty_default: Seq<char>, const_default: usize) -> Result<
    SegmentMapperAnchor,
    MapError,
> {
    match parsed_tokens(Some(anchor_var_table()), side_text(expr, empty_default)) {
        Err(e) => Err(MapError::Eval(e)),
        Ok(t) => match anchor_of_tokens(t, const_default) {
            Some((anchor, offset)) => if anchor > 1 {
                Err(MapError::NotRelative)
            } else {
                Ok(SegmentMapperAnchor { anchor, offset })
            },
            None => Err(MapError::NotRelative),
        },
    }
}

impl SegmentMapperAnchor {
    /// Reads one side of a slice mapping, an expression over `s` (start) and
    /// `e` (end); an empty side stands for `empty_default`, and a constant is
    /// taken relative to the boundary `const_default`.
    pub fn from_str(expr: &str, empty_default: &str, const_default: usize) -> (r: Result<
        Self,
        MapError,
    >)
        requires
            const_default <= 1,
        ensures
            r matches Ok(a) ==> a.anchor <= 1,
            parse_error(Some(anchor_var_table()), side_text(expr@, empty_default@)) matches Some(e)
                ==> r == Err::<Self, MapError>(MapError::Eval(e)),
            r == anchor_parse(expr@, empty_default@, const_default),
    {
        let expr = if expr.is_empty() {
            empty_default
        } else {
            expr
        };
        let s_name: [u8; 1] = [0x73u8];
        let e_name: [u8; 1] = [0x65u8];
        let s: &[u8] = s_name.as_slice();
        let e: &[u8] = e_name.as_slice();
        let vars: [(&[u8], VarAttr); 2] = [
            (s, VarAttr { is_array: false, id: 0 }),
            (e, VarAttr { is_array: false, id: 1 }),
        ];
        let vs = vars.as_slice();
        assert(opt_vars_view(Some(vs)) == Some(anchor_var_table())) by {
            assert(s_name@ =~= seq![0x73u8]);
            assert(e_name@ =~= seq![0x65u8]);
            assert(vars_view(vs) =~= anchor_var_table());
        }
        let rpn = match Rpn::new(expr, Some(vs)) {
            Ok(r) => r,
            Err(e) => {
                return Err(MapError::Eval(e));
            },
        };
        let tokens = rpn.tokens();
        match anchor_from_tokens(&tokens, const_default) {
            Some((anchor, offset)) => {
                if anchor > 1 {
                    return Err(MapError::NotRelative);
                }
                Ok(SegmentMapperAnchor { anchor, offset })
            },
            None => Err(MapError::NotRelative),
        }
    }

    /// Boundary plus offset.
    pub fn evaluate(&self, input: &[isize; 2]) -> (r: isize)
        requires
            self.anchor <= 1,
            isize::MIN <= input@[self.anchor as int] + self.offset <= isize::MAX,
        ensures
            r == input@[self.anchor as int] + self.offset,
    {
        input[self.anchor] + self.offset
    }
}

/// A mapping of input slices `[s, e)` to output slices: each side is a
/// boundary of an input slice plus a constant.
#[derive(Debug, Copy, Clone, PartialEq, Eq)]
pub struct SegmentMapper {
    pub start: SegmentMapperAnchor,
    pub end: SegmentMapperAnchor,
}

/// Splits `s[i..]` at each `..`; `cur` is the piece gathered so far.
pub open spec fn split_dots(s: Seq<char>, i: int, cur: Seq<char>) -> Seq<Seq<char>>
    decreases s.len() - i,
{
    if i < 0 || i >= s.len() {
        seq![cur]
    } else if s[i] == '.' && i + 1 < s.len() && s[i + 1] == '.' {
        seq![cur] + split_dots(s, i + 2, seq![])
    } else {
        split_dots(s, i + 1, cur.push(s[i]))
    }
}

/// The text an empty side stands for: `e` for the second side, `s` for
/// any other.
pub open spec fn side_default(k: int) -> Seq<char> {
    if k == 1 {
        seq!['e']
    } else {
        seq!['s']
    }
}

/// The mapping of the two sides `p0..p1`, as `from_str` reads it: the
/// error of the first side that fails, if any.
pub open spec fn mapper_of(p0: Seq<char>, p1: Seq<char>) -> Result<SegmentMapper, MapError> {
    match anchor_parse(p0, side_default(0), 0) {
        Err(e) => Err(e),
        Ok(a) => match anchor_parse(p1, side_default(1), 0) {
            Err(e) => Err(e),
            Ok(c) => Ok(SegmentMapper { start: a, end: c }),
        },
    }
}

/// Splitting always gives at least one piece.
proof fn lemma_split_dots_nonempty(s: Seq<char>, i: int, cur: Seq<char>)
    ensures
        split_dots(s, i, cur).len() >= 1,
    decreases s.len() - i,
{
    if i < 0 || i >= s.len() {
    } else if s[i] == '.' && i + 1 < s.len() && s[i + 1] == '.' {
        lemma_split_dots_nonempty(s, i + 2, seq![]);
    } else {
        lemma_split_dots_nonempty(s, i + 1, cur.push(s[i]));
    }
}

impl SegmentMapper {
    /// Reads an `S..E` slice-mapping expression. An empty start is `s`, an
    /// empty end is `e`; a constant start is relative to `s`, a constant end
    /// relative to `s` too. A side that fails gives its error (the first
    /// one), and any other number of sides than two is not a range.
    pub fn from_str(expr: &str) -> (r: Result<Self, MapError>)
        ensures
            r is Ok ==> split_dots(expr@, 0, seq![]).len() == 2,
            r matches Ok(m) ==> m.start.anchor <= 1 && m.end.anchor <= 1,
            parse_error(
                Some(anchor_var_table()),
                side_text(split_dots(expr@, 0, seq![])[0], seq!['s']),
            ) matches Some(e) ==> r == Err::<Self, MapError>(MapError::Eval(e)),
            split_dots(expr@, 0, seq![]).len() == 2 ==> r == mapper_of(
                split_dots(expr@, 0, seq![])[0],
                split_dots(expr@, 0, seq![])[1],
            ),
    {
        proof {
            reveal_strlit("s");
            reveal_strlit("e");
        }
        let chars = chars_of(expr);
        let n = chars.len();
        let mut v: Vec<SegmentMapperAnchor> = Vec::new();
        let ghost mut done: Seq<Seq<char>> = seq![];
        let ghost pieces = split_dots(expr@, 0, seq![]);
        let mut start: usize = 0;
        let mut i: usize = 0;
        assert(expr@.subrange(0, 0) =~= Seq::<char>::empty());
        assert(done + split_dots(expr@, 0, seq![]) =~= split_dots(expr@, 0, seq![]));
        while i < n
            invariant
                n == chars@.len() == expr@.len(),
                chars@ == expr@,
                start <= i <= n,
                pieces == split_dots(expr@, 0, seq![]),
                pieces == done + split_dots(expr@, i as int, expr@.subrange(start as int, i as int)),
                v@.len() == done.len(),
                forall|k: int| 0 <= k < v@.len() ==> (#[trigger] v@[k]).anchor <= 1,
                forall|k: int|
                    0 <= k < v@.len() ==> anchor_parse(done[k], side_default(k), 0) == Ok::<
                        SegmentMapperAnchor,
                        MapError,
                    >(#[trigger] v@[k]),
                done.len() == 0 ==> start == 0,
                "s"@ == seq!['s'],
                "e"@ == seq!['e'],
            decreases n - i,
        {
            if chars[i] == '.' && i + 1 < n && chars[i + 1] == '.' {
                let piece = expr.substring_char(start, i);
                let ghost p = expr@.subrange(start as int, i as int);
                proof {
                    lemma_split_dots_nonempty(expr@, i + 2, seq![]);
                    assert(split_dots(expr@, i as int, p) == seq![p] + split_dots(
                        expr@,
                        i + 2,
                        seq![],
                    ));
                    assert(pieces == done + seq![p] + split_dots(expr@, i + 2, seq![]));
                    assert(pieces[done.len() as int] == p);
                    assert(pieces.len() >= done.len() + 2);
                }
                let k = v.len();
                let (empty_default, const_default) = if k == 1 {
                    ("e", 0)
                } else {
                    ("s", 0)
                };
                assert(empty_default@ == side_default(k as int));
                let a = match SegmentMapperAnchor::from_str(piece, empty_default, const_default) {
                    Ok(a) => a,
                    Err(e) => {
                        proof {
                            if k > 0 {
                                assert(anchor_parse(done[0], side_default(0), 0) == Ok::<
                                    SegmentMapperAnchor,
                                    MapError,
                                >(v@[0]));
                                assert(done[0] == pieces[0]);
                            } else {
                                assert(p == pieces[0]);
                            }
                        }
                        return Err(e);
                    },
                };
                v.push(a);
                proof {
                    done = done + seq![p];
                    assert(expr@.subrange(i + 2, i + 2) =~= Seq::<char>::empty());
                    assert(pieces =~= done + split_dots(expr@, i + 2, seq![]));
                }
                i = i + 2;
                start = i;
            } else {
                assert(expr@.subrange(start as int, i + 1) =~= expr@.subrange(start as int, i as int).push(
                    expr@[i as int],
                ));
                i = i + 1;
            }
        }
        let piece = expr.substring_char(start, n);
        let ghost p = expr@.subrange(start as int, n as int);
        proof {
            assert(split_dots(expr@, n as int, p) == seq![p]);
            assert(pieces =~= done + seq![p]);
            assert(pieces[done.len() as int] == p);
        }
        let k = v.len();
        let (empty_default, const_default) = if k == 1 {
            ("e", 0)
        } else {
            ("s", 0)
        };
        assert(empty_default@ == side_default(k as int));
        let a = match SegmentMapperAnchor::from_str(piece, empty_default, const_default) {
            Ok(a) => a,
            Err(e) => {
                proof {
                    if k > 0 {
                        assert(anchor_parse(done[0], side_default(0), 0) == Ok::<
                            SegmentMapperAnchor,
                            MapError,
                        >(v@[0]));
                        assert(done[0] == pieces[0]);
                    }
                }
                return Err(e);
            },
        };
        v.push(a);
        proof {
            done = done + seq![p];
        }
        assert(split_dots(expr@, 0, seq![]) == done);
        assert(anchor_parse(done[0], side_default(0), 0) == Ok::<SegmentMapperAnchor, MapError>(v@[0]));
        if v.len() != 2 {
            return Err(MapError::NotRange);
        }
        assert(anchor_parse(done[1], side_default(1), 0) == Ok::<SegmentMapperAnchor, MapError>(v@[1]));
        Ok(SegmentMapper { start: v[0], end: v[1] })
    }

    /// Output slice of the input slices `start` and `end` (each `[s, e]`).
    pub fn evaluate(&self, start: &[isize; 2], end: &[isize; 2]) -> (r: (isize, isize))
        requires
            self.start.anchor <= 1,
            self.end.anchor <= 1,
            isize::MIN <= start@[self.start.anchor as int] + self.start.offset <= isize::MAX,
            isize::MIN <= end@[self.end.anchor as int] + self.end.offset <= isize::MAX,
        ensures
            r.0 == start@[self.start.anchor as int] + self.start.offset,
            r.1 == end@[self.end.anchor as int] + self.end.offset,
    {
        (self.start.evaluate(start), self.end.evaluate(end))
    }
}

/// An end of a range anchored at the start (offset from the start) or at
/// the end (distance back from the end) of the stream.
#[derive(Copy, Clone, Debug, PartialEq, Eq, PartialOrd, Ord)]
pub enum RangeMapperAnchor {
    StartAnchored(usize),
    EndAnchored(usize),
}

/// A byte range of a stream, each end anchored at its start or its end.
#[derive(Copy, Clone, Debug, PartialEq, Eq, PartialOrd, Ord)]
pub struct RangeMapper {
    pub start: RangeMapperAnchor,
    pub end: RangeMapperAnchor,
}

/// Converts a mapper side: offsets from the start are clamped at zero,
/// offsets from the end are turned into non-negative distances back.
pub open spec fn to_range_anchor(a: SegmentMapperAnchor) -> RangeMapperAnchor {
    if a.anchor == 0 {
        RangeMapperAnchor::StartAnchored(if a.offset >= 0 { a.offset as usize } else { 0 })
    } else {
        RangeMapperAnchor::EndAnchored(if -a.offset >= 0 { (-a.offset) as usize } else { 0 })
    }
}

fn to_range_anchor_exec(a: SegmentMapperAnchor) -> (r: RangeMapperAnchor)
    ensures
        r == to_range_anchor(a),
{
    if a.anchor == 0 {
        RangeMapperAnchor::StartAnchored(
            if a.offset >= 0 {
                a.offset as usize
            } else {
                0
            },
        )
    } else {
        RangeMapperAnchor::EndAnchored(
            if a.offset <= 0 {
                (0 - (a.offset as i128)) as usize
            } else {
                0
            },
        )
    }
}

/// Saturating subtraction on `usize`.
pub open spec fn sat_sub(x: usize, y: usize) -> usize {
    if x >= y {
        (x - y) as usize
    } else {
        0
    }
}

/// An end turned into a start-anchored one for a stream of `tail` bytes.
pub open spec fn left_anchor_spec(a: RangeMapperAnchor, tail: usize) -> RangeMapperAnchor {
    match a {
        RangeMapperAnchor::EndAnchored(x) => RangeMapperAnchor::StartAnchored(sat_sub(tail, x)),
        a => a,
    }
}

/// The range with both ends start-anchored for a stream of `tail` bytes.
pub open spec fn left_anchored_spec(m: RangeMapper, tail: usize) -> RangeMapper {
    RangeMapper { start: left_anchor_spec(m.start, tail), end: left_anchor_spec(m.end, tail) }
}

impl RangeMapper {
    /// Reads an `S..E` range expression relative to the stream's start (`s`)
    /// and end (`e`).
    pub fn from_str(expr: &str) -> (r: Result<Self, MapError>)
        ensures
            r is Ok ==> split_dots(expr@, 0, seq![]).len() == 2,
            parse_error(
                Some(anchor_var_table()),
                side_text(split_dots(expr@, 0, seq![])[0], seq!['s']),
            ) matches Some(e) ==> r == Err::<Self, MapError>(MapError::Eval(e)),
            split_dots(expr@, 0, seq![]).len() == 2 ==> r == (match mapper_of(
                split_dots(expr@, 0, seq![])[0],
                split_dots(expr@, 0, seq![])[1],
            ) {
                Err(e) => Err(e),
                Ok(m) => Ok(
                    RangeMapper { start: to_range_anchor(m.start), end: to_range_anchor(m.end) },
                ),
            }),
    {
        let mapper = match SegmentMapper::from_str(expr) {
            Ok(m) => m,
            Err(e) => {
                return Err(e);
            },
        };
        let start = to_range_anchor_exec(mapper.start);
        let end = to_range_anchor_exec(mapper.end);
        Ok(RangeMapper { start, end })
    }

    /// Bytes from the stream start before a start-anchored start with an
    /// end-anchored end; unbounded otherwise.
    pub fn body_len(&self) -> (r: usize)
        ensures
            r == (match (self.start, self.end) {
                (RangeMapperAnchor::StartAnchored(x), RangeMapperAnchor::EndAnchored(_)) => x,
                _ => usize::MAX,
            }),
    {
        match (self.start, self.end) {
            (RangeMapperAnchor::StartAnchored(x), RangeMapperAnchor::EndAnchored(_)) => x,
            _ => usize::MAX,
        }
    }

    /// Bytes at the tail of the stream that the range depends on.
    pub fn tail_len(&self) -> (r: usize)
        ensures
            r == (match (self.start, self.end) {
                (RangeMapperAnchor::StartAnchored(_), RangeMapperAnchor::StartAnchored(_)) => 0,
                (RangeMapperAnchor::StartAnchored(_), RangeMapperAnchor::EndAnchored(y)) => y,
                (RangeMapperAnchor::EndAnchored(x), RangeMapperAnchor::StartAnchored(_)) => x,
                (RangeMapperAnchor::EndAnchored(x), RangeMapperAnchor::EndAnchored(y)) => if x >= y {
                    x
                } else {
                    y
                },
            }),
    {
        match (self.start, self.end) {
            (RangeMapperAnchor::StartAnchored(_), RangeMapperAnchor::StartAnchored(_)) => 0,
            (RangeMapperAnchor::StartAnchored(_), RangeMapperAnchor::EndAnchored(y)) => y,
            (RangeMapperAnchor::EndAnchored(x), RangeMapperAnchor::StartAnchored(_)) => x,
            (RangeMapperAnchor::EndAnchored(x), RangeMapperAnchor::EndAnchored(y)) => {
                if x >= y {
                    x
                } else {
                    y
                }
            },
        }
    }

    /// For a range with both ends start-anchored, its position relative to
    /// `base` (clamped at zero, and never inverted); empty otherwise.
    pub fn left_anchored_range(&self, base: usize) -> (r: std::ops::Range<usize>)
        ensures
            r == (match (self.start, self.end) {
                (RangeMapperAnchor::StartAnchored(x), RangeMapperAnchor::StartAnchored(y)) => {
                    let s = sat_sub(x, base);
                    let e = sat_sub(y, base);
                    s..(if s >= e {
                        s
                    } else {
                        e
                    })
                },
                _ => 0..0,
            }),
    {
        match (self.start, self.end) {
            (RangeMapperAnchor::StartAnchored(x), RangeMapperAnchor::StartAnchored(y)) => {
                let start = x.saturating_sub(base);
                let end = y.saturating_sub(base);
                let end = if start >= end {
                    start
                } else {
                    end
                };
                start..end
            },
            _ => 0..0,
        }
    }

    /// The same range with end-anchored ends turned into start-anchored ones,
    /// for a stream of `tail` bytes (an end before the stream's start is
    /// taken as its start).
    pub fn to_left_anchored(self, tail: usize) -> (r: Self)
        ensures
            r == left_anchored_spec(self, tail),
    {
        let start = match self.start {
            RangeMapperAnchor::EndAnchored(x) => RangeMapperAnchor::StartAnchored(tail.saturating_sub(x)),
            a => a,
        };
        let end = match self.end {
            RangeMapperAnchor::EndAnchored(x) => RangeMapperAnchor::StartAnchored(tail.saturating_sub(x)),
            a => a,
        };
        RangeMapper { start, end }
    }

    /// Position of the range relative to `base` in a stream of `count`
    /// bytes (clamped at zero, and never inverted).
    pub fn right_anchored_range(&self, base: usize, count: usize) -> (r: std::ops::Range<usize>)
        ensures
            r.start == (match self.start {
                RangeMapperAnchor::StartAnchored(x) => sat_sub(x, base),
                RangeMapperAnchor::EndAnchored(x) => sat_sub(count, x),
            }),
            r.end == (if r.start >= (match self.end {
                RangeMapperAnchor::StartAnchored(x) => sat_sub(x, base),
                RangeMapperAnchor::EndAnchored(x) => sat_sub(count, x),
            }) {
                r.start
            } else {
                match self.end {
                    RangeMapperAnchor::StartAnchored(x) => sat_sub(x, base),
                    RangeMapperAnchor::EndAnchored(x) => sat_sub(count, x),
                }
            }),
    {
        let start = match self.start {
            RangeMapperAnchor::StartAnchored(x) => x.saturating_sub(base),
            RangeMapperAnchor::EndAnchored(x) => count.saturating_sub(x),
        };
        let end = match self.end {
            RangeMapperAnchor::StartAnchored(x) => x.saturating_sub(base),
            RangeMapperAnchor::EndAnchored(x) => count.saturating_sub(x),
        };
        let end = if start >= end {
            start
        } else {
            end
        };
        start..end
    }

    /// Whether an end is anchored at the stream's end.
    pub fn has_right_anchor(&self) -> (r: bool)
        ensures
            r == (self.start is EndAnchored || self.end is EndAnchored),
    {
        match (self.start, self.end) {
            (RangeMapperAnchor::EndAnchored(_), _) | (_, RangeMapperAnchor::EndAnchored(_)) => true,
            _ => false,
        }
    }

    /// Sort key of a start-anchored range: its two offsets; `(0, 0)` otherwise.
    pub fn left_anchor_key(&self) -> (r: (usize, usize))
        ensures
            r == (match (self.start, self.end) {
                (RangeMapperAnchor::StartAnchored(x), RangeMapperAnchor::StartAnchored(y)) => (x, y),
                _ => (0usize, 0usize),
            }),
    {
        match (self.start, self.end) {
            (RangeMapperAnchor::StartAnchored(x), RangeMapperAnchor::StartAnchored(y)) => (x, y),
            _ => (0, 0),
        }
    }
}

} // verus!
