use vstd::prelude::*;
use vstd::string::StrSliceExecFns;

use crate::eval::text::chars_of;
use crate::eval::lexer::{opt_vars_view, vars_view};
use crate::eval::{parse_error, parsed_tokens, EvalError, Rpn, Token, VarAttr};

verus! {

/// Why a slice predicate or slice mapping was refused.
#[derive(Copy, Clone, Debug, PartialEq, Eq)]
pub enum OpsError {
    /// The expression could not be evaluated.
    Eval(EvalError),
    /// A predicate that is not a comparison of two boundaries.
    NotComparison,
    /// A side that is not a boundary plus a constant.
    NotRelative,
    /// Not of the form `S..E`.
    NotRange,
}

/// A predicate on slice boundaries:
/// `input[positive] - input[negative] + offset >= 0`.
#[derive(Clone, Debug, PartialEq, Eq)]
pub struct SegmentPred {
    pub positive: usize,
    pub negative: usize,
    pub offset: isize,
    pub expected_input_len: usize,
}

/// Coefficients of a canonical predicate: a constant (true unless zero), or
/// `x - y >= 0`, or `x - y + c >= 0`.
pub open spec fn pred_coefs(t: Seq<Token>) -> Option<(usize, usize, isize)> {
    if t.len() == 1 && t[0] is Val {
        Some((0usize, 0usize, if t[0]->Val_0 == 0 {
            0isize
        } else {
            1isize
        }))
    } else if t.len() == 4 && t[0] is Var && t[1] is Var && t[2] == Token::Op('+') && t[3]
        == Token::Prefix('G') && t[0]->Var_1 * t[1]->Var_1 == -1 {
        if t[0]->Var_1 == 1 {
            Some((t[0]->Var_0, t[1]->Var_0, 0isize))
        } else {
            Some((t[1]->Var_0, t[0]->Var_0, 0isize))
        }
    } else if t.len() == 6 && t[0] is Var && t[1] is Var && t[2] == Token::Op('+') && t[3] is Val
        && t[4] == Token::Op('+') && t[5] == Token::Prefix('G') && t[0]->Var_1 * t[1]->Var_1
        == -1 {
        if t[0]->Var_1 == 1 {
            Some((t[0]->Var_0, t[1]->Var_0, t[3]->Val_0 as isize))
        } else {
            Some((t[1]->Var_0, t[0]->Var_0, t[3]->Val_0 as isize))
        }
    } else {
        None
    }
}

fn opposite_units(a: i64, b: i64) -> (r: bool)
    ensures
        r == (a * b == -1),
{
    if (a == 1 && b == -1) || (a == -1 && b == 1) {
        true
    } else {
        assert(a * b != -1) by (nonlinear_arith)
            requires
                !((a == 1 && b == -1) || (a == -1 && b == 1)),
        ;
        false
    }
}

fn pred_coefs_exec(t: &Vec<Token>) -> (r: Option<(usize, usize, isize)>)
    ensures
        r == pred_coefs(t@),
{
    if t.len() == 1 {
        if let Token::Val(c) = t[0] {
            return Some((0, 0, if c == 0 { 0 } else { 1 }));
        }
        return None;
    }
    if t.len() == 4 {
        if let (Token::Var(x, xc), Token::Var(y, yc)) = (t[0], t[1]) {
            if t[2] == Token::Op('+') && t[3] == Token::Prefix('G') && opposite_units(xc, yc) {
                return if xc == 1 {
                    Some((x, y, 0))
                } else {
                    Some((y, x, 0))
                };
            }
        }
        return None;
    }
    if t.len() == 6 {
        if let (Token::Var(x, xc), Token::Var(y, yc), Token::Val(c)) = (t[0], t[1], t[3]) {
            if t[2] == Token::Op('+') && t[4] == Token::Op('+') && t[5] == Token::Prefix('G')
                && opposite_units(xc, yc) {
                return if xc == 1 {
                    Some((x, y, c as isize))
                } else {
                    Some((y, x, c as isize))
                };
            }
        }
        return None;
    }
    None
}

/// Coefficients of a canonical mapping side: a constant, a boundary, or a
/// boundary plus a constant.
pub open spec fn side_coefs(t: Seq<Token>) -> Option<(usize, isize)> {
    if t.len() == 1 && t[0] is Val {
        Some((0usize, t[0]->Val_0 as isize))
    } else if t.len() == 1 && t[0] is Var && t[0]->Var_1 == 1 {
        Some((t[0]->Var_0, 0isize))
    } else if t.len() == 3 && t[0] is Var && t[0]->Var_1 == 1 && t[1] is Val && t[2] == Token::Op(
        '+',
    ) {
        Some((t[0]->Var_0, t[1]->Val_0 as isize))
    } else {
        None
    }
}

fn side_coefs_exec(t: &Vec<Token>) -> (r: Option<(usize, isize)>)
    ensures
        r == side_coefs(t@),
{
    if t.len() == 1 {
        match t[0] {
            Token::Val(c) => Some((0, c as isize)),
            Token::Var(id, k) => if k == 1 {
                Some((id, 0))
            } else {
                None
            },
            _ => None,
        }
    } else if t.len() == 3 {
        match (t[0], t[1]) {
            (Token::Var(id, k), Token::Val(c)) => if k == 1 && t[2] == Token::Op('+') {
                Some((id, c as isize))
            } else {
                None
            },
            _ => None,
        }
    } else {
        None
    }
}

/// The variable table of a single slice: `s` (id 1) and `e` (id 2).
pub open spec fn single_var_table() -> Seq<(Seq<u8>, VarAttr)> {
    seq![
        (seq![0x73u8], VarAttr { is_array: false, id: 1 }),
        (seq![0x65u8], VarAttr { is_array: false, id: 2 }),
    ]
}

/// The variable table of a pair of slices: `s0`, `e0`, `s1`, `e1` (ids 1
/// to 4).
pub open spec fn pair_var_table() -> Seq<(Seq<u8>, VarAttr)> {
    seq![
        (seq![0x73u8, 0x30u8], VarAttr { is_array: false, id: 1 }),
        (seq![0x65u8, 0x30u8], VarAttr { is_array: false, id: 2 }),
        (seq![0x73u8, 0x31u8], VarAttr { is_array: false, id: 3 }),
        (seq![0x65u8, 0x31u8], VarAttr { is_array: false, id: 4 }),
    ]
}

/// Variables of a single slice: `s` (id 1) and `e` (id 2).
fn single_vars<'a>(s: &'a [u8], e: &'a [u8]) -> (r: [(&'a [u8], VarAttr); 2])
    ensures
        r@[0] == (s, VarAttr { is_array: false, id: 1 }),
        r@[1] == (e, VarAttr { is_array: false, id: 2 }),
{
    [(s, VarAttr { is_array: false, id: 1 }), (e, VarAttr { is_array: false, id: 2 })]
}

/// Variables of a pair of slices: `s0`, `e0`, `s1`, `e1` (ids 1 to 4).
fn pair_vars<'a>(s0: &'a [u8], e0: &'a [u8], s1: &'a [u8], e1: &'a [u8]) -> (r: [(&'a [u8], VarAttr); 4])
    ensures
        r@[0] == (s0, VarAttr { is_array: false, id: 1 }),
        r@[1] == (e0, VarAttr { is_array: false, id: 2 }),
        r@[2] == (s1, VarAttr { is_array: false, id: 3 }),
        r@[3] == (e1, VarAttr { is_array: false, id: 4 }),
{
    [
        (s0, VarAttr { is_array: false, id: 1 }),
        (e0, VarAttr { is_array: false, id: 2 }),
        (s1, VarAttr { is_array: false, id: 3 }),
        (e1, VarAttr { is_array: false, id: 4 }),
    ]
}

/// The predicate read from `pred` over the variable table `vars`, whose
/// boundaries number `len`, as `from_pred_single` and `from_pred_pair` read
/// it.
pub open spec fn pred_parse(vars: Seq<(Seq<u8>, VarAttr)>, pred: Seq<char>, len: usize) -> Result<
    SegmentPred,
    OpsError,
> {
    match parsed_tokens(Some(vars), pred) {
        Err(e) => Err(OpsError::Eval(e)),
        Ok(t) => match pred_coefs(t) {
            Some((positive, negative, offset)) => if positive >= len || negative >= len {
                Err(OpsError::NotComparison)
            } else {
                Ok(SegmentPred { positive, negative, offset, expected_input_len: len })
            },
            None => Err(OpsError::NotComparison),
        },
    }
}

impl SegmentPred {
    fn extract_coefs(rpn: &Rpn) -> (r: Result<(usize, usize, isize), OpsError>)
        ensures
            r is Ok <==> pred_coefs(rpn@.map_values(|n: (Token, usize)| n.0)) is Some,
            r matches Ok(c) ==> Some(c) == pred_coefs(rpn@.map_values(|n: (Token, usize)| n.0)),
            r is Err ==> r == Err::<(usize, usize, isize), OpsError>(OpsError::NotComparison),
    {
        let tokens = rpn.tokens();
        match pred_coefs_exec(&tokens) {
            Some(c) => Ok(c),
            None => Err(OpsError::NotComparison),
        }
    }

    /// A predicate on one slice, over its start `s` and end `e`.
    pub fn from_pred_single(pred: &str) -> (r: Result<Self, OpsError>)
        ensures
            r matches Ok(p) ==> p.expected_input_len == 3 && p.positive < 3 && p.negative < 3,
            parse_error(Some(single_var_table()), pred@) matches Some(e) ==> r == Err::<Self, OpsError>(
                OpsError::Eval(e),
            ),
            r == pred_parse(single_var_table(), pred@, 3),
    {
        let s_name: [u8; 1] = [0x73u8];
        let e_name: [u8; 1] = [0x65u8];
        let vars = single_vars(s_name.as_slice(), e_name.as_slice());
        let vs = vars.as_slice();
        assert(opt_vars_view(Some(vs)) == Some(single_var_table())) by {
            assert(s_name@ =~= seq![0x73u8]);
            assert(e_name@ =~= seq![0x65u8]);
            assert(vars_view(vs) =~= single_var_table());
        }
        let rpn = match Rpn::new(pred, Some(vs)) {
            Ok(r) => r,
            Err(e) => {
                return Err(OpsError::Eval(e));
            },
        };
        let (positive, negative, offset) = match Self::extract_coefs(&rpn) {
            Ok(c) => c,
            Err(e) => {
                return Err(e);
            },
        };
        if positive >= 3 || negative >= 3 {
            return Err(OpsError::NotComparison);
        }
        Ok(SegmentPred { positive, negative, offset, expected_input_len: 3 })
    }

    /// A predicate on a pair of slices, over `s0`, `e0`, `s1` and `e1`.
    pub fn from_pred_pair(pred: &str) -> (r: Result<Self, OpsError>)
        ensures
            r matches Ok(p) ==> p.expected_input_len == 5 && p.positive < 5 && p.negative < 5,
            parse_error(Some(pair_var_table()), pred@) matches Some(e) ==> r == Err::<Self, OpsError>(
                OpsError::Eval(e),
            ),
            r == pred_parse(pair_var_table(), pred@, 5),
    {
        let s0: [u8; 2] = [0x73u8, 0x30u8];
        let e0: [u8; 2] = [0x65u8, 0x30u8];
        let s1: [u8; 2] = [0x73u8, 0x31u8];
        let e1: [u8; 2] = [0x65u8, 0x31u8];
        let vars = pair_vars(s0.as_slice(), e0.as_slice(), s1.as_slice(), e1.as_slice());
        let vs = vars.as_slice();
        assert(opt_vars_view(Some(vs)) == Some(pair_var_table())) by {
            assert(s0@ =~= seq![0x73u8, 0x30u8]);
            assert(e0@ =~= seq![0x65u8, 0x30u8]);
            assert(s1@ =~= seq![0x73u8, 0x31u8]);
            assert(e1@ =~= seq![0x65u8, 0x31u8]);
            assert(vars_view(vs) =~= pair_var_table());
        }
        let rpn = match Rpn::new(pred, Some(vs)) {
            Ok(r) => r,
            Err(e) => {
                return Err(OpsError::Eval(e));
            },
        };
        let (positive, negative, offset) = match Self::extract_coefs(&rpn) {
            Ok(c) => c,
            Err(e) => {
                return Err(e);
            },
        };
        if positive >= 5 || negative >= 5 {
            return Err(OpsError::NotComparison);
        }
        Ok(SegmentPred { positive, negative, offset, expected_input_len: 5 })
    }

    /// Whether the boundaries `input` satisfy the predicate.
    pub fn eval(&self, input: &[isize]) -> (r: bool)
        requires
            input@.len() == self.expected_input_len,
            self.positive < input@.len(),
            self.negative < input@.len(),
            isize::MIN <= input@[self.positive as int] - input@[self.negative as int] <= isize::MAX,
            isize::MIN <= input@[self.positive as int] - input@[self.negative as int] + self.offset
                <= isize::MAX,
        ensures
            r == (input@[self.positive as int] - input@[self.negative as int] + self.offset >= 0),
    {
        input[self.positive] - input[self.negative] + self.offset >= 0
    }

    /// Whether the boundaries `input` satisfy the predicate, evaluated
    /// without overflow.
    pub fn eval_wide(&self, input: &[isize]) -> (r: bool)
        requires
            self.positive < input@.len(),
            self.negative < input@.len(),
        ensures
            r == (input@[self.positive as int] - input@[self.negative as int] + self.offset >= 0),
    {
        (input[self.positive] as i128) - (input[self.negative] as i128) + (self.offset as i128)
            >= 0
    }

    /// Whether the predicate depends on a boundary flagged in `input`.
    pub fn eval_dep(&self, input: &[bool]) -> (r: bool)
        requires
            input@.len() == self.expected_input_len,
            self.positive < input@.len(),
            self.negative < input@.len(),
        ensures
            r == (input@[self.positive as int] || input@[self.negative as int]),
    {
        input[self.positive] || input[self.negative]
    }

    /// The predicate is on one slice, not a pair.
    pub fn is_single(&self) -> (r: bool)
        ensures
            r == (self.expected_input_len == 3),
    {
        self.expected_input_len == 3
    }
}

/// A mapping of slice boundaries to a new slice: each side is
/// `input[index] + offset`.
#[derive(Clone, Copy, Debug, PartialEq, Eq)]
pub struct SegmentMapper {
    pub start: (usize, isize),
    pub end: (usize, isize),
    pub expected_input_len: usize,
}

/// Whether `s` holds `..` at `i`.
pub open spec fn dots_at(s: Seq<char>, i: int) -> bool {
    0 <= i < s.len() - 1 && s[i] == '.' && s[i + 1] == '.'
}

/// Position of the first `..` in `s`, if any.
pub open spec fn first_dots(s: Seq<char>) -> Option<int> {
    if exists|i: int| #[trigger] dots_at(s, i) {
        Some(choose|i: int| #[trigger] dots_at(s, i) && forall|j: int| 0 <= j < i ==> !dots_at(s, j))
    } else {
        None
    }
}

/// `x + y`, clamped to `isize`.
pub open spec fn sat_add_isize(x: isize, y: isize) -> isize {
    if x + y > isize::MAX {
        isize::MAX
    } else if x + y < isize::MIN {
        isize::MIN
    } else {
        (x + y) as isize
    }
}

fn sat_add_isize_exec(x: isize, y: isize) -> (r: isize)
    ensures
        r == sat_add_isize(x, y),
{
    let s: i128 = (x as i128) + (y as i128);
    if s > (isize::MAX as i128) {
        isize::MAX
    } else if s < (isize::MIN as i128) {
        isize::MIN
    } else {
        s as isize
    }
}

impl SegmentMapper {
    fn extract_coefs(rpn: &Rpn) -> (r: Result<(usize, isize), OpsError>)
        ensures
            r is Ok <==> side_coefs(rpn@.map_values(|n: (Token, usize)| n.0)) is Some,
            r matches Ok(c) ==> Some(c) == side_coefs(rpn@.map_values(|n: (Token, usize)| n.0)),
    {
        let tokens = rpn.tokens();
        match side_coefs_exec(&tokens) {
            Some(c) => Ok(c),
            None => Err(OpsError::NotRelative),
        }
    }

    /// Splits `S..E` at its first `..`.
    fn split_range_str(range: &str) -> (r: Result<(&str, &str), OpsError>)
        ensures
            first_dots(range@) is None ==> r == Err::<(&str, &str), OpsError>(OpsError::NotRange),
            first_dots(range@) matches Some(i) ==> r matches Ok(p) && p.0@ == range@.subrange(0, i)
                && p.1@ == range@.subrange(i + 2, range@.len() as int),
    {
        let c = chars_of(range);
        let n = c.len();
        let mut i: usize = 0;
        while i < n && i + 1 < n
            invariant
                n == c@.len() == range@.len(),
                c@ == range@,
                i <= n,
                forall|j: int| 0 <= j < i ==> !dots_at(range@, j),
            decreases n - i,
        {
            if c[i] == '.' && c[i + 1] == '.' {
                proof {
                    let k = i as int;
                    assert(dots_at(range@, k));
                    assert(dots_at(range@, k) && forall|j: int| 0 <= j < k ==> !dots_at(range@, j));
                    let w = choose|w: int|
                        #[trigger] dots_at(range@, w) && forall|j: int| 0 <= j < w ==> !dots_at(range@, j);
                    assert(w == k) by {
                        if w < k {
                            assert(!dots_at(range@, w));
                        } else if w > k {
                            assert(!dots_at(range@, k));
                        }
                    }
                }
                let head = range.substring_char(0, i);
                let tail = range.substring_char(i + 2, n);
                return Ok((head, tail));
            }
            i = i + 1;
        }
        assert forall|j: int| !dots_at(range@, j) by {
            if 0 <= j < i {
            }
        }
        Err(OpsError::NotRange)
    }

    /// A mapping of one slice, over its start `s` and end `e`; empty sides
    /// stand for `s` and `e`.
    pub fn from_range_single(range: &str) -> (r: Result<Self, OpsError>)
        ensures
            first_dots(range@) is None ==> r == Err::<Self, OpsError>(OpsError::NotRange),
            r matches Ok(m) ==> m.expected_input_len == 3 && m.start.0 < 3 && m.end.0 < 3,
    {
        let (start, end) = Self::split_range_str(range)?;
        let start = if start.is_empty() {
            "s"
        } else {
            start
        };
        let end = if end.is_empty() {
            "e"
        } else {
            end
        };
        let s_name: [u8; 1] = [0x73u8];
        let e_name: [u8; 1] = [0x65u8];
        let vars = single_vars(s_name.as_slice(), e_name.as_slice());
        let start = match Rpn::new(start, Some(vars.as_slice())) {
            Ok(r) => r,
            Err(e) => {
                return Err(OpsError::Eval(e));
            },
        };
        let end = match Rpn::new(end, Some(vars.as_slice())) {
            Ok(r) => r,
            Err(e) => {
                return Err(OpsError::Eval(e));
            },
        };
        let start = Self::extract_coefs(&start)?;
        let end = Self::extract_coefs(&end)?;
        if start.0 >= 3 || end.0 >= 3 {
            return Err(OpsError::NotRelative);
        }
        Ok(SegmentMapper { start, end, expected_input_len: 3 })
    }

    /// A mapping of a pair of slices, over `s0`, `e0`, `s1` and `e1`; empty
    /// sides stand for `s0` and `e1`.
    pub fn from_range_pair(range: &str) -> (r: Result<Self, OpsError>)
        ensures
            first_dots(range@) is None ==> r == Err::<Self, OpsError>(OpsError::NotRange),
            r matches Ok(m) ==> m.expected_input_len == 5 && m.start.0 < 5 && m.end.0 < 5,
    {
        let (start, end) = Self::split_range_str(range)?;
        let start = if start.is_empty() {
            "s0"
        } else {
            start
        };
        let end = if end.is_empty() {
            "e1"
        } else {
            end
        };
        let s0: [u8; 2] = [0x73u8, 0x30u8];
        let e0: [u8; 2] = [0x65u8, 0x30u8];
        let s1: [u8; 2] = [0x73u8, 0x31u8];
        let e1: [u8; 2] = [0x65u8, 0x31u8];
        let vars = pair_vars(s0.as_slice(), e0.as_slice(), s1.as_slice(), e1.as_slice());
        let start = match Rpn::new(start, Some(vars.as_slice())) {
            Ok(r) => r,
            Err(e) => {
                return Err(OpsError::Eval(e));
            },
        };
        let end = match Rpn::new(end, Some(vars.as_slice())) {
            Ok(r) => r,
            Err(e) => {
                return Err(OpsError::Eval(e));
            },
        };
        let start = Self::extract_coefs(&start)?;
        let end = Self::extract_coefs(&end)?;
        if start.0 >= 5 || end.0 >= 5 {
            return Err(OpsError::NotRelative);
        }
        Ok(SegmentMapper { start, end, expected_input_len: 5 })
    }

    /// The mapped slice of the boundaries `input` (sums clamped to `isize`).
    pub fn map(&self, input: &[isize]) -> (r: (isize, isize))
        requires
            input@.len() == self.expected_input_len,
            self.start.0 < input@.len(),
            self.end.0 < input@.len(),
        ensures
            r.0 == sat_add_isize(input@[self.start.0 as int], self.start.1),
            r.1 == sat_add_isize(input@[self.end.0 as int], self.end.1),
    {
        (
            sat_add_isize_exec(input[self.start.0], self.start.1),
            sat_add_isize_exec(input[self.end.0], self.end.1),
        )
    }

    /// Which boundaries of the mapped slice depend on a flagged input.
    pub fn map_dep(&self, input: &[bool]) -> (r: (bool, bool))
        requires
            input@.len() == self.expected_input_len,
            self.start.0 < input@.len(),
            self.end.0 < input@.len(),
        ensures
            r == (input@[self.start.0 as int], input@[self.end.0 as int]),
    {
        (input[self.start.0], input[self.end.0])
    }

    /// The mapping is of one slice, not a pair.
    pub fn is_single(&self) -> (r: bool)
        ensures
            r == (self.expected_input_len == 3),
    {
        self.expected_input_len == 3
    }
}

} // verus!
