use vstd::prelude::*;
use vstd::string::StrSliceExecFns;

use self::lexer::{opt_vars_view, spec_lex, tokenize};
use self::render::{names_view, render, render_into};
use self::rpn::{mark_prefices, sort_from, sort_into_rpn, spec_mark};
use self::run::{agrees, eval_rpn, spec_eval, Env};
use self::simplify::{canonize_rpn, rpn_simplified, signs_canonized, Node};
use self::text::chars_of;

pub mod laws;
pub mod lexer;
pub mod ops;
pub mod render;
pub mod rpn;
pub mod run;
pub mod simplify;
pub mod text;

verus! {

/// A token of an integer expression, and (after sorting) a node of its
/// reverse-Polish form.
#[derive(Copy, Clone, Debug, PartialEq, Eq, Structural)]
pub enum Token {
    Nop,
    Val(i64),
    Op(char),
    Prefix(char),
    Paren(char),
    Var(usize, i64),
    VarArr(usize),
}

/// How a variable name is bound: its id, and whether it names an array.
#[derive(Copy, Clone, Debug, PartialEq, Eq)]
pub struct VarAttr {
    pub id: usize,
    pub is_array: bool,
}

/// Why an expression was refused.
#[derive(Copy, Clone, Debug, PartialEq, Eq)]
pub enum EvalError {
    /// A character that starts no token.
    UnexpectedChar,
    /// An operator that could not be read.
    BadOperator,
    /// A number literal that could not be read.
    BadValue,
    /// A name that is not a known variable.
    UnknownVariable,
    /// Tokens in an order that forms no expression.
    BadTokenOrder,
    /// Parentheses or brackets that do not match.
    Unbalanced,
    /// The expression could not be brought into canonical form.
    Canonize,
    /// Evaluation ran out of operands, or met a token it cannot evaluate.
    Starved,
    /// Division or remainder by zero, or an overflowing division.
    Undefined,
    /// An expression too long to be handled.
    TooLong,
    /// A negative value where none is allowed.
    Negative,
    /// A value that does not fit the integer type asked for.
    OutOfRange,
    /// Not a pair of the form `head:tail`.
    NotPair,
    /// A range whose start is past its end.
    StartAfterEnd,
}

/// Tokens of `s` after checking their order: `None` where lexing or the
/// order check fails.
pub open spec fn spec_marked(vars: Option<Seq<(Seq<u8>, VarAttr)>>, s: Seq<char>) -> Option<
    Seq<Token>,
> {
    match spec_lex(vars, s, 0) {
        Ok(body) => spec_mark(seq![Token::Paren('(')] + body + seq![Token::Paren(')')], 0),
        Err(_) => None,
    }
}

/// Reverse-Polish form of `s` before canonicalisation.
pub open spec fn spec_sorted(vars: Option<Seq<(Seq<u8>, VarAttr)>>, s: Seq<char>) -> Option<
    Seq<Node>,
> {
    match spec_marked(vars, s) {
        Some(t) => sort_from(t, 0, seq![], seq![]),
        None => None,
    }
}

/// An integer expression in canonical reverse-Polish form.
#[derive(Clone, Debug, PartialEq)]
pub struct Rpn {
    rpn: Vec<(Token, usize)>,
}

impl View for Rpn {
    type V = Seq<Node>;

    closed spec fn view(&self) -> Seq<Node> {
        self.rpn@
    }
}

/// Indices at or past this bound make the reach of an expression unknown.
pub const REACH_LIMIT: i64 = 0x100_0000;

/// Bytes of one element of the array variable `id` (`b`, `h`, `i` and `l`
/// have ids 1, 2, 4 and 8).
pub open spec fn elem_size(id: usize) -> int {
    if id == 1 || id == 2 || id == 4 || id == 8 {
        id as int
    } else {
        0
    }
}

/// Bytes read by the node at `k`: element 0 for a plain variable, the
/// element a constant just before it names for an indexed one.
pub open spec fn node_reach(t: Seq<Node>, k: int) -> Option<int> {
    match t[k].0 {
        Token::Var(id, _) => if t[k].1 == 0 {
            Some(elem_size(id))
        } else if k == 0 {
            None
        } else {
            match t[k - 1].0 {
                Token::Val(v) => if v < 0 {
                    Some(0)
                } else if v >= REACH_LIMIT {
                    None
                } else {
                    Some((v + 1) * elem_size(id))
                },
                _ => None,
            }
        },
        _ => Some(0),
    }
}

/// The largest reach of the nodes from `k` on; `None` if one is unknown.
pub open spec fn reach_from(t: Seq<Node>, k: int) -> Option<int>
    decreases t.len() - k,
{
    if k < 0 || k >= t.len() {
        Some(0)
    } else {
        match (node_reach(t, k), reach_from(t, k + 1)) {
            (Some(a), Some(b)) => Some(if a > b {
                a
            } else {
                b
            }),
            _ => None,
        }
    }
}

proof fn lemma_reach_none(t: Seq<Node>, i: int, j: int)
    requires
        0 <= i <= j < t.len(),
        node_reach(t, j) is None,
    ensures
        reach_from(t, i) is None,
    decreases j - i,
{
    if i < j {
        lemma_reach_none(t, i + 1, j);
    }
}

proof fn lemma_reach_bound(t: Seq<Node>, k: int)
    requires
        0 <= k <= t.len(),
    ensures
        reach_from(t, k) matches Some(n) ==> 0 <= n <= (REACH_LIMIT + 1) * 8,
    decreases t.len() - k,
{
    if k < t.len() {
        lemma_reach_bound(t, k + 1);
        if k > 0 {
            if let Token::Val(v) = t[k - 1].0 {
                if let Token::Var(id, _) = t[k].0 {
                    if 0 <= v < REACH_LIMIT {
                        let e = elem_size(id);
                        assert((v + 1) * e <= (REACH_LIMIT + 1) * 8) by (nonlinear_arith)
                            requires
                                0 <= v < REACH_LIMIT,
                                0 <= e <= 8,
                        ;
                    }
                }
            }
        }
    }
}

/// The environment in which every variable is zero.
pub open spec fn zero_env() -> Env {
    |a: usize, b: i64| 0i64
}

/// Parses `input` (an integer expression over the variables of `vars`)
/// into reverse-Polish form.
fn parse_sorted(input: &str, vars: Option<&[(&[u8], VarAttr)]>) -> (r: Result<Vec<Node>, EvalError>)
    ensures
        spec_lex(opt_vars_view(vars), input@, 0) matches Err(e) ==> r == Err::<Vec<Node>, EvalError>(
            e,
        ),
        spec_lex(opt_vars_view(vars), input@, 0) is Ok && spec_marked(
            opt_vars_view(vars),
            input@,
        ) is None ==> r == Err::<Vec<Node>, EvalError>(EvalError::BadTokenOrder),
        spec_marked(opt_vars_view(vars), input@) matches Some(t) ==> (t.len() < 0x1000_0000
            && sort_from(t, 0, seq![], seq![]) is None ==> r == Err::<Vec<Node>, EvalError>(
            EvalError::Unbalanced)),
        spec_marked(opt_vars_view(vars), input@) matches Some(t) ==> (t.len() >= 0x1000_0000
            ==> r == Err::<Vec<Node>, EvalError>(EvalError::TooLong)),
        r matches Ok(v) ==> spec_sorted(opt_vars_view(vars), input@) == Some(v@),
        r matches Ok(v) ==> v@.len() <= 0x4000_0000,
        r matches Err(e) ==> e != EvalError::Canonize,
        r is Ok <==> spec_sorted(opt_vars_view(vars), input@) is Some && spec_marked(
            opt_vars_view(vars),
            input@,
        ).unwrap().len() < 0x1000_0000,
{
    let chars = chars_of(input);
    let mut tokens = match tokenize(chars.as_slice(), vars) {
        Ok(t) => t,
        Err(e) => {
            proof {
                lexer::lemma_lex_errors(opt_vars_view(vars), input@, 0);
            }
            return Err(e);
        },
    };
    let ghost wrapped = tokens@;
    assert(wrapped =~= seq![Token::Paren('(')] + wrapped.subrange(1, wrapped.len() - 1) + seq![
        Token::Paren(')'),
    ]);
    if mark_prefices(&mut tokens).is_none() {
        return Err(EvalError::BadTokenOrder);
    }
    if tokens.len() >= 0x1000_0000 {
        return Err(EvalError::TooLong);
    }
    match sort_into_rpn(tokens.as_slice()) {
        Some(v) => Ok(v),
        None => Err(EvalError::Unbalanced),
    }
}

/// The canonical form of a reverse-Polish expression: the tree simplified
/// (prefixes pushed onto leaves, operands sorted, merged and folded), its
/// negated additive roots made plain, and cut to its length; `None` where
/// simplification fails.
pub open spec fn canonical_form(sorted: Seq<Node>) -> Option<Seq<Node>> {
    let (k, t) = rpn_simplified(sorted, 0, sorted.len() as int);
    match k {
        Some(k) => Some(signs_canonized(t, 0, k + 1).subrange(0, k + 1)),
        None => None,
    }
}

/// What `Rpn::new` gives for `input` over the variable table `vars`: the
/// tokens of the canonical form, or the error.
pub open spec fn parsed_tokens(vars: Option<Seq<(Seq<u8>, VarAttr)>>, input: Seq<char>) -> Result<
    Seq<Token>,
    EvalError,
> {
    match parse_error(vars, input) {
        Some(e) => Err(e),
        None => match canonical_form(spec_sorted(vars, input)->Some_0) {
            Some(c) => Ok(c.map_values(|n: Node| n.0)),
            None => Err(EvalError::Canonize),
        },
    }
}

/// The error parsing `input` over the variable table `vars` runs into
/// before canonical form is reached: a lexing error, tokens out of order,
/// too many tokens, or unbalanced brackets; `None` when it parses.
pub open spec fn parse_error(vars: Option<Seq<(Seq<u8>, VarAttr)>>, input: Seq<char>) -> Option<
    EvalError,
> {
    match spec_lex(vars, input, 0) {
        Err(e) => Some(e),
        Ok(_) => match spec_marked(vars, input) {
            None => Some(EvalError::BadTokenOrder),
            Some(t) => if t.len() >= 0x1000_0000 {
                Some(EvalError::TooLong)
            } else if sort_from(t, 0, seq![], seq![]) is None {
                Some(EvalError::Unbalanced)
            } else {
                None
            },
        },
    }
}

impl Rpn {
    /// Parses `input` (an integer expression over the variables of `vars`)
    /// and brings it into canonical form.
    pub fn new(input: &str, vars: Option<&[(&[u8], VarAttr)]>) -> (r: Result<Rpn, EvalError>)
        ensures
            spec_lex(opt_vars_view(vars), input@, 0) matches Err(e) ==> r == Err::<Rpn, EvalError>(
                e,
            ),
            spec_lex(opt_vars_view(vars), input@, 0) is Ok && spec_marked(
                opt_vars_view(vars),
                input@,
            ) is None ==> r == Err::<Rpn, EvalError>(EvalError::BadTokenOrder),
            spec_marked(opt_vars_view(vars), input@) matches Some(t) ==> (t.len() < 0x1000_0000
                && sort_from(t, 0, seq![], seq![]) is None ==> r == Err::<Rpn, EvalError>(
                EvalError::Unbalanced)),
            spec_marked(opt_vars_view(vars), input@) matches Some(t) ==> (t.len() >= 0x1000_0000
                ==> r == Err::<Rpn, EvalError>(EvalError::TooLong)),
            r is Ok ==> spec_sorted(opt_vars_view(vars), input@) is Some,
            r matches Ok(rpn) ==> rpn@.len() >= 1,
            r == Err::<Rpn, EvalError>(EvalError::Canonize) ==> spec_sorted(
                opt_vars_view(vars),
                input@,
            ) is Some,
            parse_error(opt_vars_view(vars), input@) matches Some(e) ==> r == Err::<Rpn, EvalError>(
                e,
            ),
            r is Ok ==> parse_error(opt_vars_view(vars), input@) is None,
            parse_error(opt_vars_view(vars), input@) is None ==> (r is Ok <==> canonical_form(
                spec_sorted(opt_vars_view(vars), input@)->Some_0,
            ) is Some),
            r matches Ok(rpn) ==> Some(rpn@) == canonical_form(
                spec_sorted(opt_vars_view(vars), input@)->Some_0,
            ),
            parse_error(opt_vars_view(vars), input@) is None && canonical_form(
                spec_sorted(opt_vars_view(vars), input@)->Some_0,
            ) is None ==> r == Err::<Rpn, EvalError>(EvalError::Canonize),
    {
        let sorted = parse_sorted(input, vars)?;
        Self::from_sorted(sorted)
    }

    /// Brings a reverse-Polish expression into canonical form.
    fn from_sorted(sorted: Vec<Node>) -> (r: Result<Rpn, EvalError>)
        requires
            sorted@.len() <= 0x4000_0000,
        ensures
            r matches Ok(rpn) ==> rpn@.len() >= 1,
            r is Err ==> r == Err::<Rpn, EvalError>(EvalError::Canonize),
            r is Ok <==> canonical_form(sorted@) is Some,
            r matches Ok(rpn) ==> Some(rpn@) == canonical_form(sorted@),
    {
        let ghost pair = rpn_simplified(sorted@, 0, sorted@.len() as int);
        let mut rpn = sorted;
        assert(rpn@ == sorted@);
        let len = match canonize_rpn(&mut rpn) {
            Some(len) => len,
            None => {
                return Err(EvalError::Canonize);
            },
        };
        let ghost before = rpn@;
        assert(pair.0 == Some((len - 1) as usize));
        assert(before == signs_canonized(pair.1, 0, len as int));
        rpn.truncate(len);
        assert(rpn@ =~= before.subrange(0, len as int));
        let r = Rpn { rpn };
        assert(r@ == rpn@);
        Ok(r)
    }

    /// The tokens of the expression, in reverse-Polish order.
    pub fn tokens(&self) -> (r: Vec<Token>)
        ensures
            r@ == self@.map_values(|n: Node| n.0),
    {
        let mut v: Vec<Token> = Vec::new();
        let mut i: usize = 0;
        while i < self.rpn.len()
            invariant
                i <= self.rpn@.len(),
                v@ == self.rpn@.subrange(0, i as int).map_values(|n: Node| n.0),
            decreases self.rpn@.len() - i,
        {
            v.push(self.rpn[i].0);
            assert(self.rpn@.subrange(0, i + 1).map_values(|n: Node| n.0) =~= self.rpn@.subrange(
                0,
                i as int,
            ).map_values(|n: Node| n.0).push(self.rpn@[i as int].0));
            i = i + 1;
        }
        assert(self.rpn@.subrange(0, self.rpn@.len() as int) =~= self.rpn@);
        v
    }

    /// Evaluates the expression; `get(id, x)` gives the value of variable
    /// `id` (element `x` for array variables).
    pub fn evaluate<F: Fn(usize, i64) -> i64>(&self, get: F) -> (r: Result<i64, EvalError>)
        requires
            forall|a: usize, b: i64| get.requires((a, b)),
        ensures
            forall|env: Env| #[trigger] agrees(get, env) ==> r == spec_eval(self@, env),
    {
        eval_rpn(self.rpn.as_slice(), get)
    }

    /// How far past the start of its data the expression reads the
    /// arrays `b`, `h`, `i` and `l`, when every index is a constant (`None`
    /// when one is not, or is too large).
    pub fn array_reach(&self) -> (r: Option<usize>)
        ensures
            r matches Some(n) ==> reach_from(self@, 0) == Some(n as int) && n <= (REACH_LIMIT + 1)
                * 8,
            r is None ==> reach_from(self@, 0) is None,
    {
        let n = self.rpn.len();
        let mut acc: usize = 0;
        let mut k: usize = n;
        proof {
            lemma_reach_bound(self@, n as int);
        }
        while k > 0
            invariant
                0 <= k <= n,
                n == self.rpn@.len(),
                reach_from(self@, k as int) == Some(acc as int),
                acc <= usize::MAX / 2,
            decreases k,
        {
            let j = k - 1;
            let here: usize = match self.rpn[j].0 {
                Token::Var(id, _) => {
                    let size: usize = if id == 1 || id == 2 || id == 4 || id == 8 {
                        id
                    } else {
                        0
                    };
                    if self.rpn[j].1 == 0 {
                        size
                    } else if j == 0 {
                        proof {
                            lemma_reach_none(self@, 0, 0);
                        }
                        return None;
                    } else {
                        match self.rpn[j - 1].0 {
                            Token::Val(v) => {
                                if v < 0 {
                                    0
                                } else if v >= REACH_LIMIT {
                                    proof {
                                        lemma_reach_none(self@, 0, j as int);
                                    }
                                    return None;
                                } else {
                                    let u = v as usize;
                                    assert((u + 1) * size <= 0x100_0000 * 8) by (nonlinear_arith)
                                        requires
                                            u < 0x100_0000,
                                            size <= 8,
                                    ;
                                    (u + 1) * size
                                }
                            },
                            _ => {
                                proof {
                                    lemma_reach_none(self@, 0, j as int);
                                }
                                return None;
                            },
                        }
                    }
                },
                _ => 0,
            };
            acc = if here > acc {
                here
            } else {
                acc
            };
            k = j;
        }
        proof {
            lemma_reach_bound(self@, 0);
        }
        Some(acc)
    }

    /// Writes the expression in infix form (`names` gives variable names by id).
    pub fn render(&self, names: &[(usize, &[u8])], out: &mut String)
        ensures
            final(out)@ == old(out)@ + render(self@, names_view(names)),
    {
        to_string(self.rpn.as_slice(), names, out);
    }
}

#[verifier::external_body]
fn push_char(s: &mut String, c: char)
    ensures
        final(s)@ == old(s)@.push(c),
{
    s.push(c);
}

/// Appends the infix text of a reverse-Polish expression to `v`.
pub fn to_string(tokens: &[Node], names: &[(usize, &[u8])], v: &mut String)
    ensures
        final(v)@ == old(v)@ + render(tokens@, names_view(names)),
{
    let mut buf: Vec<char> = Vec::new();
    render_into(tokens, 0, tokens.len(), names, &mut buf);
    assert(tokens@.subrange(0, tokens@.len() as int) =~= tokens@);
    let mut i: usize = 0;
    while i < buf.len()
        invariant
            i <= buf@.len(),
            v@ == old(v)@ + buf@.subrange(0, i as int),
        decreases buf@.len() - i,
    {
        push_char(v, buf[i]);
        assert(buf@.subrange(0, i + 1) =~= buf@.subrange(0, i as int).push(buf@[i as int]));
        assert(v@ =~= old(v)@ + buf@.subrange(0, i + 1));
        i = i + 1;
    }
    assert(buf@.subrange(0, buf@.len() as int) =~= buf@);
}

fn zero_var(_id: usize, _x: i64) -> (r: i64)
    ensures
        r == 0,
{
    0
}

/// Value of the expression `s` (no variables): the result of evaluating
/// its reverse-Polish form; `None` where it does not parse.
pub open spec fn expr_value(s: Seq<char>) -> Option<Result<i64, EvalError>> {
    match spec_sorted(None, s) {
        Some(t) => if spec_marked(None, s).unwrap().len() < 0x1000_0000 {
            Some(spec_eval(t, zero_env()))
        } else {
            None
        },
        None => None,
    }
}

/// Evaluates an integer expression without variables: the value of its
/// reverse-Polish form, or the error parsing or evaluating it.
pub fn parse_int(input: &str) -> (r: Result<i64, EvalError>)
    ensures
        spec_lex(None, input@, 0) matches Err(e) ==> r == Err::<i64, EvalError>(e),
        spec_lex(None, input@, 0) is Ok && spec_marked(None, input@) is None ==> r == Err::<
            i64,
            EvalError,
        >(EvalError::BadTokenOrder),
        spec_marked(None, input@) matches Some(t) ==> (t.len() < 0x1000_0000 && sort_from(
            t,
            0,
            seq![],
            seq![],
        ) is None ==> r == Err::<i64, EvalError>(EvalError::Unbalanced)),
        spec_marked(None, input@) matches Some(t) ==> (t.len() >= 0x1000_0000 ==> r == Err::<
            i64,
            EvalError,
        >(EvalError::TooLong)),
        expr_value(input@) matches Some(x) ==> r == x,
        expr_value(input@) is None ==> r is Err,
{
    let sorted = parse_sorted(input, None)?;
    proof {
        assert forall|a: usize, b: i64, v: i64| call_ensures(zero_var, (a, b), v) implies v == (
        zero_env())(a, b) by {}
        assert(agrees(zero_var, zero_env()));
    }
    eval_rpn(sorted.as_slice(), zero_var)
}

/// Evaluates an integer expression as a non-negative `usize`.
pub fn parse_usize(s: &str) -> (r: Result<usize, EvalError>)
    ensures
        spec_lex(None, s@, 0) is Err ==> r is Err,
        spec_marked(None, s@) is None ==> r is Err,
        expr_value(s@) matches Some(Err(e)) ==> r == Err::<usize, EvalError>(e),
        r matches Ok(x) ==> expr_value(s@) == Some(Ok::<i64, EvalError>(x as i64)) && x <= i64::MAX,
        expr_value(s@) matches Some(Ok(v)) ==> (v < 0 ==> r == Err::<usize, EvalError>(
            EvalError::Negative)) && (v > usize::MAX ==> r == Err::<usize, EvalError>(
            EvalError::OutOfRange)) && (0 <= v <= usize::MAX ==> r == Ok::<usize, EvalError>(
            v as usize)),
        expr_value(s@) is None ==> r is Err,
{
    let val = parse_int(s)?;
    if val < 0 {
        return Err(EvalError::Negative);
    }
    if (val as u64) > (usize::MAX as u64) {
        return Err(EvalError::OutOfRange);
    }
    Ok(val as usize)
}

/// Evaluates an integer expression as an `isize`.
pub fn parse_isize(s: &str) -> (r: Result<isize, EvalError>)
    ensures
        spec_lex(None, s@, 0) is Err ==> r is Err,
        spec_marked(None, s@) is None ==> r is Err,
        expr_value(s@) matches Some(Err(e)) ==> r == Err::<isize, EvalError>(e),
        r matches Ok(x) ==> expr_value(s@) == Some(Ok::<i64, EvalError>(x as i64)),
        expr_value(s@) matches Some(Ok(v)) ==> ((v < isize::MIN || v > isize::MAX) ==> r == Err::<
            isize,
            EvalError,
        >(EvalError::OutOfRange)) && (isize::MIN <= v <= isize::MAX ==> r == Ok::<
            isize,
            EvalError,
        >(v as isize)),
        expr_value(s@) is None ==> r is Err,
{
    let val = parse_int(s)?;
    if val < (isize::MIN as i64) || val > (isize::MAX as i64) {
        return Err(EvalError::OutOfRange);
    }
    Ok(val as isize)
}

/// Splits `s[i..]` at `:`; `cur` is the piece gathered so far.
pub open spec fn split_acc(s: Seq<char>, i: int, cur: Seq<char>) -> Seq<Seq<char>>
    decreases s.len() - i,
{
    if i < 0 || i >= s.len() {
        seq![cur]
    } else if s[i] == ':' {
        seq![cur] + split_acc(s, i + 1, seq![])
    } else {
        split_acc(s, i + 1, cur.push(s[i]))
    }
}

/// The pieces of `s` between `:` separators (one more than there are separators).
pub open spec fn pieces(s: Seq<char>) -> Seq<Seq<char>> {
    split_acc(s, 0, seq![])
}

/// Whether a piece is empty or has a value.
pub open spec fn piece_ok(p: Seq<char>) -> bool {
    p.len() == 0 || expr_value(p) matches Some(Ok(_))
}

/// What a piece gives: nothing when empty, else its value.
pub open spec fn piece_value(p: Seq<char>) -> Option<i64> {
    if p.len() == 0 {
        None
    } else {
        match expr_value(p) {
            Some(Ok(v)) => Some(v),
            _ => None,
        }
    }
}

/// The value of a side of a pair: `default` when the piece is empty.
pub open spec fn side_or(p: Seq<char>, default: int) -> int {
    match piece_value(p) {
        Some(v) => v as int,
        None => default,
    }
}

/// Evaluates the `:`-separated expressions of `s`; an empty piece gives `None`.
pub fn parse_delimited(s: &str) -> (r: Result<Vec<Option<i64>>, EvalError>)
    ensures
        r matches Ok(v) ==> v@.len() == pieces(s@).len() && forall|i: int|
            0 <= i < v@.len() ==> #[trigger] v@[i] == piece_value(pieces(s@)[i]) && piece_ok(
                pieces(s@)[i],
            ),
        r is Err <==> exists|i: int| 0 <= i < pieces(s@).len() && !#[trigger] piece_ok(pieces(s@)[i]),
{
    let chars = chars_of(s);
    let n = chars.len();
    let mut v: Vec<Option<i64>> = Vec::new();
    let ghost mut done: Seq<Seq<char>> = seq![];
    let mut start: usize = 0;
    let mut i: usize = 0;
    assert(s@.subrange(0, 0) =~= Seq::<char>::empty());
    assert(done + split_acc(s@, 0, seq![]) =~= split_acc(s@, 0, seq![]));
    while i < n
        invariant
            n == chars@.len() == s@.len(),
            chars@ == s@,
            start <= i <= n,
            pieces(s@) == done + split_acc(s@, i as int, s@.subrange(start as int, i as int)),
            v@.len() == done.len(),
            forall|k: int|
                0 <= k < v@.len() ==> #[trigger] v@[k] == piece_value(done[k]) && piece_ok(done[k]),
        decreases n - i,
    {
        if chars[i] == ':' {
            let piece = s.substring_char(start, i);
            let ghost p = s@.subrange(start as int, i as int);
            assert(split_acc(s@, i as int, p) == seq![p] + split_acc(s@, i + 1, seq![]));
            if i == start {
                v.push(None);
            } else {
                match parse_int(piece) {
                    Ok(x) => {
                        v.push(Some(x));
                    },
                    Err(e) => {
                        assert(pieces(s@) == (done + seq![p]) + split_acc(s@, i + 1, seq![]));
                        proof {
                            lemma_split_acc_prefix(done + seq![p], s@, i + 1, seq![]);
                            let k = done.len() as int;
                            assert(pieces(s@)[k] == p);
                            assert(!piece_ok(pieces(s@)[k]));
                        }
                        return Err(e);
                    },
                }
            }
            proof {
                done = done + seq![p];
                assert(s@.subrange(i + 1, i + 1) =~= Seq::<char>::empty());
            }
            start = i + 1;
        } else {
            assert(s@.subrange(start as int, i + 1) =~= s@.subrange(start as int, i as int).push(
                s@[i as int],
            ));
        }
        i = i + 1;
    }
    let piece = s.substring_char(start, n);
    let ghost p = s@.subrange(start as int, n as int);
    assert(pieces(s@) == done + seq![p]);
    if n == start {
        v.push(None);
    } else {
        match parse_int(piece) {
            Ok(x) => {
                v.push(Some(x));
            },
            Err(e) => {
                proof {
                    let k = done.len() as int;
                    assert(pieces(s@)[k] == p);
                    assert(!piece_ok(pieces(s@)[k]));
                }
                return Err(e);
            },
        }
    }
    proof {
        done = done + seq![p];
    }
    assert(pieces(s@) == done);
    assert forall|i: int| 0 <= i < pieces(s@).len() implies #[trigger] piece_ok(pieces(s@)[i]) by {
        assert(v@[i] == piece_value(done[i]) && piece_ok(done[i]));
    }
    Ok(v)
}

proof fn lemma_split_acc_prefix(d: Seq<Seq<char>>, s: Seq<char>, i: int, cur: Seq<char>)
    ensures
        (d + split_acc(s, i, cur)).subrange(0, d.len() as int) == d,
{
    assert((d + split_acc(s, i, cur)).subrange(0, d.len() as int) =~= d);
}

/// Evaluates a `head:tail` pair of non-negative expressions; an empty side is zero.
pub fn parse_usize_pair(s: &str) -> (r: Result<(usize, usize), EvalError>)
    ensures
        pieces(s@).len() != 2 ==> r is Err,
        r matches Ok((h, t)) ==> pieces(s@).len() == 2 && side_or(pieces(s@)[0], 0) == h as int
            && side_or(pieces(s@)[1], 0) == t as int && piece_ok(pieces(s@)[0]) && piece_ok(
            pieces(s@)[1],
        ),
        pieces(s@).len() == 2 && piece_ok(pieces(s@)[0]) && piece_ok(pieces(s@)[1]) ==> ({
            let h = side_or(pieces(s@)[0], 0);
            let t = side_or(pieces(s@)[1], 0);
            ||| (h < 0 || t < 0) && r == Err::<(usize, usize), EvalError>(EvalError::Negative)
            ||| h >= 0 && t >= 0 && (h > usize::MAX || t > usize::MAX) && r == Err::<
                (usize, usize),
                EvalError,
            >(EvalError::OutOfRange)
            ||| 0 <= h <= usize::MAX && 0 <= t <= usize::MAX && r == Ok::<
                (usize, usize),
                EvalError,
            >((h as usize, t as usize))
        }),
{
    let vals = parse_delimited(s)?;
    if vals.len() != 2 {
        return Err(EvalError::NotPair);
    }
    let head_raw = match vals[0] {
        Some(x) => x,
        None => 0,
    };
    let tail_raw = match vals[1] {
        Some(x) => x,
        None => 0,
    };
    if head_raw < 0 || tail_raw < 0 {
        return Err(EvalError::Negative);
    }
    if (head_raw as u64) > (usize::MAX as u64) || (tail_raw as u64) > (usize::MAX as u64) {
        return Err(EvalError::OutOfRange);
    }
    Ok((head_raw as usize, tail_raw as usize))
}

/// Evaluates a `head:tail` pair of expressions; an empty side is zero.
pub fn parse_isize_pair(s: &str) -> (r: Result<(isize, isize), EvalError>)
    ensures
        pieces(s@).len() != 2 ==> r is Err,
        r matches Ok((h, t)) ==> pieces(s@).len() == 2 && side_or(pieces(s@)[0], 0) == h as int
            && side_or(pieces(s@)[1], 0) == t as int && piece_ok(pieces(s@)[0]) && piece_ok(
            pieces(s@)[1],
        ),
        pieces(s@).len() == 2 && piece_ok(pieces(s@)[0]) && piece_ok(pieces(s@)[1]) ==> ({
            let h = side_or(pieces(s@)[0], 0);
            let t = side_or(pieces(s@)[1], 0);
            ||| !(isize::MIN <= h <= isize::MAX && isize::MIN <= t <= isize::MAX) && r == Err::<
                (isize, isize),
                EvalError,
            >(EvalError::OutOfRange)
            ||| isize::MIN <= h <= isize::MAX && isize::MIN <= t <= isize::MAX && r == Ok::<
                (isize, isize),
                EvalError,
            >((h as isize, t as isize))
        }),
{
    let vals = parse_delimited(s)?;
    if vals.len() != 2 {
        return Err(EvalError::NotPair);
    }
    let head_raw = match vals[0] {
        Some(x) => x,
        None => 0,
    };
    let tail_raw = match vals[1] {
        Some(x) => x,
        None => 0,
    };
    if head_raw < (isize::MIN as i64) || head_raw > (isize::MAX as i64) || tail_raw < (
    isize::MIN as i64) || tail_raw > (isize::MAX as i64) {
        return Err(EvalError::OutOfRange);
    }
    Ok((head_raw as isize, tail_raw as isize))
}

/// Evaluates a `start:end` range of non-negative expressions; an empty
/// start is zero and an empty end unbounded.
pub fn parse_range(s: &str) -> (r: Result<std::ops::Range<usize>, EvalError>)
    ensures
        pieces(s@).len() != 2 ==> r is Err,
        r matches Ok(rg) ==> pieces(s@).len() == 2 && rg.start <= rg.end && side_or(pieces(s@)[0], 0)
            == rg.start as int && side_or(pieces(s@)[1], usize::MAX as int) == rg.end as int
            && piece_ok(pieces(s@)[0]) && piece_ok(pieces(s@)[1]),
        pieces(s@).len() == 2 && piece_ok(pieces(s@)[0]) && piece_ok(pieces(s@)[1]) ==> ({
            let a = side_or(pieces(s@)[0], 0);
            let b = side_or(pieces(s@)[1], usize::MAX as int);
            ||| (a < 0 || (0 <= a <= usize::MAX && b < 0)) && r == Err::<
                std::ops::Range<usize>,
                EvalError,
            >(EvalError::Negative)
            ||| (a > usize::MAX || (0 <= a <= usize::MAX && b > usize::MAX)) && r == Err::<
                std::ops::Range<usize>,
                EvalError,
            >(EvalError::OutOfRange)
            ||| 0 <= b < a <= usize::MAX && r == Err::<std::ops::Range<usize>, EvalError>(
                EvalError::StartAfterEnd,
            )
            ||| 0 <= a <= b <= usize::MAX && (r matches Ok(rg) && rg.start == a && rg.end == b)
        }),
{
    let vals = parse_delimited(s)?;
    if vals.len() != 2 {
        return Err(EvalError::NotPair);
    }
    let start = match vals[0] {
        Some(x) => {
            if x < 0 {
                return Err(EvalError::Negative);
            }
            if (x as u64) > (usize::MAX as u64) {
                return Err(EvalError::OutOfRange);
            }
            x as usize
        },
        None => 0,
    };
    let end = match vals[1] {
        Some(x) => {
            if x < 0 {
                return Err(EvalError::Negative);
            }
            if (x as u64) > (usize::MAX as u64) {
                return Err(EvalError::OutOfRange);
            }
            x as usize
        },
        None => usize::MAX,
    };
    if start > end {
        return Err(EvalError::StartAfterEnd);
    }
    Ok(start..end)
}

} // verus!
