use vstd::prelude::*;

use super::ops::{is_unary, latter_precedes, spec_latter_precedes};
use super::Token;

verus! {

/// Checks one pair of adjacent tokens, giving the (possibly re-classified)
/// latter one: an operator that follows another operator or an opening
/// parenthesis is a prefix operator (`~` as prefix is `!`); `None` where the
/// pair cannot occur in an expression.
pub open spec fn mark_step(f: Token, l: Token) -> Option<Token> {
    match (f, l) {
        (Token::Op(_), Token::Op(y)) if is_unary(y) => Some(
            Token::Prefix(if y == '~' { '!' } else { y }),
        ),
        (Token::Paren('('), Token::Op(y)) if is_unary(y) => Some(
            Token::Prefix(if y == '~' { '!' } else { y }),
        ),
        (Token::Prefix(_), Token::Val(_)) => Some(l),
        (Token::Prefix(_), Token::Var(_, _)) => Some(l),
        (Token::Prefix(_), Token::VarArr(_)) => Some(l),
        (Token::Prefix(_), Token::Paren('(')) => Some(l),
        (Token::Val(_), Token::Op(_)) => Some(l),
        (Token::Var(_, _), Token::Op(_)) => Some(l),
        (Token::Paren(']'), Token::Op(_)) => Some(l),
        (Token::Paren(')'), Token::Op(_)) => Some(l),
        (Token::Op(_), Token::Val(_)) => Some(l),
        (Token::Op(_), Token::Var(_, _)) => Some(l),
        (Token::Op(_), Token::VarArr(_)) => Some(l),
        (Token::Op(_), Token::Paren('(')) => Some(l),
        (Token::Paren('('), Token::Val(_)) => Some(l),
        (Token::Paren('('), Token::Var(_, _)) => Some(l),
        (Token::Paren('('), Token::VarArr(_)) => Some(l),
        (Token::Paren('('), Token::Paren('(')) => Some(l),
        (Token::Paren('['), Token::Val(_)) => Some(l),
        (Token::Paren('['), Token::Var(_, _)) => Some(l),
        (Token::Paren('['), Token::VarArr(_)) => Some(l),
        (Token::Paren('['), Token::Paren('(')) => Some(l),
        (Token::Val(_), Token::Paren(']')) => Some(l),
        (Token::Val(_), Token::Paren(')')) => Some(l),
        (Token::Var(_, _), Token::Paren(']')) => Some(l),
        (Token::Var(_, _), Token::Paren(')')) => Some(l),
        (Token::Paren(']'), Token::Paren(']')) => Some(l),
        (Token::Paren(']'), Token::Paren(')')) => Some(l),
        (Token::Paren(')'), Token::Paren(']')) => Some(l),
        (Token::Paren(')'), Token::Paren(')')) => Some(l),
        (Token::VarArr(_), Token::Paren('[')) => Some(l),
        _ => None,
    }
}

/// Checks the token pairs from position `i` on, left to right, re-classifying
/// unary operators as it goes.
pub open spec fn spec_mark(t: Seq<Token>, i: int) -> Option<Seq<Token>>
    decreases t.len() - i,
{
    if i < 0 || i + 1 >= t.len() {
        Some(t)
    } else {
        match mark_step(t[i], t[i + 1]) {
            None => None,
            Some(l) => spec_mark(t.update(i + 1, l), i + 1),
        }
    }
}

fn mark_step_exec(f: Token, l: Token) -> (r: Option<Token>)
    ensures
        r == mark_step(f, l),
{
    match (f, l) {
        (Token::Op(_), Token::Op(y)) if is_unary(y) => Some(
            Token::Prefix(
                if y == '~' {
                    '!'
                } else {
                    y
                },
            ),
        ),
        (Token::Paren('('), Token::Op(y)) if is_unary(y) => Some(
            Token::Prefix(
                if y == '~' {
                    '!'
                } else {
                    y
                },
            ),
        ),
        (Token::Prefix(_), Token::Val(_) | Token::Var(_, _) | Token::VarArr(_) | Token::Paren('(')) => Some(l),
        (Token::Val(_) | Token::Var(_, _) | Token::Paren(']') | Token::Paren(')'), Token::Op(_)) => Some(l),
        (Token::Op(_), Token::Val(_) | Token::Var(_, _) | Token::VarArr(_) | Token::Paren('(')) => Some(l),
        (
            Token::Paren('(') | Token::Paren('['),
            Token::Val(_) | Token::Var(_, _) | Token::VarArr(_) | Token::Paren('('),
        ) => Some(l),
        (
            Token::Val(_) | Token::Var(_, _) | Token::Paren(']') | Token::Paren(')'),
            Token::Paren(']') | Token::Paren(')'),
        ) => Some(l),
        (Token::VarArr(_), Token::Paren('[')) => Some(l),
        _ => None,
    }
}

/// Checks that the tokens form a valid sequence and marks unary operators as
/// prefix operators.
pub fn mark_prefices(tokens: &mut Vec<Token>) -> (r: Option<()>)
    ensures
        r is Some <==> spec_mark(old(tokens)@, 0) is Some,
        r is Some ==> spec_mark(old(tokens)@, 0) == Some(final(tokens)@),
{
    let n = tokens.len();
    let mut i: usize = 0;
    while n > 0 && i < n - 1
        invariant
            n == tokens@.len(),
            i < n || n == 0,
            spec_mark(old(tokens)@, 0) == spec_mark(tokens@, i as int),
        decreases n - i,
    {
        match mark_step_exec(tokens[i], tokens[i + 1]) {
            None => {
                return None;
            },
            Some(l) => {
                tokens.set(i + 1, l);
            },
        }
        i = i + 1;
    }
    Some(())
}

/// Distance from an operator to the root of its left operand, given the
/// position `i` recorded when it was stacked and the current length `len`.
pub open spec fn calc_lhs(op: Token, i: int, len: int) -> int {
    match op {
        Token::Prefix(_) => 1,
        Token::Op(_) => len - i + 1,
        _ => 0,
    }
}

/// Nodes appended for an operator: comparisons expand into differences
/// tested with the `G` (non-negative) prefix; other operators stand as they are.
pub open spec fn expand(op: Token, lhs: usize) -> Seq<(Token, usize)> {
    match op {
        Token::Op('g') => seq![
            (Token::Op('-'), lhs),
            (Token::Val(-1i64), 0usize),
            (Token::Op('+'), 2usize),
            (Token::Prefix('G'), 1usize),
        ],
        Token::Op('G') => seq![(Token::Op('-'), lhs), (Token::Prefix('G'), 1usize)],
        Token::Op('l') => seq![
            (Token::Op('~'), lhs),
            (Token::Val(-1i64), 0usize),
            (Token::Op('+'), 2usize),
            (Token::Prefix('G'), 1usize),
        ],
        Token::Op('L') => seq![(Token::Op('~'), lhs), (Token::Prefix('G'), 1usize)],
        _ => seq![(op, lhs)],
    }
}

fn expand_and_push_op(op: &Token, lhs: usize, rpn: &mut Vec<(Token, usize)>)
    ensures
        final(rpn)@ == old(rpn)@ + expand(*op, lhs),
{
    match op {
        Token::Op('g') => {
            rpn.push((Token::Op('-'), lhs));
            rpn.push((Token::Val(-1), 0));
            rpn.push((Token::Op('+'), 2));
            rpn.push((Token::Prefix('G'), 1));
        },
        Token::Op('G') => {
            rpn.push((Token::Op('-'), lhs));
            rpn.push((Token::Prefix('G'), 1));
        },
        Token::Op('l') => {
            rpn.push((Token::Op('~'), lhs));
            rpn.push((Token::Val(-1), 0));
            rpn.push((Token::Op('+'), 2));
            rpn.push((Token::Prefix('G'), 1));
        },
        Token::Op('L') => {
            rpn.push((Token::Op('~'), lhs));
            rpn.push((Token::Prefix('G'), 1));
        },
        _ => {
            rpn.push((*op, lhs));
        },
    }
    assert(final(rpn)@ =~= old(rpn)@ + expand(*op, lhs));
}

/// Output and operator stack of the sorter.
pub type SortState = (Seq<(Token, usize)>, Seq<(Token, usize)>);

/// Pops and outputs stacked operators until one is found that the operator
/// `op` must wait for.
pub open spec fn pop_for(rpn: Seq<(Token, usize)>, stack: Seq<(Token, usize)>, op: char) -> SortState
    decreases stack.len(),
{
    if stack.len() == 0 {
        (rpn, stack)
    } else {
        let (f, i) = stack.last();
        if spec_latter_precedes(f, Token::Op(op)) {
            (rpn, stack)
        } else {
            pop_for(
                rpn + expand(f, calc_lhs(f, i as int, rpn.len() as int) as usize),
                stack.drop_last(),
                op,
            )
        }
    }
}

/// Pops and outputs stacked operators until the opening parenthesis `open`,
/// which is dropped; `None` if the stack runs out first.
pub open spec fn pop_until(rpn: Seq<(Token, usize)>, stack: Seq<(Token, usize)>, open: char) -> Option<
    SortState,
>
    decreases stack.len(),
{
    if stack.len() == 0 {
        None
    } else {
        let (t, i) = stack.last();
        if t == Token::Paren(open) {
            Some((rpn, stack.drop_last()))
        } else {
            pop_until(
                rpn + expand(t, calc_lhs(t, i as int, rpn.len() as int) as usize),
                stack.drop_last(),
                open,
            )
        }
    }
}

/// After a closing `]`, the array variable it subscripts follows its index
/// in the output.
pub open spec fn close_array(s: SortState) -> SortState {
    if s.1.len() > 0 && s.1.last().0 is VarArr {
        (s.0 + expand(s.1.last().0, 0), s.1.drop_last())
    } else {
        s
    }
}

/// One step of the operator-precedence sorter on the token `t`.
pub open spec fn sort_step(t: Token, rpn: Seq<(Token, usize)>, stack: Seq<(Token, usize)>) -> Option<
    SortState,
> {
    match t {
        Token::Val(_) => Some((rpn.push((t, 0usize)), stack)),
        Token::Var(_, _) => Some((rpn.push((t, 0usize)), stack)),
        Token::Prefix(_) => Some((rpn, stack.push((t, (rpn.len() + 1) as usize)))),
        Token::VarArr(_) => Some((rpn, stack.push((t, (rpn.len() + 1) as usize)))),
        Token::Paren('(') => Some((rpn, stack.push((t, (rpn.len() + 1) as usize)))),
        Token::Paren('[') => Some((rpn, stack.push((t, (rpn.len() + 1) as usize)))),
        Token::Op(op) => {
            let (r2, s2) = pop_for(rpn, stack, op);
            Some((r2, s2.push((t, r2.len() as usize))))
        },
        Token::Paren(')') => pop_until(rpn, stack, '('),
        Token::Paren(']') => match pop_until(rpn, stack, '[') {
            Some(p) => Some(close_array(p)),
            None => None,
        },
        _ => None,
    }
}

/// Runs the sorter over `tokens[i..]`; the operator stack must end empty.
pub open spec fn sort_from(
    tokens: Seq<Token>,
    i: int,
    rpn: Seq<(Token, usize)>,
    stack: Seq<(Token, usize)>,
) -> Option<Seq<(Token, usize)>>
    decreases tokens.len() - i,
{
    if i < 0 || i >= tokens.len() {
        if stack.len() == 0 {
            Some(rpn)
        } else {
            None
        }
    } else {
        match sort_step(tokens[i], rpn, stack) {
            None => None,
            Some((r2, s2)) => sort_from(tokens, i + 1, r2, s2),
        }
    }
}

/// Bound on the length of what the sorter outputs for a token count `n`.
pub open spec fn size_ok(rpn_len: int, stack_len: int, done: int, n: int) -> bool {
    rpn_len + 4 * stack_len <= 4 * done && done <= n
}

/// Shape of the operator stack: positions recorded for stacked tokens never
/// exceed one past the current output length, and only operators, prefixes,
/// array variables and opening brackets are stacked.
pub open spec fn stack_ok(rpn_len: int, stack: Seq<(Token, usize)>) -> bool {
    forall|j: int|
        0 <= j < stack.len() ==> (#[trigger] stack[j]).1 <= rpn_len + 1 && (stack[j].0 is Op
            ==> stack[j].1 <= rpn_len)
}

fn lhs_of(f: Token, i: usize, len: usize) -> (r: usize)
    requires
        i <= len + 1,
        f is Op ==> i <= len,
        len < 0x4000_0000,
    ensures
        r == calc_lhs(f, i as int, len as int),
{
    match f {
        Token::Prefix(_) => 1,
        Token::Op(_) => len + 1 - i,
        _ => 0,
    }
}

/// Sorts the tokens of an expression into reverse-Polish order (the
/// operator-precedence, "shunting-yard" method). Each node records the
/// distance to the root of its left operand.
pub fn sort_into_rpn(tokens: &[Token]) -> (r: Option<Vec<(Token, usize)>>)
    requires
        tokens@.len() < 0x1000_0000,
    ensures
        r is Some <==> sort_from(tokens@, 0, seq![], seq![]) is Some,
        r matches Some(v) ==> sort_from(tokens@, 0, seq![], seq![]) == Some(v@),
        r matches Some(v) ==> v@.len() <= 4 * tokens@.len(),
{
    let mut rpn: Vec<(Token, usize)> = Vec::new();
    let mut op_stack: Vec<(Token, usize)> = Vec::new();
    let n = tokens.len();
    let mut k: usize = 0;
    while k < n
        invariant
            n == tokens@.len() < 0x1000_0000,
            k <= n,
            size_ok(rpn@.len() as int, op_stack@.len() as int, k as int, n as int),
            stack_ok(rpn@.len() as int, op_stack@),
            sort_from(tokens@, 0, seq![], seq![]) == sort_from(tokens@, k as int, rpn@, op_stack@),
        decreases n - k,
    {
        let token = tokens[k];
        let ghost r0 = rpn@;
        let ghost s0 = op_stack@;
        match token {
            Token::Val(_) | Token::Var(_, _) => {
                rpn.push((token, 0));
                assert(sort_step(token, r0, s0) == Some((rpn@, op_stack@)));
                assert(stack_ok(rpn@.len() as int, op_stack@));
            },
            Token::Prefix(_) | Token::VarArr(_) | Token::Paren('(') | Token::Paren('[') => {
                op_stack.push((token, rpn.len() + 1));
                assert(sort_step(token, r0, s0) == Some((rpn@, op_stack@)));
                assert(stack_ok(rpn@.len() as int, op_stack@));
            },
            Token::Op(op) => {
                let mut done = false;
                while !done && op_stack.len() > 0
                    invariant
                        n == tokens@.len() < 0x1000_0000,
                        k < n,
                        rpn@.len() + 4 * op_stack@.len() <= 4 * k + 4,
                        rpn@.len() + 4 * op_stack@.len() <= 4 * k,
                        stack_ok(rpn@.len() as int, op_stack@),
                        pop_for(r0, s0, op) == (if done {
                            (rpn@, op_stack@)
                        } else {
                            pop_for(rpn@, op_stack@, op)
                        }),
                    decreases op_stack@.len(), (if done { 0int } else { 1int }),
                {
                    let former = op_stack[op_stack.len() - 1];
                    if latter_precedes(&former.0, &Token::Op(op)) {
                        done = true;
                    } else {
                        let ghost sb = op_stack@;
                        let (f, i) = op_stack.pop().unwrap();
                        assert(sb[sb.len() - 1] == (f, i));
                        let lhs = lhs_of(f, i, rpn.len());
                        let ghost rb = rpn@;
                        expand_and_push_op(&f, lhs, &mut rpn);
                        assert(op_stack@ =~= sb.drop_last());
                        assert forall|j: int| 0 <= j < op_stack@.len() implies (#[trigger] op_stack@[j]).1
                            <= rpn@.len() + 1 && (op_stack@[j].0 is Op ==> op_stack@[j].1 <= rpn@.len()) by {
                            assert(op_stack@[j] == sb[j]);
                        }
                    }
                }
                assert(pop_for(r0, s0, op) == (rpn@, op_stack@));
                op_stack.push((token, rpn.len()));
                assert(sort_step(token, r0, s0) == Some((rpn@, op_stack@)));
                assert(stack_ok(rpn@.len() as int, op_stack@));
            },
            Token::Paren(x) => {
                if x != ')' && x != ']' {
                    assert(sort_step(token, r0, s0) is None);
                    return None;
                }
                let other = if x == ')' {
                    '('
                } else {
                    '['
                };
                let mut found = false;
                while !found
                    invariant
                        token == Token::Paren(x),
                        token == tokens@[k as int],
                        sort_from(tokens@, 0, seq![], seq![]) == sort_from(tokens@, k as int, r0, s0),
                        x == ')' || x == ']',
                        other == (if x == ')' {
                            '('
                        } else {
                            '['
                        }),
                        n == tokens@.len() < 0x1000_0000,
                        k < n,
                        rpn@.len() + 4 * op_stack@.len() <= 4 * k,
                        stack_ok(rpn@.len() as int, op_stack@),
                        pop_until(r0, s0, other) == (if found {
                            Some((rpn@, op_stack@))
                        } else {
                            pop_until(rpn@, op_stack@, other)
                        }),
                    decreases op_stack@.len(), (if found { 0int } else { 1int }),
                {
                    if op_stack.len() == 0 {
                        assert(sort_step(token, r0, s0) is None);
                        return None;
                    }
                    let ghost sb = op_stack@;
                    let (t, i) = op_stack.pop().unwrap();
                    assert(sb[sb.len() - 1] == (t, i));
                    assert(op_stack@ =~= sb.drop_last());
                    if t == Token::Paren(other) {
                        found = true;
                    } else {
                        let lhs = lhs_of(t, i, rpn.len());
                        expand_and_push_op(&t, lhs, &mut rpn);
                    }
                    assert forall|j: int| 0 <= j < op_stack@.len() implies (#[trigger] op_stack@[j]).1
                        <= rpn@.len() + 1 && (op_stack@[j].0 is Op ==> op_stack@[j].1 <= rpn@.len()) by {
                        assert(op_stack@[j] == sb[j]);
                    }
                }
                if x == ']' && op_stack.len() > 0 {
                    let last = op_stack.len() - 1;
                    if let Token::VarArr(_) = op_stack[last].0 {
                        let ghost sb = op_stack@;
                        let ghost rb = rpn@;
                        let (t, _) = op_stack.pop().unwrap();
                        assert(op_stack@ =~= sb.drop_last());
                        rpn.push((t, 0));
                        assert(rpn@ =~= rb + expand(sb.last().0, 0));
                        assert forall|j: int| 0 <= j < op_stack@.len() implies (#[trigger] op_stack@[j]).1
                            <= rpn@.len() + 1 && (op_stack@[j].0 is Op ==> op_stack@[j].1 <= rpn@.len()) by {
                            assert(op_stack@[j] == sb[j]);
                        }
                    }
                }
                assert(sort_step(token, r0, s0) == Some((rpn@, op_stack@)));
            },
            _ => {
                assert(sort_step(token, r0, s0) is None);
                return None;
            },
        }
        k = k + 1;
    }
    if op_stack.len() > 0 {
        return None;
    }
    Some(rpn)
}

} // verus!
