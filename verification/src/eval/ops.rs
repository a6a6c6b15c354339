use vstd::prelude::*;
use vstd::wrapping::i64_specs;

use super::Token;

verus! {

/// Two's-complement negation of a 64-bit value (wraps on `i64::MIN`).
pub open spec fn wneg(x: i64) -> i64 {
    i64_specs::wrapping_sub(0i64, x)
}

/// `x` raised to the `n`-th power with 64-bit wrapping multiplication.
pub open spec fn wpow(x: i64, n: nat) -> i64
    decreases n,
{
    if n == 0 {
        1i64
    } else {
        i64_specs::wrapping_mul(x, wpow(x, (n - 1) as nat))
    }
}

#[verifier::allow_in_spec]
pub fn is_unary(c: char) -> bool
    returns
        c == '+' || c == '-' || c == '!' || c == '~',
{
    c == '+' || c == '-' || c == '!' || c == '~'
}

#[verifier::allow_in_spec]
pub fn is_muldiv(c: char) -> bool
    returns
        c == '*' || c == '/' || c == '%',
{
    c == '*' || c == '/' || c == '%'
}

/// Additive operators: `+`, `-`, `#` (negated sum) and `~` (reversed subtraction).
#[verifier::allow_in_spec]
pub fn is_addsub(c: char) -> bool
    returns
        c == '+' || c == '-' || c == '#' || c == '~',
{
    c == '+' || c == '-' || c == '#' || c == '~'
}

#[verifier::allow_in_spec]
pub fn is_shift(c: char) -> bool
    returns
        c == '<' || c == '>',
{
    c == '<' || c == '>'
}

/// Comparison operators: `g` (>), `G` (>=), `l` (<), `L` (<=).
#[verifier::allow_in_spec]
pub fn is_cmp(c: char) -> bool
    returns
        c == 'g' || c == 'G' || c == 'l' || c == 'L',
{
    c == 'g' || c == 'G' || c == 'l' || c == 'L'
}

#[verifier::allow_in_spec]
pub fn is_pow(c: char) -> bool
    returns
        c == '@',
{
    c == '@'
}

/// A sign: `+` or `-`.
#[verifier::allow_in_spec]
pub fn is_sign(c: char) -> bool
    returns
        c == '+' || c == '-',
{
    c == '+' || c == '-'
}

/// Binding strength of a binary operator: multiplicative operators bind
/// tightest, then additive, shifts, power, and everything else (comparisons
/// and bitwise operators) loosest.
pub open spec fn op_level(c: char) -> int {
    if is_muldiv(c) {
        4
    } else if is_addsub(c) {
        3
    } else if is_shift(c) {
        2
    } else if is_pow(c) {
        1
    } else {
        0
    }
}

/// Whether an operator `latter` that follows `former` on the operator stack
/// must be applied first: it binds tighter, or both are the right-associative
/// power operator. After a prefix operator only the power operator binds tighter.
pub open spec fn spec_latter_precedes(former: Token, latter: Token) -> bool {
    match (former, latter) {
        (Token::Prefix(_), Token::Op(l)) => is_pow(l),
        (Token::Op(f), Token::Op(l)) => op_level(l) > op_level(f) || (is_pow(f) && is_pow(l)),
        _ => true,
    }
}

pub fn latter_precedes(former: &Token, latter: &Token) -> (r: bool)
    ensures
        r == spec_latter_precedes(*former, *latter),
{
    match (former, latter) {
        (Token::Prefix(_), Token::Op(latter)) => is_pow(*latter),
        (Token::Op(former), Token::Op(latter)) => {
            let (former, latter) = (*former, *latter);
            if is_muldiv(former) || is_muldiv(latter) {
                return !is_muldiv(former);
            } else if is_addsub(former) || is_addsub(latter) {
                return !is_addsub(former);
            } else if is_shift(former) || is_shift(latter) {
                return !is_shift(former);
            } else if is_pow(former) || is_pow(latter) {
                return is_pow(latter);
            }
            false
        },
        _ => true,
    }
}

/// Value of a prefix (unary) operator applied to `x`; `G` tests `x >= 0`.
pub open spec fn spec_apply_prefix(c: char, x: i64) -> Option<i64> {
    if c == '+' {
        Some(x)
    } else if c == '-' {
        Some(wneg(x))
    } else if c == '!' {
        Some(!x)
    } else if c == 'G' {
        Some(if x >= 0 { 1i64 } else { 0i64 })
    } else {
        None
    }
}

pub fn apply_prefix(c: char, x: i64) -> (r: Option<i64>)
    ensures
        r == spec_apply_prefix(c, x),
{
    match c {
        '+' => Some(x),
        '-' => Some(0i64.wrapping_sub(x)),
        '!' => Some(!x),
        'G' => {
            if x >= 0 {
                Some(1)
            } else {
                Some(0)
            }
        },
        _ => None,
    }
}

/// Shift amount of the shift operators: the low six bits of `y` for a
/// non-negative `y`, and of `-y` for a negative one.
pub open spec fn shift_amount(y: i64) -> u32 {
    if y >= 0 {
        (y & 0x3f) as u32
    } else {
        (wneg(y) & 0x3f) as u32
    }
}

/// Value of a binary operator; `None` where the operator is unknown or the
/// division / remainder is undefined (zero divisor, or `i64::MIN / -1`).
pub open spec fn spec_apply_op(c: char, x: i64, y: i64) -> Option<i64> {
    if c == '+' {
        Some(i64_specs::wrapping_add(x, y))
    } else if c == '-' {
        Some(i64_specs::wrapping_sub(x, y))
    } else if c == '#' {
        Some(wneg(i64_specs::wrapping_add(x, y)))
    } else if c == '~' {
        Some(wneg(i64_specs::wrapping_sub(x, y)))
    } else if c == '*' {
        Some(i64_specs::wrapping_mul(x, y))
    } else if c == '/' {
        x.checked_div(y)
    } else if c == '%' {
        x.checked_rem(y)
    } else if c == '&' {
        Some(x & y)
    } else if c == '|' {
        Some(x | y)
    } else if c == '^' {
        Some(x ^ y)
    } else if c == '<' {
        if y >= 0 {
            Some(i64_specs::wrapping_shl(x, shift_amount(y)))
        } else {
            Some(i64_specs::wrapping_shr(x, shift_amount(y)))
        }
    } else if c == '>' {
        if y >= 0 {
            Some(i64_specs::wrapping_shr(x, shift_amount(y)))
        } else {
            Some(i64_specs::wrapping_shl(x, shift_amount(y)))
        }
    } else if c == '@' {
        if y >= 0 {
            Some(wpow(x, ((y as int) % 0x1_0000_0000) as nat))
        } else {
            Some(0i64)
        }
    } else {
        None
    }
}

fn shift_amount_exec(y: i64) -> (r: u32)
    ensures
        r == shift_amount(y),
        r < 64,
{
    let v = if y >= 0 {
        y
    } else {
        0i64.wrapping_sub(y)
    };
    let m = v & 0x3f;
    assert(0 <= (v & 0x3f) < 64) by (bit_vector);
    m as u32
}

fn wrapping_pow(x: i64, n: u32) -> (r: i64)
    ensures
        r == wpow(x, n as nat),
{
    let mut acc: i64 = 1;
    let mut i: u32 = 0;
    while i < n
        invariant
            i <= n,
            acc == wpow(x, i as nat),
        decreases n - i,
    {
        acc = x.wrapping_mul(acc);
        i = i + 1;
    }
    acc
}

pub fn apply_op(c: char, x: i64, y: i64) -> (r: Option<i64>)
    ensures
        r == spec_apply_op(c, x, y),
{
    match c {
        '+' => Some(x.wrapping_add(y)),
        '-' => Some(x.wrapping_sub(y)),
        '#' => Some(0i64.wrapping_sub(x.wrapping_add(y))),
        '~' => Some(0i64.wrapping_sub(x.wrapping_sub(y))),
        '*' => Some(x.wrapping_mul(y)),
        '/' => x.checked_div(y),
        '%' => x.checked_rem(y),
        '&' => Some(x & y),
        '|' => Some(x | y),
        '^' => Some(x ^ y),
        '<' => {
            let s = shift_amount_exec(y);
            if y >= 0 {
                Some(x.wrapping_shl(s))
            } else {
                Some(x.wrapping_shr(s))
            }
        },
        '>' => {
            let s = shift_amount_exec(y);
            if y >= 0 {
                Some(x.wrapping_shr(s))
            } else {
                Some(x.wrapping_shl(s))
            }
        },
        '@' => {
            if y >= 0 {
                let n = (y % 0x1_0000_0000) as u32;
                Some(wrapping_pow(x, n))
            } else {
                Some(0)
            }
        },
        _ => None,
    }
}

/// Operators whose operands can be exchanged (possibly by reversing the sign
/// of the operator).
#[verifier::allow_in_spec]
pub fn is_comm_1(op: char) -> bool
    returns
        op == '+' || op == '-' || op == '#' || op == '~' || op == '*' || op == '&' || op == '|'
            || op == '^',
{
    op == '+' || op == '-' || op == '#' || op == '~' || op == '*' || op == '&' || op == '|' || op
        == '^'
}

/// Operator pairs that can be re-associated: two additive operators, or the
/// same commutative operator twice.
#[verifier::allow_in_spec]
pub fn is_comm_2(op1: char, op2: char) -> bool
    returns
        (is_addsub(op1) && is_addsub(op2)) || (is_comm_1(op1) && op1 == op2),
{
    if is_addsub(op1) && is_addsub(op2) {
        return true;
    }
    is_comm_1(op1) && op1 == op2
}

/// The operator that gives the same value with its operands exchanged.
#[verifier::allow_in_spec]
pub fn swap_op_hands(op: char) -> char
    returns
        if op == '-' {
            '~'
        } else if op == '~' {
            '-'
        } else {
            op
        },
{
    match op {
        '-' => '~',
        '~' => '-',
        _ => op,
    }
}

/// Product of two signs.
#[verifier::allow_in_spec]
pub fn fuse_sign2(s1: char, s2: char) -> char
    requires
        is_sign(s1),
        is_sign(s2),
    returns
        if s1 == s2 {
            '+'
        } else {
            '-'
        },
{
    if s1 == s2 {
        '+'
    } else {
        '-'
    }
}

#[verifier::allow_in_spec]
pub fn fuse_sign3(s1: char, s2: char, s3: char) -> char
    requires
        is_sign(s1),
        is_sign(s2),
        is_sign(s3),
    returns
        fuse_sign2(fuse_sign2(s1, s2), s3),
{
    fuse_sign2(fuse_sign2(s1, s2), s3)
}

/// The additive operator `op'` with `s(x op y) == x op' y`.
#[verifier::allow_in_spec]
pub fn fuse_sign_op(s: char, op: char) -> char
    requires
        is_sign(s),
        is_addsub(op),
    returns
        if s == '+' {
            op
        } else if op == '+' {
            '#'
        } else if op == '-' {
            '~'
        } else if op == '#' {
            '+'
        } else {
            '-'
        },
{
    if s == '+' {
        op
    } else {
        match op {
            '+' => '#',
            '-' => '~',
            '#' => '+',
            _ => '-',
        }
    }
}

#[verifier::allow_in_spec]
pub fn fuse_sign2_op(s1: char, s2: char, op: char) -> char
    requires
        is_sign(s1),
        is_sign(s2),
        is_addsub(op),
    returns
        fuse_sign_op(fuse_sign2(s1, s2), op),
{
    fuse_sign_op(fuse_sign2(s1, s2), op)
}

/// Splits an additive operator into a sign and a plain operator:
/// `x op y == s(x op' y)` with `op'` in {`+`, `-`}.
#[verifier::allow_in_spec]
pub fn peel_sign_from_op(op: char) -> (char, char)
    requires
        is_addsub(op),
    returns
        if op == '+' {
            ('+', '+')
        } else if op == '-' {
            ('+', '-')
        } else if op == '#' {
            ('-', '+')
        } else {
            ('-', '-')
        },
{
    match op {
        '+' => ('+', '+'),
        '-' => ('+', '-'),
        '#' => ('-', '+'),
        _ => ('-', '-'),
    }
}

/// Moves the sign of the right operand out of an additive operator:
/// `x op y == x op' (s y)` with `op'` in {`+`, `#`}.
#[verifier::allow_in_spec]
pub fn peel_rhs_sign_from_op(op: char) -> (char, char)
    requires
        is_addsub(op),
    returns
        if op == '+' {
            ('+', '+')
        } else if op == '-' {
            ('-', '+')
        } else if op == '#' {
            ('+', '#')
        } else {
            ('-', '#')
        },
{
    match op {
        '+' => ('+', '+'),
        '-' => ('-', '+'),
        '#' => ('+', '#'),
        _ => ('-', '#'),
    }
}

/// The operator `op'` with `(s1 x) op (s2 y) == x op' y`.
#[verifier::allow_in_spec]
pub fn gather_sign2(s1: char, op: char, s2: char) -> char
    requires
        is_sign(s1),
        is_addsub(op),
        is_sign(s2),
    returns
        fuse_sign_op(
            fuse_sign2(peel_sign_from_op(op).0, s1),
            fuse_sign2(s1, fuse_sign2(peel_sign_from_op(op).1, s2)),
        ),
{
    let (s, op) = peel_sign_from_op(op);
    let s = fuse_sign2(s, s1);
    let op = fuse_sign2(s1, fuse_sign2(op, s2));
    fuse_sign_op(s, op)
}

/// Negating twice gives the value back.
pub proof fn lemma_wneg_wneg(x: i64)
    ensures
        wneg(wneg(x)) == x,
{
}

/// Applying `fuse_sign_op(s, op)` is applying `op`, then the sign `s`.
pub proof fn law_fuse_sign_op(s: char, op: char, x: i64, y: i64)
    requires
        is_sign(s),
        is_addsub(op),
    ensures
        spec_apply_op(fuse_sign_op(s, op), x, y) == spec_apply_prefix(
            s,
            spec_apply_op(op, x, y).unwrap(),
        ),
{
}

/// Peeling the sign off an additive operator keeps its value.
pub proof fn law_peel_sign_from_op(op: char, x: i64, y: i64)
    requires
        is_addsub(op),
    ensures
        spec_apply_op(op, x, y) == spec_apply_prefix(
            peel_sign_from_op(op).0,
            spec_apply_op(peel_sign_from_op(op).1, x, y).unwrap(),
        ),
{
}

/// Moving the sign of the right operand out of an additive operator keeps its value.
pub proof fn law_peel_rhs_sign_from_op(op: char, x: i64, y: i64)
    requires
        is_addsub(op),
    ensures
        spec_apply_op(op, x, y) == spec_apply_op(
            peel_rhs_sign_from_op(op).1,
            x,
            spec_apply_prefix(peel_rhs_sign_from_op(op).0, y).unwrap(),
        ),
{
}

/// The product of two signs applied once equals the two signs applied in turn.
pub proof fn law_fuse_sign2(s1: char, s2: char, x: i64)
    requires
        is_sign(s1),
        is_sign(s2),
    ensures
        spec_apply_prefix(fuse_sign2(s1, s2), x) == spec_apply_prefix(
            s1,
            spec_apply_prefix(s2, x).unwrap(),
        ),
{
}

/// Gathering the operand signs into the operator keeps the value:
/// `(s1 x) op (s2 y) == x gather_sign2(s1, op, s2) y`.
pub proof fn law_gather_sign2(s1: char, op: char, s2: char, x: i64, y: i64)
    requires
        is_sign(s1),
        is_addsub(op),
        is_sign(s2),
    ensures
        spec_apply_op(
            op,
            spec_apply_prefix(s1, x).unwrap(),
            spec_apply_prefix(s2, y).unwrap(),
        ) == spec_apply_op(gather_sign2(s1, op, s2), x, y),
{
}

/// Exchanging the operands of a commutative operator, with `swap_op_hands`,
/// keeps the value.
pub proof fn law_swap_op_hands(op: char, x: i64, y: i64)
    requires
        is_addsub(op) || op == '&' || op == '|' || op == '^',
    ensures
        spec_apply_op(swap_op_hands(op), y, x) == spec_apply_op(op, x, y),
{
    assert(x & y == y & x) by (bit_vector);
    assert(x | y == y | x) by (bit_vector);
    assert(x ^ y == y ^ x) by (bit_vector);
}

} // verus!
