use vstd::prelude::*;

use super::lexer::{
    digit_run_end, digits_in_base, spec_radix, digits_value, ipow, lemma_digit_run_end, lemma_digits_value_step,
    lemma_ipow_mono, suffix_exp,
    spec_parse_char, spec_parse_val,
};
use super::{expr_value, spec_marked, spec_sorted, zero_env, EvalError, Token};
use super::lexer::{lex_after, prepend, spec_lex, spec_parse_op};
use super::rpn::{expand, mark_step, pop_for, pop_until, sort_from, sort_step, spec_mark};
use super::run::{eval_from, eval_step, spec_eval, Env};
use super::ops::{spec_apply_op, spec_apply_prefix, wneg, wpow};

verus! {

/// 2 to the 64th: the modulus of 64-bit wrapping arithmetic.
pub open spec fn word_range() -> int {
    0x1_0000_0000_0000_0000
}

/// Bit `k` of `x` (two's complement), as 0 or 1.
pub open spec fn bit(x: i64, k: u32) -> i64 {
    (x >> k) & 1
}

/// `a` and `b` are equal modulo 2^64.
pub open spec fn same_word(a: int, b: int) -> bool {
    (a - b) % word_range() == 0
}

/// `|` is bitwise or: each bit of the result is set exactly when the bit
/// is set in either operand.
pub proof fn lemma_or_bits(x: i64, y: i64, k: u32)
    requires
        0 <= k < 64,
    ensures
        spec_apply_op('|', x, y) == Some(x | y),
        bit(x | y, k) == 1 <==> (bit(x, k) == 1 || bit(y, k) == 1),
{
    assert(((x | y) >> k) & 1 == 1 <==> (((x >> k) & 1) == 1 || ((y >> k) & 1) == 1)) by (bit_vector)
        requires
            0 <= k < 64,
    ;
}

/// `&` is bitwise and: each bit of the result is set exactly when the bit
/// is set in both operands.
pub proof fn lemma_and_bits(x: i64, y: i64, k: u32)
    requires
        0 <= k < 64,
    ensures
        spec_apply_op('&', x, y) == Some(x & y),
        bit(x & y, k) == 1 <==> (bit(x, k) == 1 && bit(y, k) == 1),
{
    assert(((x & y) >> k) & 1 == 1 <==> (((x >> k) & 1) == 1 && ((y >> k) & 1) == 1)) by (bit_vector)
        requires
            0 <= k < 64,
    ;
}

/// `^` is bitwise exclusive or: each bit of the result is set exactly when
/// the bit is set in one operand and not the other.
pub proof fn lemma_xor_bits(x: i64, y: i64, k: u32)
    requires
        0 <= k < 64,
    ensures
        spec_apply_op('^', x, y) == Some(x ^ y),
        bit(x ^ y, k) == 1 <==> (bit(x, k) == 1) != (bit(y, k) == 1),
{
    assert(((x ^ y) >> k) & 1 == 1 <==> ((((x >> k) & 1) == 1) != (((y >> k) & 1) == 1))) by (bit_vector)
        requires
            0 <= k < 64,
    ;
}

/// `!` is bitwise not: `!x == -x - 1`.
pub proof fn lemma_not(x: i64)
    ensures
        spec_apply_prefix('!', x) matches Some(r) && r == -x - 1,
{
    assert(!x == -x - 1) by (bit_vector);
}

/// `a` and `b` are congruent modulo 2^64 when they differ by one wrap.
proof fn lemma_same_word_wrap(a: int, b: int)
    requires
        a == b || a == b - word_range() || a == b + word_range(),
    ensures
        same_word(a, b),
{
    assert(a - b == 0 || a - b == -word_range() || a - b == word_range());
}

/// `+` adds: the result is the sum modulo 2^64, and the sum itself when it
/// fits.
pub proof fn lemma_add(x: i64, y: i64)
    ensures
        spec_apply_op('+', x, y) matches Some(r) && same_word(r as int, x + y),
        i64::MIN <= x + y <= i64::MAX ==> spec_apply_op('+', x, y) == Some((x + y) as i64),
{
    let r = spec_apply_op('+', x, y)->Some_0;
    lemma_same_word_wrap(r as int, x + y);
}

/// `-` subtracts: the result is the difference modulo 2^64, and the
/// difference itself when it fits.
pub proof fn lemma_sub(x: i64, y: i64)
    ensures
        spec_apply_op('-', x, y) matches Some(r) && same_word(r as int, x - y),
        i64::MIN <= x - y <= i64::MAX ==> spec_apply_op('-', x, y) == Some((x - y) as i64),
{
    let r = spec_apply_op('-', x, y)->Some_0;
    lemma_same_word_wrap(r as int, x - y);
}

/// `#` is the negated sum: `-(x + y)` modulo 2^64, exactly when it fits.
pub proof fn lemma_neg_add(x: i64, y: i64)
    ensures
        spec_apply_op('#', x, y) matches Some(r) && same_word(r as int, -(x + y)),
        i64::MIN <= x + y <= i64::MAX && i64::MIN <= -(x + y) <= i64::MAX ==> spec_apply_op('#', x, y)
            == Some((-(x + y)) as i64),
{
    let r = spec_apply_op('#', x, y)->Some_0;
    let s = vstd::wrapping::i64_specs::wrapping_add(x, y);
    lemma_same_word_wrap(s as int, x + y);
    lemma_same_word_wrap(r as int, -s);
    assert(same_word(r as int, -(x + y))) by {
        let w = word_range();
        assert(r - (-(x + y)) == (r - (-s)) + (s - (x + y)) * -1);
        vstd::arithmetic::div_mod::lemma_mul_mod_noop_general(s - (x + y), -1, w);
        vstd::arithmetic::div_mod::lemma_add_mod_noop(r - (-s), (s - (x + y)) * -1, w);
    }
}

/// `~` is the reversed difference: `y - x` modulo 2^64, exactly when it
/// fits.
pub proof fn lemma_rev_sub(x: i64, y: i64)
    ensures
        spec_apply_op('~', x, y) matches Some(r) && same_word(r as int, y - x),
        i64::MIN <= x - y <= i64::MAX && i64::MIN <= y - x <= i64::MAX ==> spec_apply_op('~', x, y)
            == Some((y - x) as i64),
{
    let r = spec_apply_op('~', x, y)->Some_0;
    let s = vstd::wrapping::i64_specs::wrapping_sub(x, y);
    lemma_same_word_wrap(s as int, x - y);
    lemma_same_word_wrap(r as int, -s);
    assert(same_word(r as int, y - x)) by {
        let w = word_range();
        assert(r - (y - x) == (r - (-s)) + (s - (x - y)) * -1);
        vstd::arithmetic::div_mod::lemma_mul_mod_noop_general(s - (x - y), -1, w);
        vstd::arithmetic::div_mod::lemma_add_mod_noop(r - (-s), (s - (x - y)) * -1, w);
    }
}

/// Prefix `-` negates: `-x` modulo 2^64, exactly when it fits.
pub proof fn lemma_negate(x: i64)
    ensures
        spec_apply_prefix('-', x) matches Some(r) && same_word(r as int, -x),
        x > i64::MIN ==> spec_apply_prefix('-', x) == Some((-x) as i64),
{
    let r = spec_apply_prefix('-', x)->Some_0;
    lemma_same_word_wrap(r as int, -x);
}

/// Prefix `+` leaves its operand as it is.
pub proof fn lemma_plus(x: i64)
    ensures
        spec_apply_prefix('+', x) == Some(x),
{
}

/// A value cropped to 64 bits is congruent to it modulo 2^64.
proof fn lemma_crop(v: int)
    ensures
        same_word(vstd::wrapping::i64_specs::signed_crop(v) as int, v),
{
    let w = word_range();
    vstd::arithmetic::div_mod::lemma_fundamental_div_mod(v, w);
    vstd::arithmetic::div_mod::lemma_mod_bound(v, w);
    let m = v % w;
    assert(m - v == (0 - v / w) * w) by (nonlinear_arith)
        requires
            v == w * (v / w) + m,
    ;
    vstd::arithmetic::div_mod::lemma_mod_multiples_basic(0 - v / w, w);
    assert((m - w - v) == (0 - v / w - 1) * w) by (nonlinear_arith)
        requires
            m - v == (0 - v / w) * w,
    ;
    vstd::arithmetic::div_mod::lemma_mod_multiples_basic(0 - v / w - 1, w);
}

/// `*` multiplies: the result is the product modulo 2^64, and the product
/// itself when it fits.
pub proof fn lemma_mul(x: i64, y: i64)
    ensures
        spec_apply_op('*', x, y) matches Some(r) && same_word(r as int, x * y),
        i64::MIN <= x * y <= i64::MAX ==> spec_apply_op('*', x, y) == Some((x * y) as i64),
{
    lemma_crop(x * y);
    if i64::MIN <= x * y <= i64::MAX {
        let w = word_range();
        let r = vstd::wrapping::i64_specs::signed_crop(x * y);
        assert(same_word(r as int, x * y));
        assert(i64::MIN <= r <= i64::MAX);
        assert(-2 * w < r - x * y < 2 * w);
        assert(r as int == x * y) by {
            let d = r - x * y;
            vstd::arithmetic::div_mod::lemma_fundamental_div_mod(d, w);
            assert(d == w * (d / w));
            assert(-w < d < w);
            assert(d / w == 0) by (nonlinear_arith)
                requires
                    d == w * (d / w),
                    -w < d < w,
                    w > 0,
            ;
        }
    }
}

/// `q` and `m` are the quotient and remainder of `x` by `y` rounding toward
/// zero: `q * y + m == x`, the remainder smaller than the divisor and of
/// the sign of the dividend.
pub open spec fn truncated(x: i64, y: i64, q: i64, m: i64) -> bool {
    &&& q * y + m == x
    &&& (if m >= 0 {
        m as int
    } else {
        -m
    }) < (if y >= 0 {
        y as int
    } else {
        -y
    })
    &&& (m == 0 || (m > 0) == (x > 0))
}

/// Truncating division: `/` and `%` give a quotient and a remainder with
/// `q * y + m == x`, the remainder smaller than the divisor and of the
/// sign of the dividend; both fail on a zero divisor.
pub proof fn lemma_div_rem(x: i64, y: i64)
    ensures
        y == 0 ==> spec_apply_op('/', x, y) is None && spec_apply_op('%', x, y) is None,
        y != 0 && !(x == i64::MIN && y == -1) ==> spec_apply_op('/', x, y) is Some && spec_apply_op(
            '%',
            x,
            y,
        ) is Some && truncated(x, y, spec_apply_op('/', x, y)->Some_0, spec_apply_op('%', x, y)->Some_0),
{
    if y != 0 && !(x == i64::MIN && y == -1) {
        let a: int = if x >= 0 { x as int } else { -x };
        let b: int = if y >= 0 { y as int } else { -y };
        vstd::arithmetic::div_mod::lemma_fundamental_div_mod(a, b);
        vstd::arithmetic::div_mod::lemma_mod_bound(a, b);
        vstd::arithmetic::div_mod::lemma_div_pos_is_pos(a, b);
        vstd::arithmetic::div_mod::lemma_div_is_ordered_by_denominator(a, 1, b);
        let q0 = a / b;
        let m0 = a % b;
        assert(q0 <= a) by {
            assert(a / 1 == a);
        }
        if x == 0 {
            assert(spec_apply_op('/', x, y) == Some(0i64));
            assert(spec_apply_op('%', x, y) == Some(0i64));
        } else if x > 0 && y > 0 {
            assert(spec_apply_op('/', x, y) == Some(q0 as i64));
            assert(spec_apply_op('%', x, y) == Some(m0 as i64));
            assert(q0 * y + m0 == x) by (nonlinear_arith)
                requires
                    a == b * q0 + m0,
                    a == x,
                    b == y,
            ;
        } else if x < 0 && y < 0 {
            if b >= 2 {
                vstd::arithmetic::div_mod::lemma_div_is_ordered_by_denominator(a, 2, b);
                assert(q0 <= a / 2);
            } else {
                assert(q0 == a) by {
                    assert(a / 1 == a);
                }
            }
            assert(spec_apply_op('/', x, y) == Some(q0 as i64));
            assert(spec_apply_op('%', x, y) == Some((-m0) as i64));
            assert(q0 * y + (-m0) == x) by (nonlinear_arith)
                requires
                    a == b * q0 + m0,
                    a == -x,
                    b == -y,
            ;
        } else if x < 0 {
            assert(spec_apply_op('/', x, y) == Some((-q0) as i64));
            assert(spec_apply_op('%', x, y) == Some((-m0) as i64));
            assert((-q0) * y + (-m0) == x) by (nonlinear_arith)
                requires
                    a == b * q0 + m0,
                    a == -x,
                    b == y,
            ;
        } else {
            assert(spec_apply_op('/', x, y) == Some((-q0) as i64));
            assert(spec_apply_op('%', x, y) == Some(m0 as i64));
            assert((-q0) * y + m0 == x) by (nonlinear_arith)
                requires
                    a == b * q0 + m0,
                    a == x,
                    b == -y,
            ;
        }
    }
}

/// `<` by `k` shifts left: bit `j` of the result is bit `j - k` of `x`,
/// and zero below `k`.
pub proof fn lemma_shl_bits(x: i64, k: u32, j: u32)
    requires
        k < 64,
        j < 64,
    ensures
        spec_apply_op('<', x, k as i64) matches Some(r) && bit(r, j) == (if j >= k {
            bit(x, (j - k) as u32)
        } else {
            0i64
        }),
{
    let y = k as i64;
    assert(((y & 0x3f) as u32) % 64 == k) by (bit_vector)
        requires
            y == k as i64,
            k < 64,
    ;
    assert(((x << k) >> j) & 1 == if j >= k {
        (x >> ((j - k) as u32)) & 1
    } else {
        0i64
    }) by (bit_vector)
        requires
            k < 64,
            j < 64,
    ;
}

/// `>` by `k` shifts right, keeping the sign: bit `j` of the result is bit
/// `j + k` of `x`, the sign bit past the top.
pub proof fn lemma_shr_bits(x: i64, k: u32, j: u32)
    requires
        k < 64,
        j < 64,
    ensures
        spec_apply_op('>', x, k as i64) matches Some(r) && bit(r, j) == bit(
            x,
            if j + k < 64 {
                (j + k) as u32
            } else {
                63u32
            },
        ),
{
    let y = k as i64;
    assert(((y & 0x3f) as u32) % 64 == k) by (bit_vector)
        requires
            y == k as i64,
            k < 64,
    ;
    assert(((x >> k) >> j) & 1 == (x >> (if j + k < 64 {
        (j + k) as u32
    } else {
        63u32
    })) & 1) by (bit_vector)
        requires
            k < 64,
            j < 64,
    ;
}

/// A negative shift goes the other way: `x < y == x > -y` and
/// `x > y == x < -y`.
pub proof fn lemma_shift_negative(x: i64, y: i64)
    requires
        -64 < y < 0,
    ensures
        spec_apply_op('<', x, y) == spec_apply_op('>', x, (-y) as i64),
        spec_apply_op('>', x, y) == spec_apply_op('<', x, (-y) as i64),
{
}

/// Only the low six bits of a shift amount count: shifting by `y` is
/// shifting by `y % 64`.
pub proof fn lemma_shift_amount(x: i64, y: i64)
    requires
        y >= 0,
    ensures
        spec_apply_op('<', x, y) == spec_apply_op('<', x, y % 64),
        spec_apply_op('>', x, y) == spec_apply_op('>', x, y % 64),
{
    assert((y & 0x3f) == ((y % 64) & 0x3f)) by (bit_vector)
        requires
            y >= 0,
    ;
}

/// Two congruent values that both fit in 64 bits are equal.
proof fn lemma_same_word_exact(a: int, b: int)
    requires
        same_word(a, b),
        i64::MIN <= a <= i64::MAX,
        i64::MIN <= b <= i64::MAX,
    ensures
        a == b,
{
    let w = word_range();
    let d = a - b;
    vstd::arithmetic::div_mod::lemma_fundamental_div_mod(d, w);
    assert(d / w == 0) by (nonlinear_arith)
        requires
            d == w * (d / w) + 0,
            -w < d < w,
            w > 0,
    ;
}

/// Congruence modulo 2^64 chains.
proof fn lemma_same_word_trans(a: int, b: int, c: int)
    requires
        same_word(a, b),
        same_word(b, c),
    ensures
        same_word(a, c),
{
    vstd::arithmetic::div_mod::lemma_add_mod_noop(a - b, b - c, word_range());
    assert(a - c == (a - b) + (b - c));
}

/// Congruent factors give congruent products.
proof fn lemma_same_word_mul(x: int, a: int, b: int)
    requires
        same_word(a, b),
    ensures
        same_word(x * a, x * b),
{
    let w = word_range();
    vstd::arithmetic::div_mod::lemma_fundamental_div_mod(a - b, w);
    let t = (a - b) / w;
    assert(x * a - x * b == (x * t) * w) by (nonlinear_arith)
        requires
            a - b == w * t + 0,
    ;
    vstd::arithmetic::div_mod::lemma_mod_multiples_basic(x * t, w);
}

/// Wrapping powers are powers modulo 2^64.
proof fn lemma_wpow(x: i64, n: nat)
    ensures
        same_word(wpow(x, n) as int, ipow(x as int, n)),
    decreases n,
{
    if n == 0 {
        assert(wpow(x, 0) == 1i64);
        assert(ipow(x as int, 0) == 1);
    } else {
        lemma_wpow(x, (n - 1) as nat);
        let p = wpow(x, (n - 1) as nat);
        lemma_crop(x * p);
        lemma_same_word_mul(x as int, p as int, ipow(x as int, (n - 1) as nat));
        lemma_same_word_trans(wpow(x, n) as int, x * p, x * ipow(x as int, (n - 1) as nat));
    }
}

/// `**` raises to a power: for a non-negative exponent the result is `x`
/// to the exponent (taken modulo 2^32) modulo 2^64; a negative exponent
/// gives 0.
pub proof fn lemma_pow(x: i64, y: i64)
    ensures
        y >= 0 ==> (spec_apply_op('@', x, y) matches Some(r) && same_word(
            r as int,
            ipow(x as int, (y % 0x1_0000_0000) as nat),
        )),
        y >= 0 && i64::MIN <= ipow(x as int, (y % 0x1_0000_0000) as nat) <= i64::MAX ==> spec_apply_op(
            '@',
            x,
            y,
        ) == Some(ipow(x as int, (y % 0x1_0000_0000) as nat) as i64),
        y < 0 ==> spec_apply_op('@', x, y) == Some(0i64),
{
    if y >= 0 {
        let v = ipow(x as int, (y % 0x1_0000_0000) as nat);
        lemma_wpow(x, (y % 0x1_0000_0000) as nat);
        if i64::MIN <= v <= i64::MAX {
            lemma_same_word_exact(spec_apply_op('@', x, y)->Some_0 as int, v);
        }
    }
}

/// Prefix `G` tests for a non-negative value: 1 if `x >= 0`, else 0.
pub proof fn lemma_non_negative(x: i64)
    ensures
        spec_apply_prefix('G', x) == Some(if x >= 0 { 1i64 } else { 0i64 }),
{
}

/// The truth value of a comparison as the evaluator gives it: 1 or 0.
pub open spec fn truth(b: bool) -> i64 {
    if b {
        1
    } else {
        0
    }
}

/// The comparisons `>` (`g`), `>=` (`G`), `<` (`l`) and `<=` (`L`) leave 1
/// on the stack in place of their two operands when the comparison holds
/// and 0 when it does not, as long as the difference of the operands and
/// its negation fit in 64 bits (they are computed by subtraction).
pub proof fn lemma_comparisons(s: Seq<i64>, x: i64, y: i64, lhs: usize, env: Env)
    requires
        i64::MIN < x - y <= i64::MAX,
    ensures
        eval_from(expand(Token::Op('g'), lhs), 0, env, s + seq![x, y]) == Ok::<Seq<i64>, super::EvalError>(s.push(truth(x > y))),
        eval_from(expand(Token::Op('G'), lhs), 0, env, s + seq![x, y]) == Ok::<Seq<i64>, super::EvalError>(s.push(truth(x >= y))),
        eval_from(expand(Token::Op('l'), lhs), 0, env, s + seq![x, y]) == Ok::<Seq<i64>, super::EvalError>(s.push(truth(x < y))),
        eval_from(expand(Token::Op('L'), lhs), 0, env, s + seq![x, y]) == Ok::<Seq<i64>, super::EvalError>(s.push(truth(x <= y))),
{
    let s0 = s + seq![x, y];
    assert(s0.drop_last() =~= s.push(x));
    let d = (x - y) as i64;
    let e = (y - x) as i64;
    let s1 = s.push(d);
    let s1n = s.push(e);
    assert(s.push(x).update(s.len() as int, d) =~= s1);
    assert(s.push(x).update(s.len() as int, e) =~= s1n);
    assert(wneg(vstd::wrapping::i64_specs::wrapping_sub(x, y)) == e);
    // `>` and `>=`
    let tg = expand(Token::Op('g'), lhs);
    let s2 = s1.push(-1i64);
    assert(s2.drop_last() =~= s1);
    let s3 = s.push((d - 1) as i64);
    assert(s1.update(s.len() as int, (d - 1) as i64) =~= s3);
    let s4 = s.push(truth(x > y));
    assert(s3.update(s.len() as int, truth(x > y)) =~= s4);
    assert(eval_step(tg[0], env, s0) == Ok::<Seq<i64>, super::EvalError>(s1));
    assert(eval_step(tg[1], env, s1) == Ok::<Seq<i64>, super::EvalError>(s2));
    assert(eval_step(tg[2], env, s2) == Ok::<Seq<i64>, super::EvalError>(s3));
    assert(eval_step(tg[3], env, s3) == Ok::<Seq<i64>, super::EvalError>(s4));
    assert(eval_from(tg, 4, env, s4) == Ok::<Seq<i64>, super::EvalError>(s4));
    assert(eval_from(tg, 3, env, s3) == Ok::<Seq<i64>, super::EvalError>(s4));
    assert(eval_from(tg, 2, env, s2) == Ok::<Seq<i64>, super::EvalError>(s4));
    assert(eval_from(tg, 1, env, s1) == Ok::<Seq<i64>, super::EvalError>(s4));
    let tge = expand(Token::Op('G'), lhs);
    let s5 = s.push(truth(x >= y));
    assert(s1.update(s.len() as int, truth(x >= y)) =~= s5);
    assert(eval_step(tge[0], env, s0) == Ok::<Seq<i64>, super::EvalError>(s1));
    assert(eval_step(tge[1], env, s1) == Ok::<Seq<i64>, super::EvalError>(s5));
    assert(eval_from(tge, 2, env, s5) == Ok::<Seq<i64>, super::EvalError>(s5));
    assert(eval_from(tge, 1, env, s1) == Ok::<Seq<i64>, super::EvalError>(s5));
    // `<` and `<=`
    let tl = expand(Token::Op('l'), lhs);
    let n2 = s1n.push(-1i64);
    assert(n2.drop_last() =~= s1n);
    let n3 = s.push((e - 1) as i64);
    assert(s1n.update(s.len() as int, (e - 1) as i64) =~= n3);
    let n4 = s.push(truth(x < y));
    assert(n3.update(s.len() as int, truth(x < y)) =~= n4);
    assert(eval_step(tl[0], env, s0) == Ok::<Seq<i64>, super::EvalError>(s1n));
    assert(eval_step(tl[1], env, s1n) == Ok::<Seq<i64>, super::EvalError>(n2));
    assert(eval_step(tl[2], env, n2) == Ok::<Seq<i64>, super::EvalError>(n3));
    assert(eval_step(tl[3], env, n3) == Ok::<Seq<i64>, super::EvalError>(n4));
    assert(eval_from(tl, 4, env, n4) == Ok::<Seq<i64>, super::EvalError>(n4));
    assert(eval_from(tl, 3, env, n3) == Ok::<Seq<i64>, super::EvalError>(n4));
    assert(eval_from(tl, 2, env, n2) == Ok::<Seq<i64>, super::EvalError>(n4));
    assert(eval_from(tl, 1, env, s1n) == Ok::<Seq<i64>, super::EvalError>(n4));
    let tle = expand(Token::Op('L'), lhs);
    let n5 = s.push(truth(x <= y));
    assert(s1n.update(s.len() as int, truth(x <= y)) =~= n5);
    assert(eval_step(tle[0], env, s0) == Ok::<Seq<i64>, super::EvalError>(s1n));
    assert(eval_step(tle[1], env, s1n) == Ok::<Seq<i64>, super::EvalError>(n5));
    assert(eval_from(tle, 2, env, n5) == Ok::<Seq<i64>, super::EvalError>(n5));
    assert(eval_from(tle, 1, env, s1n) == Ok::<Seq<i64>, super::EvalError>(n5));
}

/// The value of a digit: `0`-`9`, then `a`-`f` (either case) for 10 to
/// 15; -1 for anything else.
pub open spec fn digit_value(c: char) -> int {
    if '0' <= c <= '9' {
        c as int - '0' as int
    } else if 'a' <= c <= 'f' {
        c as int - 'a' as int + 10
    } else if 'A' <= c <= 'F' {
        c as int - 'A' as int + 10
    } else {
        -1
    }
}

/// The number the digits `ds` write in base `base`: the last digit counts
/// ones, the one before it `base`, and so on.
pub open spec fn numeral(ds: Seq<char>, base: int) -> int
    decreases ds.len(),
{
    if ds.len() == 0 {
        0
    } else {
        numeral(ds.drop_last(), base) * base + digit_value(ds.last())
    }
}

/// The base a radix letter after a leading `0` names: `b` 2, `o` 8, `d`
/// 10, `x` 16 (either case); 0 for any other letter.
pub open spec fn radix_of(p: char) -> int {
    if p == 'b' || p == 'B' {
        2
    } else if p == 'o' || p == 'O' {
        8
    } else if p == 'd' || p == 'D' {
        10
    } else if p == 'x' || p == 'X' {
        16
    } else {
        0
    }
}

/// Every character of `ds` is a digit below `base`.
pub open spec fn digits_below(ds: Seq<char>, base: int) -> bool {
    forall|k: int| 0 <= k < ds.len() ==> 0 <= #[trigger] digit_value(ds[k]) < base
}

/// A digit's value as the scanner reads it.
proof fn lemma_digit(c: char)
    requires
        digit_value(c) >= 0,
    ensures
        spec_parse_char(c) == Some(digit_value(c) as i64),
{
}

/// A number written with more digits is at least as large.
proof fn lemma_numeral_prefix(ds: Seq<char>, base: int, k: int)
    requires
        base >= 1,
        0 <= k <= ds.len(),
        digits_below(ds, base),
    ensures
        0 <= numeral(ds.take(k), base) <= numeral(ds, base),
    decreases ds.len(),
{
    if ds.len() > 0 {
        assert(digits_below(ds.drop_last(), base)) by {
            assert forall|i: int| 0 <= i < ds.drop_last().len() implies 0 <= #[trigger] digit_value(
                ds.drop_last()[i],
            ) < base by {
                assert(ds.drop_last()[i] == ds[i]);
            }
        }
        assert(0 <= digit_value(ds[ds.len() - 1]));
        if k == ds.len() {
            assert(ds.take(k) =~= ds);
            lemma_numeral_prefix(ds.drop_last(), base, k - 1);
            assert(ds.drop_last().take(k - 1) =~= ds.drop_last());
            let v = numeral(ds.drop_last(), base);
            assert(v * base >= 0) by (nonlinear_arith)
                requires
                    v >= 0,
                    base >= 1,
            ;
        } else {
            lemma_numeral_prefix(ds.drop_last(), base, k);
            assert(ds.drop_last().take(k) =~= ds.take(k));
            lemma_numeral_prefix(ds.drop_last(), base, ds.len() - 1);
            assert(ds.drop_last().take(ds.len() - 1) =~= ds.drop_last());
            let v = numeral(ds.drop_last(), base);
            assert(v <= v * base) by (nonlinear_arith)
                requires
                    v >= 0,
                    base >= 1,
            ;
        }
    }
}

/// The scanner's value of the digits `s[d..j]` (the first one read apart)
/// is the number they write, while it fits.
proof fn lemma_scan_value(s: Seq<char>, d: int, j: int, base: i64)
    requires
        0 <= d < j <= s.len(),
        2 <= base <= 16,
        digits_below(s.subrange(d, j), base as int),
        numeral(s.subrange(d, j), base as int) <= i64::MAX,
    ensures
        digits_value(s, d + 1, j, base, spec_parse_char(s[d]).unwrap()) == numeral(
            s.subrange(d, j),
            base as int,
        ),
    decreases j - d,
{
    let ds = s.subrange(d, j);
    assert(ds[0] == s[d]);
    lemma_digit(s[d]);
    if j == d + 1 {
        assert(ds.drop_last() =~= Seq::<char>::empty());
        assert(ds.last() == s[d]);
        assert(numeral(ds.drop_last(), base as int) == 0);
        assert(numeral(ds, base as int) == numeral(ds.drop_last(), base as int) * base + digit_value(
            ds.last(),
        ));
        assert(0 * base == 0);
        assert(numeral(ds, base as int) == digit_value(s[d]));
        assert(digits_value(s, d + 1, j, base, spec_parse_char(s[d]).unwrap()) == digit_value(s[d]));
    } else {
        let pre = s.subrange(d, j - 1);
        assert(ds.drop_last() =~= pre);
        assert(ds.take(j - 1 - d) =~= pre);
        lemma_numeral_prefix(ds, base as int, j - 1 - d);
        assert(digits_below(pre, base as int)) by {
            assert forall|i: int| 0 <= i < pre.len() implies 0 <= #[trigger] digit_value(pre[i])
                < base by {
                assert(pre[i] == ds[i]);
            }
        }
        lemma_scan_value(s, d, j - 1, base);
        assert(ds.last() == s[j - 1]);
        assert(ds[ds.len() - 1] == s[j - 1]);
        lemma_digit(s[j - 1]);
        lemma_digits_value_step(s, d + 1, j - 1, base, spec_parse_char(s[d]).unwrap());
        let v = numeral(pre, base as int);
        let dv = digit_value(s[j - 1]);
        assert(0 <= v);
        assert(0 <= dv);
        assert(v * base <= v * base + dv);
        lemma_crop(v * base);
        assert(numeral(ds, base as int) == v * base + dv);
        assert(v * base <= i64::MAX);
        lemma_same_word_exact(vstd::wrapping::i64_specs::signed_crop(v * base) as int, v * base);
        assert(digits_value(s, d + 1, j - 1, base, spec_parse_char(s[d]).unwrap()) == v);
        assert(vstd::wrapping::i64_specs::wrapping_mul(v as i64, base) == v * base);
        assert(spec_parse_char(s[j - 1]).unwrap() == dv);
        assert(vstd::wrapping::i64_specs::wrapping_add((v * base) as i64, dv as i64) == v * base + dv);
        assert(digits_value(s, d + 1, j, base, spec_parse_char(s[d]).unwrap()) == v * base + dv);
    }
}

/// A literal with a radix prefix: `0b`, `0o`, `0d` or `0x` (either case)
/// and digits below its base reads as the number the digits write in
/// that base.
pub proof fn lemma_radix_literal(p: char, ds: Seq<char>)
    requires
        radix_of(p) > 0,
        ds.len() > 0,
        digits_below(ds, radix_of(p)),
        numeral(ds, radix_of(p)) <= i64::MAX,
    ensures
        spec_parse_val('0', seq!['0', p] + ds, 1) == Some(
            (Token::Val(numeral(ds, radix_of(p)) as i64), (ds.len() + 2) as int),
        ),
{
    let s = seq!['0', p] + ds;
    let base = radix_of(p) as i64;
    assert(s[1] == p);
    assert(s.subrange(2, s.len() as int) =~= ds);
    assert forall|k: int| 3 <= k < s.len() implies spec_parse_char(#[trigger] s[k]) is Some by {
        assert(s[k] == ds[k - 2]);
        lemma_digit(ds[k - 2]);
    }
    lemma_end_of_digits(s, 3);
    assert(digits_in_base(s, 3, s.len() as int, base)) by {
        assert forall|k: int| 3 <= k < s.len() implies spec_parse_char(s[k]).unwrap() < base by {
            assert(s[k] == ds[k - 2]);
            lemma_digit(ds[k - 2]);
        }
    }
    assert(s[2] == ds[0]);
    lemma_digit(ds[0]);
    lemma_scan_value(s, 2, s.len() as int, base);
}

/// After a radix prefix, a later digit that is not a digit of the base
/// makes the literal invalid: `0o18` and `0b12` are no numbers.
pub proof fn lemma_radix_digit_out_of_base(p: char, ds: Seq<char>, k: int)
    requires
        radix_of(p) > 0,
        1 <= k < ds.len(),
        forall|i: int| 0 <= i <= k ==> #[trigger] digit_value(ds[i]) >= 0,
        digit_value(ds[k]) >= radix_of(p),
    ensures
        spec_parse_val('0', seq!['0', p] + ds, 1) is None,
{
    let s = seq!['0', p] + ds;
    let base = radix_of(p) as i64;
    assert(s[1] == p);
    assert(s[2] == ds[0]);
    assert(digit_value(ds[0]) >= 0);
    lemma_digit(ds[0]);
    lemma_digit_run_end(s, 3);
    let e = digit_run_end(s, 3);
    assert(s[k + 2] == ds[k]);
    lemma_digit(ds[k]);
    if e <= k + 2 {
        assert(s[e] == ds[e - 2]);
        assert(digit_value(ds[e - 2]) >= 0);
        lemma_digit(ds[e - 2]);
    }
    assert(!(spec_parse_char(s[k + 2]).unwrap() < base));
}

/// A plain decimal literal (digits `0`-`9` only) reads as the number the
/// digits write in base ten.
pub proof fn lemma_decimal_literal(ds: Seq<char>)
    requires
        ds.len() > 0,
        forall|i: int| 0 <= i < ds.len() ==> '0' <= #[trigger] ds[i] <= '9',
        numeral(ds, 10) <= i64::MAX,
    ensures
        spec_parse_val(ds[0], ds, 1) == Some((Token::Val(numeral(ds, 10) as i64), ds.len() as int)),
{
    assert(digits_below(ds, 10)) by {
        assert forall|k: int| 0 <= k < ds.len() implies 0 <= #[trigger] digit_value(ds[k]) < 10 by {
            assert('0' <= ds[k] <= '9');
        }
    }
    assert forall|k: int| 1 <= k < ds.len() implies spec_parse_char(#[trigger] ds[k]) is Some by {
        assert('0' <= ds[k] <= '9');
        lemma_digit(ds[k]);
    }
    lemma_end_of_digits(ds, 1);
    assert(digits_in_base(ds, 1, ds.len() as int, 10)) by {
        assert forall|k: int| 1 <= k < ds.len() implies spec_parse_char(ds[k]).unwrap() < 10 by {
            assert('0' <= ds[k] <= '9');
            lemma_digit(ds[k]);
        }
    }
    assert('0' <= ds[0] <= '9');
    lemma_digit(ds[0]);
    assert(ds.subrange(0, ds.len() as int) =~= ds);
    lemma_scan_value(ds, 0, ds.len() as int, 10);
}

/// A decimal literal followed by a unit letter `k`, `m`, `g` or `t`
/// (either case) is scaled by 1000 to the power 1, 2, 3 or 4, or by 1024
/// to that power when an `i` follows the letter: `4k` is 4000, `4ki` 4096.
pub proof fn lemma_unit_suffix(ds: Seq<char>, u: char, rest: Seq<char>)
    requires
        ds.len() > 0,
        forall|i: int| 0 <= i < ds.len() ==> '0' <= #[trigger] ds[i] <= '9',
        u == 'k' || u == 'K' || u == 'm' || u == 'M' || u == 'g' || u == 'G' || u == 't' || u
            == 'T',
        numeral(ds, 10) * ipow(
            if rest.len() > 0 && rest[0] == 'i' { 1024 } else { 1000 },
            suffix_exp(u),
        ) <= i64::MAX,
    ensures
        spec_parse_val(ds[0], ds + seq![u] + rest, 1) == Some(
            (
                Token::Val(
                    (numeral(ds, 10) * ipow(
                        if rest.len() > 0 && rest[0] == 'i' { 1024 } else { 1000 },
                        suffix_exp(u),
                    )) as i64,
                ),
                if rest.len() > 0 && rest[0] == 'i' { ds.len() + 2 } else { ds.len() + 1 } as int,
            ),
        ),
{
    let s = ds + seq![u] + rest;
    let len = ds.len() as int;
    let b: int = if rest.len() > 0 && rest[0] == 'i' { 1024 } else { 1000 };
    let n = suffix_exp(u);
    assert(1 <= n <= 4);
    assert(s[len] == u);
    assert(forall|k: int| 0 <= k < len ==> s[k] == ds[k]);
    assert(digits_below(ds, 10)) by {
        assert forall|k: int| 0 <= k < ds.len() implies 0 <= #[trigger] digit_value(ds[k]) < 10 by {
            assert('0' <= ds[k] <= '9');
        }
    }
    lemma_digit_run_end(s, 1);
    let e = digit_run_end(s, 1);
    if e < len {
        assert('0' <= ds[e] <= '9');
        lemma_digit(ds[e]);
    }
    if e > len {
        assert(spec_parse_char(s[len]) is Some);
    }
    assert(e == len);
    assert(digits_in_base(s, 1, len, 10)) by {
        assert forall|k: int| 1 <= k < len implies spec_parse_char(s[k]).unwrap() < 10 by {
            assert('0' <= ds[k] <= '9');
            lemma_digit(ds[k]);
        }
    }
    assert('0' <= ds[0] <= '9');
    assert(s[0] == ds[0]);
    if len >= 2 {
        assert(s[1] == ds[1]);
        assert('0' <= ds[1] <= '9');
    }
    assert(s.subrange(0, len) =~= ds);
    let v = numeral(ds, 10);
    lemma_numeral_prefix(ds, 10, 0);
    lemma_ipow_mono(b, 0, n);
    let p = ipow(b, n);
    assert(v <= v * p) by (nonlinear_arith)
        requires
            v >= 0,
            p >= 1,
    ;
    lemma_scan_value(s, 0, len, 10);
    if rest.len() > 0 && rest[0] == 'i' {
        assert(s[len + 1] == 'i');
    } else if len + 1 < s.len() {
        assert(s[len + 1] == rest[0]);
    }
    if v == 0 {
        assert(v * p == 0);
        assert(vstd::wrapping::i64_specs::wrapping_mul(0, p as i64) == 0);
    } else {
        assert(p <= v * p) by (nonlinear_arith)
            requires
                v >= 1,
                p >= 1,
        ;
        assert(0 <= v * p) by (nonlinear_arith)
            requires
                v >= 1,
                p >= 1,
        ;
        lemma_crop(v * p);
        lemma_same_word_exact(vstd::wrapping::i64_specs::signed_crop(v * p) as int, v * p);
    }
}

/// An input that lexes to a single number evaluates to that number.
pub proof fn lemma_lone_value(s: Seq<char>, v: i64)
    requires
        spec_lex(None, s, 0) == Ok::<Seq<Token>, EvalError>(seq![Token::Val(v)]),
    ensures
        expr_value(s) == Some(Ok::<i64, EvalError>(v)),
{
    let t = seq![Token::Paren('(')] + seq![Token::Val(v)] + seq![Token::Paren(')')];
    assert(t =~= seq![Token::Paren('('), Token::Val(v), Token::Paren(')')]);
    assert(mark_step(t[0], t[1]) == Some(t[1]));
    assert(t.update(1, t[1]) =~= t);
    assert(mark_step(t[1], t[2]) == Some(t[2]));
    assert(t.update(2, t[2]) =~= t);
    assert(spec_mark(t, 2) == Some(t));
    assert(spec_mark(t, 1) == Some(t));
    assert(spec_mark(t, 0) == Some(t));
    assert(spec_marked(None, s) == Some(t));
    let open = seq![(Token::Paren('('), 1usize)];
    let out = seq![(Token::Val(v), 0usize)];
    let e: Seq<(Token, usize)> = seq![];
    assert(sort_step(t[0], e, e) == Some((e, open)));
    assert(e.push((Token::Val(v), 0usize)) =~= out);
    assert(sort_step(t[1], e, open) == Some((out, open)));
    assert(open.drop_last() =~= e);
    assert(pop_until(out, open, '(') == Some((out, e)));
    assert(sort_step(t[2], out, open) == Some((out, e)));
    assert(sort_from(t, 3, out, e) == Some(out));
    assert(sort_from(t, 2, out, open) == Some(out));
    assert(sort_from(t, 1, e, open) == Some(out));
    assert(sort_from(t, 0, e, e) == Some(out));
    assert(spec_sorted(None, s) == Some(out));
    let st: Seq<i64> = seq![];
    assert(st.push(v) =~= seq![v]);
    assert(eval_step(out[0], zero_env(), st) == Ok::<Seq<i64>, EvalError>(seq![v]));
    assert(eval_from(out, 1, zero_env(), seq![v]) == Ok::<Seq<i64>, EvalError>(seq![v]));
    assert(eval_from(out, 0, zero_env(), st) == Ok::<Seq<i64>, EvalError>(seq![v]));
    assert(spec_eval(out, zero_env()) == Ok::<i64, EvalError>(v));
}

/// A whole input that is one radix literal (`0b`, `0o`, `0d` or `0x` and
/// digits below its base) evaluates to the number the digits write in that
/// base: `0o17` is 15, `0x1F` is 31.
pub proof fn lemma_radix_literal_value(p: char, ds: Seq<char>)
    requires
        radix_of(p) > 0,
        ds.len() > 0,
        digits_below(ds, radix_of(p)),
        numeral(ds, radix_of(p)) <= i64::MAX,
    ensures
        expr_value(seq!['0', p] + ds) == Some(Ok::<i64, EvalError>(numeral(ds, radix_of(p)) as i64)),
{
    let s = seq!['0', p] + ds;
    let v = numeral(ds, radix_of(p)) as i64;
    lemma_radix_literal(p, ds);
    assert(s[0] == '0');
    assert(spec_lex(None, s, s.len() as int) == Ok::<Seq<Token>, EvalError>(seq![]));
    assert(seq![Token::Val(v)] + seq![] =~= seq![Token::Val(v)]);
    assert(lex_after(None, s, 0, spec_parse_val('0', s, 1), EvalError::BadValue) == prepend(
        seq![Token::Val(v)],
        spec_lex(None, s, s.len() as int),
    ));
    assert(spec_lex(None, s, 0) == lex_after(None, s, 0, spec_parse_val('0', s, 1), EvalError::BadValue));
    assert(spec_lex(None, s, 0) == Ok::<Seq<Token>, EvalError>(seq![Token::Val(v)]));
    lemma_lone_value(s, v);
}

/// A whole input that is a plain decimal literal evaluates to the number
/// it writes.
pub proof fn lemma_decimal_literal_value(ds: Seq<char>)
    requires
        ds.len() > 0,
        forall|i: int| 0 <= i < ds.len() ==> '0' <= #[trigger] ds[i] <= '9',
        numeral(ds, 10) <= i64::MAX,
    ensures
        expr_value(ds) == Some(Ok::<i64, EvalError>(numeral(ds, 10) as i64)),
{
    let v = numeral(ds, 10) as i64;
    lemma_decimal_literal(ds);
    assert('0' <= ds[0] <= '9');
    assert(spec_lex(None, ds, ds.len() as int) == Ok::<Seq<Token>, EvalError>(seq![]));
    assert(seq![Token::Val(v)] + seq![] =~= seq![Token::Val(v)]);
    assert(lex_after(None, ds, 0, spec_parse_val(ds[0], ds, 1), EvalError::BadValue) == prepend(
        seq![Token::Val(v)],
        spec_lex(None, ds, ds.len() as int),
    ));
    assert(spec_lex(None, ds, 0) == lex_after(None, ds, 0, spec_parse_val(ds[0], ds, 1), EvalError::BadValue));
    assert(spec_lex(None, ds, 0) == Ok::<Seq<Token>, EvalError>(seq![Token::Val(v)]));
    lemma_lone_value(ds, v);
}

/// An input that starts with a radix literal one of whose later digits is
/// outside its base is refused as a bad value: `0o18` is no number.
pub proof fn lemma_radix_digit_refused(p: char, ds: Seq<char>, k: int)
    requires
        radix_of(p) > 0,
        1 <= k < ds.len(),
        forall|i: int| 0 <= i <= k ==> #[trigger] digit_value(ds[i]) >= 0,
        digit_value(ds[k]) >= radix_of(p),
    ensures
        spec_lex(None, seq!['0', p] + ds, 0) == Err::<Seq<Token>, EvalError>(EvalError::BadValue),
{
    let s = seq!['0', p] + ds;
    lemma_radix_digit_out_of_base(p, ds, k);
    assert(s[0] == '0');
    assert(lex_after(None, s, 0, spec_parse_val('0', s, 1), EvalError::BadValue) == Err::<
        Seq<Token>,
        EvalError,
    >(EvalError::BadValue));
    assert(spec_lex(None, s, 0) == lex_after(None, s, 0, spec_parse_val('0', s, 1), EvalError::BadValue));
}

/// The decimal digits `s[d..j]`, ended by the end of the text or by a
/// character that neither continues nor scales them, read as the number
/// they write.
proof fn lemma_decimal_at(s: Seq<char>, d: int, j: int)
    requires
        0 <= d < j <= s.len(),
        forall|k: int| d <= k < j ==> '0' <= #[trigger] s[k] <= '9',
        numeral(s.subrange(d, j), 10) <= i64::MAX,
        j < s.len() ==> spec_parse_char(s[j]) is None && suffix_exp(s[j]) == 0 && radix_of(s[j])
            == 0,
    ensures
        spec_parse_val(s[d], s, d + 1) == Some(
            (Token::Val(numeral(s.subrange(d, j), 10) as i64), j),
        ),
{
    let ds = s.subrange(d, j);
    assert(digits_below(ds, 10)) by {
        assert forall|k: int| 0 <= k < ds.len() implies 0 <= #[trigger] digit_value(ds[k]) < 10 by {
            assert(ds[k] == s[d + k]);
            assert('0' <= s[d + k] <= '9');
        }
    }
    lemma_digit_run_end(s, d + 1);
    let e = digit_run_end(s, d + 1);
    if e < j {
        assert('0' <= s[e] <= '9');
        lemma_digit(s[e]);
    }
    assert(e == j);
    assert(digits_in_base(s, d + 1, j, 10)) by {
        assert forall|k: int| d + 1 <= k < j implies spec_parse_char(s[k]).unwrap() < 10 by {
            assert('0' <= s[k] <= '9');
            lemma_digit(s[k]);
        }
    }
    assert('0' <= s[d] <= '9');
    if d + 1 < j {
        assert('0' <= s[d + 1] <= '9');
    }
    assert(spec_radix(s[d], s, d + 1) == (10i64, d));
    lemma_scan_value(s, d, j, 10);
}

/// A decimal literal, a blank, `c`, a blank and a decimal literal.
pub open spec fn binary_text(dx: Seq<char>, c: char, dy: Seq<char>) -> Seq<char> {
    dx + seq![' ', c, ' '] + dy
}

/// Plain decimal digits whose number fits in 64 bits.
pub open spec fn decimal(ds: Seq<char>) -> bool {
    &&& ds.len() > 0
    &&& forall|i: int| 0 <= i < ds.len() ==> '0' <= #[trigger] ds[i] <= '9'
    &&& numeral(ds, 10) <= i64::MAX
}

/// `x c y`, for two decimal literals and an operator `c` written as one
/// character (`+`, `-`, `*`, `/`, `%`, `&`, `|`, `^`), evaluates to the
/// operator applied to the two numbers; an undefined result (a division by
/// zero) is refused as such.
#[verifier::spinoff_prover]
#[verifier::rlimit(40)]
pub proof fn lemma_binary_value(dx: Seq<char>, c: char, dy: Seq<char>)
    requires
        decimal(dx),
        decimal(dy),
        c == '+' || c == '-' || c == '*' || c == '/' || c == '%' || c == '&' || c == '|' || c == '^',
    ensures
        expr_value(binary_text(dx, c, dy)) == Some(
            match spec_apply_op(c, numeral(dx, 10) as i64, numeral(dy, 10) as i64) {
                Some(r) => Ok::<i64, EvalError>(r),
                None => Err(EvalError::Undefined),
            },
        ),
{
    let s = binary_text(dx, c, dy);
    let x = numeral(dx, 10) as i64;
    let y = numeral(dy, 10) as i64;
    let n = dx.len() as int;
    let m = s.len() as int;
    // lexing
    assert(s[n] == ' ' && s[n + 1] == c && s[n + 2] == ' ');
    assert(s.subrange(0, n) =~= dx);
    assert(s.subrange(n + 3, m) =~= dy);
    assert(forall|k: int| 0 <= k < n ==> s[k] == dx[k]);
    assert(forall|k: int| 0 <= k < dy.len() ==> s[n + 3 + k] == dy[k]);
    assert forall|k: int| 0 <= k < n implies '0' <= #[trigger] s[k] <= '9' by {
        assert('0' <= dx[k] <= '9');
    }
    assert forall|k: int| n + 3 <= k < m implies '0' <= #[trigger] s[k] <= '9' by {
        assert(s[k] == dy[k - n - 3]);
        assert('0' <= dy[k - n - 3] <= '9');
    }
    lemma_decimal_at(s, 0, n);
    lemma_decimal_at(s, n + 3, m);
    assert(spec_lex(None, s, m) == Ok::<Seq<Token>, EvalError>(seq![]));
    assert(seq![Token::Val(y)] + seq![] =~= seq![Token::Val(y)]);
    assert(lex_after(None, s, n + 3, spec_parse_val(s[n + 3], s, n + 4), EvalError::BadValue)
        == Ok::<Seq<Token>, EvalError>(seq![Token::Val(y)]));
    assert(spec_lex(None, s, n + 3) == Ok::<Seq<Token>, EvalError>(seq![Token::Val(y)]));
    assert(spec_lex(None, s, n + 2) == Ok::<Seq<Token>, EvalError>(seq![Token::Val(y)]));
    assert(spec_parse_op(c, s, n + 2) == Some((Token::Op(c), n + 2)));
    assert(seq![Token::Op(c)] + seq![Token::Val(y)] =~= seq![Token::Op(c), Token::Val(y)]);
    assert(lex_after(None, s, n + 1, spec_parse_op(c, s, n + 2), EvalError::BadOperator)
        == Ok::<Seq<Token>, EvalError>(seq![Token::Op(c), Token::Val(y)]));
    assert(spec_lex(None, s, n + 1) == Ok::<Seq<Token>, EvalError>(seq![Token::Op(c), Token::Val(y)]));
    assert(spec_lex(None, s, n) == Ok::<Seq<Token>, EvalError>(seq![Token::Op(c), Token::Val(y)]));
    let body = seq![Token::Val(x), Token::Op(c), Token::Val(y)];
    assert(seq![Token::Val(x)] + seq![Token::Op(c), Token::Val(y)] =~= body);
    assert('0' <= s[0] <= '9');
    assert(lex_after(None, s, 0, spec_parse_val(s[0], s, 1), EvalError::BadValue)
        == Ok::<Seq<Token>, EvalError>(body));
    assert(spec_lex(None, s, 0) == Ok::<Seq<Token>, EvalError>(body));
    lemma_binary_tokens(s, x, c, y);
}

/// An input that lexes to two numbers joined by an operator other than a
/// comparison evaluates to the operator applied to them.
pub proof fn lemma_binary_tokens(s: Seq<char>, x: i64, c: char, y: i64)
    requires
        spec_lex(None, s, 0) == Ok::<Seq<Token>, EvalError>(seq![Token::Val(x), Token::Op(c), Token::Val(y)]),
        !(c == 'g' || c == 'G' || c == 'l' || c == 'L'),
    ensures
        expr_value(s) == Some(
            match spec_apply_op(c, x, y) {
                Some(r) => Ok::<i64, EvalError>(r),
                None => Err(EvalError::Undefined),
            },
        ),
{
    let body = seq![Token::Val(x), Token::Op(c), Token::Val(y)];
    let t = seq![Token::Paren('(')] + body + seq![Token::Paren(')')];
    assert(t =~= seq![Token::Paren('('), Token::Val(x), Token::Op(c), Token::Val(y), Token::Paren(')')]);
    assert(mark_step(t[0], t[1]) == Some(t[1]));
    assert(t.update(1, t[1]) =~= t);
    assert(mark_step(t[1], t[2]) == Some(t[2]));
    assert(t.update(2, t[2]) =~= t);
    assert(mark_step(t[2], t[3]) == Some(t[3]));
    assert(t.update(3, t[3]) =~= t);
    assert(mark_step(t[3], t[4]) == Some(t[4]));
    assert(t.update(4, t[4]) =~= t);
    assert(spec_mark(t, 4) == Some(t));
    assert(spec_mark(t, 3) == Some(t));
    assert(spec_mark(t, 2) == Some(t));
    assert(spec_mark(t, 1) == Some(t));
    assert(spec_mark(t, 0) == Some(t));
    assert(spec_marked(None, s) == Some(t));
    let e: Seq<(Token, usize)> = seq![];
    let open = seq![(Token::Paren('('), 1usize)];
    let o1 = seq![(Token::Val(x), 0usize)];
    let st2 = seq![(Token::Paren('('), 1usize), (Token::Op(c), 1usize)];
    let o2 = seq![(Token::Val(x), 0usize), (Token::Val(y), 0usize)];
    let o3 = seq![(Token::Val(x), 0usize), (Token::Val(y), 0usize), (Token::Op(c), 2usize)];
    assert(sort_step(t[0], e, e) == Some((e, open)));
    assert(e.push((Token::Val(x), 0usize)) =~= o1);
    assert(sort_step(t[1], e, open) == Some((o1, open)));
    assert(pop_for(o1, open, c) == (o1, open));
    assert(open.push((Token::Op(c), 1usize)) =~= st2);
    assert(sort_step(t[2], o1, open) == Some((o1, st2)));
    assert(o1.push((Token::Val(y), 0usize)) =~= o2);
    assert(sort_step(t[3], o1, st2) == Some((o2, st2)));
    assert(expand(Token::Op(c), 2usize) == seq![(Token::Op(c), 2usize)]);
    assert(o2 + seq![(Token::Op(c), 2usize)] =~= o3);
    assert(st2.drop_last() =~= open);
    assert(open.drop_last() =~= e);
    assert(pop_until(o3, open, '(') == Some((o3, e)));
    assert(pop_until(o2, st2, '(') == Some((o3, e)));
    assert(sort_step(t[4], o2, st2) == Some((o3, e)));
    assert(sort_from(t, 5, o3, e) == Some(o3));
    assert(sort_from(t, 4, o2, st2) == Some(o3));
    assert(sort_from(t, 3, o1, st2) == Some(o3));
    assert(sort_from(t, 2, o1, open) == Some(o3));
    assert(sort_from(t, 1, e, open) == Some(o3));
    assert(sort_from(t, 0, e, e) == Some(o3));
    assert(spec_sorted(None, s) == Some(o3));
    let env = zero_env();
    let z: Seq<i64> = seq![];
    assert(z.push(x) =~= seq![x]);
    assert(seq![x].push(y) =~= seq![x, y]);
    assert(eval_step(o3[0], env, z) == Ok::<Seq<i64>, EvalError>(seq![x]));
    assert(eval_step(o3[1], env, seq![x]) == Ok::<Seq<i64>, EvalError>(seq![x, y]));
    assert(seq![x, y].drop_last() =~= seq![x]);
    match spec_apply_op(c, x, y) {
        Some(r) => {
            assert(seq![x].update(0, r) =~= seq![r]);
            assert(eval_step(o3[2], env, seq![x, y]) == Ok::<Seq<i64>, EvalError>(seq![r]));
            assert(eval_from(o3, 3, env, seq![r]) == Ok::<Seq<i64>, EvalError>(seq![r]));
            assert(eval_from(o3, 2, env, seq![x, y]) == Ok::<Seq<i64>, EvalError>(seq![r]));
        },
        None => {
            assert(eval_step(o3[2], env, seq![x, y]) == Err::<Seq<i64>, EvalError>(EvalError::Undefined));
            assert(eval_from(o3, 2, env, seq![x, y]) == Err::<Seq<i64>, EvalError>(EvalError::Undefined));
        },
    }
    assert(eval_from(o3, 1, env, seq![x]) == eval_from(o3, 2, env, seq![x, y]));
    assert(eval_from(o3, 0, env, z) == eval_from(o3, 2, env, seq![x, y]));
}

/// `x | y` for two decimal literals is the bitwise or of the two numbers:
/// `6 | 3` is 7.
pub proof fn lemma_or_value(dx: Seq<char>, dy: Seq<char>)
    requires
        decimal(dx),
        decimal(dy),
    ensures
        expr_value(binary_text(dx, '|', dy)) == Some(
            Ok::<i64, EvalError>((numeral(dx, 10) as i64) | (numeral(dy, 10) as i64)),
        ),
{
    lemma_binary_value(dx, '|', dy);
    lemma_or_bits(numeral(dx, 10) as i64, numeral(dy, 10) as i64, 0);
}

/// Digits that are all digits run to the end of the text.
proof fn lemma_end_of_digits(s: Seq<char>, i: int)
    requires
        0 <= i <= s.len(),
        forall|k: int| i <= k < s.len() ==> spec_parse_char(#[trigger] s[k]) is Some,
    ensures
        digit_run_end(s, i) == s.len(),
    decreases s.len() - i,
{
    if i < s.len() {
        lemma_end_of_digits(s, i + 1);
    }
}

} // verus!
