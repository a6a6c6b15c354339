use vstd::prelude::*;
use vstd::wrapping::i64_specs;

use super::{EvalError, Token, VarAttr};

verus! {

/// Value of a hexadecimal digit (either case); `None` for any other character.
pub open spec fn spec_parse_char(c: char) -> Option<i64> {
    if '0' <= c <= '9' {
        Some(((c as int) - ('0' as int)) as i64)
    } else if 'a' <= c <= 'f' {
        Some(((c as int) - ('a' as int) + 10) as i64)
    } else if 'A' <= c <= 'F' {
        Some(((c as int) - ('A' as int) + 10) as i64)
    } else {
        None
    }
}

pub fn parse_char(c: char) -> (r: Option<i64>)
    ensures
        r == spec_parse_char(c),
{
    if '0' <= c && c <= '9' {
        return Some((c as i64) - ('0' as i64));
    }
    if 'a' <= c && c <= 'f' {
        return Some((c as i64) - ('a' as i64) + 10);
    }
    if 'A' <= c && c <= 'F' {
        return Some((c as i64) - ('A' as i64) + 10);
    }
    None
}

/// Character at `i`, or `'\n'` past the end (the look-ahead of the scanner).
pub open spec fn peek(s: Seq<char>, i: int) -> char {
    if 0 <= i < s.len() {
        s[i]
    } else {
        '\n'
    }
}

/// Operator starting with `first`, the rest of the input starting at `i`;
/// gives the token and the position after it. `<<`, `>>` are shifts,
/// `>`, `>=`, `<`, `<=` comparisons (`g`, `G`, `l`, `L`), `**` the power
/// operator `@`. A `<`, `>` or `*` at the very end of the input is refused.
pub open spec fn spec_parse_op(first: char, s: Seq<char>, i: int) -> Option<(Token, int)> {
    if first == '<' || first == '>' {
        if i >= s.len() {
            None
        } else if s[i] != first {
            if s[i] == '=' {
                Some((Token::Op(if first == '>' { 'G' } else { 'L' }), i + 1))
            } else {
                Some((Token::Op(if first == '>' { 'g' } else { 'l' }), i))
            }
        } else {
            Some((Token::Op(first), i + 1))
        }
    } else if first == '*' {
        if i >= s.len() {
            None
        } else if s[i] == '*' {
            Some((Token::Op('@'), i + 1))
        } else {
            Some((Token::Op('*'), i))
        }
    } else {
        Some((Token::Op(first), i))
    }
}

pub fn parse_op(first: char, s: &[char], i: usize) -> (r: Option<(Token, usize)>)
    requires
        i <= s@.len(),
    ensures
        r matches Some((t, j)) ==> spec_parse_op(first, s@, i as int) == Some((t, j as int)),
        r is None ==> spec_parse_op(first, s@, i as int) is None,
{
    if first == '<' || first == '>' {
        if i >= s.len() {
            return None;
        }
        let next = s[i];
        if first != next {
            if next == '=' {
                return Some(
                    (
                        Token::Op(
                            if first == '>' {
                                'G'
                            } else {
                                'L'
                            },
                        ),
                        i + 1,
                    ),
                );
            }
            return Some(
                (
                    Token::Op(
                        if first == '>' {
                            'g'
                        } else {
                            'l'
                        },
                    ),
                    i,
                ),
            );
        }
        return Some((Token::Op(first), i + 1));
    }
    if first == '*' {
        if i >= s.len() {
            return None;
        }
        if s[i] == '*' {
            return Some((Token::Op('@'), i + 1));
        }
    }
    Some((Token::Op(first), i))
}

/// `base` to the power `n` (plain integers).
pub open spec fn ipow(base: int, n: nat) -> int
    decreases n,
{
    if n == 0 {
        1
    } else {
        base * ipow(base, (n - 1) as nat)
    }
}

/// Scale of a unit suffix whose letter stands at `i`: `1000^n`, or `1024^n`
/// when an `i` follows the letter; gives the scale and the position after the suffix.
pub open spec fn spec_parse_prefix(n: nat, s: Seq<char>, i: int) -> (i64, int) {
    if peek(s, i + 1) == 'i' && i + 1 < s.len() {
        (ipow(1024, n) as i64, i + 2)
    } else {
        (ipow(1000, n) as i64, i + 1)
    }
}

fn parse_prefix(n: u32, s: &[char], i: usize) -> (r: (i64, usize))
    requires
        1 <= n <= 5,
        i < s@.len(),
    ensures
        (r.0, r.1 as int) == spec_parse_prefix(n as nat, s@, i as int),
{
    let len = s.len();
    let mut base: i64 = 1000;
    let mut j = i + 1;
    if j < s.len() && s[j] == 'i' {
        j = j + 1;
        base = 1024;
    }
    let mut acc: i64 = 1;
    let mut k: u32 = 0;
    proof {
        reveal_with_fuel(ipow, 6);
    }
    assert(ipow(1024, 4) == 1099511627776);
    while k < n
        invariant
            k <= n <= 5,
            ipow(1024, 4) == 1099511627776,
            base == 1000 || base == 1024,
            acc == ipow(base as int, k as nat),
        decreases n - k,
    {
        proof {
            lemma_ipow_mono(base as int, k as nat, 4);
            assert(ipow(base as int, 4) <= ipow(1024, 4)) by {
                lemma_ipow_base_mono(base as int, 1024, 4);
            }
        }
        acc = acc * base;
        k = k + 1;
    }
    (acc, j)
}

/// Powers of a base of at least 1 grow with the exponent.
pub(crate) proof fn lemma_ipow_mono(base: int, k: nat, m: nat)
    requires
        base >= 1,
        k <= m,
    ensures
        1 <= ipow(base, k) <= ipow(base, m),
    decreases m,
{
    if k < m {
        lemma_ipow_mono(base, k, (m - 1) as nat);
        assert(ipow(base, (m - 1) as nat) <= base * ipow(base, (m - 1) as nat)) by (nonlinear_arith)
            requires
                base >= 1,
                ipow(base, (m - 1) as nat) >= 1,
        ;
    } else if m > 0 {
        lemma_ipow_mono(base, 0, (m - 1) as nat);
        assert(1 <= base * ipow(base, (m - 1) as nat)) by (nonlinear_arith)
            requires
                base >= 1,
                ipow(base, (m - 1) as nat) >= 1,
        ;
    }
}

/// Powers grow with the base.
proof fn lemma_ipow_base_mono(a: int, b: int, n: nat)
    requires
        1 <= a <= b,
    ensures
        ipow(a, n) <= ipow(b, n),
    decreases n,
{
    if n > 0 {
        lemma_ipow_base_mono(a, b, (n - 1) as nat);
        lemma_ipow_mono(a, 0, (n - 1) as nat);
        assert(a * ipow(a, (n - 1) as nat) <= b * ipow(b, (n - 1) as nat)) by (nonlinear_arith)
            requires
                1 <= a <= b,
                1 <= ipow(a, (n - 1) as nat) <= ipow(b, (n - 1) as nat),
        ;
    }
}

/// End of the run of hexadecimal digits that starts at `i`.
pub open spec fn digit_run_end(s: Seq<char>, i: int) -> int
    decreases s.len() - i,
{
    if i >= s.len() || i < 0 || spec_parse_char(s[i]) is None {
        i
    } else {
        digit_run_end(s, i + 1)
    }
}

/// Whether every digit in `s[i..j)` is a digit of the base.
pub open spec fn digits_in_base(s: Seq<char>, i: int, j: int, base: i64) -> bool {
    forall|k: int| i <= k < j ==> spec_parse_char(s[k]).unwrap() < base
}

/// Value of the digits `s[i..j)` appended to `acc` in the given base
/// (64-bit wrapping arithmetic).
pub open spec fn digits_value(s: Seq<char>, i: int, j: int, base: i64, acc: i64) -> i64
    decreases j - i,
{
    if i >= j {
        acc
    } else {
        digits_value(
            s,
            i + 1,
            j,
            base,
            i64_specs::wrapping_add(
                i64_specs::wrapping_mul(acc, base),
                spec_parse_char(s[i]).unwrap(),
            ),
        )
    }
}

/// Radix prefix after a leading `0`: `0b`, `0o`, `0d`, `0x` (either case);
/// gives the base and the position of the first digit.
pub open spec fn spec_radix(first: char, s: Seq<char>, i: int) -> (i64, int) {
    if first != '0' || i >= s.len() {
        (10, i - 1)
    } else if s[i] == 'b' || s[i] == 'B' {
        (2, i + 1)
    } else if s[i] == 'o' || s[i] == 'O' {
        (8, i + 1)
    } else if s[i] == 'd' || s[i] == 'D' {
        (10, i + 1)
    } else if s[i] == 'x' || s[i] == 'X' {
        (16, i + 1)
    } else {
        (10, i - 1)
    }
}

/// Unit suffix (`k`, `m`, `g`, `t`, `e`, either case) at `i`, as its exponent.
pub open spec fn suffix_exp(c: char) -> nat {
    if c == 'k' || c == 'K' {
        1
    } else if c == 'm' || c == 'M' {
        2
    } else if c == 'g' || c == 'G' {
        3
    } else if c == 't' || c == 'T' {
        4
    } else if c == 'e' || c == 'E' {
        5
    } else {
        0
    }
}

/// Number literal whose first character `first` stood at `i - 1`: an
/// optional radix prefix, a digit, more digits of the base, and an optional
/// unit suffix. The first digit after the prefix is any hexadecimal digit;
/// a later digit outside the base makes the literal invalid.
pub open spec fn spec_parse_val(first: char, s: Seq<char>, i: int) -> Option<(Token, int)> {
    let (base, d) = spec_radix(first, s, i);
    let f = if d == i - 1 { first } else { peek(s, d) };
    if d >= s.len() || spec_parse_char(f) is None {
        None
    } else {
        let e = digit_run_end(s, d + 1);
        if !digits_in_base(s, d + 1, e, base) {
            None
        } else {
            let val = digits_value(s, d + 1, e, base, spec_parse_char(f).unwrap());
            let n = if e < s.len() { suffix_exp(s[e]) } else { 0 };
            if n == 0 {
                Some((Token::Val(val), e))
            } else {
                let (scale, j) = spec_parse_prefix(n, s, e);
                Some((Token::Val(i64_specs::wrapping_mul(val, scale)), j))
            }
        }
    }
}

pub(crate) proof fn lemma_digit_run_end(s: Seq<char>, i: int)
    requires
        0 <= i <= s.len(),
    ensures
        i <= digit_run_end(s, i) <= s.len(),
        forall|k: int| i <= k < digit_run_end(s, i) ==> spec_parse_char(#[trigger] s[k]) is Some,
        digit_run_end(s, i) < s.len() ==> spec_parse_char(s[digit_run_end(s, i)]) is None,
    decreases s.len() - i,
{
    if i < s.len() && spec_parse_char(s[i]) is Some {
        lemma_digit_run_end(s, i + 1);
    }
}

pub(crate) proof fn lemma_digits_value_step(s: Seq<char>, i: int, j: int, base: i64, acc: i64)
    requires
        i <= j,
        j < s.len(),
        spec_parse_char(s[j]) is Some,
    ensures
        digits_value(s, i, j + 1, base, acc) == i64_specs::wrapping_add(
            i64_specs::wrapping_mul(digits_value(s, i, j, base, acc), base),
            spec_parse_char(s[j]).unwrap(),
        ),
    decreases j - i,
{
    if i == j {
        let acc2 = i64_specs::wrapping_add(
            i64_specs::wrapping_mul(acc, base),
            spec_parse_char(s[i]).unwrap(),
        );
        assert(digits_value(s, i + 1, j + 1, base, acc2) == acc2);
    } else {
        lemma_digits_value_step(
            s,
            i + 1,
            j,
            base,
            i64_specs::wrapping_add(
                i64_specs::wrapping_mul(acc, base),
                spec_parse_char(s[i]).unwrap(),
            ),
        );
    }
}

pub fn parse_val(first: char, s: &[char], i: usize) -> (r: Option<(Token, usize)>)
    requires
        1 <= i <= s@.len(),
        s@[i - 1] == first,
    ensures
        r matches Some((t, j)) ==> spec_parse_val(first, s@, i as int) == Some((t, j as int)),
        r is None ==> spec_parse_val(first, s@, i as int) is None,
{
    let mut base: i64 = 10;
    let mut d: usize = i - 1;
    if first == '0' && i < s.len() {
        let c = s[i];
        if c == 'b' || c == 'B' {
            base = 2;
            d = i + 1;
        } else if c == 'o' || c == 'O' {
            base = 8;
            d = i + 1;
        } else if c == 'd' || c == 'D' {
            base = 10;
            d = i + 1;
        } else if c == 'x' || c == 'X' {
            base = 16;
            d = i + 1;
        }
    }
    assert((base, d as int) == spec_radix(first, s@, i as int));
    if d >= s.len() {
        return None;
    }
    let f = if d == i - 1 {
        first
    } else {
        s[d]
    };
    let mut val = match parse_char(f) {
        Some(v) => v,
        None => {
            return None;
        },
    };
    let mut j = d + 1;
    proof {
        lemma_digit_run_end(s@, (d + 1) as int);
    }
    while j < s.len() && is_hex_digit(s[j])
        invariant
            1 <= i <= s@.len(),
            (base, d as int) == spec_radix(first, s@, i as int),
            d < s@.len(),
            f == (if d == i - 1 {
                first
            } else {
                s@[d as int]
            }),
            spec_parse_char(f) is Some,
            d + 1 <= j <= digit_run_end(s@, (d + 1) as int),
            digit_run_end(s@, (d + 1) as int) <= s@.len(),
            forall|k: int|
                (d + 1) as int <= k < digit_run_end(s@, (d + 1) as int) ==> spec_parse_char(
                    #[trigger] s@[k],
                ) is Some,
            digit_run_end(s@, (d + 1) as int) < s@.len() ==> spec_parse_char(
                s@[digit_run_end(s@, (d + 1) as int)],
            ) is None,
            digits_in_base(s@, (d + 1) as int, j as int, base),
            val == digits_value(s@, (d + 1) as int, j as int, base, spec_parse_char(f).unwrap()),
        decreases s@.len() - j,
    {
        let digit = parse_char(s[j]).unwrap();
        if digit >= base {
            assert(j < digit_run_end(s@, (d + 1) as int));
            assert(spec_parse_char(s@[j as int]).unwrap() >= base);
            assert(!digits_in_base(s@, (d + 1) as int, digit_run_end(s@, (d + 1) as int), base));
            return None;
        }
        proof {
            lemma_digits_value_step(s@, (d + 1) as int, j as int, base, spec_parse_char(f).unwrap());
        }
        val = val.wrapping_mul(base).wrapping_add(digit);
        j = j + 1;
    }
    assert(j == digit_run_end(s@, (d + 1) as int));
    let n: u32 = if j < s.len() {
        let c = s[j];
        if c == 'k' || c == 'K' {
            1
        } else if c == 'm' || c == 'M' {
            2
        } else if c == 'g' || c == 'G' {
            3
        } else if c == 't' || c == 'T' {
            4
        } else if c == 'e' || c == 'E' {
            5
        } else {
            0
        }
    } else {
        0
    };
    if n == 0 {
        return Some((Token::Val(val), j));
    }
    let (scale, k) = parse_prefix(n, s, j);
    Some((Token::Val(val.wrapping_mul(scale)), k))
}

fn is_hex_digit(c: char) -> (r: bool)
    ensures
        r == (spec_parse_char(c) is Some),
{
    parse_char(c).is_some()
}

/// Characters that may continue a variable name.
pub open spec fn is_name_char(c: char) -> bool {
    ('a' <= c <= 'z') || ('A' <= c <= 'Z') || ('0' <= c <= '9')
}

/// End of the variable name that continues at `i`.
pub open spec fn name_end(s: Seq<char>, i: int) -> int
    decreases s.len() - i,
{
    if i >= s.len() || i < 0 || !is_name_char(s[i]) {
        i
    } else {
        name_end(s, i + 1)
    }
}

/// The bytes of a name made of ASCII characters.
pub open spec fn name_bytes(s: Seq<char>) -> Seq<u8> {
    s.map_values(|c: char| c as u8)
}

/// Attribute bound to `name`: the first entry of the table with that name.
pub open spec fn lookup(vars: Seq<(Seq<u8>, VarAttr)>, name: Seq<u8>) -> Option<VarAttr>
    decreases vars.len(),
{
    if vars.len() == 0 {
        None
    } else if vars[0].0 == name {
        Some(vars[0].1)
    } else {
        lookup(vars.drop_first(), name)
    }
}

/// The table of variables viewed as name bytes and attributes.
pub open spec fn vars_view(vars: &[(&[u8], VarAttr)]) -> Seq<(Seq<u8>, VarAttr)> {
    vars@.map_values(|e: (&[u8], VarAttr)| (e.0@, e.1))
}

/// Variable whose first character stood at `i - 1`: the longest run of
/// letters and digits, looked up in the table; array variables give `VarArr`.
pub open spec fn spec_parse_var(
    vars: Option<Seq<(Seq<u8>, VarAttr)>>,
    s: Seq<char>,
    i: int,
) -> Option<(Token, int)> {
    let e = name_end(s, i);
    match vars {
        None => None,
        Some(vars) => match lookup(vars, name_bytes(s.subrange(i - 1, e))) {
            None => None,
            Some(attr) => if attr.is_array {
                Some((Token::VarArr(attr.id), e))
            } else {
                Some((Token::Var(attr.id, 1), e))
            },
        },
    }
}

proof fn lemma_name_end(s: Seq<char>, i: int)
    requires
        0 <= i <= s.len(),
    ensures
        i <= name_end(s, i) <= s.len(),
        forall|k: int| i <= k < name_end(s, i) ==> is_name_char(#[trigger] s[k]),
        name_end(s, i) < s.len() ==> !is_name_char(s[name_end(s, i)]),
    decreases s.len() - i,
{
    if i < s.len() && is_name_char(s[i]) {
        lemma_name_end(s, i + 1);
    }
}

fn bytes_eq(a: &[u8], b: &[u8]) -> (r: bool)
    ensures
        r == (a@ == b@),
{
    if a.len() != b.len() {
        return false;
    }
    let mut i: usize = 0;
    while i < a.len()
        invariant
            a@.len() == b@.len(),
            i <= a@.len(),
            forall|k: int| 0 <= k < i ==> a@[k] == b@[k],
        decreases a@.len() - i,
    {
        if a[i] != b[i] {
            return false;
        }
        i = i + 1;
    }
    assert(a@ =~= b@);
    true
}

/// Looks `name` up in the variable table.
pub fn lookup_var(vars: &[(&[u8], VarAttr)], name: &[u8]) -> (r: Option<VarAttr>)
    ensures
        r == lookup(vars_view(vars), name@),
{
    let mut i: usize = 0;
    assert(vars_view(vars).skip(0) =~= vars_view(vars));
    while i < vars.len()
        invariant
            i <= vars@.len(),
            lookup(vars_view(vars), name@) == lookup(vars_view(vars).skip(i as int), name@),
        decreases vars@.len() - i,
    {
        let (n, attr) = vars[i];
        assert(vars_view(vars).skip(i as int)[0] == (n@, attr));
        assert(vars_view(vars).skip(i as int).drop_first() =~= vars_view(vars).skip(i + 1));
        if bytes_eq(n, name) {
            return Some(attr);
        }
        i = i + 1;
    }
    None
}

pub fn parse_var(first: char, vars: Option<&[(&[u8], VarAttr)]>, s: &[char], i: usize) -> (r:
    Option<(Token, usize)>)
    requires
        1 <= i <= s@.len(),
        s@[i - 1] == first,
    ensures
        r matches Some((t, j)) ==> spec_parse_var(
            match vars {
                Some(v) => Some(vars_view(v)),
                None => None,
            },
            s@,
            i as int,
        ) == Some((t, j as int)),
        r is None ==> spec_parse_var(
            match vars {
                Some(v) => Some(vars_view(v)),
                None => None,
            },
            s@,
            i as int,
        ) is None,
{
    let mut name: Vec<u8> = Vec::new();
    name.push(first as u8);
    assert(name@ =~= name_bytes(s@.subrange(i - 1, i as int)));
    let mut j = i;
    proof {
        lemma_name_end(s@, i as int);
    }
    let n = s.len();
    while j < n && is_name_char_exec(s[j])
        invariant
            n == s@.len(),
            1 <= i,
            i <= j <= name_end(s@, i as int),
            name_end(s@, i as int) <= s@.len(),
            name_end(s@, i as int) < s@.len() ==> !is_name_char(s@[name_end(s@, i as int)]),
            forall|k: int| i <= k < name_end(s@, i as int) ==> is_name_char(#[trigger] s@[k]),
            name@ == name_bytes(s@.subrange(i - 1, j as int)),
        decreases s@.len() - j,
    {
        name.push(s[j] as u8);
        let ghost lo = (i - 1) as int;
        let ghost hi = j as int;
        assert(0 <= lo <= hi < s@.len());
        assert(s@.subrange(lo, hi + 1) =~= s@.subrange(lo, hi).push(s@[hi]));
        assert(name_bytes(s@.subrange(lo, hi + 1)) =~= name_bytes(s@.subrange(lo, hi)).push(
            s@[hi] as u8,
        ));
        j = j + 1;
    }
    assert(j == name_end(s@, i as int));
    let vars = match vars {
        Some(v) => v,
        None => {
            return None;
        },
    };
    match lookup_var(vars, name.as_slice()) {
        None => None,
        Some(attr) => {
            if attr.is_array {
                Some((Token::VarArr(attr.id), j))
            } else {
                Some((Token::Var(attr.id, 1), j))
            }
        },
    }
}

fn is_name_char_exec(c: char) -> (r: bool)
    ensures
        r == is_name_char(c),
{
    ('a' <= c && c <= 'z') || ('A' <= c && c <= 'Z') || ('0' <= c && c <= '9')
}

} // verus!

verus! {

/// The variable table of `tokenize`, viewed as plain values.
pub open spec fn opt_vars_view(vars: Option<&[(&[u8], VarAttr)]>) -> Option<
    Seq<(Seq<u8>, VarAttr)>,
> {
    match vars {
        Some(v) => Some(vars_view(v)),
        None => None,
    }
}

/// Prepends the tokens `p` to a lexing result.
pub open spec fn prepend(p: Seq<Token>, r: Result<Seq<Token>, EvalError>) -> Result<
    Seq<Token>,
    EvalError,
> {
    match r {
        Ok(v) => Ok(p + v),
        Err(e) => Err(e),
    }
}

/// Characters that start an operator.
pub open spec fn is_op_char(c: char) -> bool {
    c == '+' || c == '-' || c == '~' || c == '!' || c == '*' || c == '/' || c == '%' || c == '&'
        || c == '|' || c == '^' || c == '<' || c == '>'
}

/// Continues the lexer at `j` after the token `t`.
pub open spec fn lex_after(
    vars: Option<Seq<(Seq<u8>, VarAttr)>>,
    s: Seq<char>,
    i: int,
    r: Option<(Token, int)>,
    e: EvalError,
) -> Result<Seq<Token>, EvalError>
    decreases s.len() - i, 0int,
{
    match r {
        None => Err(e),
        Some((t, j)) => if i < j <= s.len() {
            prepend(seq![t], spec_lex(vars, s, j))
        } else {
            Err(e)
        },
    }
}

/// Tokens of `s[i..]`: blanks are skipped, parentheses and brackets,
/// operators, number literals and variables become tokens; any other
/// character is refused.
pub open spec fn spec_lex(vars: Option<Seq<(Seq<u8>, VarAttr)>>, s: Seq<char>, i: int) -> Result<
    Seq<Token>,
    EvalError,
>
    decreases s.len() - i, 1int,
{
    if i < 0 || i >= s.len() {
        Ok(seq![])
    } else {
        let c = s[i];
        if c == ' ' || c == '\t' || c == '\n' || c == '\r' {
            spec_lex(vars, s, i + 1)
        } else if c == '(' || c == ')' || c == '[' || c == ']' {
            prepend(seq![Token::Paren(c)], spec_lex(vars, s, i + 1))
        } else if is_op_char(c) {
            lex_after(vars, s, i, spec_parse_op(c, s, i + 1), EvalError::BadOperator)
        } else if '0' <= c <= '9' {
            lex_after(vars, s, i, spec_parse_val(c, s, i + 1), EvalError::BadValue)
        } else if ('a' <= c <= 'z') || ('A' <= c <= 'Z') {
            lex_after(vars, s, i, spec_parse_var(vars, s, i + 1), EvalError::UnknownVariable)
        } else {
            Err(EvalError::UnexpectedChar)
        }
    }
}

proof fn lemma_prepend_assoc(a: Seq<Token>, b: Seq<Token>, r: Result<Seq<Token>, EvalError>)
    ensures
        prepend(a, prepend(b, r)) == prepend(a + b, r),
{
    match r {
        Ok(v) => {
            assert(a + (b + v) =~= (a + b) + v);
        },
        Err(_) => {},
    }
}

/// Splits `input` into tokens, wrapped in an outer pair of parentheses.
pub fn tokenize(input: &[char], vars: Option<&[(&[u8], VarAttr)]>) -> (r: Result<
    Vec<Token>,
    EvalError,
>)
    ensures
        r matches Ok(v) ==> spec_lex(opt_vars_view(vars), input@, 0) == Ok::<Seq<Token>, EvalError>(
            v@.subrange(1, v@.len() - 1),
        ) && v@.len() >= 2 && v@[0] == Token::Paren('(') && v@.last() == Token::Paren(')'),
        r matches Err(e) ==> spec_lex(opt_vars_view(vars), input@, 0) == Err::<
            Seq<Token>,
            EvalError,
        >(e),
{
    let ghost vv = opt_vars_view(vars);
    let mut tokens: Vec<Token> = Vec::new();
    tokens.push(Token::Paren('('));
    let n = input.len();
    let mut i: usize = 0;
    assert(prepend(seq![], spec_lex(vv, input@, 0)) == spec_lex(vv, input@, 0)) by {
        match spec_lex(vv, input@, 0) {
            Ok(v) => {
                assert(Seq::<Token>::empty() + v =~= v);
            },
            Err(_) => {},
        }
    }
    while i < n
        invariant
            n == input@.len(),
            i <= n,
            tokens@.len() >= 1,
            tokens@[0] == Token::Paren('('),
            spec_lex(vv, input@, 0) == prepend(tokens@.drop_first(), spec_lex(vv, input@, i as int)),
            vv == opt_vars_view(vars),
        decreases n - i,
    {
        let c = input[i];
        let ghost before = tokens@.drop_first();
        if c == ' ' || c == '\t' || c == '\n' || c == '\r' {
            i = i + 1;
        } else if c == '(' || c == ')' || c == '[' || c == ']' {
            tokens.push(Token::Paren(c));
            proof {
                lemma_prepend_assoc(before, seq![Token::Paren(c)], spec_lex(vv, input@, i + 1));
                assert(tokens@.drop_first() =~= before + seq![Token::Paren(c)]);
            }
            i = i + 1;
        } else {
            let ghost sres: Option<(Token, int)>;
            let (res, err) = if c == '+' || c == '-' || c == '~' || c == '!' || c == '*' || c == '/'
                || c == '%' || c == '&' || c == '|' || c == '^' || c == '<' || c == '>' {
                proof {
                    sres = spec_parse_op(c, input@, i + 1);
                }
                (parse_op(c, input, i + 1), EvalError::BadOperator)
            } else if '0' <= c && c <= '9' {
                proof {
                    sres = spec_parse_val(c, input@, i + 1);
                }
                (parse_val(c, input, i + 1), EvalError::BadValue)
            } else if ('a' <= c && c <= 'z') || ('A' <= c && c <= 'Z') {
                proof {
                    sres = spec_parse_var(vv, input@, i + 1);
                }
                (parse_var(c, vars, input, i + 1), EvalError::UnknownVariable)
            } else {
                return Err(EvalError::UnexpectedChar);
            };
            assert(spec_lex(vv, input@, i as int) == lex_after(vv, input@, i as int, sres, err));
            match res {
                None => {
                    assert(sres is None);
                    return Err(err);
                },
                Some((t, j)) => {
                    assert(sres == Some((t, j as int)));
                    if j <= i || j > n {
                        return Err(err);
                    }
                    tokens.push(t);
                    proof {
                        lemma_prepend_assoc(before, seq![t], spec_lex(vv, input@, j as int));
                        assert(tokens@.drop_first() =~= before + seq![t]);
                    }
                    i = j;
                },
            }
        }
    }
    let ghost body = tokens@.drop_first();
    assert(spec_lex(vv, input@, n as int) == Ok::<Seq<Token>, EvalError>(seq![]));
    assert(body + Seq::<Token>::empty() =~= body);
    tokens.push(Token::Paren(')'));
    assert(tokens@.drop_first().drop_last() =~= body);
    assert(tokens@.subrange(1, tokens@.len() - 1) =~= tokens@.drop_first().drop_last());
    assert(tokens@.drop_first().drop_last() + Seq::<Token>::empty() =~= tokens@.drop_first().drop_last());
    Ok(tokens)
}

/// Errors of the lexer are lexical errors only.
pub proof fn lemma_lex_errors(vars: Option<Seq<(Seq<u8>, VarAttr)>>, s: Seq<char>, i: int)
    ensures
        spec_lex(vars, s, i) matches Err(e) ==> (e == EvalError::UnexpectedChar || e
            == EvalError::BadOperator || e == EvalError::BadValue || e == EvalError::UnknownVariable),
    decreases s.len() - i,
{
    if 0 <= i < s.len() {
        lemma_lex_errors(vars, s, i + 1);
        let c = s[i];
        if is_op_char(c) || ('0' <= c <= '9') || ('a' <= c <= 'z') || ('A' <= c <= 'Z') {
            let (r, e2) = if is_op_char(c) {
                (spec_parse_op(c, s, i + 1), EvalError::BadOperator)
            } else if '0' <= c <= '9' {
                (spec_parse_val(c, s, i + 1), EvalError::BadValue)
            } else {
                (spec_parse_var(vars, s, i + 1), EvalError::UnknownVariable)
            };
            if !(c == ' ' || c == '\t' || c == '\n' || c == '\r' || c == '(' || c == ')' || c == '['
                || c == ']') {
                assert(spec_lex(vars, s, i) == lex_after(vars, s, i, r, e2));
            }
            match r {
                Some((t, j)) => {
                    if i < j <= s.len() {
                        lemma_lex_errors(vars, s, j);
                        assert(lex_after(vars, s, i, r, e2) == prepend(seq![t], spec_lex(vars, s, j)));
                    }
                },
                None => {},
            }
        }
    }
}

} // verus!
