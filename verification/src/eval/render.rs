use vstd::prelude::*;

use super::ops::{is_addsub, peel_sign_from_op};
use super::simplify::Node;
use super::Token;

verus! {

/// Decimal digit character of `d < 10`.
pub open spec fn digit_char(d: nat) -> char {
    (d + 48) as char
}

/// Decimal digits of `n` (no leading zeros; `0` for zero).
pub open spec fn nat_digits(n: nat) -> Seq<char>
    decreases n,
{
    if n < 10 {
        seq![digit_char(n)]
    } else {
        nat_digits(n / 10).push(digit_char(n % 10))
    }
}

/// Decimal representation of an integer, with a leading `-` when negative.
pub open spec fn int_repr(x: int) -> Seq<char> {
    if x < 0 {
        seq!['-'] + nat_digits((-x) as nat)
    } else {
        nat_digits(x as nat)
    }
}

fn push_nat(v: &mut Vec<char>, n: u64)
    ensures
        final(v)@ == old(v)@ + nat_digits(n as nat),
    decreases n,
{
    if n >= 10 {
        push_nat(v, n / 10);
    }
    let d = (n % 10) as u8;
    v.push((d + 48) as char);
    assert(final(v)@ =~= old(v)@ + nat_digits(n as nat));
}

/// Appends the decimal representation of `x`.
pub fn push_i64(v: &mut Vec<char>, x: i64)
    ensures
        final(v)@ == old(v)@ + int_repr(x as int),
{
    if x < 0 {
        v.push('-');
        let m = (0u64).wrapping_sub(x as u64);
        assert(m == -(x as int)) by (bit_vector)
            requires
                x < 0,
                m == (0u64).wrapping_sub(x as u64),
        ;
        push_nat(v, m);
        assert(final(v)@ =~= old(v)@ + int_repr(x as int));
    } else {
        push_nat(v, x as u64);
    }
}

/// Name bound to variable `id`: the first entry of the table with that id.
pub open spec fn name_of(names: Seq<(usize, Seq<u8>)>, id: usize) -> Seq<u8>
    decreases names.len(),
{
    if names.len() == 0 {
        seq![]
    } else if names[0].0 == id {
        names[0].1
    } else {
        name_of(names.drop_first(), id)
    }
}

/// The table of names viewed as plain values.
pub open spec fn names_view(names: &[(usize, &[u8])]) -> Seq<(usize, Seq<u8>)> {
    names@.map_values(|e: (usize, &[u8])| (e.0, e.1@))
}

/// Characters of an ASCII name.
pub open spec fn name_chars(b: Seq<u8>) -> Seq<char> {
    b.map_values(|c: u8| c as char)
}

/// Text of a reverse-Polish expression in infix form, fully parenthesised:
/// a prefix operator precedes its parenthesised operand, a binary operator
/// stands between its operands (a negated additive operator as a sign
/// before the parentheses), a variable shows its coefficient and, for an
/// array element, its index expression.
pub open spec fn render(t: Seq<Node>, names: Seq<(usize, Seq<u8>)>) -> Seq<char>
    decreases t.len(),
{
    if t.len() == 0 {
        seq![]
    } else {
        let root = t.len() - 1;
        let lhs = t[root].1 as int;
        match t[root].0 {
            Token::Val(val) => int_repr(val as int),
            Token::Prefix(op) => if 1 <= lhs <= root {
                seq![op, '('] + render(t.subrange(0, root - lhs + 1), names) + seq![')']
            } else {
                seq![]
            },
            Token::Op(op) => if 1 <= lhs <= root {
                let (s, o) = if is_addsub(op) {
                    peel_sign_from_op(op)
                } else {
                    ('+', op)
                };
                (if s != '+' {
                    seq![s]
                } else {
                    seq![]
                }) + seq!['('] + render(t.subrange(0, root - lhs + 1), names) + seq![' ', o, ' ']
                    + render(t.subrange(root - lhs + 1, root), names) + seq![')']
            } else {
                seq![]
            },
            Token::Var(id, c) => {
                (if c != 1 {
                    int_repr(c as int) + seq![' ', '*', ' ']
                } else {
                    seq![]
                }) + (if lhs != 0 && lhs <= root {
                    render(t.subrange(0, root - lhs + 1), names) + seq![' ', '*', ' ']
                } else {
                    seq![]
                }) + name_chars(name_of(names, id))
            },
            _ => seq![],
        }
    }
}

fn lookup_name<'a>(names: &[(usize, &'a [u8])], id: usize) -> (r: &'a [u8])
    ensures
        r@ == name_of(names_view(names), id),
{
    let mut i: usize = 0;
    assert(names_view(names).skip(0) =~= names_view(names));
    while i < names.len()
        invariant
            i <= names@.len(),
            name_of(names_view(names), id) == name_of(names_view(names).skip(i as int), id),
        decreases names@.len() - i,
    {
        let (k, n) = names[i];
        assert(names_view(names).skip(i as int)[0] == (k, n@));
        assert(names_view(names).skip(i as int).drop_first() =~= names_view(names).skip(i + 1));
        if k == id {
            return n;
        }
        i = i + 1;
    }
    let e: &[u8] = &[];
    assert(e@ =~= Seq::<u8>::empty());
    e
}

fn push_str(v: &mut Vec<char>, s: &[char])
    ensures
        final(v)@ == old(v)@ + s@,
{
    let mut i: usize = 0;
    while i < s.len()
        invariant
            i <= s@.len(),
            v@ == old(v)@ + s@.subrange(0, i as int),
        decreases s@.len() - i,
    {
        v.push(s[i]);
        assert(s@.subrange(0, i + 1) =~= s@.subrange(0, i as int).push(s@[i as int]));
        assert(v@ =~= old(v)@ + s@.subrange(0, i + 1));
        i = i + 1;
    }
    assert(s@.subrange(0, s@.len() as int) =~= s@);
}

fn push_name(v: &mut Vec<char>, s: &[u8])
    ensures
        final(v)@ == old(v)@ + name_chars(s@),
{
    let mut i: usize = 0;
    while i < s.len()
        invariant
            i <= s@.len(),
            v@ == old(v)@ + name_chars(s@.subrange(0, i as int)),
        decreases s@.len() - i,
    {
        v.push(s[i] as char);
        assert(name_chars(s@.subrange(0, i + 1)) =~= name_chars(s@.subrange(0, i as int)).push(
            s@[i as int] as char,
        ));
        assert(v@ =~= old(v)@ + name_chars(s@.subrange(0, i + 1)));
        i = i + 1;
    }
    assert(s@.subrange(0, s@.len() as int) =~= s@);
}

/// Appends the infix text of the reverse-Polish expression `tokens[b..b + n)`.
#[verifier::rlimit(40)]
pub fn render_into(tokens: &[Node], b: usize, n: usize, names: &[(usize, &[u8])], v: &mut Vec<char>)
    requires
        b + n <= tokens@.len(),
    ensures
        final(v)@ == old(v)@ + render(tokens@.subrange(b as int, b + n), names_view(names)),
    decreases n,
{
    let ghost t = tokens@.subrange(b as int, b + n);
    let ghost nv = names_view(names);
    let ghost o = v@;
    let _len = tokens.len();
    if n == 0 {
        assert(v@ =~= o + render(t, nv));
        return;
    }
    let root = n - 1;
    let (tok, lhs) = tokens[b + root];
    assert(t[root as int] == (tok, lhs));
    match tok {
        Token::Val(val) => {
            push_i64(v, val);
            assert(render(t, nv) == int_repr(val as int));
        },
        Token::Prefix(op) => {
            if 1 <= lhs && lhs <= root {
                let ghost left = t.subrange(0, root - lhs + 1);
                assert(left =~= tokens@.subrange(b as int, b + root - lhs + 1));
                v.push(op);
                v.push('(');
                render_into(tokens, b, root - lhs + 1, names, v);
                v.push(')');
                assert(render(t, nv) == seq![op, '('] + render(left, nv) + seq![')']);
                assert(v@ =~= o + (seq![op, '('] + render(left, nv) + seq![')']));
            } else {
                assert(render(t, nv) == Seq::<char>::empty());
                assert(v@ =~= o + render(t, nv));
            }
        },
        Token::Op(op) => {
            if 1 <= lhs && lhs <= root {
                let ghost left = t.subrange(0, root - lhs + 1);
                let ghost right = t.subrange(root - lhs + 1, root as int);
                assert(left =~= tokens@.subrange(b as int, b + root - lhs + 1));
                assert(right =~= tokens@.subrange(b + root - lhs + 1, b + root - lhs + 1 + lhs - 1));
                let (s, o2) = if is_addsub(op) {
                    peel_sign_from_op(op)
                } else {
                    ('+', op)
                };
                let ghost head: Seq<char> = if s != '+' {
                    seq![s]
                } else {
                    seq![]
                };
                if s != '+' {
                    v.push(s);
                }
                assert(v@ =~= o + head);
                v.push('(');
                render_into(tokens, b, root - lhs + 1, names, v);
                let ghost mid = v@;
                v.push(' ');
                v.push(o2);
                v.push(' ');
                render_into(tokens, b + root - lhs + 1, lhs - 1, names, v);
                v.push(')');
                assert(render(t, nv) == head + seq!['('] + render(left, nv) + seq![' ', o2, ' ']
                    + render(right, nv) + seq![')']);
                assert(v@ =~= o + (head + seq!['('] + render(left, nv) + seq![' ', o2, ' ']
                    + render(right, nv) + seq![')']));
            } else {
                assert(render(t, nv) == Seq::<char>::empty());
                assert(v@ =~= o + render(t, nv));
            }
        },
        Token::Var(id, c) => {
            let ghost p1: Seq<char> = if c != 1 {
                int_repr(c as int) + seq![' ', '*', ' ']
            } else {
                seq![]
            };
            if c != 1 {
                push_i64(v, c);
                v.push(' ');
                v.push('*');
                v.push(' ');
            }
            assert(v@ =~= o + p1);
            let ghost o1 = v@;
            let ghost p2: Seq<char> = if lhs != 0 && lhs <= root {
                render(t.subrange(0, root - lhs + 1), nv) + seq![' ', '*', ' ']
            } else {
                seq![]
            };
            if lhs != 0 && lhs <= root {
                assert(t.subrange(0, root - lhs + 1) =~= tokens@.subrange(b as int, b + root - lhs + 1));
                render_into(tokens, b, root - lhs + 1, names, v);
                v.push(' ');
                v.push('*');
                v.push(' ');
            }
            assert(v@ =~= o1 + p2);
            let name = lookup_name(names, id);
            push_name(v, name);
            assert(render(t, nv) == p1 + p2 + name_chars(name_of(nv, id)));
            assert(v@ =~= o + (p1 + p2 + name_chars(name_of(nv, id))));
        },
        _ => {
            assert(render(t, nv) == Seq::<char>::empty());
            assert(v@ =~= o + render(t, nv));
        },
    }
}

} // verus!
