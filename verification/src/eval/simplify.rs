use vstd::prelude::*;
use vstd::wrapping::i64_specs;

use super::ops::{
    apply_op,
    apply_prefix,
    fuse_sign2,
    fuse_sign2_op,
    fuse_sign3,
    fuse_sign_op,
    gather_sign2,
    is_addsub,
    is_comm_1,
    is_comm_2,
    is_sign,
    spec_apply_op,
    spec_apply_prefix,
    peel_rhs_sign_from_op,
    peel_sign_from_op,
    swap_op_hands,
    wneg,
};
use super::Token;

verus! {

/// A node of the reverse-Polish form: the token and the distance to the
/// root of its left operand.
pub type Node = (Token, usize);

/// `new` differs from `old` at most inside the window `[b, b + n)`.
pub open spec fn frame(old: Seq<Node>, new: Seq<Node>, b: int, n: int) -> bool {
    &&& new.len() == old.len()
    &&& forall|k: int| 0 <= k < old.len() && !(b <= k < b + n) ==> new[k] == old[k]
}

/// Node arrays are kept far below the address-space limit.
pub open spec fn small(v: Seq<Node>) -> bool {
    v.len() <= 0x4000_0000
}

/// `old` with its window `[lo, hi)` rotated left by `k`.
pub open spec fn rotated(old: Seq<Node>, lo: int, hi: int, k: int) -> Seq<Node> {
    old.subrange(0, lo) + old.subrange(lo + k, hi) + old.subrange(lo, lo + k) + old.subrange(
        hi,
        old.len() as int,
    )
}

/// Rotates the window `[lo, hi)` left by `k` positions.
pub fn rotate_window(v: &mut Vec<Node>, lo: usize, hi: usize, k: usize)
    requires
        lo <= hi <= old(v)@.len(),
        small(old(v)@),
        k <= hi - lo,
    ensures
        final(v)@ == rotated(old(v)@, lo as int, hi as int, k as int),
{
    let ghost o = v@;
    let mut tmp: Vec<Node> = Vec::new();
    let mut i = lo;
    while i < hi
        invariant
            lo <= i <= hi <= v@.len(),
            small(o),
            v@ == o,
            tmp@ == o.subrange(lo as int, i as int),
        decreases hi - i,
    {
        tmp.push(v[i]);
        assert(tmp@ =~= o.subrange(lo as int, i + 1));
        i = i + 1;
    }
    let len = hi - lo;
    let mut j: usize = 0;
    while j < len
        invariant
            len == hi - lo,
            lo <= hi <= o.len(),
            small(o),
            k <= len,
            tmp@ == o.subrange(lo as int, hi as int),
            tmp@.len() == len,
            v@.len() == o.len(),
            j <= len,
            forall|m: int| 0 <= m < o.len() && !(lo <= m < lo + j) ==> v@[m] == o[m],
            forall|m: int|
                lo <= m < lo + j ==> v@[m] == o[lo + (if m - lo + k < len {
                    m - lo + k
                } else {
                    m - lo + k - len
                })],
        decreases len - j,
    {
        let src = if j + k < len {
            j + k
        } else {
            j + k - len
        };
        v.set(lo + j, tmp[src]);
        j = j + 1;
    }
    assert(v@ =~= rotated(o, lo as int, hi as int, k as int)) by {
        assert forall|m: int| 0 <= m < o.len() implies v@[m] == rotated(
            o,
            lo as int,
            hi as int,
            k as int,
        )[m] by {

        }
    }
}

/// `old` with its window `[lo, hi)` copied onto `[dst, dst + (hi - lo))`.
pub closed spec fn copied(old: Seq<Node>, lo: int, hi: int, dst: int) -> Seq<Node> {
    Seq::new(
        old.len(),
        |m: int|
            if dst <= m < dst + (hi - lo) {
                old[lo + (m - dst)]
            } else {
                old[m]
            },
    )
}

/// Copies `[lo, hi)` onto `[dst, dst + (hi - lo))`.
pub fn copy_window(v: &mut Vec<Node>, lo: usize, hi: usize, dst: usize)
    requires
        lo <= hi <= old(v)@.len(),
        small(old(v)@),
        dst + (hi - lo) <= old(v)@.len(),
    ensures
        final(v)@.len() == old(v)@.len(),
        forall|m: int|
            0 <= m < old(v)@.len() && !(dst <= m < dst + (hi - lo)) ==> final(v)@[m] == old(v)@[m],
        forall|m: int| dst <= m < dst + (hi - lo) ==> final(v)@[m] == old(v)@[lo + (m - dst)],
        final(v)@ == copied(old(v)@, lo as int, hi as int, dst as int),
{
    let ghost o = v@;
    let mut tmp: Vec<Node> = Vec::new();
    let mut i = lo;
    while i < hi
        invariant
            lo <= i <= hi <= v@.len(),
            small(o),
            v@ == o,
            tmp@ == o.subrange(lo as int, i as int),
        decreases hi - i,
    {
        tmp.push(v[i]);
        assert(tmp@ =~= o.subrange(lo as int, i + 1));
        i = i + 1;
    }
    let len = hi - lo;
    let mut j: usize = 0;
    while j < len
        invariant
            len == hi - lo,
            lo <= hi <= o.len(),
            dst + len <= o.len(),
            small(o),
            tmp@ == o.subrange(lo as int, hi as int),
            tmp@.len() == len,
            v@.len() == o.len(),
            j <= len,
            forall|m: int| 0 <= m < o.len() && !(dst <= m < dst + j) ==> v@[m] == o[m],
            forall|m: int| dst <= m < dst + j ==> v@[m] == o[lo + (m - dst)],
        decreases len - j,
    {
        assert(tmp@[j as int] == o[lo + j]);
        v.set(dst + j, tmp[j]);
        j = j + 1;
    }
    assert(v@ =~= copied(o, lo as int, hi as int, dst as int));
}

fn negate_if(s: char, x: i64) -> (r: i64)
    requires
        is_sign(s),
    ensures
        Some(r) == super::ops::spec_apply_prefix(s, x),
{
    if s == '-' {
        0i64.wrapping_sub(x)
    } else {
        x
    }
}

/// `x` with the sign `s` applied.
pub open spec fn signed(s: char, x: i64) -> i64 {
    if s == '-' {
        wneg(x)
    } else {
        x
    }
}

/// `s` with the binary operator `token` stored at `slot`, an additive
/// operator's right-hand sign moved onto a value or variable right operand
/// at `slot - 1`.
pub closed spec fn saved(s: Seq<Node>, slot: int, token: Token, lhs: usize) -> Seq<Node> {
    let plain = s.update(slot, (token, lhs));
    match token {
        Token::Op(op) => if is_addsub(op) {
            let (sg, op2) = peel_rhs_sign_from_op(op);
            match s[slot - 1].0 {
                Token::Val(x) => s.update(slot - 1, (Token::Val(signed(sg, x)), 0)).update(
                    slot,
                    (Token::Op(op2), lhs),
                ),
                Token::Var(id, c) => s.update(slot - 1, (Token::Var(id, signed(sg, c)), 0)).update(
                    slot,
                    (Token::Op(op2), lhs),
                ),
                _ => plain,
            }
        } else {
            plain
        },
        _ => plain,
    }
}

/// Stores the binary operator `token` at `slot`; an additive operator whose
/// right operand is a value or variable takes that operand's sign onto the
/// operand, keeping the operator commutative.
fn save_and_flip(v: &mut Vec<Node>, b: usize, n: usize, slot: usize, token: Token, lhs: usize)
    requires
        b + n <= old(v)@.len(),
        small(old(v)@),
        1 <= slot < n,
    ensures
        frame(old(v)@, final(v)@, b as int, n as int),
        final(v)@ == saved(old(v)@, b + slot, token, lhs),
{
    match (v[b + slot - 1].0, token) {
        (Token::Val(x), Token::Op(op)) if is_addsub(op) => {
            let (s, op) = peel_rhs_sign_from_op(op);
            v.set(b + slot - 1, (Token::Val(negate_if(s, x)), 0));
            v.set(b + slot, (Token::Op(op), lhs));
        },
        (Token::Var(id, c), Token::Op(op)) if is_addsub(op) => {
            let (s, op) = peel_rhs_sign_from_op(op);
            v.set(b + slot - 1, (Token::Var(id, negate_if(s, c)), 0));
            v.set(b + slot, (Token::Op(op), lhs));
        },
        _ => {
            v.set(b + slot, (token, lhs));
        },
    }
}

/// What rotating left does to the tree in the window `[b, b + n)` of `s`,
/// `done` telling whether a rotation was made before: whether one was,
/// the root (`None` for a malformed tree, a chain that cannot be
/// re-associated, or a rotation that does not shorten the left operand),
/// and the nodes after.
pub closed spec fn left_rotated(s: Seq<Node>, b: int, n: int, done: bool) -> (
    Option<(bool, usize)>,
    Seq<Node>,
)
    decreases s[b + n - 1].1,
{
    let root = n - 1;
    let cur = s[b + root].1 as int;
    let rlhs = s[b + root - 1].1 as int;
    if s[b + root - 1].0 matches Token::Op(op2) && s[b + root].0 matches Token::Op(op1) && is_comm_2(
        op1,
        op2,
    ) {
        let op1 = s[b + root].0->Op_0;
        let op2 = s[b + root - 1].0->Op_0;
        if !(is_addsub(op1) && is_addsub(op2)) {
            (None, s)
        } else if rlhs < 1 || rlhs > root - 1 || cur < rlhs || cur > root || rlhs >= cur {
            (None, s)
        } else {
            let zpos = (root - 1) - rlhs + 1;
            let t1 = rotated(s, b + zpos, b + n, n - zpos - 1);
            let (s1, o1) = peel_sign_from_op(op1);
            let (s2, o2) = peel_sign_from_op(op2);
            let op1n = fuse_sign3(s2, o1, o2);
            let op2n = fuse_sign_op(s1, fuse_sign2(s2, o1));
            let t2 = saved(t1, b + root - rlhs, Token::Op(op1n), (cur - rlhs) as usize);
            let t3 = saved(t2, b + root, Token::Op(op2n), rlhs as usize);
            if t3[b + root].1 >= cur {
                (None, t3)
            } else {
                left_rotated(t3, b, n, true)
            }
        }
    } else {
        (Some((done, root as usize)), s)
    }
}

/// Rotates the tree at the root of the window left, `x + (y - z)` into
/// `(x + y) - z`, as far as it goes; gives whether it rotated, and the root.
fn rotate_left(v: &mut Vec<Node>, b: usize, n: usize) -> (r: Option<(bool, usize)>)
    requires
        b + n <= old(v)@.len(),
        small(old(v)@),
        n >= 2,
    ensures
        frame(old(v)@, final(v)@, b as int, n as int),
        r matches Some((_, k)) ==> k == n - 1,
        (r, final(v)@) == left_rotated(old(v)@, b as int, n as int, false),
{
    let mut rotated = false;
    let root = n - 1;
    let mut go = true;
    while go
        invariant
            b + n <= v@.len(),
            small(v@),
            n >= 2,
            root == n - 1,
            frame(old(v)@, v@, b as int, n as int),
            go ==> left_rotated(v@, b as int, n as int, rotated) == left_rotated(
                old(v)@,
                b as int,
                n as int,
                false,
            ),
            !go ==> left_rotated(old(v)@, b as int, n as int, false) == (
                Some((rotated, root)),
                v@,
            ),
        decreases v@[b + root].1, (if go { 1int } else { 0int }),
    {
        let cur = v[b + root].1;
        match (v[b + root - 1], v[b + root]) {
            ((Token::Op(op2), rlhs), (Token::Op(op1), lhs)) if is_comm_2(op1, op2) => {
                if !(is_addsub(op1) && is_addsub(op2)) {
                    return None;
                }
                if rlhs < 1 || rlhs > root - 1 || lhs < rlhs || lhs > root || rlhs >= cur {
                    return None;
                }
                let zpos = (root - 1) - rlhs + 1;
                rotate_window(v, b + zpos, b + n, n - zpos - 1);
                let (s1, op1) = peel_sign_from_op(op1);
                let (s2, op2) = peel_sign_from_op(op2);
                let (op1, op2) = (fuse_sign3(s2, op1, op2), fuse_sign_op(s1, fuse_sign2(s2, op1)));
                save_and_flip(v, b, n, root - rlhs, Token::Op(op1), lhs - rlhs);
                save_and_flip(v, b, n, root, Token::Op(op2), rlhs);
                if v[b + root].1 >= cur {
                    return None;
                }
                rotated = true;
            },
            _ => {
                go = false;
            },
        }
    }
    Some((rotated, root))
}

/// Sort key of a node: operators first (by character), then variables (by
/// id), prefixes, and values last.
pub open spec fn rank(t: Token) -> u64 {
    match t {
        Token::Op(x) => x as u64,
        Token::Var(x, _) => vstd::wrapping::u64_specs::wrapping_shl(
            vstd::wrapping::u64_specs::wrapping_add(x as u64, 1u64),
            8,
        ),
        Token::Prefix(x) => ((x as u64) * 0x100_0000) as u64,
        Token::Val(_) => 0xffff_ffffu64,
        _ => 0u64,
    }
}

fn rank_exec(t: Token) -> (r: u64)
    ensures
        r == rank(t),
{
    match t {
        Token::Op(x) => x as u64,
        Token::Var(x, _) => (x as u64).wrapping_add(1).wrapping_shl(8),
        Token::Prefix(x) => (x as u64) * 0x100_0000,
        Token::Val(_) => 0xffff_ffff,
        _ => 0,
    }
}

fn needs_swap(x: Token, y: Token) -> (r: bool)
    ensures
        r == (rank(x) > rank(y)),
{
    rank_exec(x) > rank_exec(y)
}

fn op_char(t: Token) -> (r: Option<char>)
    ensures
        r == (match t {
            Token::Op(c) => Some(c),
            _ => None::<char>,
        }),
{
    match t {
        Token::Op(c) => Some(c),
        _ => None,
    }
}

/// What sorting the operands of the root does to the tree in the window
/// `[b, b + n)` of `s`: whether the left operand must be sorted again, the
/// new root (`None` for a malformed tree or a chain that cannot be
/// re-associated), and the nodes after. In a chain `(w op1 z) op2 y` of
/// additive operators, `z` and `y` are exchanged when out of rank order,
/// or merged when they are terms of one variable; the operands of a
/// commutative root are exchanged when out of rank order, or merged
/// likewise.
#[verifier::opaque]
pub closed spec fn tokens_sorted(s: Seq<Node>, b: int, n: int) -> (Option<(bool, usize)>, Seq<Node>) {
    let root = n - 1;
    if root == 0 {
        (Some((false, 0usize)), s)
    } else if s[b + root].1 > root {
        (None, s)
    } else {
        let lhs = root - s[b + root].1;
        let y = s[b + root - 1].0;
        let x = s[b + lhs].0;
        let llhs = s[b + lhs].1 as int;
        let unchanged = (Some((false, root as usize)), s);
        match s[b + root].0 {
            Token::Op(op2) => if x matches Token::Op(op1) && is_comm_2(op1, op2) {
                let op1 = x->Op_0;
                if !(is_addsub(op1) && is_addsub(op2)) || lhs < 1 {
                    (None, s)
                } else {
                    let (s1, o1) = peel_sign_from_op(op1);
                    let (s2, o2) = peel_sign_from_op(op2);
                    let op1n = fuse_sign2_op(s1, s2, o1);
                    let op2n = fuse_sign2(s1, o2);
                    let z = s[b + lhs - 1].0;
                    if rank(z) > rank(y) {
                        if llhs < 1 || llhs > lhs || lhs >= root {
                            (None, s)
                        } else {
                            let t1 = rotated(s, b + lhs - llhs + 1, b + n, llhs);
                            let t2 = saved(t1, b + root - llhs, Token::Op(op2n), (root - lhs) as usize);
                            (Some((true, root as usize)), saved(t2, b + root, Token::Op(op1n), llhs as usize))
                        }
                    } else if z matches Token::Var(xv, _) && y matches Token::Var(yv, _) && xv == yv {
                        let c = spec_apply_op(op2n, z->Var_1, y->Var_1)->Some_0;
                        (
                            Some((false, lhs as usize)),
                            saved(
                                s.update(b + lhs - 1, (Token::Var(z->Var_0, c), 0)),
                                b + lhs,
                                Token::Op(op1n),
                                2,
                            ),
                        )
                    } else {
                        unchanged
                    }
                }
            } else if is_comm_1(op2) {
                if rank(x) > rank(y) {
                    let xlen = root - (lhs + 1);
                    let ylen = lhs + 1;
                    let t1 = rotated(s, b, b + n, ylen);
                    let t2 = rotated(t1, b + xlen, b + n, 1);
                    (
                        Some((false, root as usize)),
                        saved(t2, b + root, Token::Op(swap_op_hands(op2)), (ylen + 1) as usize),
                    )
                } else if x matches Token::Var(xv, _) && y matches Token::Var(yv, _) && xv == yv {
                    let c = spec_apply_op(op2, x->Var_1, y->Var_1)->Some_0;
                    (Some((false, lhs as usize)), s.update(b + lhs, (Token::Var(x->Var_0, c), 0)))
                } else {
                    unchanged
                }
            } else {
                unchanged
            },
            _ => unchanged,
        }
    }
}

/// Swaps the two operands of the root where they are out of order, or
/// merges two terms of the same variable; gives whether the left operand
/// must be sorted again, and the new root.
#[verifier::rlimit(40)]
fn sort_tokens(v: &mut Vec<Node>, b: usize, n: usize) -> (r: Option<(bool, usize)>)
    requires
        b + n <= old(v)@.len(),
        small(old(v)@),
        n >= 1,
    ensures
        frame(old(v)@, final(v)@, b as int, n as int),
        r matches Some((_, k)) ==> k < n,
        (r, final(v)@) == tokens_sorted(old(v)@, b as int, n as int),
{
    proof {
        reveal(tokens_sorted);
    }
    let root = n - 1;
    if root == 0 {
        return Some((false, root));
    }
    if v[b + root].1 > root {
        return None;
    }
    let lhs = root - v[b + root].1;
    let y = v[b + root - 1].0;
    let (x, llhs) = v[b + lhs];
    let root_op = op_char(v[b + root].0);
    let left_op = op_char(x);
    if root_op.is_none() {
        return Some((false, root));
    }
    let op2 = root_op.unwrap();
    if left_op.is_some() && is_comm_2(left_op.unwrap(), op2) {
        let op1 = left_op.unwrap();
        if !(is_addsub(op1) && is_addsub(op2)) || lhs < 1 {
            return None;
        }
        let (s1, op1) = peel_sign_from_op(op1);
        let (s2, op2) = peel_sign_from_op(op2);
        let (op1, op2) = (fuse_sign2_op(s1, s2, op1), fuse_sign2(s1, op2));
        let z = v[b + lhs - 1].0;
        if needs_swap(z, y) {
            if llhs < 1 || llhs > lhs || lhs >= root {
                return None;
            }
            rotate_window(v, b + lhs - llhs + 1, b + n, llhs);
            save_and_flip(v, b, n, root - llhs, Token::Op(op2), root - lhs);
            save_and_flip(v, b, n, root, Token::Op(op1), llhs);
            return Some((true, root));
        }
        match (z, y) {
            (Token::Var(xv, xc), Token::Var(yv, yc)) => {
                if xv == yv {
                    let c = apply_op(op2, xc, yc).unwrap();
                    v.set(b + lhs - 1, (Token::Var(xv, c), 0));
                    save_and_flip(v, b, n, lhs, Token::Op(op1), 2);
                    return Some((false, lhs));
                }
            },
            _ => {},
        }
        return Some((false, root));
    }
    if is_comm_1(op2) {
        let op = op2;
        if needs_swap(x, y) {
            let (xlen, ylen) = (root - (lhs + 1), lhs + 1);
            rotate_window(v, b, b + n, ylen);
            rotate_window(v, b + xlen, b + n, 1);
            save_and_flip(v, b, n, root, Token::Op(swap_op_hands(op)), ylen + 1);
            return Some((false, root));
        }
        match (x, y) {
            (Token::Var(xv, xc), Token::Var(yv, yc)) => {
                if xv == yv {
                    let c = apply_op(op, xc, yc).unwrap();
                    v.set(b + lhs, (Token::Var(xv, c), 0));
                    return Some((false, lhs));
                }
            },
            _ => {},
        }
    }
    Some((false, root))
}

/// What folding constants does to the tree in the window `[b, b + n)` of
/// `s`: the new root (`None` for a malformed tree) and the nodes after.
/// Two constant operands fold into one (where the operator is defined on
/// them), a constant factor moves into a variable's coefficient, and the
/// constants of two chained additive operators fold together.
#[verifier::opaque]
pub closed spec fn constants_folded(s: Seq<Node>, b: int, n: int) -> (Option<usize>, Seq<Node>) {
    let root = n - 1;
    if root == 0 {
        (Some(0usize), if s[b].0 matches Token::Var(_, c) && c == 0 {
            s.update(b, (Token::Val(0), 0))
        } else {
            s
        })
    } else if s[b + root].1 > root {
        (None, s)
    } else {
        let lhs = (root - s[b + root].1) as usize;
        let llhs = s[b + lhs].1;
        match (s[b + lhs].0, s[b + root - 1].0, s[b + root].0) {
            (Token::Val(x), Token::Val(y), Token::Op(op2)) => match spec_apply_op(op2, x, y) {
                Some(z) => (Some(lhs), s.update(b + lhs, (Token::Val(z), 0))),
                None => (Some(root as usize), s),
            },
            (Token::Var(id, c), Token::Val(y), Token::Op(op2)) => if op2 == '*' {
                (Some(lhs), s.update(b + lhs, (Token::Var(id, i64_specs::wrapping_mul(c, y)), llhs)))
            } else {
                (Some(root as usize), s)
            },
            (Token::Op(op1), Token::Val(y), Token::Op(op2)) => if !is_comm_2(op1, op2) {
                (Some(root as usize), s)
            } else if lhs < 1 {
                (None, s)
            } else {
                match s[b + lhs - 1].0 {
                    Token::Val(x) => if !(is_addsub(op1) && is_addsub(op2)) {
                        (None, s)
                    } else {
                        let (s1, o1) = peel_sign_from_op(op1);
                        let (s2, o2) = peel_sign_from_op(op2);
                        let op1n = fuse_sign_op(fuse_sign2(s1, s2), o1);
                        let op2n = fuse_sign3(s1, o1, o2);
                        let z = spec_apply_op(op2n, x, y)->Some_0;
                        (
                            Some(lhs),
                            saved(s.update(b + lhs - 1, (Token::Val(z), 0)), b + lhs, Token::Op(op1n), 2),
                        )
                    },
                    _ => (Some(root as usize), s),
                }
            },
            _ => (Some(root as usize), s),
        }
    }
}

/// Folds constant operands left over by rotation and sorting; gives the new root.
fn fold_constants(v: &mut Vec<Node>, b: usize, n: usize) -> (r: Option<usize>)
    requires
        b + n <= old(v)@.len(),
        small(old(v)@),
        n >= 1,
    ensures
        frame(old(v)@, final(v)@, b as int, n as int),
        r matches Some(k) ==> k < n,
        (r, final(v)@) == constants_folded(old(v)@, b as int, n as int),
{
    proof {
        reveal(constants_folded);
    }
    let root = n - 1;
    if root == 0 {
        match v[b + root].0 {
            Token::Var(_, 0) => {
                v.set(b + root, (Token::Val(0), 0));
            },
            _ => {},
        }
        return Some(root);
    }
    if v[b + root].1 > root {
        return None;
    }
    let lhs = root - v[b + root].1;
    let (x, llhs) = v[b + lhs];
    let y = v[b + root - 1].0;
    let op2 = match op_char(v[b + root].0) {
        Some(c) => c,
        None => {
            return Some(root);
        },
    };
    match (x, y) {
        (Token::Val(x), Token::Val(y)) => {
            return match apply_op(op2, x, y) {
                Some(z) => {
                    v.set(b + lhs, (Token::Val(z), 0));
                    Some(lhs)
                },
                None => Some(root),
            };
        },
        (Token::Var(id, c), Token::Val(y)) => {
            if op2 == '*' {
                v.set(b + lhs, (Token::Var(id, c.wrapping_mul(y)), llhs));
                return Some(lhs);
            }
            return Some(root);
        },
        (Token::Op(op1), Token::Val(y)) => {
            if !is_comm_2(op1, op2) {
                return Some(root);
            }
            if lhs < 1 {
                return None;
            }
            match v[b + lhs - 1].0 {
                Token::Val(x) => {
                    if !(is_addsub(op1) && is_addsub(op2)) {
                        return None;
                    }
                    let (s1, op1) = peel_sign_from_op(op1);
                    let (s2, op2) = peel_sign_from_op(op2);
                    let (op1, op2) = (
                        fuse_sign_op(fuse_sign2(s1, s2), op1),
                        fuse_sign3(s1, op1, op2),
                    );
                    let z = apply_op(op2, x, y).unwrap();
                    v.set(b + lhs - 1, (Token::Val(z), 0));
                    save_and_flip(v, b, n, lhs, Token::Op(op1), 2);
                    return Some(lhs);
                },
                _ => {
                    return Some(root);
                },
            }
        },
        _ => {},
    }
    Some(root)
}

/// A leaf that stands for zero: the value 0, or a variable times 0.
pub open spec fn zero_leaf(t: Token) -> bool {
    t == Token::Val(0) || (t matches Token::Var(_, c) && c == 0)
}

/// Whether `x op c == x` for every `x`, with `c` the constant right operand.
pub open spec fn identity_operand(op: char, c: i64) -> bool {
    if op == '+' || op == '-' || op == '|' {
        c == 0
    } else if op == '*' || op == '/' {
        c == 1
    } else if op == '&' {
        c == -1
    } else {
        false
    }
}

fn is_zero_leaf(t: Token) -> (r: bool)
    ensures
        r == zero_leaf(t),
{
    match t {
        Token::Val(0) | Token::Var(_, 0) => true,
        _ => false,
    }
}

fn is_id(op: char, x: i64) -> (r: bool)
    ensures
        r == identity_operand(op, x),
{
    match op {
        '+' | '-' | '|' => x == 0,
        '*' | '/' => x == 1,
        '&' => x == -1,
        _ => false,
    }
}

/// What dropping an identity does to the tree in the window `[b, b + n)`
/// of `s`: the new root (`None` for a malformed tree) and the nodes after.
/// An operator whose right operand is its identity (`x + 0`, `x * 1`,
/// `x & -1`, ...) gives way to its left operand; a negated additive root
/// over zero passes its sign down; `0 op y` on an additive root becomes
/// the signed `y`.
#[verifier::opaque]
pub closed spec fn identity_removed(s: Seq<Node>, b: int, n: int) -> (Option<usize>, Seq<Node>) {
    let root = n - 1;
    if root == 0 {
        (Some(0usize), s)
    } else if s[b + root].1 > root {
        (None, s)
    } else {
        let lhs = (root - s[b + root].1) as usize;
        let x = s[b + lhs].0;
        let llhs = s[b + lhs].1;
        let y = s[b + root - 1].0;
        match s[b + root].0 {
            Token::Op(op) => {
                let ident = match y {
                    Token::Val(c) => identity_operand(op, c),
                    Token::Var(_, c) => c == 0 && identity_operand(op, 0),
                    _ => false,
                };
                let signed_leaf = (op == '#' || op == '~') && zero_leaf(y) && (
                x matches Token::Op(op1) && is_addsub(op1) || (x is Var && y == Token::Val(0)));
                if ident {
                    (Some(lhs), s)
                } else if signed_leaf {
                    match x {
                        Token::Op(op1) => if lhs < 1 {
                            (None, s)
                        } else {
                            (Some(lhs), saved(s, b + lhs, Token::Op(fuse_sign_op('-', op1)), llhs))
                        },
                        Token::Var(id, c) => (
                            Some(lhs),
                            s.update(b + lhs, (Token::Var(id, wneg(c)), llhs)),
                        ),
                        _ => (Some(root as usize), s),
                    }
                } else if x matches Token::Var(_, c) && c == 0 && is_addsub(op) {
                    let (sg, op2) = peel_sign_from_op(op);
                    let sign = fuse_sign2(sg, op2);
                    match y {
                        Token::Val(c) => (Some(lhs), s.update(b + lhs, (Token::Val(signed(sign, c)), 0))),
                        Token::Var(id, c) => (
                            Some(lhs),
                            s.update(b + lhs, (Token::Var(id, signed(sign, c)), 0)),
                        ),
                        _ => (Some(root as usize), s),
                    }
                } else {
                    (Some(root as usize), s)
                }
            },
            _ => (Some(root as usize), s),
        }
    }
}

/// Drops an operator whose constant right operand leaves the left operand
/// unchanged (`x + 0`, `x * 1`, `x & -1`, ...); gives the new root.
fn remove_identity(v: &mut Vec<Node>, b: usize, n: usize) -> (r: Option<usize>)
    requires
        b + n <= old(v)@.len(),
        small(old(v)@),
        n >= 1,
    ensures
        frame(old(v)@, final(v)@, b as int, n as int),
        r matches Some(k) ==> k < n,
        (r, final(v)@) == identity_removed(old(v)@, b as int, n as int),
{
    proof {
        reveal(identity_removed);
    }
    let root = n - 1;
    if root == 0 {
        return Some(root);
    }
    if v[b + root].1 > root {
        return None;
    }
    let lhs = root - v[b + root].1;
    let (x, llhs) = v[b + lhs];
    let y = v[b + root - 1].0;
    let op = match op_char(v[b + root].0) {
        Some(c) => c,
        None => {
            return Some(root);
        },
    };
    match y {
        Token::Val(c) => {
            if is_id(op, c) {
                return Some(lhs);
            }
        },
        Token::Var(_, 0) => {
            if is_id(op, 0) {
                return Some(lhs);
            }
        },
        _ => {},
    }
    if (op == '#' || op == '~') && is_zero_leaf(y) {
        match x {
            Token::Op(op1) => {
                if is_addsub(op1) {
                    if lhs < 1 {
                        return None;
                    }
                    save_and_flip(v, b, n, lhs, Token::Op(fuse_sign_op('-', op1)), llhs);
                    return Some(lhs);
                }
            },
            Token::Var(id, c) => {
                if let Token::Val(0) = y {
                    v.set(b + lhs, (Token::Var(id, 0i64.wrapping_sub(c)), llhs));
                    return Some(lhs);
                }
            },
            _ => {},
        }
    }
    match x {
        Token::Var(_, 0) => {
            if is_addsub(op) {
                let (s, op) = peel_sign_from_op(op);
                let op = fuse_sign2(s, op);
                match y {
                    Token::Val(c) => {
                        v.set(b + lhs, (Token::Val(negate_if(op, c)), 0));
                        return Some(lhs);
                    },
                    Token::Var(id, c) => {
                        v.set(b + lhs, (Token::Var(id, negate_if(op, c)), 0));
                        return Some(lhs);
                    },
                    _ => {
                        return Some(root);
                    },
                }
            }
        },
        _ => {},
    }
    Some(root)
}

/// What re-sorting the left operand of the node at `root` does to the
/// window `[b, b + n)` of `s`, the gap it leaves closed: the new root
/// (`None` where it fails) and the nodes after.
pub closed spec fn left_resorted(s: Seq<Node>, b: int, n: int, root: int) -> (Option<usize>, Seq<Node>)
    decreases n, 0int,
{
    let d = s[b + root].1 as int;
    if root >= n || d > root || d < 1 {
        (None, s)
    } else {
        let lhs = root - d;
        let (ra, t1) = squashed(s, b, lhs + 1);
        match ra {
            None => (None, t1),
            Some(sub) => {
                let gap = lhs - sub;
                (
                    Some((root - gap) as usize),
                    copied(t1, b + lhs + 1, b + root + 1, b + (lhs + 1) - gap),
                )
            },
        }
    }
}

/// What sorting and squashing does to the tree in the window `[b, b + n)`
/// of `s`: rotation left (the left operand re-sorted after it), sorting
/// of the root's operands (likewise), folding of constants and dropping
/// of an identity, in turn; the new root (`None` where a step fails) and
/// the nodes after.
pub closed spec fn squashed(s: Seq<Node>, b: int, n: int) -> (Option<usize>, Seq<Node>)
    decreases n, 1int,
{
    let root = n - 1;
    if n < 1 {
        (None, s)
    } else if root == 0 {
        (Some(0usize), s)
    } else {
        let (ra, t1) = left_rotated(s, b, root + 1, false);
        match ra {
            None => (None, t1),
            Some((needs, root1)) => {
                let (rb, t2) = if needs {
                    left_resorted(t1, b, n, root1 as int)
                } else {
                    (Some(root1), t1)
                };
                match rb {
                    None => (None, t2),
                    Some(root2) => if root2 >= n {
                        (None, t2)
                    } else {
                        let (rc, t3) = tokens_sorted(t2, b, root2 + 1);
                        match rc {
                            None => (None, t3),
                            Some((needs2, root3)) => {
                                let (rd, t4) = if needs2 {
                                    left_resorted(t3, b, n, root3 as int)
                                } else {
                                    (Some(root3), t3)
                                };
                                match rd {
                                    None => (None, t4),
                                    Some(root4) => if root4 >= n {
                                        (None, t4)
                                    } else {
                                        let (re, t5) = constants_folded(t4, b, root4 + 1);
                                        match re {
                                            None => (None, t5),
                                            Some(root5) => if root5 >= n {
                                                (None, t5)
                                            } else {
                                                identity_removed(t5, b, root5 + 1)
                                            },
                                        }
                                    },
                                }
                            },
                        }
                    },
                }
            },
        }
    }
}

/// What simplifying a tree under a prefix or an array access does to the
/// window `[b, b + n)` of `s`: the new root and the nodes after.
pub closed spec fn unary_simplified(s: Seq<Node>, b: int, n: int) -> (Option<usize>, Seq<Node>)
    decreases n, 1int,
{
    let (r0, t0) = prefix_unary_removed(s, b, n);
    match r0 {
        None => (None, t0),
        Some(root) => if root == 0 {
            (Some(0usize), t0)
        } else if root >= n {
            (None, t0)
        } else {
            match t0[b + root].0 {
                Token::VarArr(id) => {
                    let (r1, t1) = rpn_simplified(t0, b, root as int);
                    match r1 {
                        None => (None, t1),
                        Some(k) => (
                            Some((k + 1) as usize),
                            t1.update(b + k + 1, (Token::Var(id, 1), 1)),
                        ),
                    }
                },
                Token::Prefix(op) => {
                    let (r1, t1) = rpn_simplified(t0, b, root as int);
                    match r1 {
                        None => (None, t1),
                        Some(k) => if k + 2 > n {
                            (None, t1)
                        } else {
                            prefix_unary_removed(
                                t1.update(b + k + 1, (Token::Prefix(op), 1)),
                                b,
                                k + 2,
                            )
                        },
                    }
                },
                _ => if root + 1 >= n {
                    (None, t0)
                } else {
                    rpn_simplified(t0, b, root + 1)
                },
            }
        },
    }
}

/// What simplifying both operands of a binary root, packing them together
/// and gathering their signs does to the window `[b, b + n)` of `s`: the
/// new root and the nodes after.
pub closed spec fn binary_simplified(s: Seq<Node>, b: int, n: int) -> (Option<usize>, Seq<Node>)
    decreases n, 1int,
{
    let root = n - 1;
    let d = s[b + root].1 as int;
    if n < 1 || d > root || d < 1 {
        (None, s)
    } else {
        let lhs = root - d;
        let op = s[b + root].0;
        let (rl, t1) = rpn_simplified(s, b, lhs + 1);
        match rl {
            None => (None, t1),
            Some(l) => {
                let gap = (lhs + 1) - (l + 1);
                let (rr, t2) = rpn_simplified(t1, b + lhs + 1, root - lhs - 1);
                match rr {
                    None => (None, t2),
                    Some(r) => {
                        let root2 = (lhs + 1) + (r + 1);
                        let t3 = copied(t2, b + lhs + 1, b + root2, b + (lhs + 1) - gap);
                        let t4 = t3.update(b + root2 - gap, (op, (root2 - lhs) as usize));
                        prefix_binary_removed(t4, b, root2 - gap + 1)
                    },
                }
            },
        }
    }
}

/// What bringing the tree in the window `[b, b + n)` of `s` into canonical
/// form does: the new root (`None` where a step fails) and the nodes after.
pub closed spec fn rpn_simplified(s: Seq<Node>, b: int, n: int) -> (Option<usize>, Seq<Node>)
    decreases n, 2int,
{
    if n <= 0 {
        (None, s)
    } else if n == 1 {
        (Some(0usize), s)
    } else {
        let root = n - 1;
        let (r1, t1) = match s[b + root].0 {
            Token::Prefix(_) => unary_simplified(s, b, n),
            Token::VarArr(_) => unary_simplified(s, b, n),
            Token::Op(_) => binary_simplified(s, b, n),
            _ => (Some(root as usize), s),
        };
        match r1 {
            None => (None, t1),
            Some(k) => if k == 0 {
                (Some(0usize), t1)
            } else if k >= n {
                (None, t1)
            } else {
                squashed(t1, b, k + 1)
            },
        }
    }
}

/// Re-sorts the left operand after it was disturbed and closes the gap it
/// leaves; gives the new root.
fn resort_left(v: &mut Vec<Node>, b: usize, n: usize, root: usize) -> (r: Option<usize>)
    requires
        b + n <= old(v)@.len(),
        small(old(v)@),
        root < n,
    ensures
        frame(old(v)@, final(v)@, b as int, n as int),
        r matches Some(k) ==> k < n,
        (r, final(v)@) == left_resorted(old(v)@, b as int, n as int, root as int),
    decreases n, 0int,
{
    if v[b + root].1 > root || v[b + root].1 < 1 {
        return None;
    }
    let lhs = root - v[b + root].1;
    let sub = sort_and_squash_tokens(v, b, lhs + 1)?;
    let gap = lhs - sub;
    copy_window(v, b + lhs + 1, b + root + 1, b + (lhs + 1) - gap);
    Some(root - gap)
}

/// Sorts the operands of the root (and, recursively, of its left spine)
/// into canonical order, folding constants and dropping identities; gives
/// the new root.
fn sort_and_squash_tokens(v: &mut Vec<Node>, b: usize, n: usize) -> (r: Option<usize>)
    requires
        b + n <= old(v)@.len(),
        small(old(v)@),
        n >= 1,
    ensures
        frame(old(v)@, final(v)@, b as int, n as int),
        r matches Some(k) ==> k < n,
        (r, final(v)@) == squashed(old(v)@, b as int, n as int),
    decreases n, 1int,
{
    let root = n - 1;
    if root == 0 {
        return Some(0);
    }
    let (needs_re_sorting, root) = rotate_left(v, b, root + 1)?;
    let root = if needs_re_sorting {
        resort_left(v, b, n, root)?
    } else {
        root
    };
    let (needs_re_sorting, root) = sort_tokens(v, b, root + 1)?;
    let root = if needs_re_sorting {
        resort_left(v, b, n, root)?
    } else {
        root
    };
    let root = fold_constants(v, b, root + 1)?;
    remove_identity(v, b, root + 1)
}

/// What removing the prefixes at the root does to the tree in the window
/// `[b, b + n)` of `s`: the new root (`None` for a malformed tree or a
/// prefix that cannot move where it must) and the nodes after.
pub closed spec fn prefix_unary_removed(s: Seq<Node>, b: int, n: int) -> (Option<usize>, Seq<Node>)
    decreases n,
{
    let root = n - 1;
    if n < 1 || s[b + root].1 > root {
        (None, s)
    } else {
        let lhs = root - s[b + root].1;
        let x = s[b + lhs].0;
        let llhs = s[b + lhs].1 as int;
        match s[b + root].0 {
            Token::Prefix(s2) => match x {
                Token::Prefix(s1) => if s1 == s2 {
                    if llhs < 1 || llhs > lhs {
                        (None, s)
                    } else {
                        prefix_unary_removed(s, b, lhs - llhs + 1)
                    }
                } else if is_addsub(s1) && is_addsub(s2) {
                    if !(is_sign(s1) && is_sign(s2)) || lhs >= root {
                        (None, s)
                    } else {
                        prefix_unary_removed(
                            s.update(b + lhs, (Token::Prefix(fuse_sign2(s1, s2)), 1)),
                            b,
                            lhs + 1,
                        )
                    }
                } else if lhs >= root {
                    (None, s)
                } else {
                    let (r2, t) = prefix_unary_removed(s, b, lhs + 1);
                    match r2 {
                        Some(l2) => (Some((l2 + 1) as usize), t.update(b + l2 + 1, (Token::Prefix(s2), 1))),
                        None => (None, t),
                    }
                },
                Token::Val(c) => match spec_apply_prefix(s2, c) {
                    Some(z) => (Some(lhs as usize), s.update(b + lhs, (Token::Val(z), 0))),
                    None => (Some(root as usize), s),
                },
                Token::Var(id, c) => if !is_addsub(s2) {
                    (Some(root as usize), s)
                } else if !is_sign(s2) {
                    (None, s)
                } else {
                    (Some(lhs as usize), s.update(b + lhs, (Token::Var(id, signed(s2, c)), 0)))
                },
                Token::Op(op) => if !is_comm_2(op, s2) {
                    (Some(root as usize), s)
                } else if !(is_sign(s2) && is_addsub(op)) || lhs < 1 {
                    (None, s)
                } else {
                    (Some(lhs as usize), saved(s, b + lhs, Token::Op(fuse_sign_op(s2, op)), llhs as usize))
                },
                _ => (Some(root as usize), s),
            },
            _ => (Some(root as usize), s),
        }
    }
}

/// Removes prefix operators at the root: a repeated prefix cancels, two
/// signs fuse, and a sign moves onto a value, a variable coefficient or an
/// additive operator; gives the new root.
fn remove_prefix_unary(v: &mut Vec<Node>, b: usize, n: usize) -> (r: Option<usize>)
    requires
        b + n <= old(v)@.len(),
        small(old(v)@),
        n >= 1,
    ensures
        frame(old(v)@, final(v)@, b as int, n as int),
        r matches Some(k) ==> k < n,
        (r, final(v)@) == prefix_unary_removed(old(v)@, b as int, n as int),
    decreases n,
{
    let root = n - 1;
    if v[b + root].1 > root {
        return None;
    }
    let lhs = root - v[b + root].1;
    let (x, llhs) = v[b + lhs];
    let s2 = match v[b + root].0 {
        Token::Prefix(c) => c,
        _ => {
            return Some(root);
        },
    };
    match x {
        Token::Prefix(s1) => {
            if s1 == s2 {
                if llhs < 1 || llhs > lhs {
                    return None;
                }
                remove_prefix_unary(v, b, lhs - llhs + 1)
            } else if is_addsub(s1) && is_addsub(s2) {
                if !(is_sign(s1) && is_sign(s2)) || lhs >= root {
                    return None;
                }
                v.set(b + lhs, (Token::Prefix(fuse_sign2(s1, s2)), 1));
                remove_prefix_unary(v, b, lhs + 1)
            } else {
                if lhs >= root {
                    return None;
                }
                let l2 = remove_prefix_unary(v, b, lhs + 1)?;
                v.set(b + l2 + 1, (Token::Prefix(s2), 1));
                Some(l2 + 1)
            }
        },
        Token::Val(c) => {
            match apply_prefix(s2, c) {
                Some(z) => {
                    v.set(b + lhs, (Token::Val(z), 0));
                    Some(lhs)
                },
                None => Some(root),
            }
        },
        Token::Var(id, c) => {
            if !is_addsub(s2) {
                return Some(root);
            }
            if !is_sign(s2) {
                return None;
            }
            v.set(b + lhs, (Token::Var(id, negate_if(s2, c)), 0));
            Some(lhs)
        },
        Token::Op(op) => {
            if !is_comm_2(op, s2) {
                return Some(root);
            }
            if !(is_sign(s2) && is_addsub(op)) || lhs < 1 {
                return None;
            }
            save_and_flip(v, b, n, lhs, Token::Op(fuse_sign_op(s2, op)), llhs);
            Some(lhs)
        },
        _ => Some(root),
    }
}

/// Simplifies a tree whose root is a prefix operator or an array access.
fn simplify_down_unary(v: &mut Vec<Node>, b: usize, n: usize) -> (r: Option<usize>)
    requires
        b + n <= old(v)@.len(),
        small(old(v)@),
        n >= 1,
    ensures
        frame(old(v)@, final(v)@, b as int, n as int),
        r matches Some(k) ==> k < n,
        (r, final(v)@) == unary_simplified(old(v)@, b as int, n as int),
    decreases n, 1int,
{
    let root = remove_prefix_unary(v, b, n)?;
    if root == 0 {
        return Some(0);
    }
    match v[b + root].0 {
        Token::VarArr(id) => {
            let r = simplify_rpn(v, b, root)? + 1;
            v.set(b + r, (Token::Var(id, 1), 1));
            Some(r)
        },
        Token::Prefix(op) => {
            let r = simplify_rpn(v, b, root)? + 1;
            v.set(b + r, (Token::Prefix(op), 1));
            remove_prefix_unary(v, b, r + 1)
        },
        _ => {
            if root + 1 >= n {
                return None;
            }
            simplify_rpn(v, b, root + 1)
        },
    }
}

/// What gathering the signs of the operands does to the tree in the
/// window `[b, b + n)` of `s`: the new root (`None` where the tree is
/// malformed or an operand's prefix is not a sign) and the nodes after. A
/// sign prefix of either operand of an additive root is dropped, the left
/// operand's by moving the right operand down over it, and both signs go
/// into the root operator.
#[verifier::opaque]
pub closed spec fn prefix_binary_removed(s: Seq<Node>, b: int, n: int) -> (Option<usize>, Seq<Node>) {
    let root = n - 1;
    if root < 1 || s[b + root].1 > root {
        (None, s)
    } else {
        let lhs = root - s[b + root].1;
        let x = s[b + lhs].0;
        let llhs = s[b + lhs].1 as int;
        let y = s[b + root - 1].0;
        match s[b + root].0 {
            Token::Op(op) => if !is_addsub(op) {
                (Some(root as usize), s)
            } else if x is Prefix && (llhs > lhs || llhs > root) {
                (None, s)
            } else {
                let s1 = match x {
                    Token::Prefix(c) => c,
                    _ => '+',
                };
                let (lhs1, root1, t) = if x is Prefix {
                    (lhs - llhs, root - llhs, rotated(s, b + lhs - llhs + 1, b + n, llhs))
                } else {
                    (lhs, root, s)
                };
                let s2 = match y {
                    Token::Prefix(c) => c,
                    _ => '+',
                };
                let root2 = if y is Prefix {
                    root1 - 1
                } else {
                    root1
                };
                if y is Prefix && root1 < 1 {
                    (None, t)
                } else if !(is_sign(s1) && is_sign(s2)) || root2 < 1 || root2 < lhs1 {
                    (None, t)
                } else {
                    (
                        Some(root2 as usize),
                        saved(t, b + root2, Token::Op(gather_sign2(s1, op, s2)), (root2 - lhs1) as usize),
                    )
                }
            },
            _ => (Some(root as usize), s),
        }
    }
}

/// Gathers the signs of prefixed operands into an additive root operator.
fn remove_prefix_binary(v: &mut Vec<Node>, b: usize, n: usize) -> (r: Option<usize>)
    requires
        b + n <= old(v)@.len(),
        small(old(v)@),
        n >= 1,
    ensures
        frame(old(v)@, final(v)@, b as int, n as int),
        r matches Some(k) ==> k < n,
        (r, final(v)@) == prefix_binary_removed(old(v)@, b as int, n as int),
{
    proof {
        reveal(prefix_binary_removed);
    }
    let root = n - 1;
    if root < 1 || v[b + root].1 > root {
        return None;
    }
    let lhs = root - v[b + root].1;
    let (x, llhs) = v[b + lhs];
    let y = v[b + root - 1].0;
    let op = match op_char(v[b + root].0) {
        Some(c) => c,
        None => {
            return Some(root);
        },
    };
    if !is_addsub(op) {
        return Some(root);
    }
    let (s1, lhs, root) = match x {
        Token::Prefix(s1) => {
            if llhs > lhs || llhs > root {
                return None;
            }
            rotate_window(v, b + lhs - llhs + 1, b + n, llhs);
            (s1, lhs - llhs, root - llhs)
        },
        _ => ('+', lhs, root),
    };
    let (s2, root) = match y {
        Token::Prefix(s2) => {
            if root < 1 {
                return None;
            }
            (s2, root - 1)
        },
        _ => ('+', root),
    };
    if !(is_sign(s1) && is_sign(s2)) || root < 1 || root < lhs {
        return None;
    }
    save_and_flip(v, b, n, root, Token::Op(gather_sign2(s1, op, s2)), root - lhs);
    Some(root)
}

/// Simplifies both operands of a binary root, packs them together, and
/// gathers their signs into the root.
#[verifier::rlimit(60)]
fn simplify_down_binary(v: &mut Vec<Node>, b: usize, n: usize) -> (r: Option<usize>)
    requires
        b + n <= old(v)@.len(),
        small(old(v)@),
        n >= 1,
    ensures
        frame(old(v)@, final(v)@, b as int, n as int),
        r matches Some(k) ==> k < n,
        (r, final(v)@) == binary_simplified(old(v)@, b as int, n as int),
    decreases n, 1int,
{
    let root = n - 1;
    if v[b + root].1 > root || v[b + root].1 < 1 {
        return None;
    }
    let lhs = root - v[b + root].1;
    let op = v[b + root].0;
    let l = simplify_rpn(v, b, lhs + 1)?;
    let gap = (lhs + 1) - (l + 1);
    let r = simplify_rpn(v, b + lhs + 1, root - lhs - 1)?;
    let root = (lhs + 1) + (r + 1);
    copy_window(v, b + lhs + 1, b + root, b + (lhs + 1) - gap);
    let (lhs, root) = (root - lhs, root - gap);
    v.set(b + root, (op, lhs));
    remove_prefix_binary(v, b, root + 1)
}

/// Brings the tree in the window into canonical form: prefixes are pushed
/// down onto leaves, and operands are sorted, merged and folded on the way
/// up; gives the new root.
fn simplify_rpn(v: &mut Vec<Node>, b: usize, n: usize) -> (r: Option<usize>)
    requires
        b + n <= old(v)@.len(),
        small(old(v)@),
    ensures
        frame(old(v)@, final(v)@, b as int, n as int),
        r matches Some(k) ==> k < n,
        (r, final(v)@) == rpn_simplified(old(v)@, b as int, n as int),
    decreases n, 2int,
{
    if n == 0 {
        return None;
    }
    let root = n - 1;
    if root == 0 {
        return Some(0);
    }
    let root = match v[b + root].0 {
        Token::Prefix(_) | Token::VarArr(_) => simplify_down_unary(v, b, n)?,
        Token::Op(_) => simplify_down_binary(v, b, n)?,
        _ => root,
    };
    if root == 0 {
        return Some(root);
    }
    sort_and_squash_tokens(v, b, root + 1)
}

/// Every leaf of the additive tree in the window `[b, b + n)` of `s` can
/// take a sign: the tree's inner nodes are additive operators with both
/// operands in the window, its leaves values, variables or sign prefixes.
pub closed spec fn flippable(s: Seq<Node>, b: int, n: int) -> bool
    decreases n,
{
    if n <= 0 {
        false
    } else {
        let root = n - 1;
        let lhs = s[b + root].1 as int;
        match s[b + root].0 {
            Token::Prefix(c) => c == '+' || c == '-',
            Token::Val(_) => true,
            Token::Var(_, _) => true,
            Token::Op(op) => is_addsub(op) && 1 < lhs <= root && flippable(s, b, root - lhs + 1)
                && flippable(s, b + root - lhs + 1, lhs - 1),
            _ => false,
        }
    }
}

/// `s` with every leaf of the additive tree in the window `[b, b + n)`
/// negated: values and variable factors change sign, sign prefixes flip.
pub closed spec fn flipped(s: Seq<Node>, b: int, n: int) -> Seq<Node>
    decreases n,
{
    if n <= 0 {
        s
    } else {
        let root = n - 1;
        let lhs = s[b + root].1;
        match s[b + root].0 {
            Token::Val(x) => s.update(b + root, (Token::Val(wneg(x)), lhs)),
            Token::Prefix(c) => if is_sign(c) {
                s.update(b + root, (Token::Prefix(fuse_sign2('-', c)), lhs))
            } else {
                s
            },
            Token::Var(id, c) => s.update(b + root, (Token::Var(id, wneg(c)), lhs)),
            Token::Op(op) => if is_addsub(op) && 1 <= lhs <= root {
                flipped(
                    flipped(s, b, root - lhs + 1),
                    b + root - lhs + 1,
                    lhs - 1,
                )
            } else {
                s
            },
            _ => s,
        }
    }
}

/// Whether every leaf of the additive tree in the window can take a sign.
fn is_flippable(v: &Vec<Node>, b: usize, n: usize) -> (r: bool)
    requires
        b + n <= v@.len(),
        small(v@),
    ensures
        r == flippable(v@, b as int, n as int),
    decreases n,
{
    if n == 0 {
        return false;
    }
    let root = n - 1;
    let (t, lhs) = v[b + root];
    match t {
        Token::Prefix(c) => c == '+' || c == '-',
        Token::Val(_) | Token::Var(_, _) => true,
        Token::Op(op) => {
            if !is_addsub(op) || lhs < 1 || lhs > root || lhs - 1 == 0 {
                return false;
            }
            assert(1 < lhs <= root);
            is_flippable(v, b, root - lhs + 1) && is_flippable(v, b + root - lhs + 1, lhs - 1)
        },
        _ => false,
    }
}

/// Negates every leaf of the additive tree in the window.
fn flip_leaf_signs(v: &mut Vec<Node>, b: usize, n: usize)
    requires
        b + n <= old(v)@.len(),
        small(old(v)@),
    ensures
        frame(old(v)@, final(v)@, b as int, n as int),
        final(v)@ == flipped(old(v)@, b as int, n as int),
    decreases n,
{
    if n == 0 {
        return;
    }
    let root = n - 1;
    let (t, lhs) = v[b + root];
    match t {
        Token::Val(x) => {
            v.set(b + root, (Token::Val(0i64.wrapping_sub(x)), lhs));
        },
        Token::Prefix(s) => {
            if is_sign(s) {
                v.set(b + root, (Token::Prefix(fuse_sign2('-', s)), lhs));
            }
        },
        Token::Var(id, c) => {
            v.set(b + root, (Token::Var(id, 0i64.wrapping_sub(c)), lhs));
        },
        Token::Op(op) => {
            if is_addsub(op) && lhs >= 1 && lhs <= root {
                flip_leaf_signs(v, b, root - lhs + 1);
                flip_leaf_signs(v, b + root - lhs + 1, lhs - 1);
            }
        },
        _ => {},
    }
}

/// `s` with the negated additive roots (`#`, `~`) of the tree in the
/// window `[b, b + n)` made plain where the leaves below them can take the
/// sign, from the root down.
pub closed spec fn signs_canonized(s: Seq<Node>, b: int, n: int) -> Seq<Node>
    decreases n,
{
    if n <= 1 {
        s
    } else {
        let root = n - 1;
        let lhs = s[b + root].1;
        let s1 = match s[b + root].0 {
            Token::Op(op) => if (op == '#' || op == '~') && flippable(s, b, n) {
                flipped(s, b, n).update(b + root, (Token::Op(peel_sign_from_op(op).1), lhs))
            } else {
                s
            },
            _ => s,
        };
        let lhs1 = s1[b + root].1 as int;
        match s1[b + root].0 {
            Token::Prefix(_) => if lhs1 == 1 {
                signs_canonized(s1, b, root)
            } else {
                s1
            },
            Token::Var(_, _) => if lhs1 == 1 {
                signs_canonized(s1, b, root)
            } else {
                s1
            },
            Token::Op(_) => if 1 <= lhs1 <= root {
                let s2 = signs_canonized(s1, b, root - lhs1 + 1);
                if lhs1 - 1 > 0 {
                    signs_canonized(s2, b + root - lhs1 + 1, lhs1 - 1)
                } else {
                    s2
                }
            } else {
                s1
            },
            _ => s1,
        }
    }
}

/// Turns negated additive roots (`#`, `~`) into plain ones by negating the
/// leaves, throughout the tree.
fn canonize_signs(v: &mut Vec<Node>, b: usize, n: usize)
    requires
        b + n <= old(v)@.len(),
        small(old(v)@),
    ensures
        frame(old(v)@, final(v)@, b as int, n as int),
        final(v)@ == signs_canonized(old(v)@, b as int, n as int),
    decreases n,
{
    if n <= 1 {
        return;
    }
    let root = n - 1;
    let (t, lhs) = v[b + root];
    match t {
        Token::Op(op) => {
            if (op == '#' || op == '~') && is_flippable(v, b, n) {
                flip_leaf_signs(v, b, n);
                v.set(b + root, (Token::Op(peel_sign_from_op(op).1), lhs));
            }
        },
        _ => {},
    }
    let (t, lhs) = v[b + root];
    match t {
        Token::Prefix(_) | Token::Var(_, _) => {
            if lhs == 1 {
                canonize_signs(v, b, root);
            }
        },
        Token::Op(_) => {
            if lhs >= 1 && lhs <= root {
                canonize_signs(v, b, root - lhs + 1);
                if lhs - 1 > 0 {
                    canonize_signs(v, b + root - lhs + 1, lhs - 1);
                }
            }
        },
        _ => {},
    }
}

/// Brings a reverse-Polish expression into canonical form; gives the length
/// of the canonical form, which stands at the head of `v`.
pub fn canonize_rpn(v: &mut Vec<Node>) -> (r: Option<usize>)
    requires
        small(old(v)@),
    ensures
        final(v)@.len() == old(v)@.len(),
        r matches Some(k) ==> 1 <= k <= final(v)@.len(),
        ({
            let (k, t) = rpn_simplified(old(v)@, 0, old(v)@.len() as int);
            &&& r is Some <==> k is Some
            &&& r matches Some(l) ==> l == k->Some_0 + 1 && final(v)@ == signs_canonized(t, 0, l as int)
            &&& r is None ==> final(v)@ == t
        }),
{
    let n = v.len();
    let len = simplify_rpn(v, 0, n)? + 1;
    canonize_signs(v, 0, len);
    Some(len)
}

} // verus!
