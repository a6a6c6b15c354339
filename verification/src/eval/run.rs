use vstd::prelude::*;
use vstd::wrapping::i64_specs;

use super::ops::{apply_op, apply_prefix, spec_apply_op, spec_apply_prefix};
use super::{EvalError, Token};

verus! {

/// Value of variable `id` (indexed by `x` for array variables) in an environment.
pub type Env = spec_fn(usize, i64) -> i64;

/// Whether the function `get` always answers as the environment `env` does.
pub open spec fn agrees<F: Fn(usize, i64) -> i64>(get: F, env: Env) -> bool {
    forall|a: usize, b: i64, v: i64| call_ensures(get, (a, b), v) ==> v == env(a, b)
}

/// One step of the evaluation stack machine on the node `t`.
pub open spec fn eval_step(t: (Token, usize), env: Env, stack: Seq<i64>) -> Result<
    Seq<i64>,
    EvalError,
> {
    match t.0 {
        Token::Val(v) => Ok(stack.push(v)),
        Token::Prefix(op) => if stack.len() == 0 {
            Err(EvalError::Starved)
        } else {
            match spec_apply_prefix(op, stack.last()) {
                None => Err(EvalError::Undefined),
                Some(x) => Ok(stack.update(stack.len() - 1, x)),
            }
        },
        Token::Op(op) => if stack.len() < 2 {
            Err(EvalError::Starved)
        } else {
            let y = stack.last();
            let s = stack.drop_last();
            match spec_apply_op(op, s.last(), y) {
                None => Err(EvalError::Undefined),
                Some(x) => Ok(s.update(s.len() - 1, x)),
            }
        },
        Token::Var(id, c) => if t.1 == 0 {
            Ok(stack.push(i64_specs::wrapping_mul(c, env(id, 0))))
        } else if stack.len() == 0 {
            Err(EvalError::Starved)
        } else {
            Ok(stack.update(stack.len() - 1, i64_specs::wrapping_mul(c, env(id, stack.last()))))
        },
        _ => Err(EvalError::Starved),
    }
}

/// Runs the stack machine over `tokens[i..]`.
pub open spec fn eval_from(tokens: Seq<(Token, usize)>, i: int, env: Env, stack: Seq<i64>) -> Result<
    Seq<i64>,
    EvalError,
>
    decreases tokens.len() - i,
{
    if i < 0 || i >= tokens.len() {
        Ok(stack)
    } else {
        match eval_step(tokens[i], env, stack) {
            Err(e) => Err(e),
            Ok(s) => eval_from(tokens, i + 1, env, s),
        }
    }
}

/// Value of a reverse-Polish expression: the single value left on the stack.
pub open spec fn spec_eval(tokens: Seq<(Token, usize)>, env: Env) -> Result<i64, EvalError> {
    match eval_from(tokens, 0, env, seq![]) {
        Err(e) => Err(e),
        Ok(s) => if s.len() == 1 {
            Ok(s[0])
        } else {
            Err(EvalError::Starved)
        },
    }
}

/// Evaluates a reverse-Polish expression; `get(id, x)` gives the value of
/// variable `id` (element `x` for array variables).
pub fn eval_rpn<F: Fn(usize, i64) -> i64>(tokens: &[(Token, usize)], get: F) -> (r: Result<
    i64,
    EvalError,
>)
    requires
        forall|a: usize, b: i64| get.requires((a, b)),
    ensures
        forall|env: Env| #[trigger] agrees(get, env) ==> r == spec_eval(tokens@, env),
{
    let mut stack: Vec<i64> = Vec::new();
    let n = tokens.len();
    let mut k: usize = 0;
    while k < n
        invariant
            n == tokens@.len(),
            k <= n,
            forall|a: usize, b: i64| get.requires((a, b)),
            forall|env: Env| #[trigger]
                agrees(get, env) ==> eval_from(tokens@, 0, env, seq![]) == eval_from(
                    tokens@,
                    k as int,
                    env,
                    stack@,
                ),
        decreases n - k,
    {
        let t = tokens[k];
        let ghost s0 = stack@;
        match t.0 {
            Token::Val(v) => {
                stack.push(v);
            },
            Token::Prefix(op) => {
                let len = stack.len();
                if len == 0 {
                    assert forall|env: Env| #[trigger] agrees(get, env) implies spec_eval(tokens@, env)
                        == Err::<i64, EvalError>(EvalError::Starved) by {
                        assert(eval_step(t, env, s0) == Err::<Seq<i64>, EvalError>(EvalError::Starved));
                    }
                    return Err(EvalError::Starved);
                }
                match apply_prefix(op, stack[len - 1]) {
                    None => {
                        assert forall|env: Env| #[trigger] agrees(get, env) implies spec_eval(
                            tokens@,
                            env,
                        ) == Err::<i64, EvalError>(EvalError::Undefined) by {
                            assert(eval_step(t, env, s0) == Err::<Seq<i64>, EvalError>(
                                EvalError::Undefined,
                            ));
                        }
                        return Err(EvalError::Undefined);
                    },
                    Some(x) => {
                        stack.set(len - 1, x);
                    },
                }
            },
            Token::Op(op) => {
                let len = stack.len();
                if len < 2 {
                    assert forall|env: Env| #[trigger] agrees(get, env) implies spec_eval(tokens@, env)
                        == Err::<i64, EvalError>(EvalError::Starved) by {
                        assert(eval_step(t, env, s0) == Err::<Seq<i64>, EvalError>(EvalError::Starved));
                    }
                    return Err(EvalError::Starved);
                }
                let y = stack.pop().unwrap();
                let ghost s1 = stack@;
                assert(s1 =~= s0.drop_last());
                match apply_op(op, stack[len - 2], y) {
                    None => {
                        assert forall|env: Env| #[trigger] agrees(get, env) implies spec_eval(
                            tokens@,
                            env,
                        ) == Err::<i64, EvalError>(EvalError::Undefined) by {
                            assert(eval_step(t, env, s0) == Err::<Seq<i64>, EvalError>(
                                EvalError::Undefined,
                            ));
                        }
                        return Err(EvalError::Undefined);
                    },
                    Some(x) => {
                        stack.set(len - 2, x);
                    },
                }
            },
            Token::Var(id, c) => {
                if t.1 == 0 {
                    let v = get(id, 0);
                    stack.push(c.wrapping_mul(v));
                } else {
                    let len = stack.len();
                    if len == 0 {
                        assert forall|env: Env| #[trigger] agrees(get, env) implies spec_eval(
                            tokens@,
                            env,
                        ) == Err::<i64, EvalError>(EvalError::Starved) by {
                            assert(eval_step(t, env, s0) == Err::<Seq<i64>, EvalError>(
                                EvalError::Starved,
                            ));
                        }
                        return Err(EvalError::Starved);
                    }
                    let v = get(id, stack[len - 1]);
                    stack.set(len - 1, c.wrapping_mul(v));
                }
            },
            _ => {
                assert forall|env: Env| #[trigger] agrees(get, env) implies spec_eval(tokens@, env)
                    == Err::<i64, EvalError>(EvalError::Starved) by {
                    assert(eval_step(t, env, s0) == Err::<Seq<i64>, EvalError>(EvalError::Starved));
                }
                return Err(EvalError::Starved);
            },
        }
        assert forall|env: Env| #[trigger] agrees(get, env) implies eval_step(t, env, s0) == Ok::<
            Seq<i64>,
            EvalError,
        >(stack@) by {
            assert(stack@ =~= eval_step(t, env, s0).unwrap());
        }
        k = k + 1;
    }
    if stack.len() != 1 {
        return Err(EvalError::Starved);
    }
    Ok(stack[0])
}

} // verus!
