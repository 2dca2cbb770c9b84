//! Properties that hold of every environment and every evaluation.
use vstd::prelude::*;

use crate::lang::ast::{SpecClause, SpecExpr, SpecLetBinding, SpecRecBinding};
use crate::lang::envs::{apply_env, rec_position, SpecEnv};
use crate::lang::eval::{
    apply_builtin, bind_lets, bind_params, cond_from, diff_from, diff_vals, eval, in_i64, num_of,
    or_from,
    sum_from, sum_vals, vals_from, Abort, Outcome, SpecEvalError,
};
use crate::lang::vals::{PrimOp, SpecProc, SpecVal, SpecValError};

verus! {

/// The empty environment binds no name.
pub proof fn law_empty_env_binds_nothing(x: Seq<char>)
    ensures
        apply_env(SpecEnv::Empty, x) is None,
{
}

/// Looking a name up right after binding it gives the value just bound: the nearest binding
/// hides any outer binding of the same name.
pub proof fn law_lookup_finds_nearest_binding(env: SpecEnv, x: Seq<char>, v: SpecVal)
    ensures
        apply_env(SpecEnv::Extend(x, v, Box::new(env)), x) == Some(v),
{
}

/// Binding one name leaves the lookup of every other name as it was.
pub proof fn law_lookup_skips_other_names(env: SpecEnv, x: Seq<char>, y: Seq<char>, v: SpecVal)
    requires
        x != y,
    ensures
        apply_env(SpecEnv::Extend(y, v, Box::new(env)), x) == apply_env(env, x),
{
}

proof fn lemma_rec_position_first(bs: Seq<SpecRecBinding>, k: int, i: int)
    requires
        0 <= i <= k < bs.len(),
        forall|j: int| i <= j < k ==> bs[j].name != bs[k].name,
    ensures
        rec_position(bs, bs[k].name, i) == Some(k),
    decreases k - i,
{
    if i < k {
        lemma_rec_position_first(bs, k, i + 1);
    }
}

/// A name bound by `letrec` denotes the procedure of its first binding, and that procedure's
/// saved environment is the recursive environment itself, so that its body sees the name
/// again.
pub proof fn law_letrec_binding_is_recursive(bs: Seq<SpecRecBinding>, outer: SpecEnv, k: int)
    requires
        0 <= k < bs.len(),
        forall|j: int| 0 <= j < k ==> bs[j].name != bs[k].name,
    ensures
        apply_env(SpecEnv::ExtendRec(bs, Box::new(outer)), bs[k].name) == Some(
            SpecVal::Proc(
                SpecProc::Closure(
                    bs[k].params,
                    bs[k].body,
                    Box::new(SpecEnv::ExtendRec(bs, Box::new(outer))),
                ),
            ),
        ),
{
    lemma_rec_position_first(bs, k, 0);
}

/// What evaluating the arguments one by one gives: the values after `acc`, one for each
/// argument, unless one of them does not evaluate to a value.
pub proof fn lemma_vals_from(
    d: nat,
    env: SpecEnv,
    args: Seq<SpecExpr>,
    k: int,
    acc: Seq<SpecVal>,
)
    requires
        0 <= k <= args.len(),
    ensures
        vals_from(d, env, args, k, acc) matches Ok(vs) ==> {
            &&& vs.len() == acc.len() + args.len() - k
            &&& vs.subrange(0, acc.len() as int) == acc
            &&& forall|j: int|
                k <= j < args.len() ==> #[trigger] eval(d, env, args[j]) == Outcome::Value(
                    vs[acc.len() + j - k],
                )
        },
    decreases args.len() - k,
{
    if k < args.len() {
        if let Outcome::Value(v) = eval(d, env, args[k]) {
            lemma_vals_from(d, env, args, k + 1, acc.push(v));
            if let Ok(vs) = vals_from(d, env, args, k, acc) {
                let pre = vs.subrange(0, (acc.len() + 1) as int);
                assert(pre == acc.push(v));
                assert(vs.subrange(0, acc.len() as int) =~= pre.subrange(0, acc.len() as int));
                assert(vs[acc.len() as int] == pre[acc.len() as int]);
                assert forall|j: int| k <= j < args.len() implies #[trigger] eval(d, env, args[j])
                    == Outcome::Value(vs[acc.len() + j - k]) by {
                    if j > k {
                        assert(eval(d, env, args[j]) == Outcome::Value(
                            vs[acc.push(v).len() + j - (k + 1)],
                        ));
                    }
                }
            }
        }
    } else {
        if let Ok(vs) = vals_from(d, env, args, k, acc) {
            assert(vs.subrange(0, acc.len() as int) =~= acc);
        }
    }
}

proof fn lemma_sum_agrees(d: nat, env: SpecEnv, args: Seq<SpecExpr>, vs: Seq<SpecVal>, k: int, acc: i64)
    requires
        0 <= k <= args.len(),
        vs.len() == args.len(),
        forall|j: int| 0 <= j < args.len() ==> #[trigger] eval(d, env, args[j]) == Outcome::Value(vs[j]),
    ensures
        sum_from(d, env, args, k, acc) == sum_vals(vs, k, acc),
    decreases args.len() - k,
{
    if k < args.len() {
        assert(eval(d, env, args[k]) == Outcome::Value(vs[k]));
        if let Outcome::Value(SpecVal::Num(n)) = eval(d, env, args[k]) {
            if i64::MIN <= acc + n <= i64::MAX {
                lemma_sum_agrees(d, env, args, vs, k + 1, (acc + n) as i64);
            }
        }
    }
}

proof fn lemma_diff_agrees(d: nat, env: SpecEnv, args: Seq<SpecExpr>, vs: Seq<SpecVal>, k: int, acc: i64)
    requires
        0 <= k <= args.len(),
        vs.len() == args.len(),
        forall|j: int| 0 <= j < args.len() ==> #[trigger] eval(d, env, args[j]) == Outcome::Value(vs[j]),
    ensures
        diff_from(d, env, args, k, acc) == diff_vals(vs, k, acc),
    decreases args.len() - k,
{
    if k < args.len() {
        assert(eval(d, env, args[k]) == Outcome::Value(vs[k]));
        if let Outcome::Value(SpecVal::Num(n)) = eval(d, env, args[k]) {
            if i64::MIN <= acc - n <= i64::MAX {
                lemma_diff_agrees(d, env, args, vs, k + 1, (acc - n) as i64);
            }
        }
    }
}

/// `+(a ...)` computes what the built-in procedure `+` computes on the values of its
/// arguments: their sum from left to right, starting from 0.
pub proof fn law_add_form_is_builtin_add(d: nat, env: SpecEnv, args: Seq<SpecExpr>, vs: Seq<SpecVal>)
    requires
        vals_from(d, env, args, 0, Seq::empty()) == Ok::<Seq<SpecVal>, Outcome>(vs),
    ensures
        eval(d, env, SpecExpr::Add(args)) == apply_builtin(PrimOp::Add, vs),
{
    lemma_vals_from(d, env, args, 0, Seq::empty());
    assert forall|j: int| 0 <= j < args.len() implies #[trigger] eval(d, env, args[j]) == Outcome::Value(vs[j]) by {
        assert(eval(d, env, args[j]) == Outcome::Value(vs[0 + j - 0]));
    }
    lemma_sum_agrees(d, env, args, vs, 0, 0);
}

/// `-(a ...)` computes what the built-in procedure `-` computes on the values of its
/// arguments: the negation of a single argument, or the first minus the others from left to
/// right, and an error with no argument.
pub proof fn law_sub_form_is_builtin_sub(d: nat, env: SpecEnv, args: Seq<SpecExpr>, vs: Seq<SpecVal>)
    requires
        vals_from(d, env, args, 0, Seq::empty()) == Ok::<Seq<SpecVal>, Outcome>(vs),
    ensures
        eval(d, env, SpecExpr::Sub(args)) == apply_builtin(PrimOp::Sub, vs),
{
    lemma_vals_from(d, env, args, 0, Seq::empty());
    assert forall|j: int| 0 <= j < args.len() implies #[trigger] eval(d, env, args[j]) == Outcome::Value(vs[j]) by {
        assert(eval(d, env, args[j]) == Outcome::Value(vs[0 + j - 0]));
    }
    if args.len() > 0 {
        assert(eval(d, env, args[0]) == Outcome::Value(vs[0]));
        if let Outcome::Value(SpecVal::Num(n)) = eval(d, env, args[0]) {
            lemma_diff_agrees(d, env, args, vs, 1, n);
        }
    }
}

/// `not(a)` computes what the built-in procedure `not` computes on the value of `a`.
pub proof fn law_not_form_is_builtin_not(d: nat, env: SpecEnv, a: SpecExpr, v: SpecVal)
    requires
        eval(d, env, a) == Outcome::Value(v),
    ensures
        eval(d, env, SpecExpr::Not(Box::new(a))) == apply_builtin(PrimOp::Not, seq![v]),
{
}

/// `=(a b)` computes what the built-in procedure `=` computes on the values of `a` and `b`.
pub proof fn law_equal_form_is_builtin_eq(d: nat, env: SpecEnv, a: SpecExpr, b: SpecExpr, va: SpecVal, vb: SpecVal)
    requires
        eval(d, env, a) == Outcome::Value(va),
        eval(d, env, b) == Outcome::Value(vb),
    ensures
        eval(d, env, SpecExpr::Equal(Box::new(a), Box::new(b))) == apply_builtin(PrimOp::Eq, seq![va, vb]),
{
}

/// `or` stops at its first argument that evaluates to `true` and answers `true`, whatever the
/// arguments after it would do.
pub proof fn law_or_short_circuits(d: nat, env: SpecEnv, args: Seq<SpecExpr>, k: int)
    requires
        0 <= k < args.len(),
        eval(d, env, args[k]) == Outcome::Value(SpecVal::Bool(true)),
        forall|j: int| 0 <= j < k ==> #[trigger] eval(d, env, args[j]) == Outcome::Value(SpecVal::Bool(false)),
    ensures
        eval(d, env, SpecExpr::Or(args)) == Outcome::Value(SpecVal::Bool(true)),
{
    lemma_or_prefix(d, env, args, k, 0);
}

proof fn lemma_or_prefix(d: nat, env: SpecEnv, args: Seq<SpecExpr>, k: int, i: int)
    requires
        0 <= i <= k < args.len(),
        eval(d, env, args[k]) == Outcome::Value(SpecVal::Bool(true)),
        forall|j: int| 0 <= j < k ==> #[trigger] eval(d, env, args[j]) == Outcome::Value(SpecVal::Bool(false)),
    ensures
        or_from(d, env, args, i) == Outcome::Value(SpecVal::Bool(true)),
    decreases k - i,
{
    if i < k {
        assert(eval(d, env, args[i]) == Outcome::Value(SpecVal::Bool(false)));
        lemma_or_prefix(d, env, args, k, i + 1);
    }
}

/// `or` answers `false` when every argument evaluates to `false`, and `or()` is `false`.
pub proof fn law_or_all_false(d: nat, env: SpecEnv, args: Seq<SpecExpr>)
    requires
        forall|j: int| 0 <= j < args.len() ==> #[trigger] eval(d, env, args[j]) == Outcome::Value(SpecVal::Bool(false)),
    ensures
        eval(d, env, SpecExpr::Or(args)) == Outcome::Value(SpecVal::Bool(false)),
{
    lemma_or_all_false(d, env, args, 0);
}

proof fn lemma_or_all_false(d: nat, env: SpecEnv, args: Seq<SpecExpr>, i: int)
    requires
        0 <= i <= args.len(),
        forall|j: int| 0 <= j < args.len() ==> #[trigger] eval(d, env, args[j]) == Outcome::Value(SpecVal::Bool(false)),
    ensures
        or_from(d, env, args, i) == Outcome::Value(SpecVal::Bool(false)),
    decreases args.len() - i,
{
    if i < args.len() {
        assert(eval(d, env, args[i]) == Outcome::Value(SpecVal::Bool(false)));
        lemma_or_all_false(d, env, args, i + 1);
    }
}

/// `cond` gives the result of its first clause whose condition evaluates to `true`; the
/// clauses after it are not looked at.
pub proof fn law_cond_takes_first_true_clause(d: nat, env: SpecEnv, cs: Seq<SpecClause>, k: int)
    requires
        0 <= k < cs.len(),
        eval(d, env, cs[k].condition) == Outcome::Value(SpecVal::Bool(true)),
        forall|j: int| 0 <= j < k ==> #[trigger] eval(d, env, cs[j].condition) == Outcome::Value(SpecVal::Bool(false)),
    ensures
        eval(d, env, SpecExpr::Cond(cs)) == eval(d, env, cs[k].result),
{
    lemma_cond_prefix(d, env, cs, k, 0);
}

proof fn lemma_cond_prefix(d: nat, env: SpecEnv, cs: Seq<SpecClause>, k: int, i: int)
    requires
        0 <= i <= k < cs.len(),
        eval(d, env, cs[k].condition) == Outcome::Value(SpecVal::Bool(true)),
        forall|j: int| 0 <= j < k ==> #[trigger] eval(d, env, cs[j].condition) == Outcome::Value(SpecVal::Bool(false)),
    ensures
        cond_from(d, env, cs, i) == eval(d, env, cs[k].result),
    decreases k - i,
{
    if i < k {
        assert(eval(d, env, cs[i].condition) == Outcome::Value(SpecVal::Bool(false)));
        lemma_cond_prefix(d, env, cs, k, i + 1);
    }
}

/// `cond` is an error when no condition evaluates to `true`.
pub proof fn law_cond_without_match_fails(d: nat, env: SpecEnv, cs: Seq<SpecClause>)
    requires
        forall|j: int| 0 <= j < cs.len() ==> #[trigger] eval(d, env, cs[j].condition) == Outcome::Value(SpecVal::Bool(false)),
    ensures
        eval(d, env, SpecExpr::Cond(cs)) == Outcome::Error(SpecEvalError::NoCondClauseMatched),
{
    lemma_cond_none(d, env, cs, 0);
}

proof fn lemma_cond_none(d: nat, env: SpecEnv, cs: Seq<SpecClause>, i: int)
    requires
        0 <= i <= cs.len(),
        forall|j: int| 0 <= j < cs.len() ==> #[trigger] eval(d, env, cs[j].condition) == Outcome::Value(SpecVal::Bool(false)),
    ensures
        cond_from(d, env, cs, i) == Outcome::Error(SpecEvalError::NoCondClauseMatched),
    decreases cs.len() - i,
{
    if i < cs.len() {
        assert(eval(d, env, cs[i].condition) == Outcome::Value(SpecVal::Bool(false)));
        lemma_cond_none(d, env, cs, i + 1);
    }
}

pub open spec fn let_names(bs: Seq<SpecLetBinding>) -> Seq<Seq<char>> {
    bs.map_values(|b: SpecLetBinding| b.name)
}

pub open spec fn let_values(bs: Seq<SpecLetBinding>) -> Seq<SpecExpr> {
    bs.map_values(|b: SpecLetBinding| b.value)
}

proof fn lemma_bind_lets(
    d: nat,
    env: SpecEnv,
    bs: Seq<SpecLetBinding>,
    vs: Seq<SpecVal>,
    k: int,
    acc: SpecEnv,
)
    requires
        0 <= k <= bs.len(),
        vs.len() == bs.len(),
        forall|j: int| 0 <= j < bs.len() ==> #[trigger] eval(d, env, bs[j].value) == Outcome::Value(vs[j]),
    ensures
        bind_lets(d, env, bs, k, acc) == Ok::<SpecEnv, Outcome>(bind_params(acc, let_names(bs), vs, k)),
    decreases bs.len() - k,
{
    if k < bs.len() {
        assert(eval(d, env, bs[k].value) == Outcome::Value(vs[k]));
        lemma_bind_lets(d, env, bs, vs, k + 1, SpecEnv::Extend(bs[k].name, vs[k], Box::new(acc)));
    }
}

/// The values of one `let` are all computed in the outer environment, so that a binding does
/// not see the bindings before it; the body then sees them all, a later binding of a name
/// hiding an earlier one.
pub proof fn law_let_binds_in_parallel(
    d: nat,
    env: SpecEnv,
    bs: Seq<SpecLetBinding>,
    body: SpecExpr,
    vs: Seq<SpecVal>,
)
    requires
        vals_from(d, env, let_values(bs), 0, Seq::empty()) == Ok::<Seq<SpecVal>, Outcome>(vs),
    ensures
        eval(d, env, SpecExpr::Let(bs, Box::new(body))) == eval(d, bind_params(env, let_names(bs), vs, 0), body),
{
    lemma_vals_from(d, env, let_values(bs), 0, Seq::empty());
    assert forall|j: int| 0 <= j < bs.len() implies #[trigger] eval(d, env, bs[j].value) == Outcome::Value(vs[j]) by {
        assert(let_values(bs)[j] == bs[j].value);
        assert(eval(d, env, let_values(bs)[j]) == Outcome::Value(vs[0 + j - 0]));
    }
    lemma_bind_lets(d, env, bs, vs, 0, env);
}

/// A call binds the parameters to the argument values in the environment that the procedure
/// saved when it was made, not in the caller's: scoping is static.
pub proof fn law_call_uses_saved_environment(
    d: nat,
    env: SpecEnv,
    rator: SpecExpr,
    rands: Seq<SpecExpr>,
    ps: Seq<Seq<char>>,
    body: SpecExpr,
    saved: SpecEnv,
    vs: Seq<SpecVal>,
)
    requires
        d > 0,
        eval(d, env, rator) == Outcome::Value(SpecVal::Proc(SpecProc::Closure(ps, body, Box::new(saved)))),
        vals_from(d, env, rands, 0, Seq::empty()) == Ok::<Seq<SpecVal>, Outcome>(vs),
        ps.len() == vs.len(),
    ensures
        eval(d, env, SpecExpr::Call(Box::new(rator), rands)) == eval((d - 1) as nat, bind_params(saved, ps, vs, 0), body),
{
}

/// The outcome is the evaluator running out of call depth.
pub open spec fn depth_cut(o: Outcome) -> bool {
    o == Outcome::Abort(Abort::CallDepth)
}

/// A result that is not the evaluator running out of call depth.
pub open spec fn result_not_cut<T>(r: Result<T, Outcome>) -> bool {
    !(r matches Err(o) && depth_cut(o))
}

proof fn lemma_eval_depth(d1: nat, d2: nat, env: SpecEnv, e: SpecExpr)
    requires
        d1 <= d2,
        !depth_cut(eval(d1, env, e)),
    ensures
        eval(d2, env, e) == eval(d1, env, e),
    decreases d1, e, 0int,
{
    match e {
        SpecExpr::Add(args) => lemma_sum_depth(d1, d2, env, args, 0, 0),
        SpecExpr::Sub(args) => {
            if args.len() > 0 && !depth_cut(eval(d1, env, args[0])) {
                lemma_eval_depth(d1, d2, env, args[0]);
                if let Outcome::Value(SpecVal::Num(n)) = eval(d1, env, args[0]) {
                    lemma_diff_depth(d1, d2, env, args, 1, n);
                }
            }
        },
        SpecExpr::Or(args) => lemma_or_depth(d1, d2, env, args, 0),
        SpecExpr::Not(a) => {
            if !depth_cut(eval(d1, env, *a)) {
                lemma_eval_depth(d1, d2, env, *a);
            }
        },
        SpecExpr::Equal(a, b) => {
            if !depth_cut(eval(d1, env, *a)) {
                lemma_eval_depth(d1, d2, env, *a);
                if !depth_cut(eval(d1, env, *b)) {
                    lemma_eval_depth(d1, d2, env, *b);
                }
            }
        },
        SpecExpr::Cond(cs) => lemma_cond_depth(d1, d2, env, cs, 0),
        SpecExpr::Let(bs, body) => {
            if result_not_cut(bind_lets(d1, env, bs, 0, env)) {
                lemma_bind_lets_depth(d1, d2, env, bs, 0, env);
                if let Ok(inner) = bind_lets(d1, env, bs, 0, env) {
                    lemma_eval_depth(d1, d2, inner, *body);
                }
            }
        },
        SpecExpr::LetRec(bs, body) => {
            lemma_eval_depth(d1, d2, SpecEnv::ExtendRec(bs, Box::new(env)), *body);
        },
        SpecExpr::Call(rator, rands) => {
            if !depth_cut(eval(d1, env, *rator)) {
                lemma_eval_depth(d1, d2, env, *rator);
                if result_not_cut(vals_from(d1, env, rands, 0, Seq::empty())) {
                    lemma_vals_depth(d1, d2, env, rands, 0, Seq::empty());
                    if let Outcome::Value(SpecVal::Proc(SpecProc::Closure(ps, body, saved))) = eval(
                        d1,
                        env,
                        *rator,
                    ) {
                        if let Ok(vs) = vals_from(d1, env, rands, 0, Seq::empty()) {
                            if ps.len() == vs.len() && d1 > 0 {
                                lemma_eval_depth(
                                    (d1 - 1) as nat,
                                    (d2 - 1) as nat,
                                    bind_params(*saved, ps, vs, 0),
                                    body,
                                );
                            }
                        }
                    }
                }
            }
        },
        _ => {},
    }
}

proof fn lemma_sum_depth(d1: nat, d2: nat, env: SpecEnv, args: Seq<SpecExpr>, k: int, acc: i64)
    requires
        d1 <= d2,
        !depth_cut(sum_from(d1, env, args, k, acc)),
    ensures
        sum_from(d2, env, args, k, acc) == sum_from(d1, env, args, k, acc),
    decreases d1, args, args.len() - k,
{
    if 0 <= k < args.len() && !depth_cut(eval(d1, env, args[k])) {
        lemma_eval_depth(d1, d2, env, args[k]);
        if let Outcome::Value(SpecVal::Num(n)) = eval(d1, env, args[k]) {
            if in_i64(acc + n) {
                lemma_sum_depth(d1, d2, env, args, k + 1, (acc + n) as i64);
            }
        }
    }
}

proof fn lemma_diff_depth(d1: nat, d2: nat, env: SpecEnv, args: Seq<SpecExpr>, k: int, acc: i64)
    requires
        d1 <= d2,
        !depth_cut(diff_from(d1, env, args, k, acc)),
    ensures
        diff_from(d2, env, args, k, acc) == diff_from(d1, env, args, k, acc),
    decreases d1, args, args.len() - k,
{
    if 0 <= k < args.len() && !depth_cut(eval(d1, env, args[k])) {
        lemma_eval_depth(d1, d2, env, args[k]);
        if let Outcome::Value(SpecVal::Num(n)) = eval(d1, env, args[k]) {
            if in_i64(acc - n) {
                lemma_diff_depth(d1, d2, env, args, k + 1, (acc - n) as i64);
            }
        }
    }
}

proof fn lemma_or_depth(d1: nat, d2: nat, env: SpecEnv, args: Seq<SpecExpr>, k: int)
    requires
        d1 <= d2,
        !depth_cut(or_from(d1, env, args, k)),
    ensures
        or_from(d2, env, args, k) == or_from(d1, env, args, k),
    decreases d1, args, args.len() - k,
{
    if 0 <= k < args.len() && !depth_cut(eval(d1, env, args[k])) {
        lemma_eval_depth(d1, d2, env, args[k]);
        if eval(d1, env, args[k]) == Outcome::Value(SpecVal::Bool(false)) {
            lemma_or_depth(d1, d2, env, args, k + 1);
        }
    }
}

proof fn lemma_cond_depth(d1: nat, d2: nat, env: SpecEnv, cs: Seq<SpecClause>, k: int)
    requires
        d1 <= d2,
        !depth_cut(cond_from(d1, env, cs, k)),
    ensures
        cond_from(d2, env, cs, k) == cond_from(d1, env, cs, k),
    decreases d1, cs, cs.len() - k,
{
    if 0 <= k < cs.len() && !depth_cut(eval(d1, env, cs[k].condition)) {
        lemma_eval_depth(d1, d2, env, cs[k].condition);
        if eval(d1, env, cs[k].condition) == Outcome::Value(SpecVal::Bool(true)) {
            lemma_eval_depth(d1, d2, env, cs[k].result);
        } else if eval(d1, env, cs[k].condition) == Outcome::Value(SpecVal::Bool(false)) {
            lemma_cond_depth(d1, d2, env, cs, k + 1);
        }
    }
}

proof fn lemma_bind_lets_depth(
    d1: nat,
    d2: nat,
    env: SpecEnv,
    bs: Seq<SpecLetBinding>,
    k: int,
    acc: SpecEnv,
)
    requires
        d1 <= d2,
        result_not_cut(bind_lets(d1, env, bs, k, acc)),
    ensures
        bind_lets(d2, env, bs, k, acc) == bind_lets(d1, env, bs, k, acc),
    decreases d1, bs, bs.len() - k,
{
    if 0 <= k < bs.len() && !depth_cut(eval(d1, env, bs[k].value)) {
        lemma_eval_depth(d1, d2, env, bs[k].value);
        if let Outcome::Value(v) = eval(d1, env, bs[k].value) {
            lemma_bind_lets_depth(d1, d2, env, bs, k + 1, SpecEnv::Extend(bs[k].name, v, Box::new(acc)));
        }
    }
}

proof fn lemma_vals_depth(
    d1: nat,
    d2: nat,
    env: SpecEnv,
    args: Seq<SpecExpr>,
    k: int,
    acc: Seq<SpecVal>,
)
    requires
        d1 <= d2,
        result_not_cut(vals_from(d1, env, args, k, acc)),
    ensures
        vals_from(d2, env, args, k, acc) == vals_from(d1, env, args, k, acc),
    decreases d1, args, args.len() - k,
{
    if 0 <= k < args.len() && !depth_cut(eval(d1, env, args[k])) {
        lemma_eval_depth(d1, d2, env, args[k]);
        if let Outcome::Value(v) = eval(d1, env, args[k]) {
            lemma_vals_depth(d1, d2, env, args, k + 1, acc.push(v));
        }
    }
}

/// A deeper call limit changes no outcome but running out of call depth: whatever an
/// evaluation gives within `d1` nested calls, it gives within any `d2 >= d1` too.
pub proof fn law_more_depth_same_outcome(d1: nat, d2: nat, env: SpecEnv, e: SpecExpr)
    requires
        d1 <= d2,
        !depth_cut(eval(d1, env, e)),
    ensures
        eval(d2, env, e) == eval(d1, env, e),
{
    lemma_eval_depth(d1, d2, env, e);
}

/// The sum of a sequence of numbers.
pub open spec fn sum_ints(ns: Seq<i64>) -> int
    decreases ns.len(),
{
    if ns.len() == 0 {
        0
    } else {
        sum_ints(ns.drop_last()) + ns.last()
    }
}

/// Every sum of a prefix of `ns` fits in `i64`.
pub open spec fn prefix_sums_fit(ns: Seq<i64>) -> bool {
    forall|k: int| 0 <= k <= ns.len() ==> #[trigger] in_i64(sum_ints(ns.take(k)))
}

/// What an outcome that is not a number makes of an arithmetic form: a value of another kind is
/// an error that names it; an error or an abort stays as it is.
pub open spec fn not_a_number(o: Outcome) -> Outcome {
    match o {
        Outcome::Value(v) => Outcome::Error(SpecEvalError::Val(SpecValError::NumExpected(v))),
        _ => o,
    }
}

/// What an outcome that is not a boolean makes of `or`, `not` or `cond`.
pub open spec fn not_a_boolean(o: Outcome) -> Outcome {
    match o {
        Outcome::Value(v) => Outcome::Error(SpecEvalError::Val(SpecValError::BoolExpected(v))),
        _ => o,
    }
}

proof fn lemma_sum_numbers(d: nat, env: SpecEnv, args: Seq<SpecExpr>, ns: Seq<i64>, k: int, n: int)
    requires
        0 <= k <= n <= args.len(),
        n <= ns.len(),
        forall|i: int| 0 <= i < n ==> #[trigger] eval(d, env, args[i]) == Outcome::Value(SpecVal::Num(ns[i])),
        prefix_sums_fit(ns),
    ensures
        n == args.len() ==> sum_from(d, env, args, k, sum_ints(ns.take(k)) as i64) == Outcome::Value(
            SpecVal::Num(sum_ints(ns.take(n)) as i64),
        ),
        n < args.len() && !(eval(d, env, args[n]) matches Outcome::Value(SpecVal::Num(_))) ==> sum_from(
            d,
            env,
            args,
            k,
            sum_ints(ns.take(k)) as i64,
        ) == not_a_number(eval(d, env, args[n])),
    decreases n - k,
{
    assert(in_i64(sum_ints(ns.take(k))));
    let acc = sum_ints(ns.take(k)) as i64;
    if k < n {
        assert(ns.take(k + 1).drop_last() =~= ns.take(k));
        assert(ns.take(k + 1).last() == ns[k]);
        assert(in_i64(sum_ints(ns.take(k + 1))));
        assert(eval(d, env, args[k]) == Outcome::Value(SpecVal::Num(ns[k])));
        assert(acc + ns[k] == sum_ints(ns.take(k + 1)));
        assert(sum_from(d, env, args, k, acc) == sum_from(
            d,
            env,
            args,
            k + 1,
            sum_ints(ns.take(k + 1)) as i64,
        ));
        lemma_sum_numbers(d, env, args, ns, k + 1, n);
    } else if n < args.len() && !(eval(d, env, args[n]) matches Outcome::Value(SpecVal::Num(_))) {
        assert(num_of(eval(d, env, args[n])) == Err::<i64, Outcome>(not_a_number(eval(d, env, args[n]))));
    }
}

/// `+` of arguments that evaluate to numbers, whose sums from the left all fit in `i64`, is
/// their sum (0 for no argument).
pub proof fn law_add_of_numbers(d: nat, env: SpecEnv, args: Seq<SpecExpr>, ns: Seq<i64>)
    requires
        ns.len() == args.len(),
        forall|i: int| 0 <= i < args.len() ==> #[trigger] eval(d, env, args[i]) == Outcome::Value(SpecVal::Num(ns[i])),
        prefix_sums_fit(ns),
    ensures
        eval(d, env, SpecExpr::Add(args)) == Outcome::Value(SpecVal::Num(sum_ints(ns) as i64)),
{
    assert(ns.take(0) =~= Seq::<i64>::empty());
    assert(ns.take(ns.len() as int) =~= ns);
    lemma_sum_numbers(d, env, args, ns, 0, args.len() as int);
}

/// `+` stops at its first argument that does not evaluate to a number (the sums before it
/// fitting in `i64`): an error or abort there is the result, and a value of another kind is an
/// error that names it; the arguments after it are not looked at.
pub proof fn law_add_stops_at_first_non_number(
    d: nat,
    env: SpecEnv,
    args: Seq<SpecExpr>,
    ns: Seq<i64>,
)
    requires
        ns.len() < args.len(),
        forall|i: int| 0 <= i < ns.len() ==> #[trigger] eval(d, env, args[i]) == Outcome::Value(SpecVal::Num(ns[i])),
        prefix_sums_fit(ns),
        !(eval(d, env, args[ns.len() as int]) matches Outcome::Value(SpecVal::Num(_))),
    ensures
        eval(d, env, SpecExpr::Add(args)) == not_a_number(eval(d, env, args[ns.len() as int])),
{
    assert(ns.take(0) =~= Seq::<i64>::empty());
    lemma_sum_numbers(d, env, args, ns, 0, ns.len() as int);
}

/// `ns[0]` minus the numbers `ns[1..k]`, from left to right.
pub open spec fn diff_ints(ns: Seq<i64>, k: int) -> int
    decreases k,
{
    if k <= 1 {
        ns[0] as int
    } else {
        diff_ints(ns, k - 1) - ns[k - 1]
    }
}

proof fn lemma_diff_numbers(d: nat, env: SpecEnv, args: Seq<SpecExpr>, ns: Seq<i64>, k: int)
    requires
        1 <= k <= args.len(),
        ns.len() == args.len(),
        forall|i: int| 0 <= i < args.len() ==> #[trigger] eval(d, env, args[i]) == Outcome::Value(SpecVal::Num(ns[i])),
        forall|j: int| 1 <= j <= args.len() ==> #[trigger] in_i64(diff_ints(ns, j)),
    ensures
        diff_from(d, env, args, k, diff_ints(ns, k) as i64) == Outcome::Value(
            SpecVal::Num(diff_ints(ns, args.len() as int) as i64),
        ),
    decreases args.len() - k,
{
    assert(in_i64(diff_ints(ns, k)));
    let acc = diff_ints(ns, k) as i64;
    if k < args.len() {
        assert(in_i64(diff_ints(ns, k + 1)));
        assert(eval(d, env, args[k]) == Outcome::Value(SpecVal::Num(ns[k])));
        assert(diff_ints(ns, k + 1) == diff_ints(ns, k) - ns[k]);
        assert(diff_from(d, env, args, k, acc) == diff_from(
            d,
            env,
            args,
            k + 1,
            diff_ints(ns, k + 1) as i64,
        ));
        lemma_diff_numbers(d, env, args, ns, k + 1);
    }
}

/// `-` of one argument that evaluates to a number other than `i64::MIN` is its negation; of
/// several arguments that evaluate to numbers, whose differences from the left all fit in
/// `i64`, it is the first minus the others from left to right.
pub proof fn law_sub_of_numbers(d: nat, env: SpecEnv, args: Seq<SpecExpr>, ns: Seq<i64>)
    requires
        ns.len() == args.len(),
        args.len() >= 1,
        forall|i: int| 0 <= i < args.len() ==> #[trigger] eval(d, env, args[i]) == Outcome::Value(SpecVal::Num(ns[i])),
        args.len() == 1 ==> ns[0] != i64::MIN,
        forall|j: int| 1 <= j <= args.len() ==> #[trigger] in_i64(diff_ints(ns, j)),
    ensures
        eval(d, env, SpecExpr::Sub(args)) == Outcome::Value(
            SpecVal::Num(
                if args.len() == 1 {
                    -ns[0]
                } else {
                    diff_ints(ns, args.len() as int)
                } as i64,
            ),
        ),
{
    assert(eval(d, env, args[0]) == Outcome::Value(SpecVal::Num(ns[0])));
    if args.len() > 1 {
        assert(in_i64(diff_ints(ns, 1)));
        lemma_diff_numbers(d, env, args, ns, 1);
    }
}

proof fn lemma_or_stop(d: nat, env: SpecEnv, args: Seq<SpecExpr>, k: int, i: int)
    requires
        0 <= i <= k < args.len(),
        eval(d, env, args[k]) != Outcome::Value(SpecVal::Bool(false)),
        forall|j: int| 0 <= j < k ==> #[trigger] eval(d, env, args[j]) == Outcome::Value(SpecVal::Bool(false)),
    ensures
        or_from(d, env, args, i) == if eval(d, env, args[k]) == Outcome::Value(SpecVal::Bool(true)) {
            Outcome::Value(SpecVal::Bool(true))
        } else {
            not_a_boolean(eval(d, env, args[k]))
        },
    decreases k - i,
{
    if i < k {
        assert(eval(d, env, args[i]) == Outcome::Value(SpecVal::Bool(false)));
        lemma_or_stop(d, env, args, k, i + 1);
    }
}

/// `or` stops at its first argument that does not evaluate to `false`: `true` there answers
/// `true`, an error or abort is the result, and a value of another kind is an error that names
/// it; the arguments after it are not looked at.
pub proof fn law_or_stops_at_first_non_false(d: nat, env: SpecEnv, args: Seq<SpecExpr>, k: int)
    requires
        0 <= k < args.len(),
        eval(d, env, args[k]) != Outcome::Value(SpecVal::Bool(false)),
        forall|j: int| 0 <= j < k ==> #[trigger] eval(d, env, args[j]) == Outcome::Value(SpecVal::Bool(false)),
    ensures
        eval(d, env, SpecExpr::Or(args)) == if eval(d, env, args[k]) == Outcome::Value(
            SpecVal::Bool(true),
        ) {
            Outcome::Value(SpecVal::Bool(true))
        } else {
            not_a_boolean(eval(d, env, args[k]))
        },
{
    lemma_or_stop(d, env, args, k, 0);
}

proof fn lemma_cond_stop(d: nat, env: SpecEnv, cs: Seq<SpecClause>, k: int, i: int)
    requires
        0 <= i <= k < cs.len(),
        eval(d, env, cs[k].condition) != Outcome::Value(SpecVal::Bool(false)),
        forall|j: int| 0 <= j < k ==> #[trigger] eval(d, env, cs[j].condition) == Outcome::Value(SpecVal::Bool(false)),
    ensures
        cond_from(d, env, cs, i) == if eval(d, env, cs[k].condition) == Outcome::Value(
            SpecVal::Bool(true),
        ) {
            eval(d, env, cs[k].result)
        } else {
            not_a_boolean(eval(d, env, cs[k].condition))
        },
    decreases k - i,
{
    if i < k {
        assert(eval(d, env, cs[i].condition) == Outcome::Value(SpecVal::Bool(false)));
        lemma_cond_stop(d, env, cs, k, i + 1);
    }
}

/// `cond` stops at its first clause whose condition does not evaluate to `false`: `true` there
/// gives the clause's result, an error or abort is the result, and a value of another kind is
/// an error that names it; the clauses after it are not looked at.
pub proof fn law_cond_stops_at_first_non_false(d: nat, env: SpecEnv, cs: Seq<SpecClause>, k: int)
    requires
        0 <= k < cs.len(),
        eval(d, env, cs[k].condition) != Outcome::Value(SpecVal::Bool(false)),
        forall|j: int| 0 <= j < k ==> #[trigger] eval(d, env, cs[j].condition) == Outcome::Value(SpecVal::Bool(false)),
    ensures
        eval(d, env, SpecExpr::Cond(cs)) == if eval(d, env, cs[k].condition) == Outcome::Value(
            SpecVal::Bool(true),
        ) {
            eval(d, env, cs[k].result)
        } else {
            not_a_boolean(eval(d, env, cs[k].condition))
        },
{
    lemma_cond_stop(d, env, cs, k, 0);
}

proof fn lemma_rec_position_none(bs: Seq<SpecRecBinding>, x: Seq<char>, i: int)
    requires
        0 <= i,
        forall|j: int| 0 <= j < bs.len() ==> (#[trigger] bs[j]).name != x,
    ensures
        rec_position(bs, x, i) is None,
    decreases bs.len() - i,
{
    if i < bs.len() {
        lemma_rec_position_none(bs, x, i + 1);
    }
}

/// A `letrec` frame leaves the lookup of every name it does not bind as it was: the search goes
/// on in the environment outside it.
pub proof fn law_letrec_frame_skips_other_names(bs: Seq<SpecRecBinding>, outer: SpecEnv, x: Seq<char>)
    requires
        forall|j: int| 0 <= j < bs.len() ==> (#[trigger] bs[j]).name != x,
    ensures
        apply_env(SpecEnv::ExtendRec(bs, Box::new(outer)), x) == apply_env(outer, x),
{
    lemma_rec_position_none(bs, x, 0);
}

/// `=(a b)` of two numbers answers whether they are the same number, and so does the built-in
/// `=` applied to them.
pub proof fn law_equal_compares_numbers(d: nat, env: SpecEnv, a: SpecExpr, b: SpecExpr, x: i64, y: i64)
    requires
        eval(d, env, a) == Outcome::Value(SpecVal::Num(x)),
        eval(d, env, b) == Outcome::Value(SpecVal::Num(y)),
    ensures
        eval(d, env, SpecExpr::Equal(Box::new(a), Box::new(b))) == Outcome::Value(
            SpecVal::Bool(x == y),
        ),
        apply_builtin(PrimOp::Eq, seq![SpecVal::Num(x), SpecVal::Num(y)]) == Outcome::Value(
            SpecVal::Bool(x == y),
        ),
{
}

/// `not(a)` of a boolean is its negation, and so is the built-in `not` applied to it.
pub proof fn law_not_negates(d: nat, env: SpecEnv, a: SpecExpr, v: bool)
    requires
        eval(d, env, a) == Outcome::Value(SpecVal::Bool(v)),
    ensures
        eval(d, env, SpecExpr::Not(Box::new(a))) == Outcome::Value(SpecVal::Bool(!v)),
        apply_builtin(PrimOp::Not, seq![SpecVal::Bool(v)]) == Outcome::Value(SpecVal::Bool(!v)),
{
}

/// The built-in `+` of numbers whose sums from the left fit in `i64` is their sum.
pub proof fn law_builtin_add_sums(ns: Seq<i64>)
    requires
        prefix_sums_fit(ns),
    ensures
        apply_builtin(PrimOp::Add, ns.map_values(|n: i64| SpecVal::Num(n))) == Outcome::Value(
            SpecVal::Num(sum_ints(ns) as i64),
        ),
{
    let vs = ns.map_values(|n: i64| SpecVal::Num(n));
    lemma_sum_vals_numbers(ns, 0);
    assert(ns.take(0) =~= Seq::<i64>::empty());
    assert(ns.take(ns.len() as int) =~= ns);
}

proof fn lemma_sum_vals_numbers(ns: Seq<i64>, k: int)
    requires
        0 <= k <= ns.len(),
        prefix_sums_fit(ns),
    ensures
        sum_vals(ns.map_values(|n: i64| SpecVal::Num(n)), k, sum_ints(ns.take(k)) as i64)
            == Outcome::Value(SpecVal::Num(sum_ints(ns.take(ns.len() as int)) as i64)),
    decreases ns.len() - k,
{
    assert(in_i64(sum_ints(ns.take(k))));
    if k < ns.len() {
        assert(ns.take(k + 1).drop_last() =~= ns.take(k));
        assert(ns.take(k + 1).last() == ns[k]);
        assert(in_i64(sum_ints(ns.take(k + 1))));
        lemma_sum_vals_numbers(ns, k + 1);
    }
}

proof fn lemma_bind_params_skips(env: SpecEnv, ps: Seq<Seq<char>>, vs: Seq<SpecVal>, k: int, x: Seq<char>)
    requires
        0 <= k,
        forall|j: int| k <= j < ps.len() ==> #[trigger] ps[j] != x,
    ensures
        apply_env(bind_params(env, ps, vs, k), x) == apply_env(env, x),
    decreases ps.len() - k,
{
    if k < ps.len() {
        lemma_bind_params_skips(SpecEnv::Extend(ps[k], vs[k], Box::new(env)), ps, vs, k + 1, x);
    }
}

proof fn lemma_bind_params_finds(env: SpecEnv, ps: Seq<Seq<char>>, vs: Seq<SpecVal>, k: int, i: int)
    requires
        0 <= k <= i < ps.len(),
        ps.len() == vs.len(),
        forall|j1: int, j2: int| 0 <= j1 < j2 < ps.len() ==> #[trigger] ps[j1] != #[trigger] ps[j2],
    ensures
        apply_env(bind_params(env, ps, vs, k), ps[i]) == Some(vs[i]),
    decreases ps.len() - k,
{
    let next = SpecEnv::Extend(ps[k], vs[k], Box::new(env));
    if k < i {
        lemma_bind_params_finds(next, ps, vs, k + 1, i);
    } else {
        assert forall|j: int| k + 1 <= j < ps.len() implies #[trigger] ps[j] != ps[i] by {
            assert(ps[i] != ps[j]);
        }
        lemma_bind_params_skips(next, ps, vs, k + 1, ps[i]);
    }
}

/// A call binds each parameter to the argument in the same place: with distinct parameter
/// names, the `i`-th parameter denotes the `i`-th argument value, and every other name keeps
/// the value it had in the procedure's saved environment.
pub proof fn law_parameters_take_arguments_in_order(
    saved: SpecEnv,
    ps: Seq<Seq<char>>,
    vs: Seq<SpecVal>,
    x: Seq<char>,
)
    requires
        ps.len() == vs.len(),
        forall|j1: int, j2: int| 0 <= j1 < j2 < ps.len() ==> #[trigger] ps[j1] != #[trigger] ps[j2],
    ensures
        forall|i: int| 0 <= i < ps.len() ==> apply_env(bind_params(saved, ps, vs, 0), #[trigger] ps[i]) == Some(vs[i]),
        !ps.contains(x) ==> apply_env(bind_params(saved, ps, vs, 0), x) == apply_env(saved, x),
{
    assert forall|i: int| 0 <= i < ps.len() implies apply_env(bind_params(saved, ps, vs, 0), #[trigger] ps[i]) == Some(vs[i]) by {
        lemma_bind_params_finds(saved, ps, vs, 0, i);
    }
    if !ps.contains(x) {
        assert forall|j: int| 0 <= j < ps.len() implies #[trigger] ps[j] != x by {
            if ps[j] == x {
                assert(ps.contains(x));
            }
        }
        lemma_bind_params_skips(saved, ps, vs, 0, x);
    }
}

} // verus!
