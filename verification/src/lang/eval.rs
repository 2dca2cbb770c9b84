//! Evaluation of expressions.
//!
//! The meaning of an expression is `eval(depth, env, e)`: an evaluation that may make at most
//! `depth` nested procedure calls. Its outcome is a value, an error of the language, or an
//! abort: an `i64` overflow, or a call deeper than `depth`.
use std::rc::Rc;
use vstd::prelude::*;

use crate::lang::ast::{
    exprs_view, lemma_clauses_view, lemma_exprs_view, lemma_lets_view, CondClause, Expr,
    LetBinding, Program, SpecClause, SpecExpr, SpecLetBinding,
};
use crate::lang::ast::{clone_expr, clone_names, clone_recs};
use crate::lang::envs::{apply_env, rc_clone, Env, EnvError, SpecEnv};
use crate::lang::vals::{
    clone_val, ExpVal, ExpValError, PrimOp, Procedure, SpecProc, SpecVal, SpecValError,
};

verus! {

broadcast use vstd::std_specs::vec::axiom_vec_decreases_to_view;

#[derive(Debug, PartialEq, Eq)]
pub enum EvalError {
    ExpVal(ExpValError),
    EmptyArgs { op: &'static str },
    NoCondClauseMatched,
    Env(EnvError),
    ArityMismatch { expected: usize, actual: usize },
}

/// Why an evaluation stopped without an answer: an `i64` overflow, or procedure calls nested
/// deeper than the evaluator allows.
#[derive(Clone, Copy, Debug, PartialEq, Eq)]
pub enum Abort {
    Overflow,
    CallDepth,
}

/// Model of an evaluation error.
pub enum SpecEvalError {
    Val(SpecValError),
    EmptyArgs(Seq<char>),
    NoCondClauseMatched,
    Unbound(Seq<char>),
    ArityMismatch(int, int),
}

/// The outcome of an evaluation.
pub enum Outcome {
    Value(SpecVal),
    Error(SpecEvalError),
    Abort(Abort),
}

impl View for EvalError {
    type V = SpecEvalError;

    open spec fn view(&self) -> SpecEvalError {
        match self {
            EvalError::ExpVal(e) => SpecEvalError::Val(e@),
            EvalError::EmptyArgs { op } => SpecEvalError::EmptyArgs(op@),
            EvalError::NoCondClauseMatched => SpecEvalError::NoCondClauseMatched,
            EvalError::Env(EnvError::UnboundVariable { var }) => SpecEvalError::Unbound(var@),
            EvalError::ArityMismatch { expected, actual } => SpecEvalError::ArityMismatch(
                *expected as int,
                *actual as int,
            ),
        }
    }
}

/// The number in an outcome, or the outcome that stands in its place.
pub open spec fn num_of(o: Outcome) -> Result<i64, Outcome> {
    match o {
        Outcome::Value(SpecVal::Num(n)) => Ok(n),
        Outcome::Value(v) => Err(Outcome::Error(SpecEvalError::Val(SpecValError::NumExpected(v)))),
        _ => Err(o),
    }
}

/// The boolean in an outcome, or the outcome that stands in its place.
pub open spec fn bool_of(o: Outcome) -> Result<bool, Outcome> {
    match o {
        Outcome::Value(SpecVal::Bool(b)) => Ok(b),
        Outcome::Value(v) => Err(Outcome::Error(SpecEvalError::Val(SpecValError::BoolExpected(v)))),
        _ => Err(o),
    }
}

/// The procedure in an outcome, or the outcome that stands in its place.
pub open spec fn proc_of(o: Outcome) -> Result<SpecProc, Outcome> {
    match o {
        Outcome::Value(SpecVal::Proc(p)) => Ok(p),
        Outcome::Value(v) => Err(Outcome::Error(SpecEvalError::Val(SpecValError::ProcExpected(v)))),
        _ => Err(o),
    }
}

pub open spec fn in_i64(x: int) -> bool {
    i64::MIN <= x <= i64::MAX
}

/// `env` extended with `ps[i] = vs[i]` for each `i` from `k` on, in order.
pub open spec fn bind_params(env: SpecEnv, ps: Seq<Seq<char>>, vs: Seq<SpecVal>, k: int) -> SpecEnv
    decreases ps.len() - k,
{
    if k < 0 || k >= ps.len() {
        env
    } else {
        bind_params(SpecEnv::Extend(ps[k], vs[k], Box::new(env)), ps, vs, k + 1)
    }
}

/// Sum of numbers `vs[k..]` added to `acc`, from left to right.
pub open spec fn sum_vals(vs: Seq<SpecVal>, k: int, acc: i64) -> Outcome
    decreases vs.len() - k,
{
    if k < 0 || k >= vs.len() {
        Outcome::Value(SpecVal::Num(acc))
    } else {
        match num_of(Outcome::Value(vs[k])) {
            Ok(n) => if in_i64(acc + n) {
                sum_vals(vs, k + 1, (acc + n) as i64)
            } else {
                Outcome::Abort(Abort::Overflow)
            },
            Err(o) => o,
        }
    }
}

/// `acc` minus the numbers `vs[k..]`, from left to right.
pub open spec fn diff_vals(vs: Seq<SpecVal>, k: int, acc: i64) -> Outcome
    decreases vs.len() - k,
{
    if k < 0 || k >= vs.len() {
        Outcome::Value(SpecVal::Num(acc))
    } else {
        match num_of(Outcome::Value(vs[k])) {
            Ok(n) => if in_i64(acc - n) {
                diff_vals(vs, k + 1, (acc - n) as i64)
            } else {
                Outcome::Abort(Abort::Overflow)
            },
            Err(o) => o,
        }
    }
}

/// `-x`, or an overflow.
pub open spec fn negate(x: i64) -> Outcome {
    if x == i64::MIN {
        Outcome::Abort(Abort::Overflow)
    } else {
        Outcome::Value(SpecVal::Num((-x) as i64))
    }
}

/// A built-in procedure applied to argument values.
pub open spec fn apply_builtin(op: PrimOp, vs: Seq<SpecVal>) -> Outcome {
    match op {
        PrimOp::Add => sum_vals(vs, 0, 0),
        PrimOp::Sub => if vs.len() == 0 {
            Outcome::Error(SpecEvalError::EmptyArgs("-"@))
        } else {
            match num_of(Outcome::Value(vs[0])) {
                Ok(n) => if vs.len() == 1 {
                    negate(n)
                } else {
                    diff_vals(vs, 1, n)
                },
                Err(o) => o,
            }
        },
        PrimOp::Eq => if vs.len() != 2 {
            Outcome::Error(SpecEvalError::ArityMismatch(2, vs.len() as int))
        } else {
            match num_of(Outcome::Value(vs[0])) {
                Ok(x) => match num_of(Outcome::Value(vs[1])) {
                    Ok(y) => Outcome::Value(SpecVal::Bool(x == y)),
                    Err(o) => o,
                },
                Err(o) => o,
            }
        },
        PrimOp::Not => if vs.len() != 1 {
            Outcome::Error(SpecEvalError::ArityMismatch(1, vs.len() as int))
        } else {
            match bool_of(Outcome::Value(vs[0])) {
                Ok(b) => Outcome::Value(SpecVal::Bool(!b)),
                Err(o) => o,
            }
        },
    }
}

/// The value of `e` in `env`, with at most `depth` nested procedure calls.
pub open spec fn eval(depth: nat, env: SpecEnv, e: SpecExpr) -> Outcome
    decreases depth, e, 0int,
{
    match e {
        SpecExpr::Const(n) => Outcome::Value(SpecVal::Num(n)),
        SpecExpr::Bool(b) => Outcome::Value(SpecVal::Bool(b)),
        SpecExpr::Var(x) => match apply_env(env, x) {
            Some(v) => Outcome::Value(v),
            None => Outcome::Error(SpecEvalError::Unbound(x)),
        },
        SpecExpr::Add(args) => sum_from(depth, env, args, 0, 0),
        SpecExpr::Sub(args) => if args.len() == 0 {
            Outcome::Error(SpecEvalError::EmptyArgs("-"@))
        } else {
            match num_of(eval(depth, env, args[0])) {
                Ok(n) => if args.len() == 1 {
                    negate(n)
                } else {
                    diff_from(depth, env, args, 1, n)
                },
                Err(o) => o,
            }
        },
        SpecExpr::Or(args) => or_from(depth, env, args, 0),
        SpecExpr::Not(a) => match bool_of(eval(depth, env, *a)) {
            Ok(b) => Outcome::Value(SpecVal::Bool(!b)),
            Err(o) => o,
        },
        SpecExpr::Equal(a, b) => match num_of(eval(depth, env, *a)) {
            Ok(x) => match num_of(eval(depth, env, *b)) {
                Ok(y) => Outcome::Value(SpecVal::Bool(x == y)),
                Err(o) => o,
            },
            Err(o) => o,
        },
        SpecExpr::Cond(cs) => cond_from(depth, env, cs, 0),
        SpecExpr::Let(bs, body) => match bind_lets(depth, env, bs, 0, env) {
            Ok(inner) => eval(depth, inner, *body),
            Err(o) => o,
        },
        SpecExpr::LetRec(bs, body) => eval(depth, SpecEnv::ExtendRec(bs, Box::new(env)), *body),
        SpecExpr::Proc(ps, body) => Outcome::Value(
            SpecVal::Proc(SpecProc::Closure(ps, *body, Box::new(env))),
        ),
        SpecExpr::Call(rator, rands) => match proc_of(eval(depth, env, *rator)) {
            Ok(p) => match vals_from(depth, env, rands, 0, Seq::empty()) {
                Ok(vs) => match p {
                    SpecProc::Closure(ps, body, saved) => if ps.len() != vs.len() {
                        Outcome::Error(
                            SpecEvalError::ArityMismatch(ps.len() as int, vs.len() as int),
                        )
                    } else if depth == 0 {
                        Outcome::Abort(Abort::CallDepth)
                    } else {
                        eval((depth - 1) as nat, bind_params(*saved, ps, vs, 0), body)
                    },
                    SpecProc::Builtin(op) => apply_builtin(op, vs),
                },
                Err(o) => o,
            },
            Err(o) => o,
        },
    }
}

/// Sum of the numbers that `args[k..]` evaluate to, added to `acc`, from left to right.
pub open spec fn sum_from(depth: nat, env: SpecEnv, args: Seq<SpecExpr>, k: int, acc: i64) -> Outcome
    decreases depth, args, args.len() - k,
{
    if k < 0 || k >= args.len() {
        Outcome::Value(SpecVal::Num(acc))
    } else {
        match num_of(eval(depth, env, args[k])) {
            Ok(n) => if in_i64(acc + n) {
                sum_from(depth, env, args, k + 1, (acc + n) as i64)
            } else {
                Outcome::Abort(Abort::Overflow)
            },
            Err(o) => o,
        }
    }
}

/// `acc` minus the numbers that `args[k..]` evaluate to, from left to right.
pub open spec fn diff_from(depth: nat, env: SpecEnv, args: Seq<SpecExpr>, k: int, acc: i64) -> Outcome
    decreases depth, args, args.len() - k,
{
    if k < 0 || k >= args.len() {
        Outcome::Value(SpecVal::Num(acc))
    } else {
        match num_of(eval(depth, env, args[k])) {
            Ok(n) => if in_i64(acc - n) {
                diff_from(depth, env, args, k + 1, (acc - n) as i64)
            } else {
                Outcome::Abort(Abort::Overflow)
            },
            Err(o) => o,
        }
    }
}

/// `true` at the first of `args[k..]` that evaluates to `true`; `false` if none does.
pub open spec fn or_from(depth: nat, env: SpecEnv, args: Seq<SpecExpr>, k: int) -> Outcome
    decreases depth, args, args.len() - k,
{
    if k < 0 || k >= args.len() {
        Outcome::Value(SpecVal::Bool(false))
    } else {
        match bool_of(eval(depth, env, args[k])) {
            Ok(true) => Outcome::Value(SpecVal::Bool(true)),
            Ok(false) => or_from(depth, env, args, k + 1),
            Err(o) => o,
        }
    }
}

/// The result of the first of the clauses `cs[k..]` whose condition evaluates to `true`.
pub open spec fn cond_from(depth: nat, env: SpecEnv, cs: Seq<SpecClause>, k: int) -> Outcome
    decreases depth, cs, cs.len() - k,
{
    if k < 0 || k >= cs.len() {
        Outcome::Error(SpecEvalError::NoCondClauseMatched)
    } else {
        match bool_of(eval(depth, env, cs[k].condition)) {
            Ok(true) => eval(depth, env, cs[k].result),
            Ok(false) => cond_from(depth, env, cs, k + 1),
            Err(o) => o,
        }
    }
}

/// `acc` extended with the bindings `bs[k..]`, each value evaluated in `env`: the bindings of
/// one `let` do not see each other.
pub open spec fn bind_lets(
    depth: nat,
    env: SpecEnv,
    bs: Seq<SpecLetBinding>,
    k: int,
    acc: SpecEnv,
) -> Result<SpecEnv, Outcome>
    decreases depth, bs, bs.len() - k,
{
    if k < 0 || k >= bs.len() {
        Ok(acc)
    } else {
        match eval(depth, env, bs[k].value) {
            Outcome::Value(v) => bind_lets(
                depth,
                env,
                bs,
                k + 1,
                SpecEnv::Extend(bs[k].name, v, Box::new(acc)),
            ),
            o => Err(o),
        }
    }
}

/// The values of `args[k..]`, from left to right, after the values `acc`.
pub open spec fn vals_from(
    depth: nat,
    env: SpecEnv,
    args: Seq<SpecExpr>,
    k: int,
    acc: Seq<SpecVal>,
) -> Result<Seq<SpecVal>, Outcome>
    decreases depth, args, args.len() - k,
{
    if k < 0 || k >= args.len() {
        Ok(acc)
    } else {
        match eval(depth, env, args[k]) {
            Outcome::Value(v) => vals_from(depth, env, args, k + 1, acc.push(v)),
            o => Err(o),
        }
    }
}

/// The outcome of an evaluation, as the interpreter builds it.
enum Evaluated {
    Value(ExpVal),
    Error(EvalError),
    Abort(Abort),
}

impl View for Evaluated {
    type V = Outcome;

    closed spec fn view(&self) -> Outcome {
        match self {
            Evaluated::Value(v) => Outcome::Value(v@),
            Evaluated::Error(e) => Outcome::Error(e@),
            Evaluated::Abort(a) => Outcome::Abort(*a),
        }
    }
}

fn num_result(o: Evaluated) -> (r: Result<i64, Evaluated>)
    ensures
        match num_of(o@) {
            Ok(n) => r == Ok::<i64, Evaluated>(n),
            Err(x) => r is Err && r->Err_0@ == x,
        },
{
    match o {
        Evaluated::Value(v) => match v.as_num() {
            Ok(n) => Ok(n),
            Err(e) => Err(Evaluated::Error(EvalError::ExpVal(e))),
        },
        other => Err(other),
    }
}

fn bool_result(o: Evaluated) -> (r: Result<bool, Evaluated>)
    ensures
        match bool_of(o@) {
            Ok(b) => r == Ok::<bool, Evaluated>(b),
            Err(x) => r is Err && r->Err_0@ == x,
        },
{
    match o {
        Evaluated::Value(v) => match v.as_bool() {
            Ok(b) => Ok(b),
            Err(e) => Err(Evaluated::Error(EvalError::ExpVal(e))),
        },
        other => Err(other),
    }
}

fn proc_result(o: Evaluated) -> (r: Result<Procedure, Evaluated>)
    ensures
        match proc_of(o@) {
            Ok(p) => r is Ok && r->Ok_0@ == p,
            Err(x) => r is Err && r->Err_0@ == x,
        },
{
    match o {
        Evaluated::Value(v) => match v.as_proc() {
            Ok(p) => Ok(p),
            Err(e) => Err(Evaluated::Error(EvalError::ExpVal(e))),
        },
        other => Err(other),
    }
}

fn negate_num(x: i64) -> (r: Evaluated)
    ensures
        r@ == negate(x),
{
    if x == i64::MIN {
        Evaluated::Abort(Abort::Overflow)
    } else {
        Evaluated::Value(ExpVal::NumVal(-x))
    }
}

pub open spec fn vals_view(vs: Seq<ExpVal>) -> Seq<SpecVal> {
    vs.map_values(|v: ExpVal| v@)
}

/// `env` extended with `params[i] = vals[i]`, in order.
fn bind_params_env(env: Rc<Env>, params: &Vec<String>, vals: &Vec<ExpVal>) -> (r: Rc<Env>)
    requires
        params@.len() == vals@.len(),
    ensures
        r@ == bind_params(env@, crate::lang::ast::names_view(params@), vals_view(vals@), 0),
{
    let ghost ps = crate::lang::ast::names_view(params@);
    let ghost vs = vals_view(vals@);
    let mut cur = env;
    let mut i: usize = 0;
    while i < params.len()
        invariant
            i <= params@.len(),
            params@.len() == vals@.len(),
            ps == crate::lang::ast::names_view(params@),
            vs == vals_view(vals@),
            bind_params(cur@, ps, vs, i as int) == bind_params(env@, ps, vs, 0),
        decreases params.len() - i,
    {
        cur = Env::extend(cur, params[i].as_str(), clone_val(&vals[i]));
        i += 1;
    }
    cur
}

fn apply_builtin_vals(op: PrimOp, vals: &Vec<ExpVal>) -> (r: Evaluated)
    ensures
        r@ == apply_builtin(op, vals_view(vals@)),
{
    let ghost vs = vals_view(vals@);
    match op {
        PrimOp::Add => {
            let mut acc: i64 = 0;
            let mut i: usize = 0;
            while i < vals.len()
                invariant
                    i <= vals@.len(),
                    vs == vals_view(vals@),
                    op == PrimOp::Add,
                    sum_vals(vs, i as int, acc) == sum_vals(vs, 0, 0),
                decreases vals.len() - i,
            {
                match vals[i].as_num() {
                    Ok(n) => match acc.checked_add(n) {
                        Some(t) => {
                            acc = t;
                        },
                        None => {
                            return Evaluated::Abort(Abort::Overflow);
                        },
                    },
                    Err(e) => {
                        return Evaluated::Error(EvalError::ExpVal(e));
                    },
                }
                i += 1;
            }
            Evaluated::Value(ExpVal::NumVal(acc))
        },
        PrimOp::Sub => {
            if vals.len() == 0 {
                return Evaluated::Error(EvalError::EmptyArgs { op: "-" });
            }
            let first = match vals[0].as_num() {
                Ok(n) => n,
                Err(e) => {
                    return Evaluated::Error(EvalError::ExpVal(e));
                },
            };
            if vals.len() == 1 {
                return negate_num(first);
            }
            let mut acc: i64 = first;
            let mut i: usize = 1;
            while i < vals.len()
                invariant
                    1 <= i <= vals@.len(),
                    vs == vals_view(vals@),
                    apply_builtin(op, vs) == diff_vals(vs, 1, first),
                    diff_vals(vs, i as int, acc) == diff_vals(vs, 1, first),
                decreases vals.len() - i,
            {
                match vals[i].as_num() {
                    Ok(n) => match acc.checked_sub(n) {
                        Some(t) => {
                            acc = t;
                        },
                        None => {
                            return Evaluated::Abort(Abort::Overflow);
                        },
                    },
                    Err(e) => {
                        return Evaluated::Error(EvalError::ExpVal(e));
                    },
                }
                i += 1;
            }
            Evaluated::Value(ExpVal::NumVal(acc))
        },
        PrimOp::Eq => {
            if vals.len() != 2 {
                return Evaluated::Error(EvalError::ArityMismatch { expected: 2, actual: vals.len() });
            }
            let x = match vals[0].as_num() {
                Ok(n) => n,
                Err(e) => {
                    return Evaluated::Error(EvalError::ExpVal(e));
                },
            };
            let y = match vals[1].as_num() {
                Ok(n) => n,
                Err(e) => {
                    return Evaluated::Error(EvalError::ExpVal(e));
                },
            };
            Evaluated::Value(ExpVal::BoolVal(x == y))
        },
        PrimOp::Not => {
            if vals.len() != 1 {
                return Evaluated::Error(EvalError::ArityMismatch { expected: 1, actual: vals.len() });
            }
            match vals[0].as_bool() {
                Ok(b) => Evaluated::Value(ExpVal::BoolVal(!b)),
                Err(e) => Evaluated::Error(EvalError::ExpVal(e)),
            }
        },
    }
}

/// The interpreter: evaluates `e` in `env` with at most `depth` nested calls.
fn eval_expr(e: &Expr, env: &Rc<Env>, depth: u64) -> (r: Evaluated)
    ensures
        r@ == eval(depth as nat, env@, e@),
    decreases depth, e, 0int,
{
    match e {
        Expr::ConstExp(n) => Evaluated::Value(ExpVal::NumVal(*n)),
        Expr::BoolExp(b) => Evaluated::Value(ExpVal::BoolVal(*b)),
        Expr::VarExp(x) => match env.apply(x.as_str()) {
            Ok(v) => Evaluated::Value(v),
            Err(err) => Evaluated::Error(EvalError::Env(err)),
        },
        Expr::AddExp(args) => {
            assert(decreases_to!(*e => e->AddExp_0));
            eval_add(args, env, depth)
        },
        Expr::SubExp(args) => {
            assert(decreases_to!(*e => e->SubExp_0));
            eval_sub(args, env, depth)
        },
        Expr::OrExp(args) => {
            assert(decreases_to!(*e => e->OrExp_0));
            eval_or(args, env, depth)
        },
        Expr::NotExp(a) => match bool_result(eval_expr(a, env, depth)) {
            Ok(b) => Evaluated::Value(ExpVal::BoolVal(!b)),
            Err(o) => o,
        },
        Expr::EqExp(a, b) => {
            let x = match num_result(eval_expr(a, env, depth)) {
                Ok(n) => n,
                Err(o) => {
                    return o;
                },
            };
            let y = match num_result(eval_expr(b, env, depth)) {
                Ok(n) => n,
                Err(o) => {
                    return o;
                },
            };
            Evaluated::Value(ExpVal::BoolVal(x == y))
        },
        Expr::CondExp(cs) => {
            assert(decreases_to!(*e => e->CondExp_0));
            eval_cond(cs, env, depth)
        },
        Expr::LetExp(bs, body) => {
            assert(decreases_to!(*e => e->LetExp_0));
            match eval_lets(bs, env, depth) {
                Ok(inner) => eval_expr(body, &inner, depth),
                Err(o) => o,
            }
        },
        Expr::LetRecExp(bs, body) => {
            let inner = Env::extend_rec(rc_clone(env), clone_recs(bs));
            eval_expr(body, &inner, depth)
        },
        Expr::ProcExp(ps, body) => Evaluated::Value(
            ExpVal::ProcVal(
                Procedure::Closure {
                    params: clone_names(ps),
                    body: clone_expr(body),
                    saved_env: rc_clone(env),
                },
            ),
        ),
        Expr::CallExp(rator, rands) => {
            assert(decreases_to!(*e => e->CallExp_1));
            let p = match proc_result(eval_expr(rator, env, depth)) {
                Ok(p) => p,
                Err(o) => {
                    return o;
                },
            };
            let vals = match eval_vals(rands, env, depth) {
                Ok(vs) => vs,
                Err(o) => {
                    return o;
                },
            };
            match p {
                Procedure::Closure { params, body, saved_env } => {
                    if params.len() != vals.len() {
                        Evaluated::Error(
                            EvalError::ArityMismatch { expected: params.len(), actual: vals.len() },
                        )
                    } else if depth == 0 {
                        Evaluated::Abort(Abort::CallDepth)
                    } else {
                        let inner = bind_params_env(saved_env, &params, &vals);
                        eval_expr(&body, &inner, depth - 1)
                    }
                },
                Procedure::Builtin(op) => apply_builtin_vals(op, &vals),
            }
        },
    }
}

fn eval_add(args: &Vec<Expr>, env: &Rc<Env>, depth: u64) -> (r: Evaluated)
    ensures
        r@ == sum_from(depth as nat, env@, exprs_view(args@), 0, 0),
    decreases depth, args, 0int,
{
    let ghost sargs = exprs_view(args@);
    proof {
        lemma_exprs_view(args@);
    }
    let mut acc: i64 = 0;
    let mut i: usize = 0;
    while i < args.len()
        invariant
            i <= args@.len(),
            sargs == exprs_view(args@),
            sargs.len() == args@.len(),
            sum_from(depth as nat, env@, sargs, i as int, acc) == sum_from(depth as nat, env@, sargs, 0, 0),
        decreases args.len() - i,
    {
        proof {
            lemma_exprs_view(args@);
        }
        assert(decreases_to!(args@ => args@[i as int]));
        match num_result(eval_expr(&args[i], env, depth)) {
            Ok(n) => match acc.checked_add(n) {
                Some(t) => {
                    acc = t;
                },
                None => {
                    return Evaluated::Abort(Abort::Overflow);
                },
            },
            Err(o) => {
                return o;
            },
        }
        i += 1;
    }
    Evaluated::Value(ExpVal::NumVal(acc))
}

fn eval_sub(args: &Vec<Expr>, env: &Rc<Env>, depth: u64) -> (r: Evaluated)
    ensures
        r@ == eval(depth as nat, env@, SpecExpr::Sub(exprs_view(args@))),
    decreases depth, args, 0int,
{
    let ghost sargs = exprs_view(args@);
    proof {
        lemma_exprs_view(args@);
    }
    if args.len() == 0 {
        return Evaluated::Error(EvalError::EmptyArgs { op: "-" });
    }
    assert(decreases_to!(args@ => args@[0]));
    let first = match num_result(eval_expr(&args[0], env, depth)) {
        Ok(n) => n,
        Err(o) => {
            return o;
        },
    };
    if args.len() == 1 {
        return negate_num(first);
    }
    let mut acc: i64 = first;
    let mut i: usize = 1;
    while i < args.len()
        invariant
            1 <= i <= args@.len(),
            sargs == exprs_view(args@),
            sargs.len() == args@.len(),
            eval(depth as nat, env@, SpecExpr::Sub(sargs)) == diff_from(depth as nat, env@, sargs, 1, first),
            diff_from(depth as nat, env@, sargs, i as int, acc) == diff_from(depth as nat, env@, sargs, 1, first),
        decreases args.len() - i,
    {
        proof {
            lemma_exprs_view(args@);
        }
        assert(decreases_to!(args@ => args@[i as int]));
        match num_result(eval_expr(&args[i], env, depth)) {
            Ok(n) => match acc.checked_sub(n) {
                Some(t) => {
                    acc = t;
                },
                None => {
                    return Evaluated::Abort(Abort::Overflow);
                },
            },
            Err(o) => {
                return o;
            },
        }
        i += 1;
    }
    Evaluated::Value(ExpVal::NumVal(acc))
}

fn eval_or(args: &Vec<Expr>, env: &Rc<Env>, depth: u64) -> (r: Evaluated)
    ensures
        r@ == or_from(depth as nat, env@, exprs_view(args@), 0),
    decreases depth, args, 0int,
{
    let ghost sargs = exprs_view(args@);
    proof {
        lemma_exprs_view(args@);
    }
    let mut i: usize = 0;
    while i < args.len()
        invariant
            i <= args@.len(),
            sargs == exprs_view(args@),
            sargs.len() == args@.len(),
            or_from(depth as nat, env@, sargs, i as int) == or_from(depth as nat, env@, sargs, 0),
        decreases args.len() - i,
    {
        proof {
            lemma_exprs_view(args@);
        }
        assert(decreases_to!(args@ => args@[i as int]));
        match bool_result(eval_expr(&args[i], env, depth)) {
            Ok(true) => {
                return Evaluated::Value(ExpVal::BoolVal(true));
            },
            Ok(false) => {},
            Err(o) => {
                return o;
            },
        }
        i += 1;
    }
    Evaluated::Value(ExpVal::BoolVal(false))
}

fn eval_cond(cs: &Vec<CondClause>, env: &Rc<Env>, depth: u64) -> (r: Evaluated)
    ensures
        r@ == cond_from(depth as nat, env@, crate::lang::ast::clauses_view(cs@), 0),
    decreases depth, cs, 0int,
{
    let ghost scs = crate::lang::ast::clauses_view(cs@);
    proof {
        lemma_clauses_view(cs@);
    }
    let mut i: usize = 0;
    while i < cs.len()
        invariant
            i <= cs@.len(),
            scs == crate::lang::ast::clauses_view(cs@),
            scs.len() == cs@.len(),
            cond_from(depth as nat, env@, scs, i as int) == cond_from(depth as nat, env@, scs, 0),
        decreases cs.len() - i,
    {
        proof {
            lemma_clauses_view(cs@);
        }
        assert(decreases_to!(cs@ => cs@[i as int]));
        assert(decreases_to!(cs@[i as int] => cs@[i as int].condition));
        assert(decreases_to!(cs@[i as int] => cs@[i as int].result));
        match bool_result(eval_expr(&cs[i].condition, env, depth)) {
            Ok(true) => {
                return eval_expr(&cs[i].result, env, depth);
            },
            Ok(false) => {},
            Err(o) => {
                return o;
            },
        }
        i += 1;
    }
    Evaluated::Error(EvalError::NoCondClauseMatched)
}

fn eval_lets(bs: &Vec<LetBinding>, env: &Rc<Env>, depth: u64) -> (r: Result<Rc<Env>, Evaluated>)
    ensures
        match bind_lets(depth as nat, env@, crate::lang::ast::lets_view(bs@), 0, env@) {
            Ok(inner) => r is Ok && r->Ok_0@ == inner,
            Err(o) => r is Err && r->Err_0@ == o,
        },
    decreases depth, bs, 0int,
{
    let ghost sbs = crate::lang::ast::lets_view(bs@);
    proof {
        lemma_lets_view(bs@);
    }
    let mut acc = rc_clone(env);
    let mut i: usize = 0;
    while i < bs.len()
        invariant
            i <= bs@.len(),
            sbs == crate::lang::ast::lets_view(bs@),
            sbs.len() == bs@.len(),
            bind_lets(depth as nat, env@, sbs, i as int, acc@) == bind_lets(depth as nat, env@, sbs, 0, env@),
        decreases bs.len() - i,
    {
        proof {
            lemma_lets_view(bs@);
        }
        assert(decreases_to!(bs@ => bs@[i as int]));
        assert(decreases_to!(bs@[i as int] => bs@[i as int].value));
        match eval_expr(&bs[i].value, env, depth) {
            Evaluated::Value(v) => {
                acc = Env::extend(acc, bs[i].name.as_str(), v);
            },
            o => {
                return Err(o);
            },
        }
        i += 1;
    }
    Ok(acc)
}

fn eval_vals(args: &Vec<Expr>, env: &Rc<Env>, depth: u64) -> (r: Result<Vec<ExpVal>, Evaluated>)
    ensures
        match vals_from(depth as nat, env@, exprs_view(args@), 0, Seq::empty()) {
            Ok(vs) => r is Ok && vals_view(r->Ok_0@) == vs,
            Err(o) => r is Err && r->Err_0@ == o,
        },
    decreases depth, args, 0int,
{
    let ghost sargs = exprs_view(args@);
    proof {
        lemma_exprs_view(args@);
    }
    let mut out: Vec<ExpVal> = Vec::new();
    let mut i: usize = 0;
    assert(vals_view(out@) =~= Seq::<SpecVal>::empty());
    while i < args.len()
        invariant
            i <= args@.len(),
            sargs == exprs_view(args@),
            sargs.len() == args@.len(),
            vals_from(depth as nat, env@, sargs, i as int, vals_view(out@)) == vals_from(
                depth as nat,
                env@,
                sargs,
                0,
                Seq::empty(),
            ),
        decreases args.len() - i,
    {
        proof {
            lemma_exprs_view(args@);
        }
        assert(decreases_to!(args@ => args@[i as int]));
        let ghost before = out@;
        match eval_expr(&args[i], env, depth) {
            Evaluated::Value(v) => {
                out.push(v);
                assert(vals_view(out@) =~= vals_view(before).push(v@));
            },
            o => {
                return Err(o);
            },
        }
        i += 1;
    }
    Ok(out)
}

/// The meaning of `e` in `env`: evaluation with as many nested calls as a `u64` counts.
pub open spec fn run(env: SpecEnv, e: SpecExpr) -> Outcome {
    eval(u64::MAX as nat, env, e)
}

/// Evaluation of `e` in `env` ends with a value or an error of the language, not an abort.
pub open spec fn completes(env: SpecEnv, e: SpecExpr) -> bool {
    !(run(env, e) is Abort)
}

/// `r` is what the evaluator returns for the outcome `o`.
pub open spec fn result_matches(r: Result<ExpVal, EvalError>, o: Outcome) -> bool {
    match o {
        Outcome::Value(v) => r is Ok && r->Ok_0@ == v,
        Outcome::Error(e) => r is Err && r->Err_0@ == e,
        Outcome::Abort(_) => false,
    }
}

/// `r` is what the checked evaluator returns for the outcome `o`.
pub open spec fn checked_result_matches(r: Result<Result<ExpVal, EvalError>, Abort>, o: Outcome) -> bool {
    match o {
        Outcome::Abort(a) => r == Err::<Result<ExpVal, EvalError>, Abort>(a),
        _ => r is Ok && result_matches(r->Ok_0, o),
    }
}

/// An evaluator with a global environment.
pub struct Evaluator {
    env: Rc<Env>,
}

impl Evaluator {
    /// The global environment, in the model.
    pub closed spec fn global(&self) -> SpecEnv {
        self.env@
    }

    /// An evaluator whose global environment is empty.
    pub fn new() -> (ev: Self)
        ensures
            ev.global() == SpecEnv::Empty,
    {
        Self { env: Env::empty() }
    }

    /// An evaluator with the given global environment.
    pub fn with_env(env: Rc<Env>) -> (ev: Self)
        ensures
            ev.global() == env@,
    {
        Self { env }
    }

    /// The value of a program, on a program whose evaluation neither overflows nor nests calls
    /// beyond what a `u64` counts.
    pub fn eval_program(&self, program: &Program) -> (r: Result<ExpVal, EvalError>)
        requires
            completes(self.global(), program@),
        ensures
            result_matches(r, run(self.global(), program@)),
    {
        match eval_expr(&program.body, &self.env, u64::MAX) {
            Evaluated::Value(v) => Ok(v),
            Evaluated::Error(e) => Err(e),
            Evaluated::Abort(_) => Err(EvalError::NoCondClauseMatched),
        }
    }

    /// The value of a program, or why its evaluation aborted.
    pub fn try_eval_program(&self, program: &Program) -> (r: Result<Result<ExpVal, EvalError>, Abort>)
        ensures
            checked_result_matches(r, run(self.global(), program@)),
    {
        match eval_expr(&program.body, &self.env, u64::MAX) {
            Evaluated::Value(v) => Ok(Ok(v)),
            Evaluated::Error(e) => Ok(Err(e)),
            Evaluated::Abort(a) => Err(a),
        }
    }
}

/// Why a run of several programs stopped early: a program failed with an error of the
/// language, or its evaluation aborted.
#[derive(Debug, PartialEq, Eq)]
pub enum Stopped {
    Error(EvalError),
    Abort(Abort),
}

/// `s` is how a run stops on the outcome `o`, which is not a value.
pub open spec fn stopped_matches(s: Stopped, o: Outcome) -> bool {
    match o {
        Outcome::Value(_) => false,
        Outcome::Error(e) => s matches Stopped::Error(x) && x@ == e,
        Outcome::Abort(a) => s == Stopped::Abort(a),
    }
}

impl Evaluator {
    /// Evaluates programs in order until one does not give a value: the values of the programs
    /// before it, and how that one stopped (`None` where every program gave a value).
    pub fn eval_programs(&self, programs: &Vec<Program>) -> (r: (Vec<ExpVal>, Option<Stopped>))
        ensures
            r.0.len() <= programs.len(),
            forall|i: int|
                0 <= i < r.0.len() ==> run(self.global(), programs[i]@) == Outcome::Value(
                    #[trigger] r.0[i]@,
                ),
            r.1 is None <==> r.0.len() == programs.len(),
            r.1 is Some ==> stopped_matches(r.1->0, run(self.global(), programs[r.0.len() as int]@)),
    {
        let mut values: Vec<ExpVal> = Vec::new();
        let mut i: usize = 0;
        while i < programs.len()
            invariant
                i <= programs.len(),
                values.len() == i,
                forall|j: int|
                    0 <= j < i ==> run(self.global(), programs[j]@) == Outcome::Value(
                        #[trigger] values[j]@,
                    ),
            decreases programs.len() - i,
        {
            match self.try_eval_program(&programs[i]) {
                Ok(Ok(v)) => values.push(v),
                Ok(Err(e)) => return (values, Some(Stopped::Error(e))),
                Err(a) => return (values, Some(Stopped::Abort(a))),
            }
            i += 1;
        }
        (values, None)
    }
}

/// The value of an expression in the empty environment.
pub fn value_of(expr: &Expr) -> (r: Result<ExpVal, EvalError>)
    requires
        completes(SpecEnv::Empty, expr@),
    ensures
        result_matches(r, run(SpecEnv::Empty, expr@)),
{
    match eval_expr(expr, &Env::empty(), u64::MAX) {
        Evaluated::Value(v) => Ok(v),
        Evaluated::Error(e) => Err(e),
        Evaluated::Abort(_) => Err(EvalError::NoCondClauseMatched),
    }
}

/// The value of a program in the empty environment.
pub fn value_of_program(program: &Program) -> (r: Result<ExpVal, EvalError>)
    requires
        completes(SpecEnv::Empty, program@),
    ensures
        result_matches(r, run(SpecEnv::Empty, program@)),
{
    value_of(&program.body)
}

} // verus!
