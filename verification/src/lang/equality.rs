//! Equality of expressions, environments and values in the model, decided by walking both.
use vstd::prelude::*;

use crate::lang::ast::{
    clauses_view, exprs_view, lemma_clauses_view, lemma_exprs_view, lemma_lets_view,
    lemma_recs_view, lets_view, names_view, recs_view, CondClause, Expr, LetBinding,
    LetRecBinding,
};
use crate::lang::envs::{same_text, Env};
use crate::lang::vals::{ExpVal, PrimOp, Procedure};

verus! {

broadcast use vstd::std_specs::vec::axiom_vec_decreases_to_view;

/// Whether two lists of names are the same.
pub fn same_names(a: &Vec<String>, b: &Vec<String>) -> (r: bool)
    ensures
        r == (names_view(a@) == names_view(b@)),
{
    if a.len() != b.len() {
        assert(names_view(a@).len() != names_view(b@).len());
        return false;
    }
    let mut i: usize = 0;
    while i < a.len()
        invariant
            a@.len() == b@.len(),
            i <= a@.len(),
            forall|j: int| 0 <= j < i ==> a@[j]@ == b@[j]@,
        decreases a.len() - i,
    {
        if !same_text(a[i].as_str(), b[i].as_str()) {
            assert(names_view(a@)[i as int] != names_view(b@)[i as int]);
            return false;
        }
        i += 1;
    }
    assert(names_view(a@) =~= names_view(b@));
    true
}

fn same_prim(a: PrimOp, b: PrimOp) -> (r: bool)
    ensures
        r == (a == b),
{
    match (a, b) {
        (PrimOp::Add, PrimOp::Add) => true,
        (PrimOp::Sub, PrimOp::Sub) => true,
        (PrimOp::Eq, PrimOp::Eq) => true,
        (PrimOp::Not, PrimOp::Not) => true,
        _ => false,
    }
}

/// Whether two expressions are the same in the model.
pub fn same_expr(a: &Expr, b: &Expr) -> (r: bool)
    ensures
        r == (a@ == b@),
    decreases a, 0nat,
{
    match (a, b) {
        (Expr::ConstExp(x), Expr::ConstExp(y)) => *x == *y,
        (Expr::BoolExp(x), Expr::BoolExp(y)) => *x == *y,
        (Expr::AddExp(x), Expr::AddExp(y)) => {
            assert(decreases_to!(*a => a->AddExp_0));
            same_exprs(x, y)
        },
        (Expr::SubExp(x), Expr::SubExp(y)) => {
            assert(decreases_to!(*a => a->SubExp_0));
            same_exprs(x, y)
        },
        (Expr::OrExp(x), Expr::OrExp(y)) => {
            assert(decreases_to!(*a => a->OrExp_0));
            same_exprs(x, y)
        },
        (Expr::NotExp(x), Expr::NotExp(y)) => same_expr(x, y),
        (Expr::EqExp(x1, x2), Expr::EqExp(y1, y2)) => same_expr(x1, y1) && same_expr(x2, y2),
        (Expr::CondExp(x), Expr::CondExp(y)) => {
            assert(decreases_to!(*a => a->CondExp_0));
            same_clauses(x, y)
        },
        (Expr::VarExp(x), Expr::VarExp(y)) => same_text(x.as_str(), y.as_str()),
        (Expr::LetExp(xs, xb), Expr::LetExp(ys, yb)) => {
            assert(decreases_to!(*a => a->LetExp_0));
            same_lets(xs, ys) && same_expr(xb, yb)
        },
        (Expr::LetRecExp(xs, xb), Expr::LetRecExp(ys, yb)) => {
            assert(decreases_to!(*a => a->LetRecExp_0));
            same_recs(xs, ys) && same_expr(xb, yb)
        },
        (Expr::ProcExp(xs, xb), Expr::ProcExp(ys, yb)) => same_names(xs, ys) && same_expr(xb, yb),
        (Expr::CallExp(xf, xs), Expr::CallExp(yf, ys)) => {
            assert(decreases_to!(*a => a->CallExp_1));
            same_expr(xf, yf) && same_exprs(xs, ys)
        },
        _ => false,
    }
}

/// Whether two lists of expressions are the same in the model.
pub fn same_exprs(a: &Vec<Expr>, b: &Vec<Expr>) -> (r: bool)
    ensures
        r == (exprs_view(a@) == exprs_view(b@)),
    decreases a, 1nat,
{
    proof {
        lemma_exprs_view(a@);
        lemma_exprs_view(b@);
    }
    if a.len() != b.len() {
        return false;
    }
    let mut i: usize = 0;
    while i < a.len()
        invariant
            a@.len() == b@.len(),
            i <= a@.len(),
            exprs_view(a@).len() == a@.len(),
            exprs_view(b@).len() == b@.len(),
            forall|j: int| 0 <= j < a@.len() ==> #[trigger] exprs_view(a@)[j] == a@[j]@,
            forall|j: int| 0 <= j < b@.len() ==> #[trigger] exprs_view(b@)[j] == b@[j]@,
            forall|j: int| 0 <= j < i ==> a@[j]@ == b@[j]@,
        decreases a.len() - i,
    {
        assert(decreases_to!(a@ => a@[i as int]));
        if !same_expr(&a[i], &b[i]) {
            assert(exprs_view(a@)[i as int] != exprs_view(b@)[i as int]);
            return false;
        }
        i += 1;
    }
    assert(exprs_view(a@) =~= exprs_view(b@));
    true
}

/// Whether two lists of `cond` clauses are the same in the model.
pub fn same_clauses(a: &Vec<CondClause>, b: &Vec<CondClause>) -> (r: bool)
    ensures
        r == (clauses_view(a@) == clauses_view(b@)),
    decreases a, 1nat,
{
    proof {
        lemma_clauses_view(a@);
        lemma_clauses_view(b@);
    }
    if a.len() != b.len() {
        return false;
    }
    let mut i: usize = 0;
    while i < a.len()
        invariant
            a@.len() == b@.len(),
            i <= a@.len(),
            clauses_view(a@).len() == a@.len(),
            clauses_view(b@).len() == b@.len(),
            forall|j: int| 0 <= j < a@.len() ==> #[trigger] clauses_view(a@)[j] == a@[j]@,
            forall|j: int| 0 <= j < b@.len() ==> #[trigger] clauses_view(b@)[j] == b@[j]@,
            forall|j: int| 0 <= j < i ==> a@[j]@ == b@[j]@,
        decreases a.len() - i,
    {
        assert(decreases_to!(a@ => a@[i as int]));
        assert(decreases_to!(a@[i as int] => a@[i as int].condition));
        assert(decreases_to!(a@[i as int] => a@[i as int].result));
        let same = same_expr(&a[i].condition, &b[i].condition) && same_expr(
            &a[i].result,
            &b[i].result,
        );
        if !same {
            assert(clauses_view(a@)[i as int] != clauses_view(b@)[i as int]);
            return false;
        }
        i += 1;
    }
    assert(clauses_view(a@) =~= clauses_view(b@));
    true
}

/// Whether two lists of `let` bindings are the same in the model.
pub fn same_lets(a: &Vec<LetBinding>, b: &Vec<LetBinding>) -> (r: bool)
    ensures
        r == (lets_view(a@) == lets_view(b@)),
    decreases a, 1nat,
{
    proof {
        lemma_lets_view(a@);
        lemma_lets_view(b@);
    }
    if a.len() != b.len() {
        return false;
    }
    let mut i: usize = 0;
    while i < a.len()
        invariant
            a@.len() == b@.len(),
            i <= a@.len(),
            lets_view(a@).len() == a@.len(),
            lets_view(b@).len() == b@.len(),
            forall|j: int| 0 <= j < a@.len() ==> #[trigger] lets_view(a@)[j] == a@[j]@,
            forall|j: int| 0 <= j < b@.len() ==> #[trigger] lets_view(b@)[j] == b@[j]@,
            forall|j: int| 0 <= j < i ==> a@[j]@ == b@[j]@,
        decreases a.len() - i,
    {
        assert(decreases_to!(a@ => a@[i as int]));
        assert(decreases_to!(a@[i as int] => a@[i as int].value));
        let same = same_text(a[i].name.as_str(), b[i].name.as_str()) && same_expr(
            &a[i].value,
            &b[i].value,
        );
        if !same {
            assert(lets_view(a@)[i as int] != lets_view(b@)[i as int]);
            return false;
        }
        i += 1;
    }
    assert(lets_view(a@) =~= lets_view(b@));
    true
}

/// Whether two lists of `letrec` bindings are the same in the model.
pub fn same_recs(a: &Vec<LetRecBinding>, b: &Vec<LetRecBinding>) -> (r: bool)
    ensures
        r == (recs_view(a@) == recs_view(b@)),
    decreases a, 1nat,
{
    proof {
        lemma_recs_view(a@);
        lemma_recs_view(b@);
    }
    if a.len() != b.len() {
        return false;
    }
    let mut i: usize = 0;
    while i < a.len()
        invariant
            a@.len() == b@.len(),
            i <= a@.len(),
            recs_view(a@).len() == a@.len(),
            recs_view(b@).len() == b@.len(),
            forall|j: int| 0 <= j < a@.len() ==> #[trigger] recs_view(a@)[j] == a@[j]@,
            forall|j: int| 0 <= j < b@.len() ==> #[trigger] recs_view(b@)[j] == b@[j]@,
            forall|j: int| 0 <= j < i ==> a@[j]@ == b@[j]@,
        decreases a.len() - i,
    {
        assert(decreases_to!(a@ => a@[i as int]));
        assert(decreases_to!(a@[i as int] => a@[i as int].body));
        let same = same_text(a[i].name.as_str(), b[i].name.as_str()) && same_names(
            &a[i].params,
            &b[i].params,
        ) && same_expr(&a[i].body, &b[i].body);
        if !same {
            assert(recs_view(a@)[i as int] != recs_view(b@)[i as int]);
            return false;
        }
        i += 1;
    }
    assert(recs_view(a@) =~= recs_view(b@));
    true
}

/// Whether two environments are the same in the model.
pub fn same_env(a: &Env, b: &Env) -> (r: bool)
    ensures
        r == (a@ == b@),
    decreases a,
{
    match (a, b) {
        (Env::EmptyEnv, Env::EmptyEnv) => true,
        (
            Env::ExtendEnv { var: xv, val: xval, outer: xo },
            Env::ExtendEnv { var: yv, val: yval, outer: yo },
        ) => same_text(xv.as_str(), yv.as_str()) && same_val(xval, yval) && same_env(xo, yo),
        (
            Env::ExtendRecEnv { bindings: xs, outer: xo },
            Env::ExtendRecEnv { bindings: ys, outer: yo },
        ) => same_recs(xs, ys) && same_env(xo, yo),
        _ => false,
    }
}

/// Whether two procedures are the same in the model.
pub fn same_proc(a: &Procedure, b: &Procedure) -> (r: bool)
    ensures
        r == (a@ == b@),
    decreases a,
{
    match (a, b) {
        (
            Procedure::Closure { params: xp, body: xb, saved_env: xe },
            Procedure::Closure { params: yp, body: yb, saved_env: ye },
        ) => same_names(xp, yp) && same_expr(xb, yb) && same_env(xe, ye),
        (Procedure::Builtin(x), Procedure::Builtin(y)) => same_prim(*x, *y),
        _ => false,
    }
}

/// Whether two values are the same in the model.
pub fn same_val(a: &ExpVal, b: &ExpVal) -> (r: bool)
    ensures
        r == (a@ == b@),
    decreases a,
{
    match (a, b) {
        (ExpVal::NumVal(x), ExpVal::NumVal(y)) => *x == *y,
        (ExpVal::BoolVal(x), ExpVal::BoolVal(y)) => *x == *y,
        (ExpVal::ProcVal(x), ExpVal::ProcVal(y)) => same_proc(x, y),
        _ => false,
    }
}

} // verus!
