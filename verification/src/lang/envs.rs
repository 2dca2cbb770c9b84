//! Environments: chains of bindings from names to values.
use std::rc::Rc;
use vstd::prelude::*;
use vstd::string::StringSliceAdditionalSpecFns;
use vstd::utf8::*;

use crate::lang::ast::{
    clone_expr, clone_names, clone_recs, recs_view, LetRecBinding, SpecRecBinding,
};
use crate::lang::vals::{clone_val, val_view, ExpVal, Procedure, SpecProc, SpecVal};

verus! {

pub type Symbol = String;

#[derive(Debug, PartialEq, Eq)]
pub enum Env {
    EmptyEnv,
    ExtendEnv { var: Symbol, val: ExpVal, outer: Rc<Env> },
    ExtendRecEnv { bindings: Vec<LetRecBinding>, outer: Rc<Env> },
}

#[derive(Debug, PartialEq, Eq)]
pub enum EnvError {
    UnboundVariable { var: Symbol },
}

/// Model of an environment.
pub enum SpecEnv {
    Empty,
    Extend(Seq<char>, SpecVal, Box<SpecEnv>),
    ExtendRec(Seq<SpecRecBinding>, Box<SpecEnv>),
}

pub open spec fn env_view(e: Env) -> SpecEnv
    decreases e,
{
    match e {
        Env::EmptyEnv => SpecEnv::Empty,
        Env::ExtendEnv { var, val, outer } => SpecEnv::Extend(
            var@,
            val_view(val),
            Box::new(env_view(*outer)),
        ),
        Env::ExtendRecEnv { bindings, outer } => SpecEnv::ExtendRec(
            recs_view(bindings@),
            Box::new(env_view(*outer)),
        ),
    }
}

impl View for Env {
    type V = SpecEnv;

    open spec fn view(&self) -> SpecEnv {
        env_view(*self)
    }
}

/// The index of the first binding named `x` at or after `i`.
pub open spec fn rec_position(bs: Seq<SpecRecBinding>, x: Seq<char>, i: int) -> Option<int>
    decreases bs.len() - i,
{
    if i < 0 || i >= bs.len() {
        None
    } else if bs[i].name == x {
        Some(i)
    } else {
        rec_position(bs, x, i + 1)
    }
}

/// The value of `x` in `env`: the nearest binding of `x` wins. A recursive binding gives a
/// closure whose saved environment is the recursive environment itself.
pub open spec fn apply_env(env: SpecEnv, x: Seq<char>) -> Option<SpecVal>
    decreases env,
{
    match env {
        SpecEnv::Empty => None,
        SpecEnv::Extend(var, val, outer) => if var == x {
            Some(val)
        } else {
            apply_env(*outer, x)
        },
        SpecEnv::ExtendRec(bs, outer) => match rec_position(bs, x, 0) {
            Some(i) => Some(
                SpecVal::Proc(SpecProc::Closure(bs[i].params, bs[i].body, Box::new(env))),
            ),
            None => apply_env(*outer, x),
        },
    }
}

/// `Rc::clone`: a second handle to the same allocation, so it points to the same value.
#[verifier::external_body]
pub(crate) fn rc_clone<T>(r: &Rc<T>) -> (c: Rc<T>)
    ensures
        c == *r,
{
    Rc::clone(r)
}

/// Whether two strings hold the same characters.
pub fn same_text(a: &str, b: &str) -> (r: bool)
    ensures
        r == (a@ == b@),
{
    let x = a.as_bytes();
    let y = b.as_bytes();
    proof {
        encode_utf8_decode_utf8(a@);
        encode_utf8_decode_utf8(b@);
        assert(x@ == encode_utf8(a@));
        assert(y@ == encode_utf8(b@));
        assert(a@ == b@ ==> x@ == y@);
        assert(x@ == y@ ==> a@ == b@);
    }
    if x.len() != y.len() {
        assert(x@ != y@);
        return false;
    }
    let mut k: usize = 0;
    while k < x.len()
        invariant
            x@.len() == y@.len(),
            a@ == b@ ==> x@ == y@,
            x@ == y@ ==> a@ == b@,
            k <= x@.len(),
            forall|m: int| 0 <= m < k ==> x@[m] == y@[m],
        decreases x.len() - k,
    {
        if x[k] != y[k] {
            assert(x@[k as int] != y@[k as int]);
            assert(x@ != y@);
            return false;
        }
        k += 1;
    }
    assert(x@ =~= y@);
    true
}

pub proof fn lemma_rec_position(bs: Seq<SpecRecBinding>, x: Seq<char>, i: int)
    requires
        0 <= i,
    ensures
        rec_position(bs, x, i) matches Some(k) ==> i <= k < bs.len() && bs[k].name == x,
    decreases bs.len() - i,
{
    if i < bs.len() {
        lemma_rec_position(bs, x, i + 1);
    }
}

fn find_rec(bindings: &Vec<LetRecBinding>, x: &str) -> (r: Option<usize>)
    ensures
        match rec_position(recs_view(bindings@), x@, 0) {
            Some(i) => r is Some && r->Some_0 == i && i < bindings@.len(),
            None => r is None,
        },
{
    proof {
        lemma_rec_position(recs_view(bindings@), x@, 0);
    }
    proof {
        crate::lang::ast::lemma_recs_view(bindings@);
    }
    let mut i: usize = 0;
    while i < bindings.len()
        invariant
            i <= bindings@.len(),
            recs_view(bindings@).len() == bindings@.len(),
            rec_position(recs_view(bindings@), x@, 0) == rec_position(
                recs_view(bindings@),
                x@,
                i as int,
            ),
        decreases bindings.len() - i,
    {
        proof {
            crate::lang::ast::lemma_recs_view(bindings@);
        }
        assert(recs_view(bindings@)[i as int].name == bindings@[i as int].name@);
        if same_text(bindings[i].name.as_str(), x) {
            return Some(i);
        }
        i += 1;
    }
    None
}

impl Env {
    /// The environment with no bindings.
    pub fn empty() -> (r: Rc<Self>)
        ensures
            r@ == SpecEnv::Empty,
    {
        Rc::new(Self::EmptyEnv)
    }

    /// This environment with `var` bound to `val` in front.
    pub fn extend(self: Rc<Self>, var: &str, val: ExpVal) -> (r: Rc<Self>)
        ensures
            r@ == SpecEnv::Extend(var@, val@, Box::new(self@)),
    {
        Rc::new(Self::ExtendEnv { var: var.to_owned(), val, outer: self })
    }

    /// This environment with the mutually recursive procedures `bindings` in front.
    pub fn extend_rec(self: Rc<Self>, bindings: Vec<LetRecBinding>) -> (r: Rc<Self>)
        ensures
            r@ == SpecEnv::ExtendRec(recs_view(bindings@), Box::new(self@)),
    {
        Rc::new(Self::ExtendRecEnv { bindings, outer: self })
    }

    /// The value bound to `search_var`, or `UnboundVariable` when there is none.
    pub fn apply(&self, search_var: &str) -> (r: Result<ExpVal, EnvError>)
        ensures
            match apply_env(self@, search_var@) {
                Some(v) => r is Ok && r->Ok_0@ == v,
                None => r is Err && r->Err_0->var@ == search_var@,
            },
        decreases self,
    {
        match self {
            Self::EmptyEnv => Err(EnvError::UnboundVariable { var: search_var.to_owned() }),
            Self::ExtendEnv { var, val, outer } => {
                if same_text(var.as_str(), search_var) {
                    Ok(clone_val(val))
                } else {
                    outer.apply(search_var)
                }
            },
            Self::ExtendRecEnv { bindings, outer } => {
                match find_rec(bindings, search_var) {
                    Some(i) => {
                        proof {
                            crate::lang::ast::lemma_recs_view(bindings@);
                        }
                        let itself = Rc::new(
                            Self::ExtendRecEnv { bindings: clone_recs(bindings), outer: rc_clone(outer) },
                        );
                        Ok(
                            ExpVal::ProcVal(
                                Procedure::Closure {
                                    params: clone_names(&bindings[i].params),
                                    body: clone_expr(&bindings[i].body),
                                    saved_env: itself,
                                },
                            ),
                        )
                    },
                    None => outer.apply(search_var),
                }
            },
        }
    }
}

} // verus!
