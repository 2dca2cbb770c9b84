//! Expressed values: numbers, booleans and procedures.
use std::rc::Rc;
use vstd::prelude::*;
use vstd::string::StringExecFns;

use crate::lang::ast::{clone_expr, clone_names, expr_view, names_view, Expr, SpecExpr};
use crate::lang::envs::{env_view, rc_clone, Env, SpecEnv};

verus! {

#[derive(Debug, PartialEq, Eq)]
pub enum ExpVal {
    NumVal(i64),
    BoolVal(bool),
    ProcVal(Procedure),
}

#[derive(Debug, PartialEq, Eq)]
pub enum Procedure {
    Closure { params: Vec<String>, body: Expr, saved_env: Rc<Env> },
    Builtin(PrimOp),
}

#[derive(Clone, Copy, Debug, PartialEq, Eq)]
pub enum PrimOp {
    Add,
    Sub,
    Eq,
    Not,
}

#[derive(Debug, PartialEq, Eq)]
pub enum ExpValError {
    NumValExpected { actual: Box<ExpVal> },
    BoolValExpected { actual: Box<ExpVal> },
    ProcValExpected { actual: Box<ExpVal> },
}

/// Model of a value.
pub enum SpecVal {
    Num(i64),
    Bool(bool),
    Proc(SpecProc),
}

/// Model of a procedure: a closure is its parameters, its body and the environment it saved.
pub enum SpecProc {
    Closure(Seq<Seq<char>>, SpecExpr, Box<SpecEnv>),
    Builtin(PrimOp),
}

/// Model of a value of the wrong kind, with the value that was found.
pub enum SpecValError {
    NumExpected(SpecVal),
    BoolExpected(SpecVal),
    ProcExpected(SpecVal),
}

pub open spec fn val_view(v: ExpVal) -> SpecVal
    decreases v,
{
    match v {
        ExpVal::NumVal(n) => SpecVal::Num(n),
        ExpVal::BoolVal(b) => SpecVal::Bool(b),
        ExpVal::ProcVal(p) => SpecVal::Proc(proc_view(p)),
    }
}

pub open spec fn proc_view(p: Procedure) -> SpecProc
    decreases p,
{
    match p {
        Procedure::Closure { params, body, saved_env } => SpecProc::Closure(
            names_view(params@),
            expr_view(body),
            Box::new(env_view(*saved_env)),
        ),
        Procedure::Builtin(op) => SpecProc::Builtin(op),
    }
}

impl View for ExpVal {
    type V = SpecVal;

    open spec fn view(&self) -> SpecVal {
        val_view(*self)
    }
}

impl View for Procedure {
    type V = SpecProc;

    open spec fn view(&self) -> SpecProc {
        proc_view(*self)
    }
}

impl View for ExpValError {
    type V = SpecValError;

    open spec fn view(&self) -> SpecValError {
        match self {
            ExpValError::NumValExpected { actual } => SpecValError::NumExpected(val_view(**actual)),
            ExpValError::BoolValExpected { actual } => SpecValError::BoolExpected(val_view(**actual)),
            ExpValError::ProcValExpected { actual } => SpecValError::ProcExpected(val_view(**actual)),
        }
    }
}

/// A copy of a procedure, equal to it in the model; a closure's saved environment is shared.
pub fn clone_proc(p: &Procedure) -> (r: Procedure)
    ensures
        r@ == p@,
{
    match p {
        Procedure::Closure { params, body, saved_env } => Procedure::Closure {
            params: clone_names(params),
            body: clone_expr(body),
            saved_env: rc_clone(saved_env),
        },
        Procedure::Builtin(op) => Procedure::Builtin(*op),
    }
}

/// A copy of a value, equal to it in the model.
pub fn clone_val(v: &ExpVal) -> (r: ExpVal)
    ensures
        r@ == v@,
{
    match v {
        ExpVal::NumVal(n) => ExpVal::NumVal(*n),
        ExpVal::BoolVal(b) => ExpVal::BoolVal(*b),
        ExpVal::ProcVal(p) => ExpVal::ProcVal(clone_proc(p)),
    }
}

impl ExpVal {
    pub fn num(n: i64) -> (v: Self)
        ensures
            v@ == SpecVal::Num(n),
    {
        Self::NumVal(n)
    }

    pub fn boolean(b: bool) -> (v: Self)
        ensures
            v@ == SpecVal::Bool(b),
    {
        Self::BoolVal(b)
    }

    pub fn proc(proc: Procedure) -> (v: Self)
        ensures
            v@ == SpecVal::Proc(proc@),
    {
        Self::ProcVal(proc)
    }

    /// The number this value holds, or an error that carries the value.
    pub fn as_num(&self) -> (r: Result<i64, ExpValError>)
        ensures
            match self@ {
                SpecVal::Num(n) => r == Ok::<i64, ExpValError>(n),
                v => r is Err && r->Err_0@ == SpecValError::NumExpected(v),
            },
    {
        match self {
            Self::NumVal(n) => Ok(*n),
            _ => Err(ExpValError::NumValExpected { actual: Box::new(clone_val(self)) }),
        }
    }

    /// The boolean this value holds, or an error that carries the value.
    pub fn as_bool(&self) -> (r: Result<bool, ExpValError>)
        ensures
            match self@ {
                SpecVal::Bool(b) => r == Ok::<bool, ExpValError>(b),
                v => r is Err && r->Err_0@ == SpecValError::BoolExpected(v),
            },
    {
        match self {
            Self::BoolVal(b) => Ok(*b),
            _ => Err(ExpValError::BoolValExpected { actual: Box::new(clone_val(self)) }),
        }
    }

    /// The procedure this value holds, or an error that carries the value.
    pub fn as_proc(&self) -> (r: Result<Procedure, ExpValError>)
        ensures
            match self@ {
                SpecVal::Proc(p) => r is Ok && r->Ok_0@ == p,
                v => r is Err && r->Err_0@ == SpecValError::ProcExpected(v),
            },
    {
        match self {
            Self::ProcVal(proc) => Ok(clone_proc(proc)),
            _ => Err(ExpValError::ProcValExpected { actual: Box::new(clone_val(self)) }),
        }
    }
}

/// The decimal digit of a number below ten.
pub open spec fn digit_char(d: nat) -> char {
    seq!['0', '1', '2', '3', '4', '5', '6', '7', '8', '9'][d as int]
}

/// The decimal digits of a natural number, most significant first, without leading zeros.
pub open spec fn digits(n: nat) -> Seq<char>
    decreases n,
{
    if n < 10 {
        seq![digit_char(n)]
    } else {
        digits(n / 10).push(digit_char(n % 10))
    }
}

/// An integer in decimal, with a `-` in front of a negative one.
pub open spec fn decimal(n: int) -> Seq<char> {
    if n < 0 {
        seq!['-'] + digits((-n) as nat)
    } else {
        digits(n as nat)
    }
}

/// How a value is shown: a number in decimal, a boolean as `true` or `false`, a procedure as
/// `<procedure>`.
pub open spec fn val_text(v: SpecVal) -> Seq<char> {
    match v {
        SpecVal::Num(n) => decimal(n as int),
        SpecVal::Bool(b) => if b {
            "true"@
        } else {
            "false"@
        },
        SpecVal::Proc(_) => "<procedure>"@,
    }
}

fn digit_text(d: u64) -> (r: &'static str)
    requires
        d < 10,
    ensures
        r@ == seq![digit_char(d as nat)],
{
    proof {
        reveal_strlit("0");
        reveal_strlit("1");
        reveal_strlit("2");
        reveal_strlit("3");
        reveal_strlit("4");
        reveal_strlit("5");
        reveal_strlit("6");
        reveal_strlit("7");
        reveal_strlit("8");
        reveal_strlit("9");
    }
    if d == 0 {
        "0"
    } else if d == 1 {
        "1"
    } else if d == 2 {
        "2"
    } else if d == 3 {
        "3"
    } else if d == 4 {
        "4"
    } else if d == 5 {
        "5"
    } else if d == 6 {
        "6"
    } else if d == 7 {
        "7"
    } else if d == 8 {
        "8"
    } else {
        "9"
    }
}

fn push_digits(m: u64, out: &mut String)
    ensures
        final(out)@ == old(out)@ + digits(m as nat),
    decreases m,
{
    if m >= 10 {
        push_digits(m / 10, out);
    }
    out.append(digit_text(m % 10));
}

/// A count in decimal.
pub fn count_text(n: usize) -> (r: String)
    ensures
        r@ == digits(n as nat),
{
    let mut out = String::new();
    push_digits(n as u64, &mut out);
    out
}

/// An integer in decimal.
pub fn decimal_text(n: i64) -> (r: String)
    ensures
        r@ == decimal(n as int),
{
    let mut out = String::new();
    if n < 0 {
        out.append("-");
        proof {
            reveal_strlit("-");
        }
        let m = (0i128 - n as i128) as u64;
        push_digits(m, &mut out);
    } else {
        push_digits(n as u64, &mut out);
    }
    out
}

impl ExpVal {
    /// How the value is shown: a number in decimal, a boolean as `true` or `false`, a procedure
    /// as `<procedure>`.
    pub fn to_text(&self) -> (r: String)
        ensures
            r@ == val_text(self@),
    {
        match self {
            ExpVal::NumVal(n) => decimal_text(*n),
            ExpVal::BoolVal(b) => if *b {
                "true".to_owned()
            } else {
                "false".to_owned()
            },
            ExpVal::ProcVal(_) => "<procedure>".to_owned(),
        }
    }
}

} // verus!
