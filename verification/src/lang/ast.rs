//! Abstract syntax of the language, and its mathematical model.
use vstd::prelude::*;

verus! {

broadcast use vstd::std_specs::vec::axiom_vec_decreases_to_view;

/// A whole program: one expression.
#[derive(Debug, PartialEq, Eq)]
pub struct Program {
    pub body: Expr,
}

/// The expressions of the language.
#[derive(Debug, PartialEq, Eq)]
pub enum Expr {
    ConstExp(i64),
    BoolExp(bool),
    AddExp(Vec<Expr>),
    SubExp(Vec<Expr>),
    OrExp(Vec<Expr>),
    NotExp(Box<Expr>),
    EqExp(Box<Expr>, Box<Expr>),
    CondExp(Vec<CondClause>),
    VarExp(String),
    LetExp(Vec<LetBinding>, Box<Expr>),
    LetRecExp(Vec<LetRecBinding>, Box<Expr>),
    ProcExp(Vec<String>, Box<Expr>),
    CallExp(Box<Expr>, Vec<Expr>),
}

/// One `test => result` clause of a `cond`.
#[derive(Debug, PartialEq, Eq)]
pub struct CondClause {
    pub condition: Expr,
    pub result: Expr,
}

/// One `name = expr` binding of a `let`.
#[derive(Debug, PartialEq, Eq)]
pub struct LetBinding {
    pub name: String,
    pub value: Expr,
}

/// One `name = fn(params) body` binding of a `letrec`.
#[derive(Debug, PartialEq, Eq)]
pub struct LetRecBinding {
    pub name: String,
    pub params: Vec<String>,
    pub body: Expr,
}

/// Mathematical model of an expression: lists are sequences, names are character sequences.
pub enum SpecExpr {
    Const(i64),
    Bool(bool),
    Add(Seq<SpecExpr>),
    Sub(Seq<SpecExpr>),
    Or(Seq<SpecExpr>),
    Not(Box<SpecExpr>),
    Equal(Box<SpecExpr>, Box<SpecExpr>),
    Cond(Seq<SpecClause>),
    Var(Seq<char>),
    Let(Seq<SpecLetBinding>, Box<SpecExpr>),
    LetRec(Seq<SpecRecBinding>, Box<SpecExpr>),
    Proc(Seq<Seq<char>>, Box<SpecExpr>),
    Call(Box<SpecExpr>, Seq<SpecExpr>),
}

pub struct SpecClause {
    pub condition: SpecExpr,
    pub result: SpecExpr,
}

pub struct SpecLetBinding {
    pub name: Seq<char>,
    pub value: SpecExpr,
}

pub struct SpecRecBinding {
    pub name: Seq<char>,
    pub params: Seq<Seq<char>>,
    pub body: SpecExpr,
}

pub open spec fn names_view(s: Seq<String>) -> Seq<Seq<char>> {
    s.map_values(|x: String| x@)
}

pub open spec fn expr_view(e: Expr) -> SpecExpr
    decreases e,
{
    match e {
        Expr::ConstExp(n) => SpecExpr::Const(n),
        Expr::BoolExp(b) => SpecExpr::Bool(b),
        Expr::AddExp(args) => SpecExpr::Add(exprs_view(args@)),
        Expr::SubExp(args) => SpecExpr::Sub(exprs_view(args@)),
        Expr::OrExp(args) => SpecExpr::Or(exprs_view(args@)),
        Expr::NotExp(a) => SpecExpr::Not(Box::new(expr_view(*a))),
        Expr::EqExp(a, b) => SpecExpr::Equal(Box::new(expr_view(*a)), Box::new(expr_view(*b))),
        Expr::CondExp(cs) => SpecExpr::Cond(clauses_view(cs@)),
        Expr::VarExp(x) => SpecExpr::Var(x@),
        Expr::LetExp(bs, body) => SpecExpr::Let(lets_view(bs@), Box::new(expr_view(*body))),
        Expr::LetRecExp(bs, body) => SpecExpr::LetRec(recs_view(bs@), Box::new(expr_view(*body))),
        Expr::ProcExp(ps, body) => SpecExpr::Proc(names_view(ps@), Box::new(expr_view(*body))),
        Expr::CallExp(f, args) => SpecExpr::Call(Box::new(expr_view(*f)), exprs_view(args@)),
    }
}

pub open spec fn exprs_view(s: Seq<Expr>) -> Seq<SpecExpr>
    decreases s,
{
    if s.len() == 0 {
        Seq::empty()
    } else {
        seq![expr_view(s[0])] + exprs_view(s.subrange(1, s.len() as int))
    }
}

pub open spec fn clause_view(c: CondClause) -> SpecClause
    decreases c,
{
    SpecClause { condition: expr_view(c.condition), result: expr_view(c.result) }
}

pub open spec fn clauses_view(s: Seq<CondClause>) -> Seq<SpecClause>
    decreases s,
{
    if s.len() == 0 {
        Seq::empty()
    } else {
        seq![clause_view(s[0])] + clauses_view(s.subrange(1, s.len() as int))
    }
}

pub open spec fn let_view(b: LetBinding) -> SpecLetBinding
    decreases b,
{
    SpecLetBinding { name: b.name@, value: expr_view(b.value) }
}

pub open spec fn lets_view(s: Seq<LetBinding>) -> Seq<SpecLetBinding>
    decreases s,
{
    if s.len() == 0 {
        Seq::empty()
    } else {
        seq![let_view(s[0])] + lets_view(s.subrange(1, s.len() as int))
    }
}

pub open spec fn rec_view(b: LetRecBinding) -> SpecRecBinding
    decreases b,
{
    SpecRecBinding { name: b.name@, params: names_view(b.params@), body: expr_view(b.body) }
}

pub open spec fn recs_view(s: Seq<LetRecBinding>) -> Seq<SpecRecBinding>
    decreases s,
{
    if s.len() == 0 {
        Seq::empty()
    } else {
        seq![rec_view(s[0])] + recs_view(s.subrange(1, s.len() as int))
    }
}

pub proof fn lemma_exprs_view(s: Seq<Expr>)
    ensures
        exprs_view(s).len() == s.len(),
        forall|i: int| 0 <= i < s.len() ==> #[trigger] exprs_view(s)[i] == expr_view(s[i]),
    decreases s.len(),
{
    if s.len() > 0 {
        lemma_exprs_view(s.subrange(1, s.len() as int));
    }
}

pub proof fn lemma_clauses_view(s: Seq<CondClause>)
    ensures
        clauses_view(s).len() == s.len(),
        forall|i: int| 0 <= i < s.len() ==> #[trigger] clauses_view(s)[i] == clause_view(s[i]),
    decreases s.len(),
{
    if s.len() > 0 {
        lemma_clauses_view(s.subrange(1, s.len() as int));
    }
}

pub proof fn lemma_lets_view(s: Seq<LetBinding>)
    ensures
        lets_view(s).len() == s.len(),
        forall|i: int| 0 <= i < s.len() ==> #[trigger] lets_view(s)[i] == let_view(s[i]),
    decreases s.len(),
{
    if s.len() > 0 {
        lemma_lets_view(s.subrange(1, s.len() as int));
    }
}

pub proof fn lemma_recs_view(s: Seq<LetRecBinding>)
    ensures
        recs_view(s).len() == s.len(),
        forall|i: int| 0 <= i < s.len() ==> #[trigger] recs_view(s)[i] == rec_view(s[i]),
    decreases s.len(),
{
    if s.len() > 0 {
        lemma_recs_view(s.subrange(1, s.len() as int));
    }
}

impl View for Expr {
    type V = SpecExpr;

    open spec fn view(&self) -> SpecExpr {
        expr_view(*self)
    }
}

impl View for Program {
    type V = SpecExpr;

    open spec fn view(&self) -> SpecExpr {
        expr_view(self.body)
    }
}

impl View for CondClause {
    type V = SpecClause;

    open spec fn view(&self) -> SpecClause {
        clause_view(*self)
    }
}

impl View for LetBinding {
    type V = SpecLetBinding;

    open spec fn view(&self) -> SpecLetBinding {
        let_view(*self)
    }
}

impl View for LetRecBinding {
    type V = SpecRecBinding;

    open spec fn view(&self) -> SpecRecBinding {
        rec_view(*self)
    }
}

impl Program {
    pub fn new(body: Expr) -> (p: Self)
        ensures
            p.body == body,
    {
        Self { body }
    }
}

impl CondClause {
    pub fn new(condition: Expr, result: Expr) -> (c: Self)
        ensures
            c.condition == condition,
            c.result == result,
    {
        Self { condition, result }
    }
}

impl LetBinding {
    pub fn new(name: &str, value: Expr) -> (b: Self)
        ensures
            b.name@ == name@,
            b.value == value,
    {
        Self { name: name.to_owned(), value }
    }
}

impl LetRecBinding {
    pub fn new(name: &str, params: Vec<String>, body: Expr) -> (b: Self)
        ensures
            b.name@ == name@,
            b.params == params,
            b.body == body,
    {
        Self { name: name.to_owned(), params, body }
    }
}

/// A copy of a list of names.
pub fn clone_names(names: &Vec<String>) -> (r: Vec<String>)
    ensures
        r@ == names@,
{
    let mut out: Vec<String> = Vec::new();
    let mut i: usize = 0;
    while i < names.len()
        invariant
            i <= names.len(),
            out@ == names@.subrange(0, i as int),
        decreases names.len() - i,
    {
        out.push(names[i].clone());
        i += 1;
    }
    assert(names@.subrange(0, names.len() as int) =~= names@);
    out
}

/// A copy of an expression, equal to it in the model.
pub fn clone_expr(e: &Expr) -> (r: Expr)
    ensures
        r@ == e@,
    decreases e, 0nat,
{
    match e {
        Expr::ConstExp(n) => Expr::ConstExp(*n),
        Expr::BoolExp(b) => Expr::BoolExp(*b),
        Expr::AddExp(args) => {
            assert(decreases_to!(*e => e->AddExp_0));
            Expr::AddExp(clone_exprs(args))
        },
        Expr::SubExp(args) => {
            assert(decreases_to!(*e => e->SubExp_0));
            Expr::SubExp(clone_exprs(args))
        },
        Expr::OrExp(args) => {
            assert(decreases_to!(*e => e->OrExp_0));
            Expr::OrExp(clone_exprs(args))
        },
        Expr::NotExp(a) => Expr::NotExp(Box::new(clone_expr(a))),
        Expr::EqExp(a, b) => Expr::EqExp(Box::new(clone_expr(a)), Box::new(clone_expr(b))),
        Expr::CondExp(cs) => {
            assert(decreases_to!(*e => e->CondExp_0));
            Expr::CondExp(clone_clauses(cs))
        },
        Expr::VarExp(x) => Expr::VarExp(x.clone()),
        Expr::LetExp(bs, body) => {
            assert(decreases_to!(*e => e->LetExp_0));
            Expr::LetExp(clone_lets(bs), Box::new(clone_expr(body)))
        },
        Expr::LetRecExp(bs, body) => {
            assert(decreases_to!(*e => e->LetRecExp_0));
            Expr::LetRecExp(clone_recs(bs), Box::new(clone_expr(body)))
        },
        Expr::ProcExp(ps, body) => Expr::ProcExp(clone_names(ps), Box::new(clone_expr(body))),
        Expr::CallExp(f, args) => {
            assert(decreases_to!(*e => e->CallExp_1));
            Expr::CallExp(Box::new(clone_expr(f)), clone_exprs(args))
        },
    }
}

/// A copy of a list of expressions, equal to it in the model.
pub fn clone_exprs(args: &Vec<Expr>) -> (r: Vec<Expr>)
    ensures
        exprs_view(r@) == exprs_view(args@),
    decreases args, 1nat,
{
    let mut out: Vec<Expr> = Vec::new();
    let mut i: usize = 0;
    while i < args.len()
        invariant
            i <= args.len(),
            out@.len() == i,
            forall|j: int| 0 <= j < i ==> expr_view(#[trigger] out@[j]) == expr_view(args@[j]),
        decreases args.len() - i,
    {
        assert(decreases_to!(args@ => args@[i as int]));
        out.push(clone_expr(&args[i]));
        i += 1;
    }
    proof {
        lemma_exprs_view(out@);
        lemma_exprs_view(args@);
        assert(exprs_view(out@) =~= exprs_view(args@));
    }
    out
}

/// A copy of a list of `cond` clauses, equal to it in the model.
pub fn clone_clauses(cs: &Vec<CondClause>) -> (r: Vec<CondClause>)
    ensures
        clauses_view(r@) == clauses_view(cs@),
    decreases cs, 1nat,
{
    let mut out: Vec<CondClause> = Vec::new();
    let mut i: usize = 0;
    while i < cs.len()
        invariant
            i <= cs.len(),
            out@.len() == i,
            forall|j: int| 0 <= j < i ==> clause_view(#[trigger] out@[j]) == clause_view(cs@[j]),
        decreases cs.len() - i,
    {
        assert(decreases_to!(cs@ => cs@[i as int]));
        assert(decreases_to!(cs@[i as int] => cs@[i as int].condition));
        assert(decreases_to!(cs@[i as int] => cs@[i as int].result));
        let c = clone_expr(&cs[i].condition);
        let r = clone_expr(&cs[i].result);
        out.push(CondClause { condition: c, result: r });
        i += 1;
    }
    proof {
        lemma_clauses_view(out@);
        lemma_clauses_view(cs@);
        assert(clauses_view(out@) =~= clauses_view(cs@));
    }
    out
}

/// A copy of a list of `let` bindings, equal to it in the model.
pub fn clone_lets(bs: &Vec<LetBinding>) -> (r: Vec<LetBinding>)
    ensures
        lets_view(r@) == lets_view(bs@),
    decreases bs, 1nat,
{
    let mut out: Vec<LetBinding> = Vec::new();
    let mut i: usize = 0;
    while i < bs.len()
        invariant
            i <= bs.len(),
            out@.len() == i,
            forall|j: int| 0 <= j < i ==> let_view(#[trigger] out@[j]) == let_view(bs@[j]),
        decreases bs.len() - i,
    {
        assert(decreases_to!(bs@ => bs@[i as int]));
        assert(decreases_to!(bs@[i as int] => bs@[i as int].value));
        let v = clone_expr(&bs[i].value);
        out.push(LetBinding { name: bs[i].name.clone(), value: v });
        i += 1;
    }
    proof {
        lemma_lets_view(out@);
        lemma_lets_view(bs@);
        assert(lets_view(out@) =~= lets_view(bs@));
    }
    out
}

/// A copy of one `letrec` binding, equal to it in the model.
pub fn clone_rec(b: &LetRecBinding) -> (r: LetRecBinding)
    ensures
        r@ == b@,
    decreases b, 0nat,
{
    let body = clone_expr(&b.body);
    LetRecBinding { name: b.name.clone(), params: clone_names(&b.params), body }
}

/// A copy of a list of `letrec` bindings, equal to it in the model.
pub fn clone_recs(bs: &Vec<LetRecBinding>) -> (r: Vec<LetRecBinding>)
    ensures
        recs_view(r@) == recs_view(bs@),
    decreases bs, 1nat,
{
    let mut out: Vec<LetRecBinding> = Vec::new();
    let mut i: usize = 0;
    while i < bs.len()
        invariant
            i <= bs.len(),
            out@.len() == i,
            forall|j: int| 0 <= j < i ==> rec_view(#[trigger] out@[j]) == rec_view(bs@[j]),
        decreases bs.len() - i,
    {
        assert(decreases_to!(bs@ => bs@[i as int]));
        out.push(clone_rec(&bs[i]));
        i += 1;
    }
    proof {
        lemma_recs_view(out@);
        lemma_recs_view(bs@);
        assert(recs_view(out@) =~= recs_view(bs@));
    }
    out
}

} // verus!
