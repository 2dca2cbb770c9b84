//! The parser: tokens to a program, by recursive descent.
//!
//! Grammar, where each alternative is chosen by its first token:
//!
//! ```text
//! expr    := INT | true | false | IDENT | IDENT args
//!          | + args | - args | or args | not args | = args | cond ( (expr => expr)+ )
//!          | let ( (IDENT = expr)* ) expr | letrec ( (IDENT = fn params expr)* ) expr
//!          | fn params expr
//! args    := ( expr* )
//! params  := ( IDENT* )
//! ```
//!
//! `not` takes exactly one argument and `=` exactly two.
use vstd::prelude::*;

use crate::lang::ast::{
    names_view,
    exprs_view, lemma_clauses_view, lemma_exprs_view, lemma_lets_view, lemma_recs_view,
    clauses_view, lets_view, recs_view, CondClause, Expr, LetBinding, LetRecBinding, Program,
    SpecClause, SpecExpr, SpecLetBinding, SpecRecBinding,
};
use crate::lang::scanner::{
    has_oversized_int, scan, scan_spec, tokens_view, ScanError, Span, SpecKind, SpecScan,
    SpecToken, Token, TokenKind,
};
use vstd::string::StringSliceAdditionalSpecFns;

verus! {

#[derive(Debug, PartialEq, Eq)]
pub enum ParseError {
    Scan(ScanError),
    UnexpectedEnd { expected: &'static str },
    UnexpectedToken { expected: &'static str, found: TokenKind, span: Span },
    WrongArity { op: &'static str, expected: usize, actual: usize, span: Span },
    EmptyCond { span: Span },
}

/// Model of a parse error; texts are character sequences, spans are byte offsets.
pub enum SpecParseError {
    Scan(int, int),
    UnexpectedEnd(Seq<char>),
    UnexpectedToken(Seq<char>, SpecKind, int, int),
    WrongArity(Seq<char>, int, int, int, int),
    EmptyCond(int, int),
}

impl View for ParseError {
    type V = SpecParseError;

    open spec fn view(&self) -> SpecParseError {
        match self {
            ParseError::Scan(ScanError::UnexpectedToken { span }) => SpecParseError::Scan(
                span.start as int,
                span.end as int,
            ),
            ParseError::UnexpectedEnd { expected } => SpecParseError::UnexpectedEnd(expected@),
            ParseError::UnexpectedToken { expected, found, span } => SpecParseError::UnexpectedToken(
                expected@,
                found@,
                span.start as int,
                span.end as int,
            ),
            ParseError::WrongArity { op, expected, actual, span } => SpecParseError::WrongArity(
                op@,
                *expected as int,
                *actual as int,
                span.start as int,
                span.end as int,
            ),
            ParseError::EmptyCond { span } => SpecParseError::EmptyCond(
                span.start as int,
                span.end as int,
            ),
        }
    }
}

/// The result of parsing one item at a position: the item and the position after it.
pub type Parsed<T> = Result<(T, int), SpecParseError>;

pub open spec fn unexpected(what: Seq<char>, t: SpecToken) -> SpecParseError {
    SpecParseError::UnexpectedToken(what, t.kind, t.start, t.end)
}

pub open spec fn at_kind(ts: Seq<SpecToken>, p: int, k: SpecKind) -> bool {
    0 <= p < ts.len() && ts[p].kind == k
}

/// Consuming one token of kind `k`, described as `what` in errors.
pub open spec fn expect_at(ts: Seq<SpecToken>, p: int, k: SpecKind, what: Seq<char>) -> Result<
    int,
    SpecParseError,
> {
    if p < 0 || p >= ts.len() {
        Err(SpecParseError::UnexpectedEnd(what))
    } else if ts[p].kind == k {
        Ok(p + 1)
    } else {
        Err(unexpected(what, ts[p]))
    }
}

/// A parenthesised list of identifiers: the parameters of a procedure.
pub open spec fn params_at(ts: Seq<SpecToken>, p: int) -> Parsed<Seq<Seq<char>>> {
    match expect_at(ts, p, SpecKind::LParen, "`(`"@) {
        Ok(q) => names_from(ts, q, Seq::empty()),
        Err(e) => Err(e),
    }
}

pub open spec fn names_from(ts: Seq<SpecToken>, p: int, acc: Seq<Seq<char>>) -> Parsed<
    Seq<Seq<char>>,
>
    decreases ts.len() - p,
{
    if at_kind(ts, p, SpecKind::RParen) {
        Ok((acc, p + 1))
    } else if p < 0 || p >= ts.len() {
        Err(SpecParseError::UnexpectedEnd("`)`"@))
    } else {
        match ts[p].kind {
            SpecKind::Ident(x) => names_from(ts, p + 1, acc.push(x)),
            _ => Err(unexpected("identifier"@, ts[p])),
        }
    }
}

pub proof fn lemma_params_progress(ts: Seq<SpecToken>, p: int)
    ensures
        params_at(ts, p) matches Ok((_, q)) ==> p < q <= ts.len(),
{
    if 0 <= p < ts.len() {
        lemma_names_progress(ts, p + 1, Seq::empty());
    }
}

proof fn lemma_names_progress(ts: Seq<SpecToken>, p: int, acc: Seq<Seq<char>>)
    requires
        0 <= p,
    ensures
        names_from(ts, p, acc) matches Ok((_, q)) ==> p < q <= ts.len(),
    decreases ts.len() - p,
{
    if p < ts.len() {
        lemma_names_progress(ts, p + 1, acc.push(Seq::empty()));
        if let SpecKind::Ident(x) = ts[p].kind {
            lemma_names_progress(ts, p + 1, acc.push(x));
        }
    }
}

/// An expression starting at token `p`.
pub open spec fn expr_at(ts: Seq<SpecToken>, p: int) -> Parsed<SpecExpr>
    decreases ts.len() - p, 0int,
{
    if p < 0 || p >= ts.len() {
        Err(SpecParseError::UnexpectedEnd("expression"@))
    } else {
        let t = ts[p];
        let q = p + 1;
        match t.kind {
            SpecKind::Int(n) => Ok((SpecExpr::Const(n), q)),
            SpecKind::True => Ok((SpecExpr::Bool(true), q)),
            SpecKind::False => Ok((SpecExpr::Bool(false), q)),
            SpecKind::Plus => match args_at(ts, q) {
                Ok((args, r)) => Ok((SpecExpr::Add(args), r)),
                Err(e) => Err(e),
            },
            SpecKind::Minus => match args_at(ts, q) {
                Ok((args, r)) => Ok((SpecExpr::Sub(args), r)),
                Err(e) => Err(e),
            },
            SpecKind::Or => match args_at(ts, q) {
                Ok((args, r)) => Ok((SpecExpr::Or(args), r)),
                Err(e) => Err(e),
            },
            SpecKind::Not => not_rest(ts, q, t),
            SpecKind::Equals => equal_rest(ts, q, t),
            SpecKind::Cond => cond_rest(ts, q, t),
            SpecKind::Ident(x) => if at_kind(ts, q, SpecKind::LParen) {
                match args_at(ts, q) {
                    Ok((args, r)) => Ok((SpecExpr::Call(Box::new(SpecExpr::Var(x)), args), r)),
                    Err(e) => Err(e),
                }
            } else {
                Ok((SpecExpr::Var(x), q))
            },
            SpecKind::Let => let_rest(ts, q),
            SpecKind::LetRec => letrec_rest(ts, q),
            SpecKind::Fn => fn_rest(ts, q),
            _ => Err(unexpected("expression"@, t)),
        }
    }
}

/// `not` with its arguments from `q`; `t` is the `not` token.
pub open spec fn not_rest(ts: Seq<SpecToken>, q: int, t: SpecToken) -> Parsed<SpecExpr>
    decreases ts.len() - q, 2int,
{
    match args_at(ts, q) {
        Ok((args, r)) => if args.len() == 1 {
            Ok((SpecExpr::Not(Box::new(args[0])), r))
        } else {
            Err(SpecParseError::WrongArity("not"@, 1, args.len() as int, t.start, t.end))
        },
        Err(e) => Err(e),
    }
}

/// `=` with its arguments from `q`; `t` is the `=` token.
pub open spec fn equal_rest(ts: Seq<SpecToken>, q: int, t: SpecToken) -> Parsed<SpecExpr>
    decreases ts.len() - q, 2int,
{
    match args_at(ts, q) {
        Ok((args, r)) => if args.len() == 2 {
            Ok((SpecExpr::Equal(Box::new(args[0]), Box::new(args[1])), r))
        } else {
            Err(SpecParseError::WrongArity("="@, 2, args.len() as int, t.start, t.end))
        },
        Err(e) => Err(e),
    }
}

/// `cond` with its clauses from `q`; `t` is the `cond` token.
pub open spec fn cond_rest(ts: Seq<SpecToken>, q: int, t: SpecToken) -> Parsed<SpecExpr>
    decreases ts.len() - q, 2int,
{
    match expect_at(ts, q, SpecKind::LParen, "`(`"@) {
        Ok(r) => match clauses_from(ts, r, Seq::empty()) {
            Ok((cs, s)) => if cs.len() == 0 {
                Err(SpecParseError::EmptyCond(t.start, t.end))
            } else {
                Ok((SpecExpr::Cond(cs), s))
            },
            Err(e) => Err(e),
        },
        Err(e) => Err(e),
    }
}

/// `let` with its bindings and body from `q`.
pub open spec fn let_rest(ts: Seq<SpecToken>, q: int) -> Parsed<SpecExpr>
    decreases ts.len() - q, 2int,
{
    match expect_at(ts, q, SpecKind::LParen, "`(`"@) {
        Ok(r) => match lets_from(ts, r, Seq::empty()) {
            // the bindings always end after `q`
            Ok((bs, s)) => if q <= s <= ts.len() {
                match expr_at(ts, s) {
                    Ok((body, u)) => Ok((SpecExpr::Let(bs, Box::new(body)), u)),
                    Err(e) => Err(e),
                }
            } else {
                Err(SpecParseError::UnexpectedEnd("expression"@))
            },
            Err(e) => Err(e),
        },
        Err(e) => Err(e),
    }
}

/// `letrec` with its bindings and body from `q`.
pub open spec fn letrec_rest(ts: Seq<SpecToken>, q: int) -> Parsed<SpecExpr>
    decreases ts.len() - q, 2int,
{
    match expect_at(ts, q, SpecKind::LParen, "`(`"@) {
        Ok(r) => match recs_from(ts, r, Seq::empty()) {
            // the bindings always end after `q`
            Ok((bs, s)) => if q <= s <= ts.len() {
                match expr_at(ts, s) {
                    Ok((body, u)) => Ok((SpecExpr::LetRec(bs, Box::new(body)), u)),
                    Err(e) => Err(e),
                }
            } else {
                Err(SpecParseError::UnexpectedEnd("expression"@))
            },
            Err(e) => Err(e),
        },
        Err(e) => Err(e),
    }
}

/// `fn` with its parameters and body from `q`.
pub open spec fn fn_rest(ts: Seq<SpecToken>, q: int) -> Parsed<SpecExpr>
    decreases ts.len() - q, 2int,
{
    proof {
        lemma_params_progress(ts, q);
    }
    match params_at(ts, q) {
        Ok((ps, r)) => match expr_at(ts, r) {
            Ok((body, s)) => Ok((SpecExpr::Proc(ps, Box::new(body)), s)),
            Err(e) => Err(e),
        },
        Err(e) => Err(e),
    }
}

/// A parenthesised list of expressions starting at token `p`.
pub open spec fn args_at(ts: Seq<SpecToken>, p: int) -> Parsed<Seq<SpecExpr>>
    decreases ts.len() - p, 1int,
{
    match expect_at(ts, p, SpecKind::LParen, "`(`"@) {
        Ok(q) => exprs_from(ts, q, Seq::empty()),
        Err(e) => Err(e),
    }
}

/// Expressions up to the closing parenthesis, after the expressions `acc`.
pub open spec fn exprs_from(ts: Seq<SpecToken>, p: int, acc: Seq<SpecExpr>) -> Parsed<
    Seq<SpecExpr>,
>
    decreases ts.len() - p, 1int,
{
    if at_kind(ts, p, SpecKind::RParen) {
        Ok((acc, p + 1))
    } else if p < 0 || p >= ts.len() {
        Err(SpecParseError::UnexpectedEnd("`)`"@))
    } else {
        match expr_at(ts, p) {
            // an expression always spans at least one token
            Ok((e, q)) => if p < q <= ts.len() {
                exprs_from(ts, q, acc.push(e))
            } else {
                Err(SpecParseError::UnexpectedEnd("`)`"@))
            },
            Err(e) => Err(e),
        }
    }
}

/// `cond` clauses up to the closing parenthesis, after the clauses `acc`.
pub open spec fn clauses_from(ts: Seq<SpecToken>, p: int, acc: Seq<SpecClause>) -> Parsed<
    Seq<SpecClause>,
>
    decreases ts.len() - p, 1int,
{
    if at_kind(ts, p, SpecKind::RParen) {
        Ok((acc, p + 1))
    } else if p < 0 || p >= ts.len() {
        Err(SpecParseError::UnexpectedEnd("`)`"@))
    } else {
        match expr_at(ts, p) {
            Ok((c, q)) => if q > p {
                match expect_at(ts, q, SpecKind::Arrow, "`=>`"@) {
                    Ok(r) => match expr_at(ts, r) {
                        Ok((v, s)) => if p < s <= ts.len() {
                            clauses_from(
                                ts,
                                s,
                                acc.push(SpecClause { condition: c, result: v }),
                            )
                        } else {
                            Err(SpecParseError::UnexpectedEnd("`)`"@))
                        },
                        Err(e) => Err(e),
                    },
                    Err(e) => Err(e),
                }
            } else {
                Err(SpecParseError::UnexpectedEnd("`)`"@))
            },
            Err(e) => Err(e),
        }
    }
}

/// `let` bindings up to the closing parenthesis, after the bindings `acc`.
pub open spec fn lets_from(ts: Seq<SpecToken>, p: int, acc: Seq<SpecLetBinding>) -> Parsed<
    Seq<SpecLetBinding>,
>
    decreases ts.len() - p, 1int,
{
    if at_kind(ts, p, SpecKind::RParen) {
        Ok((acc, p + 1))
    } else if p < 0 || p >= ts.len() {
        Err(SpecParseError::UnexpectedEnd("`)`"@))
    } else {
        match ts[p].kind {
            SpecKind::Ident(x) => match expect_at(ts, p + 1, SpecKind::Equals, "`=`"@) {
                Ok(q) => match expr_at(ts, q) {
                    Ok((v, r)) => if p < r <= ts.len() {
                        lets_from(ts, r, acc.push(SpecLetBinding { name: x, value: v }))
                    } else {
                        Err(SpecParseError::UnexpectedEnd("`)`"@))
                    },
                    Err(e) => Err(e),
                },
                Err(e) => Err(e),
            },
            _ => Err(unexpected("identifier"@, ts[p])),
        }
    }
}

/// `letrec` bindings up to the closing parenthesis, after the bindings `acc`.
pub open spec fn recs_from(ts: Seq<SpecToken>, p: int, acc: Seq<SpecRecBinding>) -> Parsed<
    Seq<SpecRecBinding>,
>
    decreases ts.len() - p, 1int,
{
    if at_kind(ts, p, SpecKind::RParen) {
        Ok((acc, p + 1))
    } else if p < 0 || p >= ts.len() {
        Err(SpecParseError::UnexpectedEnd("`)`"@))
    } else {
        match ts[p].kind {
            SpecKind::Ident(x) => match expect_at(ts, p + 1, SpecKind::Equals, "`=`"@) {
                Ok(q) => match expect_at(ts, q, SpecKind::Fn, "`fn`"@) {
                    Ok(r) => {
                        proof {
                            lemma_params_progress(ts, r);
                        }
                        match params_at(ts, r) {
                            Ok((ps, s)) => match expr_at(ts, s) {
                                Ok((body, u)) => if p < u <= ts.len() {
                                    recs_from(
                                        ts,
                                        u,
                                        acc.push(SpecRecBinding { name: x, params: ps, body }),
                                    )
                                } else {
                                    Err(SpecParseError::UnexpectedEnd("`)`"@))
                                },
                                Err(e) => Err(e),
                            },
                            Err(e) => Err(e),
                        }
                    },
                    Err(e) => Err(e),
                },
                Err(e) => Err(e),
            },
            _ => Err(unexpected("identifier"@, ts[p])),
        }
    }
}

/// A whole program: one expression that uses up all the tokens.
pub open spec fn program_of(ts: Seq<SpecToken>) -> Result<SpecExpr, SpecParseError> {
    match expr_at(ts, 0) {
        Ok((e, q)) => if 0 <= q < ts.len() {
            Err(unexpected("end of input"@, ts[q]))
        } else {
            Ok(e)
        },
        Err(e) => Err(e),
    }
}

/// A sequence of programs that uses up the tokens from `p`, after the programs `acc`.
pub open spec fn programs_from(ts: Seq<SpecToken>, p: int, acc: Seq<SpecExpr>) -> Result<
    Seq<SpecExpr>,
    SpecParseError,
>
    decreases ts.len() - p,
{
    if p < 0 || p >= ts.len() {
        Ok(acc)
    } else {
        match expr_at(ts, p) {
            Ok((e, q)) => if p < q <= ts.len() {
                programs_from(ts, q, acc.push(e))
            } else {
                Err(SpecParseError::UnexpectedEnd("expression"@))
            },
            Err(e) => Err(e),
        }
    }
}

/// Parsing of source text: scanning, then a program.
pub open spec fn parse_spec(input: &str) -> Result<SpecExpr, SpecParseError> {
    match scan_spec(input.spec_bytes()) {
        SpecScan::Tokens(ts) => program_of(ts),
        SpecScan::Unexpected(start, end) => Err(SpecParseError::Scan(start, end)),
        SpecScan::OversizedInt => Err(SpecParseError::Scan(0, 0)),
    }
}

/// Parsing of source text into several programs.
pub open spec fn parse_programs_spec(input: &str) -> Result<Seq<SpecExpr>, SpecParseError> {
    match scan_spec(input.spec_bytes()) {
        SpecScan::Tokens(ts) => programs_from(ts, 0, Seq::empty()),
        SpecScan::Unexpected(start, end) => Err(SpecParseError::Scan(start, end)),
        SpecScan::OversizedInt => Err(SpecParseError::Scan(0, 0)),
    }
}

pub open spec fn parsed_matches<T, V>(
    r: Result<T, ParseError>,
    s: Parsed<V>,
    view: spec_fn(T) -> V,
    pos: int,
) -> bool {
    match s {
        Ok((v, q)) => r is Ok && view(r->Ok_0) == v && pos == q,
        Err(e) => r is Err && r->Err_0@ == e,
    }
}

/// A recursive-descent parser over a list of tokens.
#[derive(Debug)]
pub struct Parser {
    tokens: Vec<Token>,
    current: usize,
}

fn clone_kind(k: &TokenKind) -> (r: TokenKind)
    ensures
        r@ == k@,
{
    match k {
        TokenKind::LParen => TokenKind::LParen,
        TokenKind::RParen => TokenKind::RParen,
        TokenKind::Plus => TokenKind::Plus,
        TokenKind::Minus => TokenKind::Minus,
        TokenKind::Arrow => TokenKind::Arrow,
        TokenKind::Equals => TokenKind::Equals,
        TokenKind::LetRec => TokenKind::LetRec,
        TokenKind::Let => TokenKind::Let,
        TokenKind::Fn => TokenKind::Fn,
        TokenKind::Cond => TokenKind::Cond,
        TokenKind::Or => TokenKind::Or,
        TokenKind::Not => TokenKind::Not,
        TokenKind::True => TokenKind::True,
        TokenKind::False => TokenKind::False,
        TokenKind::Int(n) => TokenKind::Int(*n),
        TokenKind::Ident(s) => TokenKind::Ident(s.clone()),
    }
}

fn clone_token(t: &Token) -> (r: Token)
    ensures
        r@ == t@,
{
    Token { kind: clone_kind(&t.kind), span: t.span.start..t.span.end }
}

impl Parser {
    /// The tokens, in the model.
    pub closed spec fn toks(&self) -> Seq<SpecToken> {
        tokens_view(self.tokens@)
    }

    /// The position of the next token.
    pub closed spec fn pos(&self) -> int {
        self.current as int
    }

    /// The position lies within the tokens or just after the last one.
    pub closed spec fn wf(&self) -> bool {
        self.current <= self.tokens@.len()
    }

    /// A parser at the first of the given tokens.
    pub fn new(tokens: Vec<Token>) -> (p: Self)
        ensures
            p.toks() == tokens_view(tokens@),
            p.pos() == 0,
            p.wf(),
    {
        Self { tokens, current: 0 }
    }

    /// Parses one expression that must use up all the tokens.
    pub fn parse_program(self) -> (r: Result<Program, ParseError>)
        requires
            self.wf(),
            self.pos() == 0,
        ensures
            match program_of(self.toks()) {
                Ok(e) => r is Ok && r->Ok_0@ == e,
                Err(e) => r is Err && r->Err_0@ == e,
            },
    {
        let mut this = self;
        let body = match this.parse_expr() {
            Ok(body) => body,
            Err(e) => return Err(e),
        };
        if let Some(token) = this.peek() {
            return Err(
                ParseError::UnexpectedToken {
                    expected: "end of input",
                    found: clone_kind(&token.kind),
                    span: token.span.start..token.span.end,
                },
            );
        }
        Ok(Program::new(body))
    }

    /// Parses expressions one after another until the tokens are used up.
    pub fn parse_programs(self) -> (r: Result<Vec<Program>, ParseError>)
        requires
            self.wf(),
            self.pos() == 0,
        ensures
            match programs_from(self.toks(), 0, Seq::empty()) {
                Ok(es) => r is Ok && r->Ok_0@.map_values(|p: Program| p@) == es,
                Err(e) => r is Err && r->Err_0@ == e,
            },
    {
        let mut this = self;
        this.parse_all()
    }

    fn parse_all(&mut self) -> (r: Result<Vec<Program>, ParseError>)
        requires
            old(self).wf(),
        ensures
            match programs_from(old(self).toks(), old(self).pos(), Seq::empty()) {
                Ok(es) => r is Ok && r->Ok_0@.map_values(|p: Program| p@) == es,
                Err(e) => r is Err && r->Err_0@ == e,
            },
    {
        let ghost ts = self.toks();
        let ghost p0 = self.pos();
        let mut out: Vec<Program> = Vec::new();
        assert(out@.map_values(|p: Program| p@) =~= Seq::<SpecExpr>::empty());
        while !self.is_at_end()
            invariant
                self.wf(),
                self.toks() == ts,
                ts == old(self).toks(),
                p0 == old(self).pos(),
                programs_from(ts, p0, Seq::empty()) == programs_from(
                    ts,
                    self.pos(),
                    out@.map_values(|p: Program| p@),
                ),
            decreases ts.len() - self.pos(),
        {
            let ghost before = out@;
            let body = match self.parse_expr() {
                Ok(body) => body,
                Err(e) => return Err(e),
            };
            out.push(Program::new(body));
            assert(out@.map_values(|p: Program| p@) =~= before.map_values(|p: Program| p@).push(
                body@,
            ));
        }
        Ok(out)
    }

    fn peek(&self) -> (r: Option<&Token>)
        requires
            self.wf(),
        ensures
            self.pos() < self.toks().len() ==> r is Some && r->Some_0@ == self.toks()[self.pos()],
            self.pos() >= self.toks().len() ==> r is None,
    {
        if self.current < self.tokens.len() {
            Some(&self.tokens[self.current])
        } else {
            None
        }
    }

    fn is_at_end(&self) -> (r: bool)
        requires
            self.wf(),
        ensures
            r == (self.pos() >= self.toks().len()),
    {
        self.current >= self.tokens.len()
    }

    fn check_rparen(&self) -> (r: bool)
        requires
            self.wf(),
        ensures
            r == at_kind(self.toks(), self.pos(), SpecKind::RParen),
    {
        match self.peek() {
            Some(Token { kind: TokenKind::RParen, .. }) => true,
            _ => false,
        }
    }

    /// Takes the next token; `expected` names what was wanted, for the error at the end.
    fn advance(&mut self, expected: &'static str) -> (r: Result<Token, ParseError>)
        requires
            old(self).wf(),
        ensures
            final(self).wf(),
            final(self).tokens == old(self).tokens,
            old(self).pos() < old(self).toks().len() ==> r is Ok && r->Ok_0@ == old(self).toks()[old(
                self,
            ).pos()] && final(self).pos() == old(self).pos() + 1,
            old(self).pos() >= old(self).toks().len() ==> r is Err && r->Err_0@
                == SpecParseError::UnexpectedEnd(expected@) && final(self).pos() == old(self).pos(),
    {
        if self.current < self.tokens.len() {
            let token = clone_token(&self.tokens[self.current]);
            self.current += 1;
            Ok(token)
        } else {
            Err(ParseError::UnexpectedEnd { expected })
        }
    }
    fn check_lparen(&self) -> (r: bool)
        requires
            self.wf(),
        ensures
            r == at_kind(self.toks(), self.pos(), SpecKind::LParen),
    {
        match self.peek() {
            Some(Token { kind: TokenKind::LParen, .. }) => true,
            _ => false,
        }
    }

    /// Takes the next token, which must be of the unit kind `want`.
    fn expect_kind(&mut self, want: TokenKind, expected: &'static str) -> (r: Result<(), ParseError>)
        requires
            old(self).wf(),
            !(want is Int),
            !(want is Ident),
        ensures
            final(self).wf(),
            final(self).tokens == old(self).tokens,
            match expect_at(old(self).toks(), old(self).pos(), want@, expected@) {
                Ok(q) => r is Ok && final(self).pos() == q,
                Err(e) => r is Err && r->Err_0@ == e,
            },
    {
        let token = match self.advance(expected) {
            Ok(token) => token,
            Err(e) => return Err(e),
        };
        let same = match (&token.kind, &want) {
            (TokenKind::LParen, TokenKind::LParen) => true,
            (TokenKind::RParen, TokenKind::RParen) => true,
            (TokenKind::Plus, TokenKind::Plus) => true,
            (TokenKind::Minus, TokenKind::Minus) => true,
            (TokenKind::Arrow, TokenKind::Arrow) => true,
            (TokenKind::Equals, TokenKind::Equals) => true,
            (TokenKind::LetRec, TokenKind::LetRec) => true,
            (TokenKind::Let, TokenKind::Let) => true,
            (TokenKind::Fn, TokenKind::Fn) => true,
            (TokenKind::Cond, TokenKind::Cond) => true,
            (TokenKind::Or, TokenKind::Or) => true,
            (TokenKind::Not, TokenKind::Not) => true,
            (TokenKind::True, TokenKind::True) => true,
            (TokenKind::False, TokenKind::False) => true,
            _ => false,
        };
        if same {
            Ok(())
        } else {
            Err(ParseError::UnexpectedToken { expected, found: token.kind, span: token.span })
        }
    }

    fn expect_lparen(&mut self) -> (r: Result<(), ParseError>)
        requires
            old(self).wf(),
        ensures
            final(self).wf(),
            final(self).tokens == old(self).tokens,
            match expect_at(old(self).toks(), old(self).pos(), SpecKind::LParen, "`(`"@) {
                Ok(q) => r is Ok && final(self).pos() == q,
                Err(e) => r is Err && r->Err_0@ == e,
            },
    {
        self.expect_kind(TokenKind::LParen, "`(`")
    }

    fn expect_rparen(&mut self) -> (r: Result<(), ParseError>)
        requires
            old(self).wf(),
        ensures
            final(self).wf(),
            final(self).tokens == old(self).tokens,
            match expect_at(old(self).toks(), old(self).pos(), SpecKind::RParen, "`)`"@) {
                Ok(q) => r is Ok && final(self).pos() == q,
                Err(e) => r is Err && r->Err_0@ == e,
            },
    {
        self.expect_kind(TokenKind::RParen, "`)`")
    }

    /// Takes the next token, which must be an identifier, and gives its name.
    fn expect_ident(&mut self) -> (r: Result<String, ParseError>)
        requires
            old(self).wf(),
            old(self).pos() < old(self).toks().len(),
        ensures
            final(self).wf(),
            final(self).tokens == old(self).tokens,
            final(self).pos() == old(self).pos() + 1,
            match old(self).toks()[old(self).pos()].kind {
                SpecKind::Ident(x) => r is Ok && r->Ok_0@ == x,
                _ => r is Err && r->Err_0@ == unexpected(
                    "identifier"@,
                    old(self).toks()[old(self).pos()],
                ),
            },
    {
        let token = match self.advance("identifier") {
            Ok(token) => token,
            Err(e) => return Err(e),
        };
        match token.kind {
            TokenKind::Ident(name) => Ok(name),
            found => Err(ParseError::UnexpectedToken { expected: "identifier", found, span: token.span }),
        }
    }

    /// `( IDENT* )`: the parameters of a procedure.
    fn parse_params(&mut self) -> (r: Result<Vec<String>, ParseError>)
        requires
            old(self).wf(),
        ensures
            final(self).wf(),
            final(self).tokens == old(self).tokens,
            match params_at(old(self).toks(), old(self).pos()) {
                Ok((ps, q)) => r is Ok && names_view(r->Ok_0@) == ps && final(self).pos() == q,
                Err(e) => r is Err && r->Err_0@ == e,
            },
    {
        let ghost ts = self.toks();
        let ghost p0 = self.pos();
        match self.expect_lparen() {
            Ok(()) => {},
            Err(e) => return Err(e),
        }
        let mut names: Vec<String> = Vec::new();
        assert(names_view(names@) =~= Seq::<Seq<char>>::empty());
        while !self.check_rparen()
            invariant
                self.wf(),
                self.toks() == ts,
                self.tokens == old(self).tokens,
                ts == old(self).toks(),
                p0 == old(self).pos(),
                names_from(ts, self.pos(), names_view(names@)) == params_at(ts, p0),
            decreases ts.len() - self.pos(),
        {
            if self.is_at_end() {
                return Err(ParseError::UnexpectedEnd { expected: "`)`" });
            }
            let ghost before = names@;
            let name = match self.expect_ident() {
                Ok(name) => name,
                Err(e) => return Err(e),
            };
            names.push(name);
            assert(names_view(names@) =~= names_view(before).push(name@));
        }
        match self.expect_rparen() {
            Ok(()) => {},
            Err(e) => return Err(e),
        }
        Ok(names)
    }

    /// One expression.
    fn parse_expr(&mut self) -> (r: Result<Expr, ParseError>)
        requires
            old(self).wf(),
        ensures
            final(self).wf(),
            final(self).tokens == old(self).tokens,
            match expr_at(old(self).toks(), old(self).pos()) {
                Ok((e, q)) => r is Ok && r->Ok_0@ == e && final(self).pos() == q,
                Err(e) => r is Err && r->Err_0@ == e,
            },
            r is Ok ==> final(self).pos() > old(self).pos(),
        decreases old(self).toks().len() - old(self).pos(), 0int,
    {
        let token = match self.advance("expression") {
            Ok(token) => token,
            Err(e) => return Err(e),
        };
        match token.kind {
            TokenKind::Int(n) => Ok(Expr::ConstExp(n)),
            TokenKind::True => Ok(Expr::BoolExp(true)),
            TokenKind::False => Ok(Expr::BoolExp(false)),
            TokenKind::Plus => match self.parse_args() {
                Ok(args) => Ok(Expr::AddExp(args)),
                Err(e) => Err(e),
            },
            TokenKind::Minus => match self.parse_args() {
                Ok(args) => Ok(Expr::SubExp(args)),
                Err(e) => Err(e),
            },
            TokenKind::Or => match self.parse_args() {
                Ok(args) => Ok(Expr::OrExp(args)),
                Err(e) => Err(e),
            },
            TokenKind::Not => self.parse_not(token.span),
            TokenKind::Equals => self.parse_eq(token.span),
            TokenKind::Cond => self.parse_cond(token.span),
            TokenKind::Ident(name) => {
                if self.check_lparen() {
                    match self.parse_args() {
                        Ok(args) => {
                            let rator = Expr::VarExp(name);
                            assert(rator@ == SpecExpr::Var(name@));
                            Ok(Expr::CallExp(Box::new(rator), args))
                        },
                        Err(e) => Err(e),
                    }
                } else {
                    Ok(Expr::VarExp(name))
                }
            },
            TokenKind::Let => self.parse_let(),
            TokenKind::LetRec => self.parse_letrec(),
            TokenKind::Fn => self.parse_fn(),
            found => Err(ParseError::UnexpectedToken { expected: "expression", found, span: token.span }),
        }
    }

    /// `( expr* )`.
    fn parse_args(&mut self) -> (r: Result<Vec<Expr>, ParseError>)
        requires
            old(self).wf(),
        ensures
            final(self).wf(),
            final(self).tokens == old(self).tokens,
            match args_at(old(self).toks(), old(self).pos()) {
                Ok((args, q)) => r is Ok && exprs_view(r->Ok_0@) == args && final(self).pos() == q,
                Err(e) => r is Err && r->Err_0@ == e,
            },
            r is Ok ==> final(self).pos() > old(self).pos(),
        decreases old(self).toks().len() - old(self).pos(), 1int,
    {
        let ghost ts = self.toks();
        let ghost p0 = self.pos();
        match self.expect_lparen() {
            Ok(()) => {},
            Err(e) => return Err(e),
        }
        let mut args: Vec<Expr> = Vec::new();
        assert(exprs_view(args@) =~= Seq::<SpecExpr>::empty());
        while !self.check_rparen()
            invariant
                self.wf(),
                self.toks() == ts,
                self.tokens == old(self).tokens,
                ts == old(self).toks(),
                p0 == old(self).pos(),
                self.pos() > p0,
                exprs_from(ts, self.pos(), exprs_view(args@)) == args_at(ts, p0),
            decreases ts.len() - self.pos(),
        {
            if self.is_at_end() {
                return Err(ParseError::UnexpectedEnd { expected: "`)`" });
            }
            let ghost before = args@;
            let e = match self.parse_expr() {
                Ok(e) => e,
                Err(err) => return Err(err),
            };
            args.push(e);
            proof {
                lemma_exprs_view(args@);
                lemma_exprs_view(before);
                assert(exprs_view(args@) =~= exprs_view(before).push(e@));
            }
        }
        match self.expect_rparen() {
            Ok(()) => {},
            Err(e) => return Err(e),
        }
        Ok(args)
    }

    fn parse_not(&mut self, op_span: Span) -> (r: Result<Expr, ParseError>)
        requires
            old(self).wf(),
            old(self).pos() >= 1,
        ensures
            final(self).wf(),
            final(self).tokens == old(self).tokens,
            match not_rest(
                old(self).toks(),
                old(self).pos(),
                SpecToken { kind: SpecKind::Not, start: op_span.start as int, end: op_span.end as int },
            ) {
                Ok((e, q)) => r is Ok && r->Ok_0@ == e && final(self).pos() == q,
                Err(e) => r is Err && r->Err_0@ == e,
            },
            r is Ok ==> final(self).pos() > old(self).pos(),
        decreases old(self).toks().len() - old(self).pos(), 2int,
    {
        let mut args = match self.parse_args() {
            Ok(args) => args,
            Err(e) => return Err(e),
        };
        proof {
            lemma_exprs_view(args@);
        }
        if args.len() != 1 {
            return Err(
                ParseError::WrongArity { op: "not", expected: 1, actual: args.len(), span: op_span },
            );
        }
        let arg = args.pop().unwrap();
        Ok(Expr::NotExp(Box::new(arg)))
    }

    fn parse_eq(&mut self, op_span: Span) -> (r: Result<Expr, ParseError>)
        requires
            old(self).wf(),
        ensures
            final(self).wf(),
            final(self).tokens == old(self).tokens,
            match equal_rest(
                old(self).toks(),
                old(self).pos(),
                SpecToken { kind: SpecKind::Equals, start: op_span.start as int, end: op_span.end as int },
            ) {
                Ok((e, q)) => r is Ok && r->Ok_0@ == e && final(self).pos() == q,
                Err(e) => r is Err && r->Err_0@ == e,
            },
            r is Ok ==> final(self).pos() > old(self).pos(),
        decreases old(self).toks().len() - old(self).pos(), 2int,
    {
        let mut args = match self.parse_args() {
            Ok(args) => args,
            Err(e) => return Err(e),
        };
        proof {
            lemma_exprs_view(args@);
        }
        if args.len() != 2 {
            return Err(
                ParseError::WrongArity { op: "=", expected: 2, actual: args.len(), span: op_span },
            );
        }
        let right = args.pop().unwrap();
        let left = args.pop().unwrap();
        Ok(Expr::EqExp(Box::new(left), Box::new(right)))
    }

    fn parse_cond(&mut self, cond_span: Span) -> (r: Result<Expr, ParseError>)
        requires
            old(self).wf(),
        ensures
            final(self).wf(),
            final(self).tokens == old(self).tokens,
            match cond_rest(
                old(self).toks(),
                old(self).pos(),
                SpecToken { kind: SpecKind::Cond, start: cond_span.start as int, end: cond_span.end as int },
            ) {
                Ok((e, q)) => r is Ok && r->Ok_0@ == e && final(self).pos() == q,
                Err(e) => r is Err && r->Err_0@ == e,
            },
            r is Ok ==> final(self).pos() > old(self).pos(),
        decreases old(self).toks().len() - old(self).pos(), 2int,
    {
        let ghost ts = self.toks();
        let ghost p0 = self.pos();
        match self.expect_lparen() {
            Ok(()) => {},
            Err(e) => return Err(e),
        }
        let mut clauses: Vec<CondClause> = Vec::new();
        assert(clauses_view(clauses@) =~= Seq::<SpecClause>::empty());
        while !self.check_rparen()
            invariant
                self.wf(),
                self.toks() == ts,
                self.tokens == old(self).tokens,
                ts == old(self).toks(),
                p0 == old(self).pos(),
                self.pos() > p0,
                expect_at(ts, p0, SpecKind::LParen, "`(`"@) == Ok::<int, SpecParseError>(p0 + 1),
                clauses_from(ts, self.pos(), clauses_view(clauses@)) == clauses_from(
                    ts,
                    p0 + 1,
                    Seq::empty(),
                ),
            decreases ts.len() - self.pos(),
        {
            if self.is_at_end() {
                return Err(ParseError::UnexpectedEnd { expected: "`)`" });
            }
            let ghost before = clauses@;
            let condition = match self.parse_expr() {
                Ok(e) => e,
                Err(err) => return Err(err),
            };
            match self.expect_kind(TokenKind::Arrow, "`=>`") {
                Ok(()) => {},
                Err(e) => return Err(e),
            }
            let result = match self.parse_expr() {
                Ok(e) => e,
                Err(err) => return Err(err),
            };
            let clause = CondClause::new(condition, result);
            clauses.push(clause);
            proof {
                lemma_clauses_view(clauses@);
                lemma_clauses_view(before);
                assert(clauses_view(clauses@) =~= clauses_view(before).push(clause@));
            }
        }
        match self.expect_rparen() {
            Ok(()) => {},
            Err(e) => return Err(e),
        }
        if clauses.len() == 0 {
            return Err(ParseError::EmptyCond { span: cond_span });
        }
        Ok(Expr::CondExp(clauses))
    }

    fn parse_let(&mut self) -> (r: Result<Expr, ParseError>)
        requires
            old(self).wf(),
        ensures
            final(self).wf(),
            final(self).tokens == old(self).tokens,
            match let_rest(old(self).toks(), old(self).pos()) {
                Ok((e, q)) => r is Ok && r->Ok_0@ == e && final(self).pos() == q,
                Err(e) => r is Err && r->Err_0@ == e,
            },
            r is Ok ==> final(self).pos() > old(self).pos(),
        decreases old(self).toks().len() - old(self).pos(), 2int,
    {
        let ghost ts = self.toks();
        let ghost p0 = self.pos();
        match self.expect_lparen() {
            Ok(()) => {},
            Err(e) => return Err(e),
        }
        let mut bindings: Vec<LetBinding> = Vec::new();
        assert(lets_view(bindings@) =~= Seq::<SpecLetBinding>::empty());
        while !self.check_rparen()
            invariant
                self.wf(),
                self.toks() == ts,
                self.tokens == old(self).tokens,
                ts == old(self).toks(),
                p0 == old(self).pos(),
                self.pos() > p0,
                expect_at(ts, p0, SpecKind::LParen, "`(`"@) == Ok::<int, SpecParseError>(p0 + 1),
                lets_from(ts, self.pos(), lets_view(bindings@)) == lets_from(
                    ts,
                    p0 + 1,
                    Seq::empty(),
                ),
            decreases ts.len() - self.pos(),
        {
            if self.is_at_end() {
                return Err(ParseError::UnexpectedEnd { expected: "`)`" });
            }
            let ghost before = bindings@;
            let name = match self.expect_ident() {
                Ok(name) => name,
                Err(e) => return Err(e),
            };
            match self.expect_kind(TokenKind::Equals, "`=`") {
                Ok(()) => {},
                Err(e) => return Err(e),
            }
            let value = match self.parse_expr() {
                Ok(e) => e,
                Err(err) => return Err(err),
            };
            let binding = LetBinding { name, value };
            bindings.push(binding);
            proof {
                lemma_lets_view(bindings@);
                lemma_lets_view(before);
                assert(lets_view(bindings@) =~= lets_view(before).push(binding@));
            }
        }
        match self.expect_rparen() {
            Ok(()) => {},
            Err(e) => return Err(e),
        }
        let body = match self.parse_expr() {
            Ok(e) => e,
            Err(err) => return Err(err),
        };
        Ok(Expr::LetExp(bindings, Box::new(body)))
    }

    fn parse_letrec(&mut self) -> (r: Result<Expr, ParseError>)
        requires
            old(self).wf(),
        ensures
            final(self).wf(),
            final(self).tokens == old(self).tokens,
            match letrec_rest(old(self).toks(), old(self).pos()) {
                Ok((e, q)) => r is Ok && r->Ok_0@ == e && final(self).pos() == q,
                Err(e) => r is Err && r->Err_0@ == e,
            },
            r is Ok ==> final(self).pos() > old(self).pos(),
        decreases old(self).toks().len() - old(self).pos(), 2int,
    {
        let ghost ts = self.toks();
        let ghost p0 = self.pos();
        match self.expect_lparen() {
            Ok(()) => {},
            Err(e) => return Err(e),
        }
        let mut bindings: Vec<LetRecBinding> = Vec::new();
        assert(recs_view(bindings@) =~= Seq::<SpecRecBinding>::empty());
        while !self.check_rparen()
            invariant
                self.wf(),
                self.toks() == ts,
                self.tokens == old(self).tokens,
                ts == old(self).toks(),
                p0 == old(self).pos(),
                self.pos() > p0,
                expect_at(ts, p0, SpecKind::LParen, "`(`"@) == Ok::<int, SpecParseError>(p0 + 1),
                recs_from(ts, self.pos(), recs_view(bindings@)) == recs_from(
                    ts,
                    p0 + 1,
                    Seq::empty(),
                ),
            decreases ts.len() - self.pos(),
        {
            if self.is_at_end() {
                return Err(ParseError::UnexpectedEnd { expected: "`)`" });
            }
            let ghost before = bindings@;
            let ghost p1 = self.pos();
            let name = match self.expect_ident() {
                Ok(name) => name,
                Err(e) => return Err(e),
            };
            match self.expect_kind(TokenKind::Equals, "`=`") {
                Ok(()) => {},
                Err(e) => return Err(e),
            }
            match self.expect_kind(TokenKind::Fn, "`fn`") {
                Ok(()) => {},
                Err(e) => return Err(e),
            }
            proof {
                lemma_params_progress(ts, self.pos());
            }
            let params = match self.parse_params() {
                Ok(ps) => ps,
                Err(e) => return Err(e),
            };
            let body = match self.parse_expr() {
                Ok(e) => e,
                Err(err) => return Err(err),
            };
            let binding = LetRecBinding { name, params, body };
            bindings.push(binding);
            proof {
                lemma_recs_view(bindings@);
                lemma_recs_view(before);
                assert(recs_view(bindings@) =~= recs_view(before).push(binding@));
            }
        }
        match self.expect_rparen() {
            Ok(()) => {},
            Err(e) => return Err(e),
        }
        let body = match self.parse_expr() {
            Ok(e) => e,
            Err(err) => return Err(err),
        };
        Ok(Expr::LetRecExp(bindings, Box::new(body)))
    }

    fn parse_fn(&mut self) -> (r: Result<Expr, ParseError>)
        requires
            old(self).wf(),
        ensures
            final(self).wf(),
            final(self).tokens == old(self).tokens,
            match fn_rest(old(self).toks(), old(self).pos()) {
                Ok((e, q)) => r is Ok && r->Ok_0@ == e && final(self).pos() == q,
                Err(e) => r is Err && r->Err_0@ == e,
            },
            r is Ok ==> final(self).pos() > old(self).pos(),
        decreases old(self).toks().len() - old(self).pos(), 2int,
    {
        proof {
            lemma_params_progress(self.toks(), self.pos());
        }
        let params = match self.parse_params() {
            Ok(ps) => ps,
            Err(e) => return Err(e),
        };
        let body = match self.parse_expr() {
            Ok(e) => e,
            Err(err) => return Err(err),
        };
        Ok(Expr::ProcExp(params, Box::new(body)))
    }
}

/// Parses source text as one program.
pub fn parse(input: &str) -> (r: Result<Program, ParseError>)
    requires
        !has_oversized_int(input),
    ensures
        match parse_spec(input) {
            Ok(e) => r is Ok && r->Ok_0@ == e,
            Err(e) => r is Err && r->Err_0@ == e,
        },
{
    let tokens = match scan(input) {
        Ok(tokens) => tokens,
        Err(e) => return Err(ParseError::Scan(e)),
    };
    Parser::new(tokens).parse_program()
}

/// Parses source text as a sequence of programs, as in a file.
pub fn parse_programs(input: &str) -> (r: Result<Vec<Program>, ParseError>)
    requires
        !has_oversized_int(input),
    ensures
        match parse_programs_spec(input) {
            Ok(es) => r is Ok && r->Ok_0@.map_values(|p: Program| p@) == es,
            Err(e) => r is Err && r->Err_0@ == e,
        },
{
    let tokens = match scan(input) {
        Ok(tokens) => tokens,
        Err(e) => return Err(ParseError::Scan(e)),
    };
    Parser::new(tokens).parse_programs()
}

} // verus!
