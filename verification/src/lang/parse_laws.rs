//! Properties of the parser: every expression uses up at least one token, and a source that
//! parses as one program is also a file of exactly that one program.
use vstd::prelude::*;

use vstd::string::StringSliceAdditionalSpecFns;

use crate::lang::ast::{SpecClause, SpecExpr, SpecLetBinding, SpecRecBinding};
use crate::lang::parser::{
    args_at, at_kind, clauses_from, expect_at, expr_at, exprs_from, lemma_params_progress,
    lets_from, names_from, params_at, parse_programs_spec, parse_spec, program_of, programs_from,
    recs_from, unexpected, SpecParseError,
};
use crate::lang::scanner::{has_oversized_int, scan_spec, SpecKind, SpecScan, SpecToken};

verus! {

proof fn lemma_exprs_progress(ts: Seq<SpecToken>, p: int, acc: Seq<SpecExpr>)
    requires
        0 <= p,
    ensures
        exprs_from(ts, p, acc) matches Ok((_, q)) ==> p < q <= ts.len(),
    decreases ts.len() - p,
{
    if 0 <= p < ts.len() && !(ts[p].kind == SpecKind::RParen) {
        if let Ok((e, q)) = expr_at(ts, p) {
            if p < q <= ts.len() {
                lemma_exprs_progress(ts, q, acc.push(e));
            }
        }
    }
}

proof fn lemma_clauses_progress(ts: Seq<SpecToken>, p: int, acc: Seq<SpecClause>)
    requires
        0 <= p,
    ensures
        clauses_from(ts, p, acc) matches Ok((_, q)) ==> p < q <= ts.len(),
    decreases ts.len() - p,
{
    if 0 <= p < ts.len() && !(ts[p].kind == SpecKind::RParen) {
        if let Ok((c, q)) = expr_at(ts, p) {
            if q > p {
                if let Ok(r) = expect_at(ts, q, SpecKind::Arrow, "`=>`"@) {
                    if let Ok((v, s)) = expr_at(ts, r) {
                        if p < s <= ts.len() {
                            lemma_clauses_progress(
                                ts,
                                s,
                                acc.push(SpecClause { condition: c, result: v }),
                            );
                        }
                    }
                }
            }
        }
    }
}

proof fn lemma_lets_progress(ts: Seq<SpecToken>, p: int, acc: Seq<SpecLetBinding>)
    requires
        0 <= p,
    ensures
        lets_from(ts, p, acc) matches Ok((_, q)) ==> p < q <= ts.len(),
    decreases ts.len() - p,
{
    if 0 <= p < ts.len() && !(ts[p].kind == SpecKind::RParen) {
        if let SpecKind::Ident(x) = ts[p].kind {
            if let Ok(q) = expect_at(ts, p + 1, SpecKind::Equals, "`=`"@) {
                if let Ok((v, r)) = expr_at(ts, q) {
                    if p < r <= ts.len() {
                        lemma_lets_progress(
                            ts,
                            r,
                            acc.push(SpecLetBinding { name: x, value: v }),
                        );
                    }
                }
            }
        }
    }
}

proof fn lemma_recs_progress(ts: Seq<SpecToken>, p: int, acc: Seq<SpecRecBinding>)
    requires
        0 <= p,
    ensures
        recs_from(ts, p, acc) matches Ok((_, q)) ==> p < q <= ts.len(),
    decreases ts.len() - p,
{
    if 0 <= p < ts.len() && !(ts[p].kind == SpecKind::RParen) {
        if let SpecKind::Ident(x) = ts[p].kind {
            if let Ok(q) = expect_at(ts, p + 1, SpecKind::Equals, "`=`"@) {
                if let Ok(r) = expect_at(ts, q, SpecKind::Fn, "`fn`"@) {
                    lemma_params_progress(ts, r);
                    if let Ok((ps, s)) = params_at(ts, r) {
                        if let Ok((body, u)) = expr_at(ts, s) {
                            if p < u <= ts.len() {
                                lemma_recs_progress(
                                    ts,
                                    u,
                                    acc.push(
                                        SpecRecBinding { name: x, params: ps, body },
                                    ),
                                );
                            }
                        }
                    }
                }
            }
        }
    }
}

proof fn lemma_args_progress(ts: Seq<SpecToken>, p: int)
    requires
        0 <= p,
    ensures
        args_at(ts, p) matches Ok((_, q)) ==> p < q <= ts.len(),
{
    if 0 <= p < ts.len() && ts[p].kind == SpecKind::LParen {
        lemma_exprs_progress(ts, p + 1, Seq::empty());
    }
}

/// An expression that parses uses up at least one token, and no more than there are.
pub proof fn lemma_expr_progress(ts: Seq<SpecToken>, p: int)
    requires
        0 <= p,
    ensures
        expr_at(ts, p) matches Ok((_, q)) ==> p < q <= ts.len(),
    decreases ts.len() - p,
{
    if p < ts.len() {
        let q = p + 1;
        lemma_args_progress(ts, q);
        match ts[p].kind {
            SpecKind::Cond => {
                if 0 <= q < ts.len() && ts[q].kind == SpecKind::LParen {
                    lemma_clauses_progress(ts, q + 1, Seq::empty());
                }
            },
            SpecKind::Let => {
                if 0 <= q < ts.len() && ts[q].kind == SpecKind::LParen {
                    lemma_lets_progress(ts, q + 1, Seq::empty());
                    if let Ok((bs, s)) = lets_from(ts, q + 1, Seq::empty()) {
                        if q <= s <= ts.len() {
                            lemma_expr_progress(ts, s);
                        }
                    }
                }
            },
            SpecKind::LetRec => {
                if 0 <= q < ts.len() && ts[q].kind == SpecKind::LParen {
                    lemma_recs_progress(ts, q + 1, Seq::empty());
                    if let Ok((bs, s)) = recs_from(ts, q + 1, Seq::empty()) {
                        if q <= s <= ts.len() {
                            lemma_expr_progress(ts, s);
                        }
                    }
                }
            },
            SpecKind::Fn => {
                lemma_params_progress(ts, q);
                if let Ok((ps, r)) = params_at(ts, q) {
                    lemma_expr_progress(ts, r);
                }
            },
            _ => {},
        }
    }
}

/// A source that parses as one program is also a file that holds exactly that program.
pub proof fn law_one_program_is_a_file_of_one(input: &str)
    requires
        parse_spec(input) is Ok,
    ensures
        parse_programs_spec(input) == Ok::<Seq<SpecExpr>, SpecParseError>(
            seq![parse_spec(input)->Ok_0],
        ),
{
    if let SpecScan::Tokens(ts) = scan_spec(input.spec_bytes()) {
        lemma_expr_progress(ts, 0);
        let (e, q) = expr_at(ts, 0)->Ok_0;
        assert(q == ts.len());
        assert(programs_from(ts, q, Seq::empty().push(e)) == Ok::<
            Seq<SpecExpr>,
            SpecParseError,
        >(seq![e]));
    }
}

/// Parsing scans first: a scan error is the parse error, and otherwise the tokens are parsed
/// as one program (for a file, as programs one after another).
pub proof fn law_parse_scans_first(input: &str)
    requires
        !has_oversized_int(input),
    ensures
        scan_spec(input.spec_bytes()) matches SpecScan::Unexpected(s, e) ==> parse_spec(input)
            == Err::<SpecExpr, SpecParseError>(SpecParseError::Scan(s, e)) && parse_programs_spec(
            input,
        ) == Err::<Seq<SpecExpr>, SpecParseError>(SpecParseError::Scan(s, e)),
        scan_spec(input.spec_bytes()) matches SpecScan::Tokens(ts) ==> parse_spec(input)
            == program_of(ts) && parse_programs_spec(input) == programs_from(ts, 0, Seq::empty()),
{
}

/// Appending `ts2` to `ts` cannot turn a final identifier of `ts` into a call: it is not the
/// case that `ts` ends with an identifier and `ts2` starts with `(`.
pub open spec fn appends_no_call(ts: Seq<SpecToken>, ts2: Seq<SpecToken>) -> bool {
    !(ts.len() > 0 && ts.last().kind is Ident && ts2.len() > 0 && ts2[0].kind == SpecKind::LParen)
}

proof fn lemma_same_prefix(ts: Seq<SpecToken>, ts2: Seq<SpecToken>)
    ensures
        forall|k: int| 0 <= k < ts.len() ==> #[trigger] (ts + ts2)[k] == ts[k],
        (ts + ts2).len() == ts.len() + ts2.len(),
{
}

proof fn lemma_names_extend(ts: Seq<SpecToken>, ts2: Seq<SpecToken>, p: int, acc: Seq<Seq<char>>)
    requires
        0 <= p,
        names_from(ts, p, acc) is Ok,
    ensures
        names_from(ts + ts2, p, acc) == names_from(ts, p, acc),
    decreases ts.len() - p,
{
    lemma_same_prefix(ts, ts2);
    if p < ts.len() && !at_kind(ts, p, SpecKind::RParen) {
        if let SpecKind::Ident(x) = ts[p].kind {
            lemma_names_extend(ts, ts2, p + 1, acc.push(x));
        }
    }
}

proof fn lemma_params_extend(ts: Seq<SpecToken>, ts2: Seq<SpecToken>, p: int)
    requires
        0 <= p,
        params_at(ts, p) is Ok,
    ensures
        params_at(ts + ts2, p) == params_at(ts, p),
{
    lemma_same_prefix(ts, ts2);
    lemma_names_extend(ts, ts2, p + 1, Seq::empty());
}

proof fn lemma_args_extend(ts: Seq<SpecToken>, ts2: Seq<SpecToken>, p: int)
    requires
        0 <= p,
        appends_no_call(ts, ts2),
        args_at(ts, p) is Ok,
    ensures
        args_at(ts + ts2, p) == args_at(ts, p),
    decreases ts.len() - p, 3int,
{
    lemma_same_prefix(ts, ts2);
    lemma_exprs_extend(ts, ts2, p + 1, Seq::empty());
}

proof fn lemma_exprs_extend(ts: Seq<SpecToken>, ts2: Seq<SpecToken>, p: int, acc: Seq<SpecExpr>)
    requires
        0 <= p,
        appends_no_call(ts, ts2),
        exprs_from(ts, p, acc) is Ok,
    ensures
        exprs_from(ts + ts2, p, acc) == exprs_from(ts, p, acc),
    decreases ts.len() - p, 2int,
{
    lemma_same_prefix(ts, ts2);
    if p < ts.len() && !at_kind(ts, p, SpecKind::RParen) {
        lemma_expr_extend(ts, ts2, p);
        lemma_expr_progress(ts, p);
        let (e, q) = expr_at(ts, p)->Ok_0;
        lemma_exprs_extend(ts, ts2, q, acc.push(e));
    }
}

proof fn lemma_clauses_extend(ts: Seq<SpecToken>, ts2: Seq<SpecToken>, p: int, acc: Seq<SpecClause>)
    requires
        0 <= p,
        appends_no_call(ts, ts2),
        clauses_from(ts, p, acc) is Ok,
    ensures
        clauses_from(ts + ts2, p, acc) == clauses_from(ts, p, acc),
    decreases ts.len() - p, 2int,
{
    lemma_same_prefix(ts, ts2);
    if p < ts.len() && !at_kind(ts, p, SpecKind::RParen) {
        lemma_expr_extend(ts, ts2, p);
        lemma_expr_progress(ts, p);
        let (c, q) = expr_at(ts, p)->Ok_0;
        let r = q + 1;
        lemma_expr_extend(ts, ts2, r);
        lemma_expr_progress(ts, r);
        let (v, s) = expr_at(ts, r)->Ok_0;
        lemma_clauses_extend(ts, ts2, s, acc.push(SpecClause { condition: c, result: v }));
    }
}

proof fn lemma_lets_extend(ts: Seq<SpecToken>, ts2: Seq<SpecToken>, p: int, acc: Seq<SpecLetBinding>)
    requires
        0 <= p,
        appends_no_call(ts, ts2),
        lets_from(ts, p, acc) is Ok,
    ensures
        lets_from(ts + ts2, p, acc) == lets_from(ts, p, acc),
    decreases ts.len() - p, 2int,
{
    lemma_same_prefix(ts, ts2);
    if p < ts.len() && !at_kind(ts, p, SpecKind::RParen) {
        let x = ts[p].kind->Ident_0;
        let q = p + 2;
        lemma_expr_extend(ts, ts2, q);
        lemma_expr_progress(ts, q);
        let (v, r) = expr_at(ts, q)->Ok_0;
        lemma_lets_extend(ts, ts2, r, acc.push(SpecLetBinding { name: x, value: v }));
    }
}

proof fn lemma_recs_extend(ts: Seq<SpecToken>, ts2: Seq<SpecToken>, p: int, acc: Seq<SpecRecBinding>)
    requires
        0 <= p,
        appends_no_call(ts, ts2),
        recs_from(ts, p, acc) is Ok,
    ensures
        recs_from(ts + ts2, p, acc) == recs_from(ts, p, acc),
    decreases ts.len() - p, 2int,
{
    lemma_same_prefix(ts, ts2);
    if p < ts.len() && !at_kind(ts, p, SpecKind::RParen) {
        let x = ts[p].kind->Ident_0;
        let r = p + 3;
        lemma_params_progress(ts, r);
        lemma_params_extend(ts, ts2, r);
        let (ps, s) = params_at(ts, r)->Ok_0;
        lemma_expr_extend(ts, ts2, s);
        lemma_expr_progress(ts, s);
        let (body, u) = expr_at(ts, s)->Ok_0;
        lemma_recs_extend(
            ts,
            ts2,
            u,
            acc.push(SpecRecBinding { name: x, params: ps, body }),
        );
    }
}

/// An expression that parses from a list of tokens parses the same, up to the same position,
/// when more tokens are appended that do not make a final identifier a call.
pub proof fn lemma_expr_extend(ts: Seq<SpecToken>, ts2: Seq<SpecToken>, p: int)
    requires
        0 <= p,
        appends_no_call(ts, ts2),
        expr_at(ts, p) is Ok,
    ensures
        expr_at(ts + ts2, p) == expr_at(ts, p),
    decreases ts.len() - p, 1int,
{
    lemma_same_prefix(ts, ts2);
    let q = p + 1;
    match ts[p].kind {
        SpecKind::Plus | SpecKind::Minus | SpecKind::Or | SpecKind::Not | SpecKind::Equals => {
            lemma_args_extend(ts, ts2, q);
        },
        SpecKind::Ident(x) => {
            if at_kind(ts, q, SpecKind::LParen) {
                lemma_args_extend(ts, ts2, q);
            }
        },
        SpecKind::Cond => {
            lemma_clauses_extend(ts, ts2, q + 1, Seq::empty());
        },
        SpecKind::Let => {
            lemma_lets_extend(ts, ts2, q + 1, Seq::empty());
            lemma_lets_progress(ts, q + 1, Seq::empty());
            let (bs, s) = lets_from(ts, q + 1, Seq::empty())->Ok_0;
            lemma_expr_extend(ts, ts2, s);
        },
        SpecKind::LetRec => {
            lemma_recs_extend(ts, ts2, q + 1, Seq::empty());
            lemma_recs_progress(ts, q + 1, Seq::empty());
            let (bs, s) = recs_from(ts, q + 1, Seq::empty())->Ok_0;
            lemma_expr_extend(ts, ts2, s);
        },
        SpecKind::Fn => {
            lemma_params_progress(ts, q);
            lemma_params_extend(ts, ts2, q);
            let (ps, r) = params_at(ts, q)->Ok_0;
            lemma_expr_extend(ts, ts2, r);
        },
        _ => {},
    }
}

/// A program is exactly one expression that uses up every token: where `ts` parses as a
/// program, `ts` followed by more tokens is refused, the error expecting the end of input at
/// the first extra token (unless that token is a `(` after a final identifier, which makes a
/// call of it).
pub proof fn law_program_refuses_extra_tokens(ts: Seq<SpecToken>, ts2: Seq<SpecToken>)
    requires
        program_of(ts) is Ok,
        ts2.len() > 0,
        appends_no_call(ts, ts2),
    ensures
        program_of(ts + ts2) == Err::<SpecExpr, SpecParseError>(
            unexpected("end of input"@, ts2[0]),
        ),
{
    lemma_same_prefix(ts, ts2);
    lemma_expr_progress(ts, 0);
    lemma_expr_extend(ts, ts2, 0);
    let (e, q) = expr_at(ts, 0)->Ok_0;
    assert(q == ts.len());
    assert((ts + ts2)[q] == ts2[0]);
}

/// The identifier names of the tokens `ts[from..to]`, in order.
pub open spec fn ident_names(ts: Seq<SpecToken>, from: int, to: int) -> Seq<Seq<char>> {
    Seq::new((to - from) as nat, |i: int| ts[from + i].kind->Ident_0)
}

/// `ts[p..q]` is `(`, identifiers, `)`.
pub open spec fn is_param_list(ts: Seq<SpecToken>, p: int, q: int) -> bool {
    &&& 0 <= p
    &&& p + 2 <= q <= ts.len()
    &&& ts[p].kind == SpecKind::LParen
    &&& ts[q - 1].kind == SpecKind::RParen
    &&& forall|k: int| p < k < q - 1 ==> (#[trigger] ts[k]).kind is Ident
}

proof fn lemma_names_in_order(ts: Seq<SpecToken>, p: int, q: int, k: int, acc: Seq<Seq<char>>)
    requires
        is_param_list(ts, p, q),
        p + 1 <= k <= q - 1,
        acc == ident_names(ts, p + 1, k),
    ensures
        names_from(ts, k, acc) == Ok::<(Seq<Seq<char>>, int), SpecParseError>(
            (ident_names(ts, p + 1, q - 1), q),
        ),
    decreases q - k,
{
    if k < q - 1 {
        assert(ts[k].kind is Ident);
        let x = ts[k].kind->Ident_0;
        assert(acc.push(x) =~= ident_names(ts, p + 1, k + 1));
        lemma_names_in_order(ts, p, q, k + 1, acc.push(x));
    } else {
        assert(acc =~= ident_names(ts, p + 1, q - 1));
    }
}

/// A parameter list `( x1 ... xn )` gives the names `x1 ... xn` in the order written, and the
/// position after its `)`.
pub proof fn law_params_in_written_order(ts: Seq<SpecToken>, p: int, q: int)
    requires
        is_param_list(ts, p, q),
    ensures
        params_at(ts, p) == Ok::<(Seq<Seq<char>>, int), SpecParseError>(
            (ident_names(ts, p + 1, q - 1), q),
        ),
{
    assert(Seq::<Seq<char>>::empty() =~= ident_names(ts, p + 1, p + 1));
    lemma_names_in_order(ts, p, q, p + 1, Seq::empty());
}

/// `fn ( x1 ... xn ) body` parses as the procedure with parameters `x1 ... xn`, in the order
/// written, and the body that follows.
pub proof fn law_fn_parses_to_procedure(ts: Seq<SpecToken>, p: int, q: int)
    requires
        0 <= p,
        p + 1 < ts.len(),
        ts[p].kind == SpecKind::Fn,
        is_param_list(ts, p + 1, q),
        expr_at(ts, q) is Ok,
    ensures
        expr_at(ts, p) == Ok::<(SpecExpr, int), SpecParseError>(
            (
                SpecExpr::Proc(ident_names(ts, p + 2, q - 1), Box::new(expr_at(ts, q)->Ok_0.0)),
                expr_at(ts, q)->Ok_0.1,
            ),
        ),
{
    law_params_in_written_order(ts, p + 1, q);
}

/// `ts[p..q]` is `(`, integer literals, `)`.
pub open spec fn is_int_list(ts: Seq<SpecToken>, p: int, q: int) -> bool {
    &&& 0 <= p
    &&& p + 2 <= q <= ts.len()
    &&& ts[p].kind == SpecKind::LParen
    &&& ts[q - 1].kind == SpecKind::RParen
    &&& forall|k: int| p < k < q - 1 ==> (#[trigger] ts[k]).kind is Int
}

/// The constants of the integer literals `ts[from..to]`, in order.
pub open spec fn int_consts(ts: Seq<SpecToken>, from: int, to: int) -> Seq<SpecExpr> {
    Seq::new((to - from) as nat, |i: int| SpecExpr::Const(ts[from + i].kind->Int_0))
}

proof fn lemma_ints_in_order(ts: Seq<SpecToken>, p: int, q: int, k: int, acc: Seq<SpecExpr>)
    requires
        is_int_list(ts, p, q),
        p + 1 <= k <= q - 1,
        acc == int_consts(ts, p + 1, k),
    ensures
        exprs_from(ts, k, acc) == Ok::<(Seq<SpecExpr>, int), SpecParseError>(
            (int_consts(ts, p + 1, q - 1), q),
        ),
    decreases q - k,
{
    if k < q - 1 {
        assert(ts[k].kind is Int);
        let n = ts[k].kind->Int_0;
        assert(expr_at(ts, k) == Ok::<(SpecExpr, int), SpecParseError>((SpecExpr::Const(n), k + 1)));
        assert(acc.push(SpecExpr::Const(n)) =~= int_consts(ts, p + 1, k + 1));
        lemma_ints_in_order(ts, p, q, k + 1, acc.push(SpecExpr::Const(n)));
    } else {
        assert(acc =~= int_consts(ts, p + 1, q - 1));
    }
}

/// Arguments are kept in the order written: `( n1 ... nk )` of integer literals gives the
/// constants `n1 ... nk` in order, and the position after its `)`.
pub proof fn law_args_in_written_order(ts: Seq<SpecToken>, p: int, q: int)
    requires
        is_int_list(ts, p, q),
    ensures
        args_at(ts, p) == Ok::<(Seq<SpecExpr>, int), SpecParseError>(
            (int_consts(ts, p + 1, q - 1), q),
        ),
{
    assert(Seq::<SpecExpr>::empty() =~= int_consts(ts, p + 1, p + 1));
    lemma_ints_in_order(ts, p, q, p + 1, Seq::empty());
}

/// The expression that a single literal token stands for: an integer, `true` or `false`.
pub open spec fn literal(k: SpecKind) -> Option<SpecExpr> {
    match k {
        SpecKind::Int(n) => Some(SpecExpr::Const(n)),
        SpecKind::True => Some(SpecExpr::Bool(true)),
        SpecKind::False => Some(SpecExpr::Bool(false)),
        _ => None,
    }
}

/// `ts[p..p + 3n + 2]` is `(`, then `n` clauses `literal => literal`, then `)`.
pub open spec fn is_literal_clause_list(ts: Seq<SpecToken>, p: int, n: int) -> bool {
    &&& 0 <= p
    &&& 0 <= n
    &&& p + 3 * n + 2 <= ts.len()
    &&& ts[p].kind == SpecKind::LParen
    &&& ts[p + 3 * n + 1].kind == SpecKind::RParen
    &&& forall|i: int|
        0 <= i < n ==> (#[trigger] literal(ts[p + 1 + 3 * i].kind)) is Some && ts[p + 2 + 3
            * i].kind == SpecKind::Arrow && literal(ts[p + 3 + 3 * i].kind) is Some
}

/// The clauses of a list of literal clauses, in order.
pub open spec fn literal_clauses(ts: Seq<SpecToken>, p: int, n: int) -> Seq<SpecClause> {
    Seq::new(
        n as nat,
        |i: int|
            SpecClause {
                condition: literal(ts[p + 1 + 3 * i].kind)->Some_0,
                result: literal(ts[p + 3 + 3 * i].kind)->Some_0,
            },
    )
}

proof fn lemma_literal_clauses(ts: Seq<SpecToken>, p: int, n: int, i: int)
    requires
        is_literal_clause_list(ts, p, n),
        0 <= i <= n,
    ensures
        clauses_from(ts, p + 1 + 3 * i, literal_clauses(ts, p, i)) == Ok::<
            (Seq<SpecClause>, int),
            SpecParseError,
        >((literal_clauses(ts, p, n), p + 3 * n + 2)),
    decreases n - i,
{
    let k = p + 1 + 3 * i;
    if i < n {
        assert(literal(ts[k].kind) is Some);
        assert(literal(ts[k + 2].kind) is Some);
        assert(ts[k + 1].kind == SpecKind::Arrow);
        assert(expr_at(ts, k) == Ok::<(SpecExpr, int), SpecParseError>(
            (literal(ts[k].kind)->Some_0, k + 1),
        ));
        assert(expr_at(ts, k + 2) == Ok::<(SpecExpr, int), SpecParseError>(
            (literal(ts[k + 2].kind)->Some_0, k + 3),
        ));
        assert(literal_clauses(ts, p, i).push(
            SpecClause {
                condition: literal(ts[k].kind)->Some_0,
                result: literal(ts[k + 2].kind)->Some_0,
            },
        ) =~= literal_clauses(ts, p, i + 1));
        lemma_literal_clauses(ts, p, n, i + 1);
    } else {
        assert(literal_clauses(ts, p, i) =~= literal_clauses(ts, p, n));
    }
}

/// `cond` clauses are kept in the order written: `( c1 => r1 ... cn => rn )` of literals gives
/// the clauses `c1 => r1`, ..., `cn => rn` in order, and the position after its `)`.
pub proof fn law_cond_clauses_in_written_order(ts: Seq<SpecToken>, p: int, n: int)
    requires
        is_literal_clause_list(ts, p, n),
    ensures
        clauses_from(ts, p + 1, Seq::empty()) == Ok::<(Seq<SpecClause>, int), SpecParseError>(
            (literal_clauses(ts, p, n), p + 3 * n + 2),
        ),
{
    assert(literal_clauses(ts, p, 0) =~= Seq::<SpecClause>::empty());
    lemma_literal_clauses(ts, p, n, 0);
}

/// `ts[p..p + 3n + 2]` is `(`, then `n` bindings `identifier = literal`, then `)`.
pub open spec fn is_literal_binding_list(ts: Seq<SpecToken>, p: int, n: int) -> bool {
    &&& 0 <= p
    &&& 0 <= n
    &&& p + 3 * n + 2 <= ts.len()
    &&& ts[p].kind == SpecKind::LParen
    &&& ts[p + 3 * n + 1].kind == SpecKind::RParen
    &&& forall|i: int|
        0 <= i < n ==> (#[trigger] ts[p + 1 + 3 * i]).kind is Ident && ts[p + 2 + 3 * i].kind
            == SpecKind::Equals && literal(ts[p + 3 + 3 * i].kind) is Some
}

/// The bindings of a list of literal bindings, in order.
pub open spec fn literal_bindings(ts: Seq<SpecToken>, p: int, n: int) -> Seq<SpecLetBinding> {
    Seq::new(
        n as nat,
        |i: int|
            SpecLetBinding {
                name: ts[p + 1 + 3 * i].kind->Ident_0,
                value: literal(ts[p + 3 + 3 * i].kind)->Some_0,
            },
    )
}

proof fn lemma_literal_bindings(ts: Seq<SpecToken>, p: int, n: int, i: int)
    requires
        is_literal_binding_list(ts, p, n),
        0 <= i <= n,
    ensures
        lets_from(ts, p + 1 + 3 * i, literal_bindings(ts, p, i)) == Ok::<
            (Seq<SpecLetBinding>, int),
            SpecParseError,
        >((literal_bindings(ts, p, n), p + 3 * n + 2)),
    decreases n - i,
{
    let k = p + 1 + 3 * i;
    if i < n {
        assert(ts[k].kind is Ident);
        assert(ts[k + 1].kind == SpecKind::Equals);
        assert(literal(ts[k + 2].kind) is Some);
        assert(expr_at(ts, k + 2) == Ok::<(SpecExpr, int), SpecParseError>(
            (literal(ts[k + 2].kind)->Some_0, k + 3),
        ));
        assert(literal_bindings(ts, p, i).push(
            SpecLetBinding {
                name: ts[k].kind->Ident_0,
                value: literal(ts[k + 2].kind)->Some_0,
            },
        ) =~= literal_bindings(ts, p, i + 1));
        lemma_literal_bindings(ts, p, n, i + 1);
    } else {
        assert(literal_bindings(ts, p, i) =~= literal_bindings(ts, p, n));
    }
}

/// `let` bindings are kept in the order written: `( x1 = v1 ... xn = vn )` of literal values
/// gives the bindings `x1 = v1`, ..., `xn = vn` in order, and the position after its `)`.
pub proof fn law_let_bindings_in_written_order(ts: Seq<SpecToken>, p: int, n: int)
    requires
        is_literal_binding_list(ts, p, n),
    ensures
        lets_from(ts, p + 1, Seq::empty()) == Ok::<(Seq<SpecLetBinding>, int), SpecParseError>(
            (literal_bindings(ts, p, n), p + 3 * n + 2),
        ),
{
    assert(literal_bindings(ts, p, 0) =~= Seq::<SpecLetBinding>::empty());
    lemma_literal_bindings(ts, p, n, 0);
}

} // verus!
