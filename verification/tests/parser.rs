use stl_base::lang::ast::{CondClause, Expr, Program};
use stl_base::lang::parser::{parse, ParseError};
use stl_base::lang::scanner::TokenKind;

#[test]
fn parse_integer_addition() {
    assert_eq!(
        parse("+(1 2)").unwrap(),
        Program::new(Expr::AddExp(vec![Expr::ConstExp(1), Expr::ConstExp(2)]))
    );
}

#[test]
fn parse_nested_integer_expression() {
    assert_eq!(
        parse("+(1 -(4 2))").unwrap(),
        Program::new(Expr::AddExp(vec![
            Expr::ConstExp(1),
            Expr::SubExp(vec![Expr::ConstExp(4), Expr::ConstExp(2)])
        ]))
    );
}

#[test]
fn parse_boolean_or_and_not() {
    assert_eq!(
        parse("or(true not(false))").unwrap(),
        Program::new(Expr::OrExp(vec![
            Expr::BoolExp(true),
            Expr::NotExp(Box::new(Expr::BoolExp(false)))
        ]))
    );
}

#[test]
fn parse_cond_expression() {
    assert_eq!(
        parse(
            "cond (
                false => 1
                true => +(2 3)
            )"
        )
        .unwrap(),
        Program::new(Expr::CondExp(vec![
            CondClause::new(Expr::BoolExp(false), Expr::ConstExp(1)),
            CondClause::new(
                Expr::BoolExp(true),
                Expr::AddExp(vec![Expr::ConstExp(2), Expr::ConstExp(3)])
            )
        ]))
    );
}

#[test]
fn parse_rejects_extra_input() {
    assert_eq!(
        parse("true false").unwrap_err(),
        ParseError::UnexpectedToken {
            expected: "end of input",
            found: TokenKind::False,
            span: 5..10
        }
    );
}

#[test]
fn parse_requires_call_parentheses() {
    assert_eq!(
        parse("+ 1 2").unwrap_err(),
        ParseError::UnexpectedToken {
            expected: "`(`",
            found: TokenKind::Int(1),
            span: 2..3
        }
    );
}

#[test]
fn parse_rejects_wrong_not_arity() {
    assert_eq!(
        parse("not(true false)").unwrap_err(),
        ParseError::WrongArity {
            op: "not",
            expected: 1,
            actual: 2,
            span: 0..3
        }
    );
}

#[test]
fn parse_rejects_cond_clause_without_arrow() {
    assert_eq!(
        parse("cond (true 1)").unwrap_err(),
        ParseError::UnexpectedToken {
            expected: "`=>`",
            found: TokenKind::Int(1),
            span: 11..12
        }
    );
}

#[test]
fn parse_rejects_empty_cond() {
    assert_eq!(
        parse("cond ()").unwrap_err(),
        ParseError::EmptyCond { span: 0..4 }
    );
}
