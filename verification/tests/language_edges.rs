use stl_base::lang::ast::{Expr, Program};
use stl_base::lang::envs::EnvError;
use stl_base::lang::eval::{EvalError, Evaluator};
use stl_base::lang::parser::{parse, parse_programs, ParseError};
use stl_base::lang::scanner::{oversized_int_literal, scan, ScanError, TokenKind};
use stl_base::lang::vals::{ExpVal, ExpValError};
use stl_base::testing::{check, error, value, Actual};

fn run(input: &str) -> Result<ExpVal, EvalError> {
    Evaluator::new()
        .try_eval_program(&parse(input).unwrap())
        .unwrap()
}

#[test]
fn identifiers_are_scheme_like() {
    assert_eq!(
        scan("zero? number->boolean set!").unwrap()
            .into_iter()
            .map(|t| t.kind)
            .collect::<Vec<_>>(),
        vec![
            TokenKind::Ident("zero?".to_string()),
            TokenKind::Ident("number->boolean".to_string()),
            TokenKind::Ident("set!".to_string()),
        ]
    );
    assert_eq!(
        run("let (check? = true) check?"),
        Ok(ExpVal::boolean(true))
    );
}

#[test]
fn keywords_win_only_for_whole_words() {
    let kinds: Vec<TokenKind> = scan("letrec let letx notx or=>").unwrap().into_iter().map(|t| t.kind).collect();
    assert_eq!(
        kinds,
        vec![
            TokenKind::LetRec,
            TokenKind::Let,
            TokenKind::Ident("letx".to_string()),
            TokenKind::Ident("notx".to_string()),
            TokenKind::Or,
            TokenKind::Arrow,
        ]
    );
}

#[test]
fn scan_error_spans_a_whole_character() {
    assert_eq!(
        scan("+(1 é)").unwrap_err(),
        ScanError::UnexpectedToken { span: 4..6 }
    );
    assert_eq!(
        parse("x €").unwrap_err(),
        ParseError::Scan(ScanError::UnexpectedToken { span: 2..5 })
    );
}

#[test]
fn oversized_integers_are_detected() {
    assert!(oversized_int_literal("+(1 9223372036854775808)"));
    assert!(!oversized_int_literal("+(1 9223372036854775807)"));
    assert!(!oversized_int_literal("+(1 é 99999999999999999999)"));
}

#[test]
fn procedures_check_their_arity() {
    assert_eq!(
        run("let (f = fn(a b) a) f(1)"),
        Err(EvalError::ArityMismatch { expected: 2, actual: 1 })
    );
    assert_eq!(
        parse("=(1)").unwrap_err(),
        ParseError::WrongArity { op: "=", expected: 2, actual: 1, span: 0..1 }
    );
}

#[test]
fn calling_a_number_fails() {
    assert_eq!(
        run("let (f = 1) f(2)"),
        Err(EvalError::ExpVal(ExpValError::ProcValExpected {
            actual: Box::new(ExpVal::num(1))
        }))
    );
}

#[test]
fn unbound_variables_are_reported_by_name() {
    assert_eq!(
        run("+(1 y)"),
        Err(EvalError::Env(EnvError::UnboundVariable { var: "y".to_string() }))
    );
}

#[test]
fn equality_compares_numbers() {
    assert_eq!(run("=(3 3)"), Ok(ExpVal::boolean(true)));
    assert_eq!(run("=(3 4)"), Ok(ExpVal::boolean(false)));
    assert_eq!(
        run("=(true 4)"),
        Err(EvalError::ExpVal(ExpValError::NumValExpected {
            actual: Box::new(ExpVal::boolean(true))
        }))
    );
}

#[test]
fn not_checks_its_argument_at_run_time() {
    assert_eq!(
        run("not(1)"),
        Err(EvalError::ExpVal(ExpValError::BoolValExpected {
            actual: Box::new(ExpVal::num(1))
        }))
    );
}

#[test]
fn a_file_holds_several_programs() {
    assert_eq!(
        parse_programs("1 true x").unwrap(),
        vec![
            Program::new(Expr::ConstExp(1)),
            Program::new(Expr::BoolExp(true)),
            Program::new(Expr::VarExp("x".to_string())),
        ]
    );
    assert_eq!(parse_programs("  ").unwrap(), vec![]);
    assert_eq!(
        parse_programs("1 +(2").unwrap_err(),
        ParseError::UnexpectedEnd { expected: "`)`" }
    );
}

#[test]
fn parse_reports_missing_input() {
    assert_eq!(parse("").unwrap_err(), ParseError::UnexpectedEnd { expected: "expression" });
    assert_eq!(
        parse("fn x").unwrap_err(),
        ParseError::UnexpectedToken {
            expected: "`(`",
            found: TokenKind::Ident("x".to_string()),
            span: 3..4
        }
    );
}

#[test]
fn check_reports_what_came_instead() {
    assert!(check("+(1 2)", value(ExpVal::num(3))).is_ok());
    assert_eq!(
        check("+(1 2)", value(ExpVal::num(4))).unwrap_err().actual,
        Actual::Value(ExpVal::num(3))
    );
    assert_eq!(
        check("+(1 2)", error()).unwrap_err().actual,
        Actual::Value(ExpVal::num(3))
    );
    assert!(matches!(
        check("+(1", value(ExpVal::num(1))).unwrap_err().actual,
        Actual::ParseError(_)
    ));
    assert!(matches!(
        check("-()", value(ExpVal::num(1))).unwrap_err().actual,
        Actual::EvalError(_)
    ));
    assert!(check("-()", error()).is_ok());
}

#[test]
fn check_failure_report_shows_source_expected_and_actual() {
    let failure = check("\n   +(1 2)\n  ", value(ExpVal::num(4))).unwrap_err();
    assert_eq!(
        failure.report,
        "language check failed\n\nsource:\n+(1 2)\n\nexpected:\nvalue 4\n\nactual:\nvalue 3"
    );
    let failure = check("foo", value(ExpVal::boolean(true))).unwrap_err();
    assert_eq!(
        failure.report,
        "language check failed\n\nsource:\nfoo\n\nexpected:\nvalue true\n\nactual:\neval error: unbound variable: foo"
    );
    let failure = check("+(1", error());
    assert!(failure.is_ok());
    let failure = check("cond ()", value(ExpVal::num(1))).unwrap_err();
    assert_eq!(
        failure.report,
        "language check failed\n\nsource:\ncond ()\n\nexpected:\nvalue 1\n\nactual:\nparse error: cond expects at least one clause at 0..4"
    );
    let failure = check("-()", value(ExpVal::num(1))).unwrap_err();
    assert!(failure.report.ends_with("actual:\neval error: - expects at least one argument"));
    let failure = check("5", error()).unwrap_err();
    assert!(failure.report.ends_with("expected:\nerror\n\nactual:\nvalue 5"));
}
