use stl_base::lang::parser::{parse, ParseError};
use stl_base::lang::scanner::{ScanError, TokenKind};
use stl_base::lang::envs::EnvError;
use stl_base::lang::eval::EvalError;
use stl_base::lang::vals::{ExpVal, ExpValError};
use stl_base::report::{
    escape_text, eval_error_message, kind_debug_text, parse_error_diagnostic, parse_error_message,
    Diagnostic,
};

#[test]
fn kind_text_is_the_derived_debug_text() {
    let kinds = vec![
        TokenKind::LParen,
        TokenKind::RParen,
        TokenKind::Plus,
        TokenKind::Minus,
        TokenKind::Arrow,
        TokenKind::Equals,
        TokenKind::LetRec,
        TokenKind::Let,
        TokenKind::Fn,
        TokenKind::Cond,
        TokenKind::Or,
        TokenKind::Not,
        TokenKind::True,
        TokenKind::False,
        TokenKind::Int(0),
        TokenKind::Int(-12),
        TokenKind::Int(i64::MIN),
        TokenKind::Ident("number->boolean".to_string()),
        TokenKind::Ident("a\"b\\c\nd\te\r\0".to_string()),
    ];
    for kind in kinds {
        assert_eq!(kind_debug_text(&kind), format!("{kind:?}"));
    }
}

#[test]
fn escape_text_escapes_quotes_and_backslashes() {
    assert_eq!(escape_text("plain"), "plain");
    assert_eq!(escape_text("\"x\""), "\\\"x\\\"");
    assert_eq!(escape_text("a\\b"), "a\\\\b");
    assert_eq!(escape_text(""), "");
}

#[test]
fn diagnostics_label_the_place_of_the_error() {
    let input = "+ 1 2";
    assert_eq!(
        parse_error_diagnostic(input, &parse(input).unwrap_err()),
        Diagnostic {
            code: "stl::parse",
            message: "expected `(`, found Int(1)".to_string(),
            label_start: 2,
            label_end: 3,
            label: "expected `(`".to_string(),
        }
    );

    let input = "+(1 2";
    assert_eq!(
        parse_error_diagnostic(input, &parse(input).unwrap_err()),
        Diagnostic {
            code: "stl::parse",
            message: "expected `)`, found end of input".to_string(),
            label_start: 5,
            label_end: 5,
            label: "expected `)`".to_string(),
        }
    );

    let input = "+(1, 2)";
    assert_eq!(
        parse_error_diagnostic(input, &parse(input).unwrap_err()),
        Diagnostic {
            code: "stl::scan",
            message: "unexpected token".to_string(),
            label_start: 3,
            label_end: 4,
            label: "unexpected token".to_string(),
        }
    );

    let input = "not(true false)";
    assert_eq!(
        parse_error_diagnostic(input, &parse(input).unwrap_err()),
        Diagnostic {
            code: "stl::parse",
            message: "not expects 1 argument(s), found 2".to_string(),
            label_start: 0,
            label_end: 3,
            label: "wrong number of arguments".to_string(),
        }
    );

    let input = "cond ()";
    assert_eq!(
        parse_error_diagnostic(input, &parse(input).unwrap_err()),
        Diagnostic {
            code: "stl::parse",
            message: "cond expects at least one clause".to_string(),
            label_start: 0,
            label_end: 4,
            label: "empty cond".to_string(),
        }
    );

    let error = ParseError::Scan(ScanError::UnexpectedToken { span: 0..2 });
    assert_eq!(parse_error_diagnostic("é", &error).label_end, 2);
}

#[test]
fn unexpected_identifier_is_shown_quoted() {
    let input = "true zero?";
    assert_eq!(
        parse_error_diagnostic(input, &parse(input).unwrap_err()).message,
        "expected end of input, found Ident(\"zero?\")"
    );
}

#[test]
fn parse_error_messages_show_spans() {
    let message = |input: &str| parse_error_message(&parse(input).unwrap_err());
    assert_eq!(message("+(1, 2)"), "unexpected token at 3..4");
    assert_eq!(message("+(1 2"), "expected `)`, found end of input");
    assert_eq!(message("true false"), "expected end of input, found False at 5..10");
    assert_eq!(message("not(true false)"), "not expects 1 argument(s), found 2 at 0..3");
    assert_eq!(message("cond ()"), "cond expects at least one clause at 0..4");
    assert_eq!(message("+ 1 2"), "expected `(`, found Int(1) at 2..3");
}

#[test]
fn eval_error_messages_name_what_was_found() {
    assert_eq!(
        eval_error_message(&EvalError::ExpVal(ExpValError::NumValExpected {
            actual: Box::new(ExpVal::boolean(true))
        })),
        "expected number, found true"
    );
    assert_eq!(
        eval_error_message(&EvalError::ExpVal(ExpValError::BoolValExpected {
            actual: Box::new(ExpVal::num(-3))
        })),
        "expected boolean, found -3"
    );
    assert_eq!(
        eval_error_message(&EvalError::EmptyArgs { op: "-" }),
        "- expects at least one argument"
    );
    assert_eq!(eval_error_message(&EvalError::NoCondClauseMatched), "no cond clause matched");
    assert_eq!(
        eval_error_message(&EvalError::Env(EnvError::UnboundVariable { var: "x".to_string() })),
        "unbound variable: x"
    );
    assert_eq!(
        eval_error_message(&EvalError::ArityMismatch { expected: 2, actual: 3 }),
        "procedure expects 2 argument(s), found 3"
    );
}
