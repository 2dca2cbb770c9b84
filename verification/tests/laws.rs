use stl_base::lang::envs::Env;
use stl_base::lang::eval::{EvalError, Evaluator};
use stl_base::lang::parser::{parse, parse_programs, ParseError, Parser};
use stl_base::lang::scanner::scan;
use stl_base::lang::vals::{ExpVal, PrimOp, Procedure};

fn run(input: &str) -> Result<ExpVal, EvalError> {
    Evaluator::new()
        .try_eval_program(&parse(input).unwrap())
        .unwrap()
}

fn run_with(env: std::rc::Rc<Env>, input: &str) -> Result<ExpVal, EvalError> {
    Evaluator::with_env(env)
        .try_eval_program(&parse(input).unwrap())
        .unwrap()
}

#[test]
fn lookup_skips_other_names_after_binding() {
    let env = Env::empty()
        .extend("x", ExpVal::num(1))
        .extend("y", ExpVal::num(2));
    assert_eq!(env.apply("x").unwrap(), ExpVal::num(1));
    assert!(Env::empty().extend("y", ExpVal::num(2)).apply("x").is_err());
}

#[test]
fn forms_agree_with_builtin_procedures() {
    let env = Env::empty()
        .extend("plus", ExpVal::proc(Procedure::Builtin(PrimOp::Add)))
        .extend("minus", ExpVal::proc(Procedure::Builtin(PrimOp::Sub)))
        .extend("same", ExpVal::proc(Procedure::Builtin(PrimOp::Eq)))
        .extend("negate", ExpVal::proc(Procedure::Builtin(PrimOp::Not)));
    assert_eq!(run_with(env.clone(), "plus(1 2 3)"), run("+(1 2 3)"));
    assert_eq!(run_with(env.clone(), "minus(10 3 2)"), run("-(10 3 2)"));
    assert_eq!(run_with(env.clone(), "minus(4)"), run("-(4)"));
    assert_eq!(run_with(env.clone(), "same(2 2)"), run("=(2 2)"));
    assert_eq!(run_with(env.clone(), "negate(true)"), run("not(true)"));
    assert_eq!(run_with(env, "minus()"), run("-()"));
}

#[test]
fn let_bindings_do_not_see_each_other() {
    assert_eq!(run("let (x = 1) let (x = 2 y = x) y"), Ok(ExpVal::num(1)));
    assert!(run("let (a = 1 b = a) b").is_err());
}

#[test]
fn closures_use_their_saved_environment() {
    assert_eq!(
        run("let (x = 1) let (f = fn(y) +(x y)) let (x = 100) f(10)"),
        Ok(ExpVal::num(11))
    );
}

#[test]
fn letrec_procedures_call_themselves() {
    assert_eq!(
        run("letrec (sum = fn(n) cond (=(n 0) => 0 true => +(n sum(-(n 1))))) sum(100)"),
        Ok(ExpVal::num(5050))
    );
    assert_eq!(
        run("letrec (even? = fn(n) cond (=(n 0) => true true => odd?(-(n 1))) odd? = fn(n) cond (=(n 0) => false true => even?(-(n 1)))) even?(10)"),
        Ok(ExpVal::boolean(true))
    );
}

#[test]
fn cond_without_a_true_clause_fails() {
    assert_eq!(
        run("cond (false => 1 =(1 2) => 2)"),
        Err(EvalError::NoCondClauseMatched)
    );
    assert_eq!(run("cond (false => 1 true => 2 true => 3)"), Ok(ExpVal::num(2)));
}

#[test]
fn scanned_tokens_tile_the_source() {
    let input = "  let (x1 = 10)\n\t+(x1 =(2 2))  ";
    let tokens = scan(input).unwrap();
    let bytes = input.as_bytes();
    let mut covered = 0;
    for token in &tokens {
        assert!(covered <= token.span.start && token.span.start < token.span.end);
        assert!(bytes[covered..token.span.start]
            .iter()
            .all(|b| b" \t\r\n\x0c".contains(b)));
        covered = token.span.end;
    }
    assert!(bytes[covered..].iter().all(|b| b" \t\r\n\x0c".contains(b)));
    let texts: Vec<&str> = tokens.iter().map(|t| &input[t.span.clone()]).collect();
    assert_eq!(
        texts,
        vec!["let", "(", "x1", "=", "10", ")", "+", "(", "x1", "=", "(", "2", "2", ")", ")"]
    );
}

#[test]
fn one_program_is_a_file_of_one_program() {
    for source in ["+(1 2)", " let (x = 1) x ", "fn(a) a", "zero?"] {
        let program = parse(source).unwrap();
        assert_eq!(parse_programs(source).unwrap(), vec![program]);
    }
}

#[test]
fn recursive_counting_gives_its_value() {
    assert_eq!(
        run("letrec (count = fn(n) cond (=(n 0) => 0 true => +(1 count(-(n 1))))) count(200)"),
        Ok(ExpVal::num(200))
    );
}

#[test]
fn arithmetic_forms_stop_at_the_first_non_number() {
    assert_eq!(run("+(1 2 3 4)"), Ok(ExpVal::num(10)));
    assert_eq!(run("-(10 1 2 3)"), Ok(ExpVal::num(4)));
    assert_eq!(
        run("+(1 true y)"),
        Err(EvalError::ExpVal(stl_base::lang::vals::ExpValError::NumValExpected {
            actual: Box::new(ExpVal::boolean(true))
        }))
    );
    assert_eq!(
        run("+(1 y true)"),
        Err(EvalError::Env(stl_base::lang::envs::EnvError::UnboundVariable {
            var: "y".to_string()
        }))
    );
}

#[test]
fn or_and_cond_stop_at_the_first_non_false() {
    assert_eq!(
        run("or(false 3 y)"),
        Err(EvalError::ExpVal(stl_base::lang::vals::ExpValError::BoolValExpected {
            actual: Box::new(ExpVal::num(3))
        }))
    );
    assert_eq!(run("or(false true y)"), Ok(ExpVal::boolean(true)));
    assert_eq!(
        run("cond (false => 1 7 => 2 true => 3)"),
        Err(EvalError::ExpVal(stl_base::lang::vals::ExpValError::BoolValExpected {
            actual: Box::new(ExpVal::num(7))
        }))
    );
}

#[test]
fn parse_reports_scan_errors_first() {
    assert_eq!(
        parse("+(1, 2)").unwrap_err(),
        stl_base::lang::parser::ParseError::Scan(stl_base::lang::scanner::ScanError::UnexpectedToken {
            span: 3..4
        })
    );
}

#[test]
fn a_program_refuses_extra_tokens() {
    let mut tokens = scan("+(1 2)").unwrap();
    tokens.extend(scan("true").unwrap());
    assert_eq!(
        Parser::new(tokens).parse_program().unwrap_err(),
        ParseError::UnexpectedToken {
            expected: "end of input",
            found: stl_base::lang::scanner::TokenKind::True,
            span: 0..4
        }
    );
    let mut tokens = scan("f").unwrap();
    tokens.extend(scan("()").unwrap());
    assert!(Parser::new(tokens).parse_program().is_ok());
}
