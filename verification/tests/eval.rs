use stl_base::lang::eval::{value_of_program, EvalError};
use stl_base::lang::parser::parse;
use stl_base::lang::vals::{ExpVal, ExpValError};

fn eval(input: &str) -> Result<ExpVal, EvalError> {
    value_of_program(&parse(input).unwrap())
}

#[test]
fn eval_adds_zero_or_more_numbers() {
    assert_eq!(eval("+()").unwrap(), ExpVal::num(0));
    assert_eq!(eval("+(1)").unwrap(), ExpVal::num(1));
    assert_eq!(eval("+(1 2 3)").unwrap(), ExpVal::num(6));
}

#[test]
fn eval_subtracts_like_lisp() {
    assert_eq!(eval("-(10)").unwrap(), ExpVal::num(-10));
    assert_eq!(eval("-(10 3)").unwrap(), ExpVal::num(7));
    assert_eq!(eval("-(10 3 2)").unwrap(), ExpVal::num(5));
}

#[test]
fn eval_rejects_empty_subtraction() {
    assert_eq!(eval("-()").unwrap_err(), EvalError::EmptyArgs { op: "-" });
}

#[test]
fn eval_or_short_circuits() {
    assert_eq!(eval("or()").unwrap(), ExpVal::boolean(false));
    assert_eq!(eval("or(false false)").unwrap(), ExpVal::boolean(false));
    assert_eq!(eval("or(false true)").unwrap(), ExpVal::boolean(true));
    assert_eq!(eval("or(true +(1 true))").unwrap(), ExpVal::boolean(true));
}

#[test]
fn eval_not_negates_boolean() {
    assert_eq!(eval("not(true)").unwrap(), ExpVal::boolean(false));
    assert_eq!(eval("not(false)").unwrap(), ExpVal::boolean(true));
}

#[test]
fn eval_cond_uses_first_matching_clause() {
    assert_eq!(
        eval(
            "cond (
                false => +(1 true)
                true => +(2 3)
                true => +(1 false)
            )"
        )
        .unwrap(),
        ExpVal::num(5)
    );
}

#[test]
fn eval_rejects_unmatched_cond() {
    assert_eq!(
        eval("cond (false => 1)").unwrap_err(),
        EvalError::NoCondClauseMatched
    );
}

#[test]
fn eval_rejects_wrong_runtime_types() {
    assert_eq!(
        eval("+(1 true)").unwrap_err(),
        EvalError::ExpVal(ExpValError::NumValExpected {
            actual: Box::new(ExpVal::boolean(true))
        })
    );
}
