use stl_base::lang::eval::{Evaluator, Stopped, EvalError, Abort};
use stl_base::lang::parser::{parse, parse_programs};
use stl_base::lang::vals::{ExpVal, PrimOp, Procedure};
use stl_base::text::trim_str;

#[test]
fn values_show_as_the_repl_prints_them() {
    assert_eq!(ExpVal::num(42).to_text(), "42");
    assert_eq!(ExpVal::num(0).to_text(), "0");
    assert_eq!(ExpVal::num(-7).to_text(), "-7");
    assert_eq!(ExpVal::num(i64::MIN).to_text(), i64::MIN.to_string());
    assert_eq!(ExpVal::num(i64::MAX).to_text(), i64::MAX.to_string());
    assert_eq!(ExpVal::boolean(true).to_text(), "true");
    assert_eq!(ExpVal::boolean(false).to_text(), "false");
    assert_eq!(ExpVal::proc(Procedure::Builtin(PrimOp::Add)).to_text(), "<procedure>");
}

#[test]
fn eval_programs_stops_at_the_first_failure() {
    let programs = parse_programs("+(1 2) not(false) -() 5").unwrap();
    let (values, stopped) = Evaluator::new().eval_programs(&programs);
    assert_eq!(values, vec![ExpVal::num(3), ExpVal::boolean(true)]);
    assert_eq!(stopped, Some(Stopped::Error(EvalError::EmptyArgs { op: "-" })));

    let programs = parse_programs("1 2").unwrap();
    let (values, stopped) = Evaluator::new().eval_programs(&programs);
    assert_eq!(values, vec![ExpVal::num(1), ExpVal::num(2)]);
    assert_eq!(stopped, None);
}

#[test]
fn eval_programs_reports_overflow_as_abort() {
    let programs = parse_programs("9223372036854775807 +(9223372036854775807 1)").unwrap();
    let (values, stopped) = Evaluator::new().eval_programs(&programs);
    assert_eq!(values, vec![ExpVal::num(i64::MAX)]);
    assert_eq!(stopped, Some(Stopped::Abort(Abort::Overflow)));
}

#[test]
fn try_eval_program_reports_overflow() {
    let program = parse("-(-(9223372036854775807) 2)").unwrap();
    assert_eq!(Evaluator::new().try_eval_program(&program), Err(Abort::Overflow));
}

#[test]
fn trim_str_removes_unicode_white_space() {
    assert_eq!(trim_str(" \u{2003}a b\u{85}\n"), "a b");
    assert_eq!(trim_str("\u{200b}x"), "\u{200b}x");
    assert_eq!(trim_str("   "), "");
}
