//! A helper for tests of the language: run a source text and compare with what is expected.
use vstd::prelude::*;
use vstd::string::StringExecFns;

use crate::lang::envs::SpecEnv;
use crate::lang::equality::same_val;
use crate::lang::eval::{completes, run, EvalError, Evaluator, Outcome};
use crate::lang::parser::{parse, parse_spec, ParseError};
use crate::lang::scanner::has_oversized_int;
use crate::lang::vals::{val_text, ExpVal};
use crate::report::{eval_error_message, eval_message, parse_error_message, parse_message};
use crate::repl::owned;
use crate::text::{trim, trim_str};

verus! {

/// What a source text should give: a value, or an error of any kind.
#[derive(Debug, PartialEq, Eq)]
pub enum Expected {
    Value(ExpVal),
    Error,
}

/// What a source text gave.
#[derive(Debug, PartialEq, Eq)]
pub enum Actual {
    Value(ExpVal),
    ParseError(ParseError),
    EvalError(EvalError),
}

/// Expect the value `v`.
pub fn value(v: ExpVal) -> (e: Expected)
    ensures
        e == Expected::Value(v),
{
    Expected::Value(v)
}

/// Expect an error of any kind.
pub fn error() -> (e: Expected)
    ensures
        e == Expected::Error,
{
    Expected::Error
}

/// The source text can be run: it holds no oversized integer literal, and if it parses, its
/// evaluation neither overflows nor nests calls beyond what a `u64` counts.
pub open spec fn runnable(source: &str) -> bool {
    &&& !has_oversized_int(source)
    &&& parse_spec(source) matches Ok(e) ==> completes(SpecEnv::Empty, e)
}

/// Whether `actual` is what running the source text gave.
pub open spec fn actual_of(source: &str, actual: Actual) -> bool {
    match parse_spec(source) {
        Err(pe) => actual matches Actual::ParseError(x) && x@ == pe,
        Ok(e) => match run(SpecEnv::Empty, e) {
            Outcome::Value(v) => actual matches Actual::Value(x) && x@ == v,
            Outcome::Error(ee) => actual matches Actual::EvalError(x) && x@ == ee,
            Outcome::Abort(_) => false,
        },
    }
}

/// Whether running the source text gives what is expected.
pub open spec fn check_passes(source: &str, expected: Expected) -> bool {
    match parse_spec(source) {
        Err(_) => expected is Error,
        Ok(e) => match run(SpecEnv::Empty, e) {
            Outcome::Value(v) => expected matches Expected::Value(x) && x@ == v,
            Outcome::Error(_) => expected is Error,
            Outcome::Abort(_) => false,
        },
    }
}

/// How an expected outcome is shown: `value` and the value, or `error`.
pub open spec fn expected_text(e: Expected) -> Seq<char> {
    match e {
        Expected::Value(v) => "value "@ + val_text(v@),
        Expected::Error => "error"@,
    }
}

/// How an actual outcome is shown: `value` and the value, or the kind of error and its
/// message.
pub open spec fn actual_text(a: Actual) -> Seq<char> {
    match a {
        Actual::Value(v) => "value "@ + val_text(v@),
        Actual::ParseError(e) => "parse error: "@ + parse_message(e@),
        Actual::EvalError(e) => "eval error: "@ + eval_message(e@),
    }
}

/// The report of a failed check: `language check failed`, then the trimmed source, what was
/// expected and what came instead, each under its heading.
pub open spec fn check_report(source: Seq<char>, expected: Expected, actual: Actual) -> Seq<char> {
    "language check failed\n\nsource:\n"@ + trim(source) + "\n\nexpected:\n"@ + expected_text(
        expected,
    ) + "\n\nactual:\n"@ + actual_text(actual)
}

/// A failed check: what the source gave, and the report that says so.
#[derive(Debug, PartialEq, Eq)]
pub struct CheckFailure {
    pub actual: Actual,
    pub report: String,
}

fn expected_string(e: &Expected) -> (r: String)
    ensures
        r@ == expected_text(*e),
{
    match e {
        Expected::Value(v) => {
            let mut out = owned("value ");
            out.append(v.to_text().as_str());
            out
        },
        Expected::Error => owned("error"),
    }
}

fn actual_string(a: &Actual) -> (r: String)
    ensures
        r@ == actual_text(*a),
{
    match a {
        Actual::Value(v) => {
            let mut out = owned("value ");
            out.append(v.to_text().as_str());
            out
        },
        Actual::ParseError(e) => {
            let mut out = owned("parse error: ");
            out.append(parse_error_message(e).as_str());
            out
        },
        Actual::EvalError(e) => {
            let mut out = owned("eval error: ");
            out.append(eval_error_message(e).as_str());
            out
        },
    }
}

/// The report of a failed check of `source`.
pub fn failure_report(source: &str, expected: &Expected, actual: &Actual) -> (r: String)
    ensures
        r@ == check_report(source@, *expected, *actual),
        "language check failed"@.is_prefix_of(r@),
{
    let mut out = owned("language check failed\n\nsource:\n");
    out.append(trim_str(source));
    out.append("\n\nexpected:\n");
    out.append(expected_string(expected).as_str());
    out.append("\n\nactual:\n");
    out.append(actual_string(actual).as_str());
    proof {
        reveal_strlit("language check failed");
        reveal_strlit("language check failed\n\nsource:\n");
        assert("language check failed"@ =~= out@.take(21));
    }
    out
}

/// Parses and evaluates the source text; `Ok` when it gives what is expected, else what it
/// gave with the report of the failure.
pub fn check(source: &str, expected: Expected) -> (r: Result<(), CheckFailure>)
    requires
        runnable(source),
    ensures
        r is Ok <==> check_passes(source, expected),
        r matches Err(f) ==> actual_of(source, f.actual) && f.report@ == check_report(
            source@,
            expected,
            f.actual,
        ),
{
    let actual = match parse(source) {
        Ok(program) => match Evaluator::new().eval_program(&program) {
            Ok(value) => Actual::Value(value),
            Err(error) => Actual::EvalError(error),
        },
        Err(error) => Actual::ParseError(error),
    };
    let passes = match (&actual, &expected) {
        (Actual::Value(a), Expected::Value(e)) => same_val(a, e),
        (Actual::ParseError(_), Expected::Error) => true,
        (Actual::EvalError(_), Expected::Error) => true,
        _ => false,
    };
    if passes {
        Ok(())
    } else {
        let report = failure_report(source, &expected, &actual);
        Err(CheckFailure { actual, report })
    }
}

} // verus!
