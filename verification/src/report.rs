//! What is reported about a source text that does not parse or evaluate: the messages of the
//! errors, and the diagnostic (a code, a message and a labelled place) of a parse error.
use vstd::prelude::*;
use vstd::string::StringExecFns;

use crate::lang::envs::EnvError;
use crate::lang::eval::{EvalError, SpecEvalError};
use crate::lang::parser::{ParseError, SpecParseError};
use crate::lang::scanner::{ScanError, SpecKind, TokenKind};
use crate::lang::vals::{
    count_text, decimal, decimal_text, digits, val_text, ExpValError, SpecValError,
};
use crate::repl::owned;
use crate::text::{chars_of, substring};

verus! {

/// A report of a problem in a source text: its code, its message, and a label on the bytes
/// `label_start..label_end` of the source.
#[derive(Debug, PartialEq, Eq)]
pub struct Diagnostic {
    pub code: &'static str,
    pub message: String,
    pub label_start: usize,
    pub label_end: usize,
    pub label: String,
}

/// Model of a diagnostic.
pub struct SpecDiagnostic {
    pub code: Seq<char>,
    pub message: Seq<char>,
    pub label_start: int,
    pub label_end: int,
    pub label: Seq<char>,
}

impl View for Diagnostic {
    type V = SpecDiagnostic;

    open spec fn view(&self) -> SpecDiagnostic {
        SpecDiagnostic {
            code: self.code@,
            message: self.message@,
            label_start: self.label_start as int,
            label_end: self.label_end as int,
            label: self.label@,
        }
    }
}

/// A character as it appears inside a quoted string shown for debugging: a quote, a
/// backslash, a line feed, a carriage return, a tab and a NUL are escaped with a backslash.
pub open spec fn escape_char(c: char) -> Seq<char> {
    if c == '"' {
        seq!['\\', '"']
    } else if c == '\\' {
        seq!['\\', '\\']
    } else if c == '\n' {
        seq!['\\', 'n']
    } else if c == '\r' {
        seq!['\\', 'r']
    } else if c == '\t' {
        seq!['\\', 't']
    } else if c == '\0' {
        seq!['\\', '0']
    } else {
        seq![c]
    }
}

/// A character sequence with each character escaped.
pub open spec fn escaped(s: Seq<char>) -> Seq<char>
    decreases s.len(),
{
    if s.len() == 0 {
        Seq::empty()
    } else {
        escaped(s.drop_last()) + escape_char(s.last())
    }
}

/// A token kind as its derived `Debug` shows it: the variant's name, with the number or the
/// quoted identifier in parentheses. (For an identifier, this is exactly Rust's `Debug` of the
/// text where its characters need no escaping beyond `escape_char`, as the scanner's
/// identifiers never do.)
pub open spec fn kind_text(k: SpecKind) -> Seq<char> {
    match k {
        SpecKind::LParen => "LParen"@,
        SpecKind::RParen => "RParen"@,
        SpecKind::Plus => "Plus"@,
        SpecKind::Minus => "Minus"@,
        SpecKind::Arrow => "Arrow"@,
        SpecKind::Equals => "Equals"@,
        SpecKind::LetRec => "LetRec"@,
        SpecKind::Let => "Let"@,
        SpecKind::Fn => "Fn"@,
        SpecKind::Cond => "Cond"@,
        SpecKind::Or => "Or"@,
        SpecKind::Not => "Not"@,
        SpecKind::True => "True"@,
        SpecKind::False => "False"@,
        SpecKind::Int(n) => "Int("@ + decimal(n as int) + ")"@,
        SpecKind::Ident(s) => "Ident(\""@ + escaped(s) + "\")"@,
    }
}

/// The diagnostic for a parse error of the source `input` (whose length in bytes is
/// `input_len`): a scan error is labelled `unexpected token` at its span; running out of input
/// is labelled with what was expected at the end of the source; an unexpected token with
/// what was expected at its span; a wrong number of arguments and an empty `cond` at the
/// operator's span.
pub open spec fn parse_diagnostic(input_len: int, e: SpecParseError) -> SpecDiagnostic {
    match e {
        SpecParseError::Scan(s, t) => SpecDiagnostic {
            code: "stl::scan"@,
            message: "unexpected token"@,
            label_start: s,
            label_end: t,
            label: "unexpected token"@,
        },
        SpecParseError::UnexpectedEnd(x) => SpecDiagnostic {
            code: "stl::parse"@,
            message: "expected "@ + x + ", found end of input"@,
            label_start: input_len,
            label_end: input_len,
            label: "expected "@ + x,
        },
        SpecParseError::UnexpectedToken(x, k, s, t) => SpecDiagnostic {
            code: "stl::parse"@,
            message: "expected "@ + x + ", found "@ + kind_text(k),
            label_start: s,
            label_end: t,
            label: "expected "@ + x,
        },
        SpecParseError::WrongArity(op, want, got, s, t) => SpecDiagnostic {
            code: "stl::parse"@,
            message: op + " expects "@ + digits(want as nat) + " argument(s), found "@ + digits(
                got as nat,
            ),
            label_start: s,
            label_end: t,
            label: "wrong number of arguments"@,
        },
        SpecParseError::EmptyCond(s, t) => SpecDiagnostic {
            code: "stl::parse"@,
            message: "cond expects at least one clause"@,
            label_start: s,
            label_end: t,
            label: "empty cond"@,
        },
    }
}

fn escape_char_text(c: char) -> (r: Option<&'static str>)
    ensures
        match r {
            Some(t) => t@ == escape_char(c) && escape_char(c) != seq![c],
            None => escape_char(c) == seq![c],
        },
{
    proof {
        reveal_strlit("\\\"");
        reveal_strlit("\\\\");
        reveal_strlit("\\n");
        reveal_strlit("\\r");
        reveal_strlit("\\t");
        reveal_strlit("\\0");
    }
    if c == '"' {
        Some("\\\"")
    } else if c == '\\' {
        Some("\\\\")
    } else if c == '\n' {
        Some("\\n")
    } else if c == '\r' {
        Some("\\r")
    } else if c == '\t' {
        Some("\\t")
    } else if c == '\0' {
        Some("\\0")
    } else {
        None
    }
}

proof fn lemma_escaped_push(s: Seq<char>, i: int)
    requires
        0 <= i < s.len(),
    ensures
        escaped(s.take(i + 1)) == escaped(s.take(i)) + escape_char(s[i]),
{
    assert(s.take(i + 1).drop_last() =~= s.take(i));
}

/// The text with each character escaped as `escape_char` says.
pub fn escape_text(s: &str) -> (r: String)
    ensures
        r@ == escaped(s@),
{
    let cs = chars_of(s);
    let mut out = String::new();
    let mut run_start: usize = 0;
    let mut i: usize = 0;
    proof {
        assert(s@.take(0) =~= Seq::<char>::empty());
    }
    while i < cs.len()
        invariant
            run_start <= i <= cs@.len(),
            cs@ == s@,
            out@ + s@.subrange(run_start as int, i as int) == escaped(s@.take(i as int)),
        decreases cs.len() - i,
    {
        proof {
            lemma_escaped_push(s@, i as int);
        }
        match escape_char_text(cs[i]) {
            Some(t) => {
                let run = substring(s, run_start, i);
                out.append(run);
                out.append(t);
                run_start = i + 1;
                proof {
                    assert(s@.subrange(run_start as int, i + 1) =~= Seq::<char>::empty());
                }
            },
            None => {
                proof {
                    assert(s@.subrange(run_start as int, i + 1) =~= s@.subrange(
                        run_start as int,
                        i as int,
                    ).push(s@[i as int]));
                }
            },
        }
        i += 1;
    }
    let run = substring(s, run_start, i);
    out.append(run);
    proof {
        assert(s@.take(i as int) =~= s@);
    }
    out
}

/// A token kind as its derived `Debug` shows it.
pub fn kind_debug_text(k: &TokenKind) -> (r: String)
    ensures
        r@ == kind_text(k@),
{
    match k {
        TokenKind::LParen => owned("LParen"),
        TokenKind::RParen => owned("RParen"),
        TokenKind::Plus => owned("Plus"),
        TokenKind::Minus => owned("Minus"),
        TokenKind::Arrow => owned("Arrow"),
        TokenKind::Equals => owned("Equals"),
        TokenKind::LetRec => owned("LetRec"),
        TokenKind::Let => owned("Let"),
        TokenKind::Fn => owned("Fn"),
        TokenKind::Cond => owned("Cond"),
        TokenKind::Or => owned("Or"),
        TokenKind::Not => owned("Not"),
        TokenKind::True => owned("True"),
        TokenKind::False => owned("False"),
        TokenKind::Int(n) => {
            let mut out = owned("Int(");
            out.append(decimal_text(*n).as_str());
            out.append(")");
            out
        },
        TokenKind::Ident(s) => {
            let mut out = owned("Ident(\"");
            out.append(escape_text(s.as_str()).as_str());
            out.append("\")");
            out
        },
    }
}

/// `prefix` followed by `rest`.
fn joined(prefix: &str, rest: &str) -> (r: String)
    ensures
        r@ == prefix@ + rest@,
{
    let mut out = owned(prefix);
    out.append(rest);
    out
}

/// The diagnostic for a parse error of `input`.
pub fn parse_error_diagnostic(input: &str, error: &ParseError) -> (d: Diagnostic)
    ensures
        d@ == parse_diagnostic(input.len() as int, error@),
{
    match error {
        ParseError::Scan(ScanError::UnexpectedToken { span }) => Diagnostic {
            code: "stl::scan",
            message: owned("unexpected token"),
            label_start: span.start,
            label_end: span.end,
            label: owned("unexpected token"),
        },
        ParseError::UnexpectedEnd { expected } => {
            let mut message = joined("expected ", expected);
            message.append(", found end of input");
            Diagnostic {
                code: "stl::parse",
                message,
                label_start: input.len(),
                label_end: input.len(),
                label: joined("expected ", expected),
            }
        },
        ParseError::UnexpectedToken { expected, found, span } => {
            let mut message = joined("expected ", expected);
            message.append(", found ");
            message.append(kind_debug_text(found).as_str());
            Diagnostic {
                code: "stl::parse",
                message,
                label_start: span.start,
                label_end: span.end,
                label: joined("expected ", expected),
            }
        },
        ParseError::WrongArity { op, expected, actual, span } => {
            let mut message = joined(op, " expects ");
            message.append(count_text(*expected).as_str());
            message.append(" argument(s), found ");
            message.append(count_text(*actual).as_str());
            Diagnostic {
                code: "stl::parse",
                message,
                label_start: span.start,
                label_end: span.end,
                label: owned("wrong number of arguments"),
            }
        },
        ParseError::EmptyCond { span } => Diagnostic {
            code: "stl::parse",
            message: owned("cond expects at least one clause"),
            label_start: span.start,
            label_end: span.end,
            label: owned("empty cond"),
        },
    }
}

/// A byte span as `Range` shows it for debugging: `start..end`.
pub open spec fn span_text(start: int, end: int) -> Seq<char> {
    digits(start as nat) + ".."@ + digits(end as nat)
}

/// The message of a parse error.
pub open spec fn parse_message(e: SpecParseError) -> Seq<char> {
    match e {
        SpecParseError::Scan(s, t) => "unexpected token at "@ + span_text(s, t),
        SpecParseError::UnexpectedEnd(x) => "expected "@ + x + ", found end of input"@,
        SpecParseError::UnexpectedToken(x, k, s, t) => "expected "@ + x + ", found "@ + kind_text(k)
            + " at "@ + span_text(s, t),
        SpecParseError::WrongArity(op, want, got, s, t) => op + " expects "@ + digits(want as nat)
            + " argument(s), found "@ + digits(got as nat) + " at "@ + span_text(s, t),
        SpecParseError::EmptyCond(s, t) => "cond expects at least one clause at "@ + span_text(s, t),
    }
}

/// The message of an evaluation error.
pub open spec fn eval_message(e: SpecEvalError) -> Seq<char> {
    match e {
        SpecEvalError::Val(SpecValError::NumExpected(v)) => "expected number, found "@ + val_text(v),
        SpecEvalError::Val(SpecValError::BoolExpected(v)) => "expected boolean, found "@ + val_text(v),
        SpecEvalError::Val(SpecValError::ProcExpected(v)) => "expected procedure, found "@ + val_text(
            v,
        ),
        SpecEvalError::EmptyArgs(op) => op + " expects at least one argument"@,
        SpecEvalError::NoCondClauseMatched => "no cond clause matched"@,
        SpecEvalError::Unbound(x) => "unbound variable: "@ + x,
        SpecEvalError::ArityMismatch(want, got) => "procedure expects "@ + digits(want as nat)
            + " argument(s), found "@ + digits(got as nat),
    }
}

fn span_debug_text(start: usize, end: usize) -> (r: String)
    ensures
        r@ == span_text(start as int, end as int),
{
    let mut out = count_text(start);
    out.append("..");
    out.append(count_text(end).as_str());
    out
}

/// The message of a parse error.
pub fn parse_error_message(error: &ParseError) -> (r: String)
    ensures
        r@ == parse_message(error@),
{
    match error {
        ParseError::Scan(ScanError::UnexpectedToken { span }) => {
            let mut out = owned("unexpected token at ");
            out.append(span_debug_text(span.start, span.end).as_str());
            out
        },
        ParseError::UnexpectedEnd { expected } => {
            let mut out = joined("expected ", expected);
            out.append(", found end of input");
            out
        },
        ParseError::UnexpectedToken { expected, found, span } => {
            let mut out = joined("expected ", expected);
            out.append(", found ");
            out.append(kind_debug_text(found).as_str());
            out.append(" at ");
            out.append(span_debug_text(span.start, span.end).as_str());
            out
        },
        ParseError::WrongArity { op, expected, actual, span } => {
            let mut out = joined(op, " expects ");
            out.append(count_text(*expected).as_str());
            out.append(" argument(s), found ");
            out.append(count_text(*actual).as_str());
            out.append(" at ");
            out.append(span_debug_text(span.start, span.end).as_str());
            out
        },
        ParseError::EmptyCond { span } => {
            let mut out = owned("cond expects at least one clause at ");
            out.append(span_debug_text(span.start, span.end).as_str());
            out
        },
    }
}

/// The message of an evaluation error.
pub fn eval_error_message(error: &EvalError) -> (r: String)
    ensures
        r@ == eval_message(error@),
{
    match error {
        EvalError::ExpVal(ExpValError::NumValExpected { actual }) => joined(
            "expected number, found ",
            actual.to_text().as_str(),
        ),
        EvalError::ExpVal(ExpValError::BoolValExpected { actual }) => joined(
            "expected boolean, found ",
            actual.to_text().as_str(),
        ),
        EvalError::ExpVal(ExpValError::ProcValExpected { actual }) => joined(
            "expected procedure, found ",
            actual.to_text().as_str(),
        ),
        EvalError::EmptyArgs { op } => joined(op, " expects at least one argument"),
        EvalError::NoCondClauseMatched => owned("no cond clause matched"),
        EvalError::Env(EnvError::UnboundVariable { var }) => joined(
            "unbound variable: ",
            var.as_str(),
        ),
        EvalError::ArityMismatch { expected, actual } => {
            let mut out = owned("procedure expects ");
            out.append(count_text(*expected).as_str());
            out.append(" argument(s), found ");
            out.append(count_text(*actual).as_str());
            out
        },
    }
}

} // verus!
