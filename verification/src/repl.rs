//! The decisions of the interactive loop: meta commands (`:quit`, `:rebuild`, `:load <path>`)
//! and the paths they name, what a line of input asks for, and when a line is an unfinished
//! program that goes on on the next line.
use vstd::prelude::*;
use vstd::string::StringExecFns;

use crate::lang::envs::same_text;
use crate::lang::parser::{parse, parse_spec, ParseError};
use crate::lang::scanner::has_oversized_int;
use crate::text::{
    chars_of, find_white, first_white, lemma_first_white, split_at_char, substring, trim, trim_str,
};

verus! {

/// A command to the interactive loop itself rather than a program.
#[derive(Debug, PartialEq, Eq)]
pub enum MetaCommand {
    Quit,
    Rebuild,
    Load(String),
}

/// A meta command given with the wrong arguments; `usage` is how it is written.
#[derive(Debug, PartialEq, Eq)]
pub enum MetaCommandError {
    Usage { usage: &'static str },
}

/// Model of a meta command.
pub enum SpecMeta {
    Quit,
    Rebuild,
    Load(Seq<char>),
}

impl View for MetaCommand {
    type V = SpecMeta;

    open spec fn view(&self) -> SpecMeta {
        match self {
            MetaCommand::Quit => SpecMeta::Quit,
            MetaCommand::Rebuild => SpecMeta::Rebuild,
            MetaCommand::Load(p) => SpecMeta::Load(p@),
        }
    }
}

impl View for MetaCommandError {
    type V = Seq<char>;

    open spec fn view(&self) -> Seq<char> {
        match self {
            MetaCommandError::Usage { usage } => usage@,
        }
    }
}

/// The word before the first white-space character (all of `s` if there is none).
pub open spec fn command_part(s: Seq<char>) -> Seq<char> {
    s.take(first_white(s, 0))
}

/// What follows the first white-space character, trimmed; nothing if that is empty.
pub open spec fn argument_part(s: Seq<char>) -> Option<Seq<char>> {
    let i = first_white(s, 0);
    if i >= s.len() {
        None
    } else {
        let t = trim(s.skip(i + 1));
        if t.len() == 0 {
            None
        } else {
            Some(t)
        }
    }
}

/// A path argument without one pair of enclosing double or single quotes.
pub open spec fn unquote(p: Seq<char>) -> Seq<char> {
    if p.len() >= 2 && ((p[0] == '"' && p.last() == '"') || (p[0] == '\'' && p.last() == '\'')) {
        p.subrange(1, p.len() - 1)
    } else {
        p
    }
}

/// `rest` adjoined to `base` as a path: an absolute `rest` replaces `base`, otherwise a `/` is
/// put between them where `base` is not empty and does not already end in one.
pub open spec fn join_path(base: Seq<char>, rest: Seq<char>) -> Seq<char> {
    if rest.len() > 0 && rest[0] == '/' {
        rest
    } else if base.len() == 0 || base.last() == '/' {
        base + rest
    } else {
        base + seq!['/'] + rest
    }
}

/// A path with a leading `~` read as the home directory, where one is known.
pub open spec fn expand(p: Seq<char>, home: Option<Seq<char>>) -> Seq<char> {
    if p == seq!['~'] {
        match home {
            Some(h) => h,
            None => p,
        }
    } else if p.len() >= 2 && p[0] == '~' && p[1] == '/' && home is Some {
        join_path(home->0, p.skip(2))
    } else {
        p
    }
}

/// What a line of input means as a meta command: `Ok(None)` where it is none.
pub open spec fn meta_command(s: Seq<char>, home: Option<Seq<char>>) -> Result<
    Option<SpecMeta>,
    Seq<char>,
> {
    let c = command_part(s);
    let a = argument_part(s);
    if c == ":quit"@ {
        if a is Some {
            Err(":quit"@)
        } else {
            Ok(Some(SpecMeta::Quit))
        }
    } else if c == ":rebuild"@ {
        if a is Some {
            Err(":rebuild"@)
        } else {
            Ok(Some(SpecMeta::Rebuild))
        }
    } else if c == ":load"@ {
        match a {
            None => Err(":load <path>"@),
            Some(p) => Ok(Some(SpecMeta::Load(expand(unquote(p), home)))),
        }
    } else {
        Ok(None)
    }
}

/// The model of what `MetaCommand::parse` returns.
pub open spec fn meta_result_view(r: Result<Option<MetaCommand>, MetaCommandError>) -> Result<
    Option<SpecMeta>,
    Seq<char>,
> {
    match r {
        Ok(None) => Ok(None),
        Ok(Some(m)) => Ok(Some(m@)),
        Err(e) => Err(e@),
    }
}

/// A string of the given characters, as an owned `String`.
pub(crate) fn owned(s: &str) -> (r: String)
    ensures
        r@ == s@,
{
    s.to_owned()
}

/// The path argument without one pair of enclosing quotes.
pub fn unquote_path_arg(path: &str) -> (r: &str)
    ensures
        r@ == unquote(path@),
{
    let cs = chars_of(path);
    let n = cs.len();
    if n < 2 {
        return path;
    }
    let first = cs[0];
    let last = cs[n - 1];
    if (first == '"' && last == '"') || (first == '\'' && last == '\'') {
        substring(path, 1, n - 1)
    } else {
        path
    }
}

/// `rest` adjoined to `base` as a path.
pub fn join_path_text(base: &str, rest: &str) -> (r: String)
    ensures
        r@ == join_path(base@, rest@),
{
    let bs = chars_of(base);
    let rs = chars_of(rest);
    if rs.len() > 0 && rs[0] == '/' {
        return owned(rest);
    }
    let mut r = owned(base);
    if bs.len() > 0 && bs[bs.len() - 1] != '/' {
        r.append("/");
        proof {
            reveal_strlit("/");
        }
    }
    r.append(rest);
    r
}

/// The path with a leading `~` read as `home`, where a home directory is known.
pub fn expand_path(path: &str, home: Option<&str>) -> (r: String)
    ensures
        r@ == expand(path@, match home {
            Some(h) => Some(h@),
            None => None,
        }),
{
    let cs = chars_of(path);
    if cs.len() == 1 && cs[0] == '~' {
        proof {
            assert(path@ =~= seq!['~']);
        }
        return match home {
            Some(h) => owned(h),
            None => owned(path),
        };
    }
    proof {
        assert(path@ != seq!['~']) by {
            if path@ == seq!['~'] {
                assert(path@.len() == 1);
            }
        }
    }
    if cs.len() >= 2 && cs[0] == '~' && cs[1] == '/' {
        if let Some(h) = home {
            let (_, rest) = split_at_char(path, 2);
            return join_path_text(h, rest);
        }
    }
    owned(path)
}

/// The word before the first white space, and the trimmed rest if it is not empty.
fn split_command(input: &str) -> (r: (&str, Option<&str>))
    ensures
        r.0@ == command_part(input@),
        match r.1 {
            Some(a) => argument_part(input@) == Some(a@),
            None => argument_part(input@) is None,
        },
{
    let cs = chars_of(input);
    let i = find_white(&cs, 0);
    proof {
        lemma_first_white(input@, 0);
    }
    if i >= cs.len() {
        proof {
            assert(input@.take(input@.len() as int) =~= input@);
        }
        return (input, None);
    }
    let command = substring(input, 0, i);
    let rest = substring(input, i + 1, cs.len());
    let arg = trim_str(rest);
    proof {
        assert(command@ =~= input@.take(i as int));
        assert(rest@ =~= input@.skip(i + 1));
    }
    let arg_chars = chars_of(arg);
    if arg_chars.len() == 0 {
        (command, None)
    } else {
        (command, Some(arg))
    }
}

impl MetaCommand {
    /// The meta command on a line of input, `Ok(None)` where the line is none, or the usage of
    /// the command where its argument is missing or not wanted. `home` is the home directory
    /// that a leading `~` of a path stands for.
    pub fn parse(input: &str, home: Option<&str>) -> (r: Result<Option<MetaCommand>, MetaCommandError>)
        ensures
            meta_result_view(r) == meta_command(input@, match home {
                Some(h) => Some(h@),
                None => None,
            }),
    {
        let (command, arg) = split_command(input);
        if same_text(command, ":quit") {
            reject_arg(":quit", arg)?;
            Ok(Some(MetaCommand::Quit))
        } else if same_text(command, ":rebuild") {
            reject_arg(":rebuild", arg)?;
            Ok(Some(MetaCommand::Rebuild))
        } else if same_text(command, ":load") {
            match arg {
                None => Err(MetaCommandError::Usage { usage: ":load <path>" }),
                Some(path) => Ok(Some(MetaCommand::Load(expand_path(unquote_path_arg(path), home)))),
            }
        } else {
            Ok(None)
        }
    }
}

/// Whether the interactive loop goes on after a line.
#[derive(Clone, Copy, Debug, PartialEq, Eq)]
pub enum ReplControl {
    Continue,
    Exit,
}

impl MetaCommand {
    /// Whether the loop goes on after the command: `:quit` and `:rebuild` end it (a rebuild
    /// runs the new build in its place), `:load` goes on.
    pub fn control_after(&self) -> (r: ReplControl)
        ensures
            r == (if *self is Load {
                ReplControl::Continue
            } else {
                ReplControl::Exit
            }),
    {
        match self {
            MetaCommand::Load(_) => ReplControl::Continue,
            _ => ReplControl::Exit,
        }
    }
}

impl MetaCommandError {
    /// The message of the error: `usage: ` and how the command is written.
    pub fn message(&self) -> (r: String)
        ensures
            r@ == "usage: "@ + self@,
    {
        match self {
            MetaCommandError::Usage { usage } => {
                let mut out = owned("usage: ");
                out.append(usage);
                out
            },
        }
    }
}

/// Refuses an argument to a command that takes none.
pub fn reject_arg(command: &'static str, arg: Option<&str>) -> (r: Result<(), MetaCommandError>)
    ensures
        arg is None <==> r is Ok,
        r is Err ==> r->Err_0@ == command@,
{
    if arg.is_some() {
        return Err(MetaCommandError::Usage { usage: command });
    }
    Ok(())
}

/// What the interactive loop does with a line of input.
#[derive(Debug, PartialEq, Eq)]
pub enum InputAction {
    /// The line is blank.
    Nothing,
    /// The line is a meta command.
    Meta(MetaCommand),
    /// The line starts with `:` but names no meta command.
    UnknownMeta,
    /// The line is a program to evaluate.
    Evaluate,
}

/// Model of an input action.
pub enum SpecAction {
    Nothing,
    Meta(SpecMeta),
    UnknownMeta,
    Evaluate,
}

impl View for InputAction {
    type V = SpecAction;

    open spec fn view(&self) -> SpecAction {
        match self {
            InputAction::Nothing => SpecAction::Nothing,
            InputAction::Meta(m) => SpecAction::Meta(m@),
            InputAction::UnknownMeta => SpecAction::UnknownMeta,
            InputAction::Evaluate => SpecAction::Evaluate,
        }
    }
}

/// What a line of input asks for, or the usage of a meta command given wrongly.
pub open spec fn input_action(s: Seq<char>, home: Option<Seq<char>>) -> Result<SpecAction, Seq<char>> {
    let t = trim(s);
    if t.len() == 0 {
        Ok(SpecAction::Nothing)
    } else {
        match meta_command(t, home) {
            Err(u) => Err(u),
            Ok(Some(m)) => Ok(SpecAction::Meta(m)),
            Ok(None) => if t[0] == ':' {
                Ok(SpecAction::UnknownMeta)
            } else {
                Ok(SpecAction::Evaluate)
            },
        }
    }
}

/// The model of what `classify_input` returns.
pub open spec fn action_result_view(r: Result<InputAction, MetaCommandError>) -> Result<
    SpecAction,
    Seq<char>,
> {
    match r {
        Ok(a) => Ok(a@),
        Err(e) => Err(e@),
    }
}

/// What the interactive loop does with a line: nothing for a blank line, the meta command
/// that the trimmed line names, a complaint for another line starting with `:`, and otherwise
/// an evaluation of the line.
pub fn classify_input(input: &str, home: Option<&str>) -> (r: Result<InputAction, MetaCommandError>)
    ensures
        action_result_view(r) == input_action(input@, match home {
            Some(h) => Some(h@),
            None => None,
        }),
{
    let trimmed = trim_str(input);
    let cs = chars_of(trimmed);
    if cs.len() == 0 {
        return Ok(InputAction::Nothing);
    }
    match MetaCommand::parse(trimmed, home) {
        Err(e) => Err(e),
        Ok(Some(m)) => Ok(InputAction::Meta(m)),
        Ok(None) => if cs[0] == ':' {
            Ok(InputAction::UnknownMeta)
        } else {
            Ok(InputAction::Evaluate)
        },
    }
}

/// Whether a line is an unfinished program: not blank, and its parse runs out of input.
/// Such a line is continued on the next line rather than evaluated.
pub fn line_is_incomplete(line: &str) -> (r: bool)
    requires
        !has_oversized_int(line),
    ensures
        r == (trim(line@).len() > 0 && parse_spec(line) is Err && parse_spec(line)->Err_0 is UnexpectedEnd),
{
    let t = trim_str(line);
    let cs = chars_of(t);
    if cs.len() == 0 {
        return false;
    }
    match parse(line) {
        Err(ParseError::UnexpectedEnd { .. }) => true,
        _ => false,
    }
}

/// Whether the loop goes on after a line that asks for `a`: only `:quit` and `:rebuild` end it.
pub open spec fn line_control(a: SpecAction) -> ReplControl {
    match a {
        SpecAction::Meta(m) => if m is Load {
            ReplControl::Continue
        } else {
            ReplControl::Exit
        },
        _ => ReplControl::Continue,
    }
}

impl InputAction {
    /// Whether the loop goes on after the line: a meta command decides, anything else goes on.
    pub fn control(&self) -> (r: ReplControl)
        ensures
            r == line_control(self@),
    {
        match self {
            InputAction::Meta(m) => m.control_after(),
            _ => ReplControl::Continue,
        }
    }
}

/// The index of the line at which the loop, reading `lines` from the `i`-th on, stops: the
/// first line that ends it or that gives a meta command wrongly (which ends the loop with an
/// error), or the number of lines where none does.
pub open spec fn session_end(lines: Seq<Seq<char>>, home: Option<Seq<char>>, i: int) -> int
    decreases lines.len() - i,
{
    if i < 0 || i >= lines.len() {
        lines.len() as int
    } else {
        match input_action(lines[i], home) {
            Err(_) => i,
            Ok(a) => if line_control(a) == ReplControl::Exit {
                i
            } else {
                session_end(lines, home, i + 1)
            },
        }
    }
}

/// A line that is `:quit` with white space around it quits.
pub proof fn lemma_quit_line(line: Seq<char>, home: Option<Seq<char>>)
    requires
        trim(line) == ":quit"@,
    ensures
        input_action(line, home) == Ok::<SpecAction, Seq<char>>(SpecAction::Meta(SpecMeta::Quit)),
{
    let t = trim(line);
    reveal_strlit(":quit");
    reveal_with_fuel(first_white, 6);
    assert(first_white(t, 0) == 5);
    assert(t.take(5) =~= t);
}

proof fn lemma_session_runs_to_quit(lines: Seq<Seq<char>>, home: Option<Seq<char>>, i: int)
    requires
        1 <= lines.len(),
        0 <= i <= lines.len() - 1,
        trim(lines.last()) == ":quit"@,
        forall|j: int|
            0 <= j < lines.len() - 1 ==> (#[trigger] input_action(lines[j], home) matches Ok(a)
                && !(a is Meta)),
    ensures
        session_end(lines, home, i) == lines.len() - 1,
    decreases lines.len() - i,
{
    if i < lines.len() - 1 {
        assert(input_action(lines[i], home) matches Ok(a) && !(a is Meta));
        lemma_session_runs_to_quit(lines, home, i + 1);
    } else {
        lemma_quit_line(lines[i], home);
    }
}

/// The loop reads lines that are blank, programs or unknown meta commands, each of which it
/// goes on after, up to a line that is `:quit`: there it stops, and reads no line after it.
pub proof fn law_quit_ends_the_session(lines: Seq<Seq<char>>, home: Option<Seq<char>>)
    requires
        1 <= lines.len(),
        trim(lines.last()) == ":quit"@,
        forall|j: int|
            0 <= j < lines.len() - 1 ==> (#[trigger] input_action(lines[j], home) matches Ok(a)
                && !(a is Meta)),
    ensures
        session_end(lines, home, 0) == lines.len() - 1,
        input_action(lines.last(), home) == Ok::<SpecAction, Seq<char>>(
            SpecAction::Meta(SpecMeta::Quit),
        ),
        forall|j: int|
            0 <= j < lines.len() - 1 ==> line_control(
                #[trigger] input_action(lines[j], home)->Ok_0,
            ) == ReplControl::Continue,
{
    lemma_session_runs_to_quit(lines, home, 0);
    lemma_quit_line(lines.last(), home);
}

} // verus!
