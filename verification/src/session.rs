//! What the shell does with one line of input.

use vstd::prelude::*;

use crate::parser::{final_words, lex, lex_start, parse_command, parse_spec, ParsedCommand};
use crate::history::History;
use crate::text::strip_suffix_char;

verus! {

/// `s` without one trailing `\n`, and then without one trailing `\r`.
pub open spec fn trim_line_ending_spec(s: Seq<char>) -> Seq<char> {
    let a = if s.len() > 0 && s.last() == '\n' {
        s.drop_last()
    } else {
        s
    };
    if a.len() > 0 && a.last() == '\r' {
        a.drop_last()
    } else {
        a
    }
}

/// Removes the line ending (`\n`, `\r\n` or a lone `\r`) from a line read
/// from the input, and nothing else.
pub fn trim_line_ending(input: &str) -> (line: &str)
    ensures
        line@ == trim_line_ending_spec(input@),
{
    let input = match strip_suffix_char(input, '\n') {
        Some(rest) => rest,
        None => input,
    };
    match strip_suffix_char(input, '\r') {
        Some(rest) => rest,
        None => input,
    }
}

/// What to do with one line.
#[derive(Debug, PartialEq, Eq)]
pub enum LinePlan {
    /// Nothing: the line has no command.
    Skip,
    /// Print this message on the error output and go on.
    ReportError(String),
    /// Run this command, built-in or program.
    Command(ParsedCommand),
}

/// A [`LinePlan`] with its strings taken by their characters.
pub enum LinePlanView {
    Skip,
    ReportError(Seq<char>),
    Command((Seq<char>, Seq<Seq<char>>)),
}

impl View for LinePlan {
    type V = LinePlanView;

    open spec fn view(&self) -> LinePlanView {
        match self {
            LinePlan::Skip => LinePlanView::Skip,
            LinePlan::ReportError(m) => LinePlanView::ReportError(m@),
            LinePlan::Command(c) => LinePlanView::Command(c@),
        }
    }
}

/// The plan for the line `line`: skip a line without a command, report a
/// parse error prefixed with `rush: `, or run the command.
pub open spec fn plan_spec(line: Seq<char>) -> LinePlanView {
    match parse_spec(line) {
        Err(message) => LinePlanView::ReportError("rush: "@ + message),
        Ok(None) => LinePlanView::Skip,
        Ok(Some(command)) => LinePlanView::Command(command),
    }
}

/// Decides what to do with one line typed at the prompt.
pub fn plan_line(line: &str) -> (plan: LinePlan)
    ensures
        plan@ == plan_spec(line@),
{
    match parse_command(line) {
        Err(message) => {
            let mut text = "rush: ".to_owned();
            text.append(message);
            LinePlan::ReportError(text)
        },
        Ok(None) => LinePlan::Skip,
        Ok(Some(command)) => LinePlan::Command(command),
    }
}

/// Decides what to do with one line read from piped input, line ending
/// included: the line without its ending is planned as a typed one (a line
/// left empty has no command).
pub fn plan_input_line(input: &str) -> (plan: LinePlan)
    ensures
        plan@ == plan_spec(trim_line_ending_spec(input@)),
{
    let line = trim_line_ending(input);
    if line.is_empty() {
        proof {
            lemma_empty_line_is_skipped(line@);
        }
        return LinePlan::Skip;
    }
    plan_line(line)
}

/// Records a line entered at the prompt in `history` and decides what to
/// do with it (an empty line is recorded as nothing and runs nothing).
pub fn enter_line(history: &mut History, line: &str) -> (plan: LinePlan)
    ensures
        final(history)@ == old(history)@.add(line@),
        final(history)@.valid(),
        plan@ == plan_spec(line@),
{
    history.add(line);
    plan_line(line)
}

/// A line without characters has no command.
proof fn lemma_empty_line_is_skipped(line: Seq<char>)
    requires
        line.len() == 0,
    ensures
        plan_spec(line) == LinePlanView::Skip,
{
    assert(lex(line) == lex_start());
    assert(final_words(lex_start()) =~= seq![]);
}

} // verus!
