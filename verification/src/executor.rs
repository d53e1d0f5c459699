//! What the built-in commands do, decided from a parsed command.  Carrying
//! the decision out (changing directory, printing) is left to the caller.

use vstd::prelude::*;

use crate::parser::{join_words, strings_view, ParsedCommand};

verus! {

/// How a command was dealt with.
#[derive(Debug, Clone, Copy, PartialEq, Eq)]
pub enum ExecutionResult {
    /// A built-in command ran.
    Handled,
    /// The shell should stop.
    Exit,
    /// The command is not a built-in and has to be started as a program.
    NotBuiltin,
}

/// A built-in command and what it needs.
#[derive(Debug, PartialEq, Eq)]
pub enum Builtin {
    /// `cd`: change to the given directory, or to the home directory.
    ChangeDirectory(Option<String>),
    /// `exit` or `quit`.
    Exit,
    /// `help`: print the list of built-ins.
    Help,
    /// `pwd`: print the working directory.
    PrintWorkingDirectory,
    /// `echo`: print this text.
    Echo(String),
}

/// A [`Builtin`] with its strings taken by their characters.
pub enum BuiltinView {
    ChangeDirectory(Option<Seq<char>>),
    Exit,
    Help,
    PrintWorkingDirectory,
    Echo(Seq<char>),
}

impl View for Builtin {
    type V = BuiltinView;

    open spec fn view(&self) -> BuiltinView {
        match self {
            Builtin::ChangeDirectory(Some(d)) => BuiltinView::ChangeDirectory(Some(d@)),
            Builtin::ChangeDirectory(None) => BuiltinView::ChangeDirectory(None),
            Builtin::Exit => BuiltinView::Exit,
            Builtin::Help => BuiltinView::Help,
            Builtin::PrintWorkingDirectory => BuiltinView::PrintWorkingDirectory,
            Builtin::Echo(t) => BuiltinView::Echo(t@),
        }
    }
}

/// The built-in that a program name with its arguments stands for.
pub open spec fn builtin_spec(program: Seq<char>, args: Seq<Seq<char>>) -> Option<BuiltinView> {
    if program == "cd"@ {
        Some(BuiltinView::ChangeDirectory(if args.len() > 0 { Some(args[0]) } else { None }))
    } else if program == "exit"@ || program == "quit"@ {
        Some(BuiltinView::Exit)
    } else if program == "help"@ {
        Some(BuiltinView::Help)
    } else if program == "pwd"@ {
        Some(BuiltinView::PrintWorkingDirectory)
    } else if program == "echo"@ {
        Some(BuiltinView::Echo(join_words(args, ' ')))
    } else {
        None
    }
}


/// Law: whether a command is a built-in, and which one, depends on its
/// program name only; the arguments matter only for what `cd` and `echo`
/// are given.
pub proof fn law_builtin_chosen_by_name(
    program: Seq<char>,
    args1: Seq<Seq<char>>,
    args2: Seq<Seq<char>>,
)
    ensures
        builtin_spec(program, args1) is Some <==> builtin_spec(program, args2) is Some,
        builtin_spec(program, args1) matches Some(b1) ==> (builtin_spec(program, args2) matches Some(b2) && (
            (b1 is ChangeDirectory <==> b2 is ChangeDirectory)
            && (b1 is Exit <==> b2 is Exit)
            && (b1 is Help <==> b2 is Help)
            && (b1 is PrintWorkingDirectory <==> b2 is PrintWorkingDirectory)
            && (b1 is Echo <==> b2 is Echo)
        )),
{
}

/// Law: `help`, `pwd`, `exit` and `quit` are built-ins whatever their
/// arguments; `cd` goes to its first argument, or home without one; `echo`
/// prints its arguments joined by single spaces.
pub proof fn law_builtins_for_any_arguments(args: Seq<Seq<char>>)
    ensures
        builtin_spec("help"@, args) == Some(BuiltinView::Help),
        builtin_spec("pwd"@, args) == Some(BuiltinView::PrintWorkingDirectory),
        builtin_spec("exit"@, args) == Some(BuiltinView::Exit),
        builtin_spec("quit"@, args) == Some(BuiltinView::Exit),
        builtin_spec("cd"@, args) == Some(
            BuiltinView::ChangeDirectory(if args.len() > 0 { Some(args[0]) } else { None }),
        ),
        builtin_spec("echo"@, args) == Some(BuiltinView::Echo(join_words(args, ' '))),
{
    reveal_strlit("help");
    reveal_strlit("pwd");
    reveal_strlit("exit");
    reveal_strlit("quit");
    reveal_strlit("cd");
    reveal_strlit("echo");
    assert("help"@[0] != "exit"@[0] && "help"@[0] != "quit"@[0]);
    assert("echo"@[1] != "exit"@[1] && "echo"@[0] != "quit"@[0] && "echo"@[0] != "help"@[0]);
    assert("exit"@ != "cd"@);
    assert("quit"@ != "cd"@ && "quit"@ != "exit"@);
    assert("pwd"@.len() == 3 && "cd"@.len() == 2 && "exit"@.len() == 4);
    assert("pwd"@ != "cd"@);
    assert("pwd"@ != "exit"@ && "pwd"@ != "quit"@ && "pwd"@ != "help"@);
    assert("help"@ != "cd"@);
    assert("echo"@ != "cd"@ && "echo"@ != "pwd"@);
}

/// The value of an optional built-in, taken by its view.
pub open spec fn builtin_option_view(b: Option<Builtin>) -> Option<BuiltinView> {
    match b {
        Some(b) => Some(b@),
        None => None,
    }
}

/// Whether `program` is exactly `name`.
fn is_named(program: &String, name: &str) -> (r: bool)
    ensures
        r == (program@ == name@),
{
    let owned = name.to_owned();
    program.eq(&owned)
}

/// The text that `echo` prints for these arguments: the arguments joined
/// by single spaces.
pub fn echo_text(args: &Vec<String>) -> (text: String)
    ensures
        text@ == join_words(strings_view(args@), ' '),
{
    let ghost words = strings_view(args@);
    let mut text = String::new();
    let mut i: usize = 0;
    while i < args.len()
        invariant
            i <= args.len(),
            words == strings_view(args@),
            text@ == join_words(words.take(i as int), ' '),
        decreases args.len() - i,
    {
        assert(words.take(i + 1).drop_last() =~= words.take(i as int));
        if i > 0 {
            text.append(" ");
            assert(" "@ =~= seq![' ']) by {
                reveal_strlit(" ");
            }
        } else {
            assert(text@ =~= seq![]);
        }
        text.append(args[i].as_str());
        i = i + 1;
    }
    assert(words.take(args.len() as int) =~= words);
    text
}

/// The built-in that `command` asks for, or `None` when it names a program
/// to start.
pub fn builtin_for(command: &ParsedCommand) -> (r: Option<Builtin>)
    ensures
        builtin_option_view(r) == builtin_spec(command@.0, command@.1),
{
    let program = &command.program;
    if is_named(program, "cd") {
        if command.args.len() > 0 {
            Some(Builtin::ChangeDirectory(Some(command.args[0].clone())))
        } else {
            Some(Builtin::ChangeDirectory(None))
        }
    } else if is_named(program, "exit") || is_named(program, "quit") {
        Some(Builtin::Exit)
    } else if is_named(program, "help") {
        Some(Builtin::Help)
    } else if is_named(program, "pwd") {
        Some(Builtin::PrintWorkingDirectory)
    } else if is_named(program, "echo") {
        Some(Builtin::Echo(echo_text(&command.args)))
    } else {
        None
    }
}

/// How a command ends up once its built-in, if any, has run.
pub fn execution_result(builtin: &Option<Builtin>) -> (r: ExecutionResult)
    ensures
        r == match builtin {
            Some(Builtin::Exit) => ExecutionResult::Exit,
            Some(_) => ExecutionResult::Handled,
            None => ExecutionResult::NotBuiltin,
        },
{
    match builtin {
        Some(Builtin::Exit) => ExecutionResult::Exit,
        Some(_) => ExecutionResult::Handled,
        None => ExecutionResult::NotBuiltin,
    }
}

/// The lines that `help` prints.
pub fn help_lines() -> (lines: Vec<&'static str>)
    ensures
        lines@.len() == 6,
        lines@[0]@ == "Built-ins:"@,
        lines@[1]@ == "  cd [DIR]  change directory (defaults to your home directory)"@,
        lines@[2]@ == "  echo ...  print arguments"@,
        lines@[3]@ == "  exit      leave rush"@,
        lines@[4]@ == "  help      show this message"@,
        lines@[5]@ == "  pwd       print the working directory"@,
{
    let mut lines: Vec<&'static str> = Vec::new();
    lines.push("Built-ins:");
    lines.push("  cd [DIR]  change directory (defaults to your home directory)");
    lines.push("  echo ...  print arguments");
    lines.push("  exit      leave rush");
    lines.push("  help      show this message");
    lines.push("  pwd       print the working directory");
    lines
}

} // verus!
