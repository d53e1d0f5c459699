use rush::{
    builtin_for, execution_result, help_lines, plan_input_line, plan_line, Builtin,
    ExecutionResult, LinePlan, ParsedCommand,
};

/// Feeds `input` line by line to the shell's decisions, as the piped mode
/// does, and collects what the built-ins and the error reports print.
fn run_piped(input: &str) -> (String, String) {
    let mut stdout = String::new();
    let mut stderr = String::new();
    for raw in input.split_inclusive('\n') {
        let command = match plan_input_line(raw) {
            LinePlan::Skip => continue,
            LinePlan::ReportError(message) => {
                stderr.push_str(&message);
                stderr.push('\n');
                continue;
            }
            LinePlan::Command(command) => command,
        };
        match builtin_for(&command) {
            Some(Builtin::Exit) => break,
            Some(Builtin::Echo(text)) => {
                stdout.push_str(&text);
                stdout.push('\n');
            }
            Some(Builtin::Help) => {
                for help in help_lines() {
                    stdout.push_str(help);
                    stdout.push('\n');
                }
            }
            other => panic!("unexpected command in this script: {other:?}"),
        }
    }
    (stdout, stderr)
}

#[test]
fn exit_alias_terminates_shell() {
    let (stdout, stderr) = run_piped("echo before exit\nexit\necho after exit\n");

    assert_eq!(stdout, "before exit\n");
    assert!(stderr.is_empty());
}

#[test]
fn piped_mode_emits_only_command_output() {
    let (stdout, stderr) = run_piped("echo clean output\n");

    assert_eq!(stdout, "clean output\n");
    assert!(stderr.is_empty());
    assert!(!stdout.contains("rush -"));
    assert!(!stdout.contains("> "));
}

#[test]
fn commands_preserves_empty_quoted_arguments() {
    let (stdout, stderr) = run_piped("echo before \"\" '' after\nexit\n");

    assert_eq!(stdout, "before   after\n");
    assert!(stderr.is_empty());
}

#[test]
fn preserves_an_escaped_trailing_space() {
    let (stdout, stderr) = run_piped("echo trailing\\ \nexit\n");

    assert_eq!(stdout, "trailing \n");
    assert!(stderr.is_empty());
}

#[test]
fn reports_a_parse_error_and_continues() {
    let (stdout, stderr) = run_piped("echo \"unfinished\necho recovered\nexit\n");

    assert_eq!(stdout, "recovered\n");
    assert_eq!(stderr, "rush: unterminated quote or escape\n");
}

#[test]
fn help_lists_the_built_ins() {
    let (stdout, _) = run_piped("help\nquit\n");
    assert_eq!(
        stdout,
        "Built-ins:\n\
         \x20 cd [DIR]  change directory (defaults to your home directory)\n\
         \x20 echo ...  print arguments\n\
         \x20 exit      leave rush\n\
         \x20 help      show this message\n\
         \x20 pwd       print the working directory\n"
    );
}

fn command(program: &str, args: &[&str]) -> ParsedCommand {
    ParsedCommand {
        program: program.into(),
        args: args.iter().map(|a| a.to_string()).collect(),
    }
}

#[test]
fn plans_every_kind_of_line() {
    assert_eq!(plan_line("   "), LinePlan::Skip);
    assert_eq!(plan_line("ls -a"), LinePlan::Command(command("ls", &["-a"])));
    assert_eq!(
        plan_line("echo 'x"),
        LinePlan::ReportError("rush: unterminated quote or escape".into())
    );
    assert_eq!(plan_input_line("\r\n"), LinePlan::Skip);
    assert_eq!(plan_input_line("pwd\r\n"), LinePlan::Command(command("pwd", &[])));
    assert_eq!(
        plan_input_line("echo a\\\n"),
        LinePlan::ReportError("rush: unterminated quote or escape".into())
    );
}

#[test]
fn classifies_every_built_in() {
    assert_eq!(builtin_for(&command("cd", &[])), Some(Builtin::ChangeDirectory(None)));
    assert_eq!(
        builtin_for(&command("cd", &["/tmp", "extra"])),
        Some(Builtin::ChangeDirectory(Some("/tmp".into())))
    );
    assert_eq!(builtin_for(&command("pwd", &[])), Some(Builtin::PrintWorkingDirectory));
    assert_eq!(builtin_for(&command("exit", &["now"])), Some(Builtin::Exit));
    assert_eq!(builtin_for(&command("quit", &[])), Some(Builtin::Exit));
    assert_eq!(builtin_for(&command("help", &[])), Some(Builtin::Help));
    assert_eq!(builtin_for(&command("echo", &[])), Some(Builtin::Echo("".into())));
    assert_eq!(builtin_for(&command("ls", &["-a"])), None);
    assert_eq!(builtin_for(&command("Echo", &[])), None);
}

#[test]
fn execution_results_follow_the_built_in() {
    assert_eq!(execution_result(&Some(Builtin::Exit)), ExecutionResult::Exit);
    assert_eq!(execution_result(&Some(Builtin::Help)), ExecutionResult::Handled);
    assert_eq!(execution_result(&None), ExecutionResult::NotBuiltin);
}

#[test]
fn echo_joins_arguments_with_single_spaces() {
    let args: Vec<String> = vec!["a".into(), "".into(), "b c".into()];
    assert_eq!(rush::echo_text(&args), "a  b c");
    assert_eq!(rush::echo_text(&Vec::new()), "");
}

#[test]
fn entered_lines_are_recorded_and_planned() {
    let mut history = rush::History::new();
    assert_eq!(rush::enter_line(&mut history, ""), LinePlan::Skip);
    assert_eq!(
        rush::enter_line(&mut history, "ls -a"),
        LinePlan::Command(command("ls", &["-a"]))
    );
    assert_eq!(history.previous(""), "ls -a");
    assert_eq!(history.previous("ls -a"), "ls -a");
}
