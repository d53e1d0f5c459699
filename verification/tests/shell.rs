use crossterm::event::KeyModifiers;
use rush::{
    read_interactive_line_from, redraw_text, should_process_key_event, trim_line_ending, Event,
    History, KeyCode, KeyEvent, KeyEventKind, MODIFIER_CONTROL, MODIFIER_NONE, MODIFIER_SHIFT,
};

const DIRECTORY: &str = "/home/user";

fn read_line(events: Vec<Event>, history: &mut History) -> (Option<String>, String) {
    let (line, output) = read_interactive_line_from(history, true, DIRECTORY, &events);
    (line.expect("test ran out of events"), output)
}

fn key(code: KeyCode) -> Event {
    Event::Key(KeyEvent::new(code, MODIFIER_NONE))
}

fn control(character: char) -> Event {
    Event::Key(KeyEvent::new(KeyCode::Char(character), MODIFIER_CONTROL))
}

#[test]
fn ignores_key_release_events() {
    let press = KeyEvent::new(KeyCode::Char('a'), MODIFIER_NONE);
    let release = KeyEvent::new_with_kind(KeyCode::Char('a'), MODIFIER_NONE, KeyEventKind::Release);

    assert!(should_process_key_event(press.kind));
    assert!(!should_process_key_event(release.kind));
}

#[test]
fn processes_key_repeat_events() {
    assert!(should_process_key_event(KeyEventKind::Repeat));
}

#[test]
fn reads_characters_and_applies_backspace() {
    let events = vec![
        key(KeyCode::Char('a')),
        key(KeyCode::Char('b')),
        key(KeyCode::Backspace),
        key(KeyCode::Char('c')),
        key(KeyCode::Enter),
    ];

    let (line, output) = read_line(events, &mut History::new());

    assert_eq!(line.as_deref(), Some("ac"));
    assert!(output.ends_with("ac\r\n"));
}

#[test]
fn navigates_history_and_restores_draft() {
    let mut history = History::new();
    history.add("first");
    history.add("second");
    let events = vec![
        key(KeyCode::Char('d')),
        key(KeyCode::Up),
        key(KeyCode::Up),
        key(KeyCode::Down),
        key(KeyCode::Down),
        key(KeyCode::Enter),
    ];

    let (line, _) = read_line(events, &mut history);

    assert_eq!(line.as_deref(), Some("d"));
}

#[test]
fn control_c_cancels_the_current_line() {
    let events = vec![key(KeyCode::Char('x')), control('c')];

    let (line, output) = read_line(events, &mut History::new());

    assert_eq!(line.as_deref(), Some(""));
    assert!(output.ends_with("^C\r\n"));
}

#[test]
fn control_d_exits_only_on_an_empty_line() {
    let (line, _) = read_line(vec![control('d')], &mut History::new());
    assert_eq!(line, None);

    let events = vec![key(KeyCode::Char('x')), control('d'), key(KeyCode::Enter)];
    let (line, _) = read_line(events, &mut History::new());
    assert_eq!(line.as_deref(), Some("x"));
}

#[test]
fn strips_only_the_line_ending() {
    assert_eq!(trim_line_ending("echo value\n"), "echo value");
    assert_eq!(trim_line_ending("echo value\r\n"), "echo value");
    assert_eq!(trim_line_ending("echo value "), "echo value ");
    assert_eq!(trim_line_ending("echo value\r"), "echo value");
}

#[test]
fn strips_a_single_line_ending_only() {
    assert_eq!(trim_line_ending("a\n\n"), "a\n");
    assert_eq!(trim_line_ending("a\n\r"), "a\n");
    assert_eq!(trim_line_ending(""), "");
    assert_eq!(trim_line_ending("\r\n"), "");
}

#[test]
fn redraw_moves_to_column_one_clears_and_writes_the_prompt() {
    assert_eq!(
        redraw_text(true, "/tmp", "ls -l"),
        "\u{1b}[1G\u{1b}[2Krush /tmp> ls -l"
    );
    assert_eq!(redraw_text(false, "/tmp", "ls -l"), "rush /tmp> ls -l");
    assert_eq!(rush::prompt_text("/home/user"), "rush /home/user> ");
}

#[test]
fn output_records_echo_and_redraws() {
    let events = vec![
        key(KeyCode::Char('a')),
        key(KeyCode::Backspace),
        key(KeyCode::Enter),
    ];
    let (line, output) = read_line(events, &mut History::new());
    assert_eq!(line.as_deref(), Some(""));
    assert_eq!(output, "a\u{1b}[1G\u{1b}[2Krush /home/user> \r\n");
}

#[test]
fn shifted_characters_are_typed_and_other_modifiers_ignored() {
    let events = vec![
        Event::Key(KeyEvent::new(KeyCode::Char('A'), MODIFIER_SHIFT)),
        Event::Key(KeyEvent::new(KeyCode::Char('b'), MODIFIER_CONTROL)),
        Event::Key(KeyEvent::new(KeyCode::Char('c'), 0b100)),
        Event::Other,
        Event::Key(KeyEvent::new_with_kind(
            KeyCode::Char('z'),
            MODIFIER_NONE,
            KeyEventKind::Release,
        )),
        key(KeyCode::Other),
        key(KeyCode::Enter),
    ];
    let (line, output) = read_line(events, &mut History::new());
    assert_eq!(line.as_deref(), Some("A"));
    assert_eq!(output, "A\r\n");
}

#[test]
fn running_out_of_events_is_reported() {
    let events = vec![key(KeyCode::Char('q'))];
    let (line, output) = read_interactive_line_from(&mut History::new(), true, DIRECTORY, &events);
    assert_eq!(line, Err(rush::EventsExhausted));
    assert_eq!(output, "q");
}

#[test]
fn modifier_bits_match_crossterm() {
    assert_eq!(KeyModifiers::NONE.bits(), MODIFIER_NONE);
    assert_eq!(KeyModifiers::SHIFT.bits(), MODIFIER_SHIFT);
    assert_eq!(KeyModifiers::CONTROL.bits(), MODIFIER_CONTROL);
}

#[test]
fn line_editor_steps() {
    let mut history = History::new();
    history.add("older");
    let mut editor = rush::LineEditor::new();
    assert_eq!(
        editor.handle_event(&mut history, &key(KeyCode::Char('x'))),
        rush::EditAction::Write("x".into())
    );
    assert_eq!(
        editor.handle_event(&mut history, &key(KeyCode::Up)),
        rush::EditAction::Redraw
    );
    assert_eq!(editor.line(), "older");
    assert_eq!(
        editor.handle_event(&mut history, &key(KeyCode::Down)),
        rush::EditAction::Redraw
    );
    assert_eq!(editor.line(), "x");
    assert_eq!(
        editor.handle_event(&mut history, &key(KeyCode::Enter)),
        rush::EditAction::Finish("\r\n".into(), Some("x".into()))
    );
}

#[test]
fn inserted_releases_and_other_events_change_nothing() {
    let mut history = History::new();
    history.add("older");
    let plain = vec![
        key(KeyCode::Char('a')),
        key(KeyCode::Up),
        key(KeyCode::Down),
        key(KeyCode::Backspace),
        key(KeyCode::Char('b')),
        key(KeyCode::Enter),
    ];
    let release = Event::Key(KeyEvent::new_with_kind(
        KeyCode::Enter,
        MODIFIER_NONE,
        KeyEventKind::Release,
    ));
    let mut busy = Vec::new();
    for event in &plain {
        busy.push(Event::Other);
        busy.push(release);
        busy.push(*event);
    }
    let mut other_history = History::new();
    other_history.add("older");
    let expected = read_line(plain, &mut history);
    assert_eq!(expected.0.as_deref(), Some("b"));
    assert_eq!(read_line(busy, &mut other_history), expected);
}

#[test]
fn consoles_without_ansi_get_no_escape_sequences() {
    let events = vec![
        key(KeyCode::Char('a')),
        key(KeyCode::Backspace),
        key(KeyCode::Enter),
    ];
    let (line, output) = read_interactive_line_from(&mut History::new(), false, DIRECTORY, &events);
    assert_eq!(line, Ok(Some(String::new())));
    assert_eq!(output, "arush /home/user> \r\n");
}
