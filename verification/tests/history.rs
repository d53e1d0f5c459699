use rush::History;

#[test]
fn navigates_back_and_forward_and_restores_draft() {
    let mut history = History::new();
    history.add("first");
    history.add("second");

    assert_eq!(history.previous("draft"), "second");
    assert_eq!(history.previous("second"), "first");
    assert_eq!(history.previous("first"), "first");
    assert_eq!(history.next("first"), "second");
    assert_eq!(history.next("second"), "draft");
}

#[test]
fn skips_consecutive_duplicate_commands() {
    let mut history = History::new();
    history.add("same");
    history.add("same");

    assert_eq!(history.previous(""), "same");
    assert_eq!(history.previous("same"), "same");
}

#[test]
fn empty_history_keeps_the_line() {
    let mut history = History::new();
    assert_eq!(history.previous("typed"), "typed");
    assert_eq!(history.next("typed"), "typed");
}

#[test]
fn empty_commands_are_not_stored() {
    let mut history = History::new();
    history.add("");
    assert_eq!(history.previous("x"), "x");
}

#[test]
fn non_consecutive_duplicates_are_stored() {
    let mut history = History::new();
    history.add("a");
    history.add("b");
    history.add("a");
    assert_eq!(history.previous(""), "a");
    assert_eq!(history.previous("a"), "b");
    assert_eq!(history.previous("b"), "a");
}

#[test]
fn up_then_down_restores_the_line_for_any_count() {
    for n in 0..6 {
        let mut history = History::new();
        history.add("one");
        history.add("two");
        history.add("three");
        let mut line = String::from("draft");
        for _ in 0..n {
            line = history.previous(&line);
        }
        for _ in 0..n {
            line = history.next(&line);
        }
        assert_eq!(line, "draft", "after {n} presses each way");
    }
}

#[test]
fn adding_resets_navigation() {
    let mut history = History::new();
    history.add("one");
    history.add("two");
    assert_eq!(history.previous("draft"), "two");
    history.add("three");
    assert_eq!(history.next("now"), "now");
    assert_eq!(history.previous("now"), "three");
}

#[test]
fn reset_forgets_the_draft() {
    let mut history = History::new();
    history.add("one");
    assert_eq!(history.previous("draft"), "one");
    history.reset();
    assert_eq!(history.next("line"), "line");
}

#[test]
fn default_is_an_empty_history() {
    let mut history = History::default();
    assert_eq!(history.previous("typed"), "typed");
}

#[test]
fn up_and_down_restore_the_draft_whatever_lines_they_are_given() {
    let mut history = History::new();
    history.add("one");
    history.add("two");
    history.add("three");
    assert_eq!(history.previous("draft"), "three");
    assert_eq!(history.previous("ignored"), "two");
    assert_eq!(history.previous("also ignored"), "one");
    assert_eq!(history.next("x"), "two");
    assert_eq!(history.next("y"), "three");
    assert_eq!(history.next("z"), "draft");
    assert_eq!(history.next("after"), "after");
}
