//! The interactive line editor: how each key changes the line being typed
//! and the history, and what has to be written back to the terminal.

use vstd::prelude::*;

use crate::history::{law_up_then_down_restores_line, walk_down, walk_up, History, HistoryView};
use crate::terminal::{redraw_spec, redraw_text};

verus! {

/// No modifier key held.
pub const MODIFIER_NONE: u8 = 0;

/// The Shift bit of a modifier set (the bit crossterm's
/// `KeyModifiers::SHIFT` uses).
pub const MODIFIER_SHIFT: u8 = 1;

/// The Control bit of a modifier set (the bit crossterm's
/// `KeyModifiers::CONTROL` uses).
pub const MODIFIER_CONTROL: u8 = 2;

/// The keys the editor tells apart.
#[derive(Debug, Clone, Copy, PartialEq, Eq, Structural)]
pub enum KeyCode {
    Enter,
    Backspace,
    Up,
    Down,
    Char(char),
    /// Any other key.
    Other,
}

/// Whether a key went down, repeats, or went up.
#[derive(Debug, Clone, Copy, PartialEq, Eq)]
pub enum KeyEventKind {
    Press,
    Repeat,
    Release,
}

/// One key event: the key, the set of modifier bits held, and its kind.
#[derive(Debug, Clone, Copy, PartialEq, Eq)]
pub struct KeyEvent {
    pub code: KeyCode,
    pub modifiers: u8,
    pub kind: KeyEventKind,
}

impl KeyEvent {
    /// A key press.
    pub fn new(code: KeyCode, modifiers: u8) -> (e: KeyEvent)
        ensures
            e == (KeyEvent { code, modifiers, kind: KeyEventKind::Press }),
    {
        KeyEvent { code, modifiers, kind: KeyEventKind::Press }
    }

    /// A key event of the given kind.
    pub fn new_with_kind(code: KeyCode, modifiers: u8, kind: KeyEventKind) -> (e: KeyEvent)
        ensures
            e == (KeyEvent { code, modifiers, kind }),
    {
        KeyEvent { code, modifiers, kind }
    }
}

/// A terminal event: a key, or anything else (resizing, the mouse, ...).
#[derive(Debug, Clone, Copy, PartialEq, Eq)]
pub enum Event {
    Key(KeyEvent),
    Other,
}

/// What the caller has to do after one event.
#[derive(Debug, PartialEq, Eq)]
pub enum EditAction {
    /// Nothing.
    Ignore,
    /// Write this text and flush.
    Write(String),
    /// Redraw the prompt and the edited line.
    Redraw,
    /// Write this text, flush, and stop: the line entered, or `None` at the
    /// end of input.
    Finish(String, Option<String>),
}

/// An [`EditAction`] with its strings taken by their characters.
pub enum EditActionView {
    Ignore,
    Write(Seq<char>),
    Redraw,
    Finish(Seq<char>, Option<Seq<char>>),
}

impl View for EditAction {
    type V = EditActionView;

    open spec fn view(&self) -> EditActionView {
        match self {
            EditAction::Ignore => EditActionView::Ignore,
            EditAction::Write(t) => EditActionView::Write(t@),
            EditAction::Redraw => EditActionView::Redraw,
            EditAction::Finish(t, Some(l)) => EditActionView::Finish(t@, Some(l@)),
            EditAction::Finish(t, None) => EditActionView::Finish(t@, None),
        }
    }
}

/// Whether a key event of this kind is acted upon: presses and repeats
/// are, releases are not.
pub open spec fn processes_kind(kind: KeyEventKind) -> bool {
    kind is Press || kind is Repeat
}

/// The effect of one event on the line `line` and the history `h`: the new
/// line, the new history and the action.
pub open spec fn edit_step(line: Seq<char>, h: HistoryView, event: Event) -> (
    Seq<char>,
    HistoryView,
    EditActionView,
) {
    match event {
        Event::Other => (line, h, EditActionView::Ignore),
        Event::Key(key) => if !processes_kind(key.kind) {
            (line, h, EditActionView::Ignore)
        } else if key.code is Enter {
            (line, h, EditActionView::Finish("\r\n"@, Some(line)))
        } else if key.code == KeyCode::Char('d') && key.modifiers == MODIFIER_CONTROL
            && line.len() == 0 {
            (line, h, EditActionView::Finish("\r\n"@, None))
        } else if key.code == KeyCode::Char('c') && key.modifiers == MODIFIER_CONTROL {
            (line, h, EditActionView::Finish("^C\r\n"@, Some(seq![])))
        } else if key.code is Backspace {
            (if line.len() > 0 { line.drop_last() } else { line }, h, EditActionView::Redraw)
        } else if key.code is Up {
            let (h2, shown) = h.previous(line);
            (shown, h2, EditActionView::Redraw)
        } else if key.code is Down {
            let (h2, shown) = h.next(line);
            (shown, h2, EditActionView::Redraw)
        } else if key.code is Char && (key.modifiers == MODIFIER_NONE || key.modifiers
            == MODIFIER_SHIFT) {
            let c = key.code->Char_0;
            (line.push(c), h, EditActionView::Write(seq![c]))
        } else {
            (line, h, EditActionView::Ignore)
        },
    }
}


/// The line and the history after acting on all of `events` in turn,
/// whatever each one asks to be written.
pub open spec fn apply_events(line: Seq<char>, h: HistoryView, events: Seq<Event>) -> (
    Seq<char>,
    HistoryView,
)
    decreases events.len(),
{
    if events.len() == 0 {
        (line, h)
    } else {
        let (line2, h2, _) = edit_step(line, h, events[0]);
        apply_events(line2, h2, events.drop_first())
    }
}

/// `n` presses of the key `code` without modifiers.
pub open spec fn presses(code: KeyCode, n: nat) -> Seq<Event> {
    Seq::new(n, |i: int| Event::Key(KeyEvent { code, modifiers: MODIFIER_NONE, kind: KeyEventKind::Press }))
}

/// Acting on `a` and then on `b` is acting on both.
proof fn lemma_apply_events_append(line: Seq<char>, h: HistoryView, a: Seq<Event>, b: Seq<Event>)
    ensures
        apply_events(line, h, a + b) == ({
            let (line2, h2) = apply_events(line, h, a);
            apply_events(line2, h2, b)
        }),
    decreases a.len(),
{
    if a.len() == 0 {
        assert(a + b =~= b);
    } else {
        let (line2, h2, _) = edit_step(line, h, a[0]);
        assert((a + b).drop_first() =~= a.drop_first() + b);
        assert((a + b)[0] == a[0]);
        lemma_apply_events_append(line2, h2, a.drop_first(), b);
    }
}

/// Up presses move through the history as `walk_up` does.
proof fn lemma_up_presses(line: Seq<char>, h: HistoryView, n: nat)
    ensures
        apply_events(line, h, presses(KeyCode::Up, n)) == ({
            let (h2, line2) = walk_up(h, line, n);
            (line2, h2)
        }),
    decreases n,
{
    if n > 0 {
        let (h1, shown) = h.previous(line);
        assert(presses(KeyCode::Up, n).drop_first() =~= presses(KeyCode::Up, (n - 1) as nat));
        lemma_up_presses(shown, h1, (n - 1) as nat);
    }
}

/// Down presses move through the history as `walk_down` does.
proof fn lemma_down_presses(line: Seq<char>, h: HistoryView, n: nat)
    ensures
        apply_events(line, h, presses(KeyCode::Down, n)) == ({
            let (h2, line2) = walk_down(h, line, n);
            (line2, h2)
        }),
    decreases n,
{
    if n > 0 {
        let (h1, shown) = h.next(line);
        assert(presses(KeyCode::Down, n).drop_first() =~= presses(KeyCode::Down, (n - 1) as nat));
        lemma_down_presses(shown, h1, (n - 1) as nat);
    }
}

/// Law: while editing a line with history navigation not under way,
/// pressing Up `n` times and then Down `n` times puts the line being typed
/// back on the prompt.
pub proof fn law_editor_up_then_down_restores_line(line: Seq<char>, h: HistoryView, n: nat)
    requires
        h.valid(),
        h.position is None,
    ensures
        apply_events(line, h, presses(KeyCode::Up, n) + presses(KeyCode::Down, n)).0 == line,
{
    lemma_apply_events_append(line, h, presses(KeyCode::Up, n), presses(KeyCode::Down, n));
    lemma_up_presses(line, h, n);
    let (h2, line2) = walk_up(h, line, n);
    lemma_down_presses(line2, h2, n);
    law_up_then_down_restores_line(h, line, n);
}


/// A press of Enter.
pub open spec fn enter_press() -> Event {
    Event::Key(KeyEvent { code: KeyCode::Enter, modifiers: MODIFIER_NONE, kind: KeyEventKind::Press })
}

/// Law: when Backspace, Up or Down redraws the line, what is drawn after
/// the prompt is exactly the line that Enter would then give.
pub proof fn law_redraw_shows_the_line_enter_gives(
    ansi: bool,
    line: Seq<char>,
    h: HistoryView,
    directory: Seq<char>,
    key: KeyEvent,
)
    requires
        processes_kind(key.kind),
        key.code is Backspace || key.code is Up || key.code is Down,
    ensures
        ({
            let (_, entered, _) = read_events(
                ansi,
                line,
                h,
                directory,
                seq![Event::Key(key), enter_press()],
            );
            let (_, _, shown) = read_events(ansi, line, h, directory, seq![Event::Key(key)]);
            entered matches Ok(Some(l)) && shown == redraw_spec(ansi, directory, l)
        }),
{
    let both = seq![Event::Key(key), enter_press()];
    let one = seq![Event::Key(key)];
    assert(both.drop_first() =~= seq![enter_press()]);
    assert(seq![enter_press()].drop_first() =~= Seq::<Event>::empty());
    assert(one.drop_first() =~= Seq::<Event>::empty());
    assert(both[0] == Event::Key(key));
    assert(one[0] == Event::Key(key));
    let (line2, h2, action) = edit_step(line, h, Event::Key(key));
    assert(action == EditActionView::Redraw);
    assert(seq![enter_press()][0] == enter_press());
    let rest1 = read_events(ansi, line2, h2, directory, seq![enter_press()]);
    assert(rest1.1 == Ok::<_, ()>(Some(line2)));
    let rest0 = read_events(ansi, line2, h2, directory, Seq::<Event>::empty());
    assert(rest0.2 == Seq::<char>::empty());
    assert(read_events(ansi, line, h, directory, both).1 == rest1.1);
    let written = redraw_spec(ansi, directory, line2);
    assert(read_events(ansi, line, h, directory, one).2 == written + rest0.2);
    assert(written + Seq::<char>::empty() =~= written);
}

/// Law: a character typed without Control is written as it is, and Enter
/// then gives the line with that character added at the end.
pub proof fn law_typed_character_is_echoed(
    ansi: bool,
    line: Seq<char>,
    h: HistoryView,
    directory: Seq<char>,
    c: char,
    modifiers: u8,
)
    requires
        modifiers == MODIFIER_NONE || modifiers == MODIFIER_SHIFT,
    ensures
        ({
            let typed = Event::Key(
                KeyEvent { code: KeyCode::Char(c), modifiers, kind: KeyEventKind::Press },
            );
            let (_, entered, _) = read_events(ansi, line, h, directory, seq![typed, enter_press()]);
            let (_, _, shown) = read_events(ansi, line, h, directory, seq![typed]);
            &&& entered == Ok::<_, ()>(Some(line.push(c)))
            &&& shown == seq![c]
        }),
{
    let typed = Event::Key(KeyEvent { code: KeyCode::Char(c), modifiers, kind: KeyEventKind::Press });
    let both = seq![typed, enter_press()];
    let one = seq![typed];
    assert(both.drop_first() =~= seq![enter_press()]);
    assert(seq![enter_press()].drop_first() =~= Seq::<Event>::empty());
    assert(one.drop_first() =~= Seq::<Event>::empty());
    assert(both[0] == typed);
    assert(one[0] == typed);
    let (line2, h2, action) = edit_step(line, h, typed);
    assert(line2 == line.push(c));
    assert(action == EditActionView::Write(seq![c]));
    assert(seq![enter_press()][0] == enter_press());
    let rest1 = read_events(ansi, line2, h2, directory, seq![enter_press()]);
    assert(rest1.1 == Ok::<_, ()>(Some(line2)));
    let rest0 = read_events(ansi, line2, h2, directory, Seq::<Event>::empty());
    assert(rest0.2 == Seq::<char>::empty());
    assert(read_events(ansi, line, h, directory, both).1 == rest1.1);
    assert(read_events(ansi, line, h, directory, one).2 == seq![c] + rest0.2);
    assert(seq![c] + Seq::<char>::empty() =~= seq![c]);
}

/// Whether a key event of this kind should be acted upon.
pub fn should_process_key_event(kind: KeyEventKind) -> (r: bool)
    ensures
        r == processes_kind(kind),
{
    match kind {
        KeyEventKind::Press | KeyEventKind::Repeat => true,
        KeyEventKind::Release => false,
    }
}

/// The line being typed at the prompt.
pub struct LineEditor {
    line: String,
}

impl View for LineEditor {
    type V = Seq<char>;

    closed spec fn view(&self) -> Seq<char> {
        self.line@
    }
}

/// A string holding one character.
fn char_text(c: char) -> (text: String)
    ensures
        text@ == seq![c],
{
    let mut text = String::new();
    text.push(c);
    assert(text@ =~= seq![c]);
    text
}

impl LineEditor {
    /// An editor with an empty line.
    pub fn new() -> (e: LineEditor)
        ensures
            e@.len() == 0,
    {
        LineEditor { line: String::new() }
    }

    /// The line typed so far.
    pub fn line(&self) -> (line: &str)
        ensures
            line@ == self@,
    {
        self.line.as_str()
    }

    /// Acts on one terminal event, moving through `history` on Up and Down.
    pub fn handle_event(&mut self, history: &mut History, event: &Event) -> (action: EditAction)
        ensures
            old(history)@.valid(),
            (final(self)@, final(history)@, action@) == edit_step(
                old(self)@,
                old(history)@,
                *event,
            ),
            final(history)@.valid(),
    {
        proof {
            use_type_invariant(&*history);
        }
        let key = match event {
            Event::Key(key) => *key,
            Event::Other => {
                return EditAction::Ignore;
            },
        };
        if !should_process_key_event(key.kind) {
            return EditAction::Ignore;
        }
        let control = key.modifiers == MODIFIER_CONTROL;
        if key.code == KeyCode::Enter {
            EditAction::Finish("\r\n".to_owned(), Some(self.line.clone()))
        } else if key.code == KeyCode::Char('d') && control && self.line.as_str().is_empty() {
            EditAction::Finish("\r\n".to_owned(), None)
        } else if key.code == KeyCode::Char('c') && control {
            EditAction::Finish("^C\r\n".to_owned(), Some(String::new()))
        } else if key.code == KeyCode::Backspace {
            self.line.pop();
            EditAction::Redraw
        } else if key.code == KeyCode::Up {
            self.line = history.previous(self.line.as_str());
            EditAction::Redraw
        } else if key.code == KeyCode::Down {
            self.line = history.next(self.line.as_str());
            EditAction::Redraw
        } else {
            match key.code {
                KeyCode::Char(c) => {
                    if key.modifiers == MODIFIER_NONE || key.modifiers == MODIFIER_SHIFT {
                        self.line.push(c);
                        EditAction::Write(char_text(c))
                    } else {
                        EditAction::Ignore
                    }
                },
                _ => EditAction::Ignore,
            }
        }
    }
}

/// Reading a line from the events `events`, with `line` typed so far and
/// the history `h`: the final history, the line read (`Ok(None)` at the end
/// of input, `Err(())` when the events run out first) and everything
/// written to the terminal output, with `directory` shown in the prompt;
/// `ansi` tells whether the terminal takes ANSI escape sequences.
pub open spec fn read_events(
    ansi: bool,
    line: Seq<char>,
    h: HistoryView,
    directory: Seq<char>,
    events: Seq<Event>,
) -> (HistoryView, Result<Option<Seq<char>>, ()>, Seq<char>)
    decreases events.len(),
{
    if events.len() == 0 {
        (h, Err(()), seq![])
    } else {
        let (line2, h2, action) = edit_step(line, h, events[0]);
        match action {
            EditActionView::Finish(text, result) => (h2, Ok(result), text),
            _ => {
                let (h3, result, rest) = read_events(ansi, line2, h2, directory, events.drop_first());
                let written = match action {
                    EditActionView::Write(text) => text,
                    EditActionView::Redraw => redraw_spec(ansi, directory, line2),
                    _ => seq![],
                };
                (h3, result, written + rest)
            },
        }
    }
}


/// Whether the editor leaves `event` aside: a key release, or an event that
/// is not a key.
pub open spec fn is_ignored_event(event: Event) -> bool {
    match event {
        Event::Other => true,
        Event::Key(key) => !processes_kind(key.kind),
    }
}

/// Law: putting a key release or a non-key event anywhere among the events
/// changes neither the line read, nor what is written, nor the history.
pub proof fn law_ignored_events_change_nothing(
    ansi: bool,
    line: Seq<char>,
    h: HistoryView,
    directory: Seq<char>,
    events: Seq<Event>,
    index: int,
    event: Event,
)
    requires
        0 <= index <= events.len(),
        is_ignored_event(event),
    ensures
        read_events(ansi, line, h, directory, events.insert(index, event)) == read_events(
            ansi,
            line,
            h,
            directory,
            events,
        ),
    decreases index,
{
    let more = events.insert(index, event);
    if index == 0 {
        assert(more[0] == event);
        assert(more.drop_first() =~= events);
        let rest = read_events(ansi, line, h, directory, events).2;
        assert(seq![] + rest =~= rest);
    } else {
        assert(more[0] == events[0]);
        assert(more.drop_first() =~= events.drop_first().insert(index - 1, event));
        let (line2, h2, _) = edit_step(line, h, events[0]);
        law_ignored_events_change_nothing(
            ansi,
            line2,
            h2,
            directory,
            events.drop_first(),
            index - 1,
            event,
        );
    }
}

/// The events ran out before a line was finished.
#[derive(Debug, Clone, Copy, PartialEq, Eq)]
pub struct EventsExhausted;

/// The line read, with the events ran out as the error.
pub open spec fn read_result_view(r: Result<Option<String>, EventsExhausted>) -> Result<
    Option<Seq<char>>,
    (),
> {
    match r {
        Ok(Some(l)) => Ok(Some(l@)),
        Ok(None) => Ok(None),
        Err(_) => Err(()),
    }
}

/// Reads one line from the terminal events `events`, starting from an
/// empty line, and returns the line (`None` when input ends) together with
/// all that was written to the terminal output; the prompt shows
/// `directory`, and `ansi` tells whether the terminal takes ANSI escape
/// sequences (crossterm's `ansi_support::supports_ansi` on Windows; always
/// on other systems).
pub fn read_interactive_line_from(
    history: &mut History,
    ansi: bool,
    directory: &str,
    events: &[Event],
) -> (r: (
    Result<Option<String>, EventsExhausted>,
    String,
))
    ensures
        old(history)@.valid(),
        final(history)@.valid(),
        ({
            let (h, result, written) = read_events(ansi, seq![], old(history)@, directory@, events@);
            &&& final(history)@ == h
            &&& read_result_view(r.0) == result
            &&& r.1@ == written
        }),
{
    proof {
        use_type_invariant(&*history);
    }
    let ghost total = read_events(ansi, seq![], old(history)@, directory@, events@);
    let mut editor = LineEditor::new();
    let mut output = String::new();
    let mut i: usize = 0;
    assert(events@.skip(0) =~= events@);
    assert(output@ =~= seq![]);
    assert(editor@ =~= seq![]);
    assert(output@ + total.2 =~= total.2);
    while i < events.len()
        invariant
            i <= events@.len(),
            old(history)@.valid(),
            history@.valid(),
            total == read_events(ansi, seq![], old(history)@, directory@, events@),
            ({
                let (h, result, rest) = read_events(
                    ansi,
                    editor@,
                    history@,
                    directory@,
                    events@.skip(i as int),
                );
                &&& h == total.0
                &&& result == total.1
                &&& output@ + rest == total.2
            }),
        decreases events.len() - i,
    {
        let ghost before = output@;
        assert(events@.skip(i as int).drop_first() =~= events@.skip(i + 1));
        assert(events@.skip(i as int)[0] == events@[i as int]);
        let action = editor.handle_event(history, &events[i]);
        match action {
            EditAction::Finish(text, result) => {
                output.append(text.as_str());
                return (Ok(result), output);
            },
            EditAction::Ignore => {
                assert(output@ =~= before + seq![]);
            },
            EditAction::Write(text) => {
                output.append(text.as_str());
            },
            EditAction::Redraw => {
                let text = redraw_text(ansi, directory, editor.line());
                output.append(text.as_str());
            },
        }
        proof {
            let rest = read_events(ansi, editor@, history@, directory@, events@.skip(i + 1)).2;
            assert(before + (output@.subrange(before.len() as int, output@.len() as int) + rest)
                =~= output@ + rest);
        }
        i = i + 1;
    }
    assert(events@.skip(i as int) =~= seq![]);
    (Err(EventsExhausted), output)
}

} // verus!
