//! The verified core of `rush`, a small learning shell: the command-line
//! lexer, the in-memory command history, the decisions of the built-in
//! commands and the interactive line editor.

mod text;
pub mod parser;
pub mod history;
pub mod executor;
pub mod terminal;
pub mod editor;
pub mod session;

pub use parser::{parse_command, ParsedCommand};
pub use history::{History, HistoryView};
pub use executor::{builtin_for, echo_text, execution_result, help_lines, Builtin, ExecutionResult};
pub use terminal::{prompt_text, redraw_text};
pub use editor::{
    read_interactive_line_from, should_process_key_event, EditAction, Event, EventsExhausted,
    KeyCode, KeyEvent, KeyEventKind, LineEditor, MODIFIER_CONTROL, MODIFIER_NONE, MODIFIER_SHIFT,
};
pub use session::{enter_line, plan_input_line, plan_line, trim_line_ending, LinePlan};
