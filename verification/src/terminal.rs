//! The escape sequences that crossterm's cursor and clearing commands write
//! on an ANSI terminal, and the prompt text.

use vstd::prelude::*;

use crossterm::cursor::MoveToColumn;
use crossterm::terminal::{Clear, ClearType};
use crossterm::Command;

verus! {

/// The decimal digit `d` (below ten) as a character.
pub open spec fn digit_char(d: nat) -> char {
    (48 + d) as char
}

/// The decimal writing of `n`, without leading zeros.
pub open spec fn decimal(n: nat) -> Seq<char>
    decreases n,
{
    if n < 10 {
        seq![digit_char(n)]
    } else {
        decimal(n / 10).push(digit_char(n % 10))
    }
}

/// The ANSI sequence that moves the cursor to the 0-based `column`:
/// `ESC [`, the 1-based column in decimal, `G`.
pub open spec fn move_to_column_spec(column: nat) -> Seq<char> {
    seq!['\x1b', '['] + decimal(column + 1) + seq!['G']
}

/// The ANSI sequence that clears the line the cursor is on.
pub open spec fn clear_line_spec() -> Seq<char> {
    seq!['\x1b', '[', '2', 'K']
}

/// Writes crossterm's `MoveToColumn(column)` command in its ANSI form into
/// a string.  crossterm writes `ESC [` then `column + 1` then `G`; writing
/// into a `String` does not fail.
#[verifier::external_body]
fn move_to_column_ansi(column: u16) -> (text: String)
    requires
        column < u16::MAX,
    ensures
        text@ == move_to_column_spec(column as nat),
{
    let mut text = String::new();
    let _ = MoveToColumn(column).write_ansi(&mut text);
    text
}

/// Writes crossterm's `Clear(ClearType::CurrentLine)` command in its ANSI
/// form into a string: `ESC [ 2 K`; writing into a `String` does not fail.
#[verifier::external_body]
fn clear_line_ansi() -> (text: String)
    ensures
        text@ == clear_line_spec(),
{
    let mut text = String::new();
    let _ = Clear(ClearType::CurrentLine).write_ansi(&mut text);
    text
}

/// The prompt shown before each line: `rush <directory>> `.
pub open spec fn prompt_spec(directory: Seq<char>) -> Seq<char> {
    "rush "@ + directory + "> "@
}

/// What redrawing the edited line writes to the output: the escape
/// sequences that move back to the first column and clear the line when
/// the terminal takes ANSI sequences (`ansi`), then the prompt and the
/// line.  On a console that does not take them, crossterm moves the cursor
/// and clears the line through the console's own interface, and nothing is
/// written for that part.
pub open spec fn redraw_spec(ansi: bool, directory: Seq<char>, line: Seq<char>) -> Seq<char> {
    let control = if ansi {
        move_to_column_spec(0) + clear_line_spec()
    } else {
        seq![]
    };
    control + prompt_spec(directory) + line
}


/// Law: the prompt is `rush ` then the whole directory then `> `: seven
/// characters longer than the directory, with the directory itself in the
/// middle, so different directories give different prompts.
pub proof fn law_prompt_holds_the_whole_directory(directory: Seq<char>, other: Seq<char>)
    ensures
        prompt_spec(directory).len() == directory.len() + 7,
        prompt_spec(directory).take(5) == "rush "@,
        prompt_spec(directory).subrange(5, 5 + directory.len() as int) == directory,
        prompt_spec(directory).skip(5 + directory.len() as int) == "> "@,
        prompt_spec(directory) == prompt_spec(other) ==> directory == other,
{
    reveal_strlit("rush ");
    reveal_strlit("> ");
    let p = prompt_spec(directory);
    assert(p.take(5) =~= "rush "@);
    assert(p.subrange(5, 5 + directory.len() as int) =~= directory);
    assert(p.skip(5 + directory.len() as int) =~= "> "@);
    if p == prompt_spec(other) {
        assert(prompt_spec(other).subrange(5, 5 + other.len() as int) =~= other);
        assert(directory =~= other);
    }
}

/// Law: a redraw ends with the prompt followed by the line, and begins with
/// the cursor and clearing sequences exactly when the terminal takes ANSI
/// sequences.
pub proof fn law_redraw_ends_with_prompt_and_line(
    ansi: bool,
    directory: Seq<char>,
    line: Seq<char>,
)
    ensures
        ({
            let text = redraw_spec(ansi, directory, line);
            let tail = prompt_spec(directory) + line;
            &&& text.len() >= tail.len()
            &&& text.skip(text.len() - tail.len()) == tail
            &&& ansi ==> text == seq!['\x1b', '[', '1', 'G', '\x1b', '[', '2', 'K'] + tail
            &&& !ansi ==> text == tail
        }),
{
    let text = redraw_spec(ansi, directory, line);
    let tail = prompt_spec(directory) + line;
    assert(decimal(1) == seq![digit_char(1)]);
    assert(digit_char(1) == '1');
    if ansi {
        assert(move_to_column_spec(0) + clear_line_spec() =~= seq![
            '\x1b',
            '[',
            '1',
            'G',
            '\x1b',
            '[',
            '2',
            'K',
        ]);
        assert(text =~= seq!['\x1b', '[', '1', 'G', '\x1b', '[', '2', 'K'] + tail);
    } else {
        assert(text =~= tail);
    }
    assert(text.skip(text.len() - tail.len()) =~= tail);
}

/// The prompt for the working directory `directory`.
pub fn prompt_text(directory: &str) -> (text: String)
    ensures
        text@ == prompt_spec(directory@),
{
    let mut text = String::new();
    text.append("rush ");
    text.append(directory);
    text.append("> ");
    assert(text@ =~= prompt_spec(directory@));
    text
}

/// The text that redrawing the prompt and `line` writes to the output;
/// `ansi` tells whether the terminal takes ANSI escape sequences.
pub fn redraw_text(ansi: bool, directory: &str, line: &str) -> (text: String)
    ensures
        text@ == redraw_spec(ansi, directory@, line@),
{
    let mut text = if ansi {
        let mut control = move_to_column_ansi(0);
        let clear = clear_line_ansi();
        control.append(clear.as_str());
        control
    } else {
        String::new()
    };
    let prompt = prompt_text(directory);
    text.append(prompt.as_str());
    text.append(line);
    assert(text@ =~= redraw_spec(ansi, directory@, line@));
    text
}

} // verus!
