# rush

A small Unix-like command shell whose core is verified with Verus.

- `src/parser.rs`: the command-line lexer (whitespace, quotes, backslash
  escapes) and its laws.
- `src/history.rs`: the in-memory history with Up/Down navigation and its laws.
- `src/executor.rs`: what the built-in commands (`cd`, `echo`, `exit`/`quit`,
  `help`, `pwd`) decide.
- `src/editor.rs`: the interactive line editor, one key event at a time.
- `src/terminal.rs`: the prompt, and what a redraw writes to the output, with
  or without ANSI escape sequences (the program itself lets crossterm queue
  those commands, as it chooses between ANSI and the console interface).
- `src/session.rs`: what to do with one line typed or read from a pipe.
- `app/`: the program itself — terminal raw mode, reading keys and lines,
  changing directory, printing, and starting other programs.
