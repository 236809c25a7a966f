# AutoTyper

AutoTyper types a text into the window that has the focus, one character at a
time, by posting `WM_CHAR` messages (Return and Tab as key presses), so that
input boxes that refuse pasting still receive the text. It has a graphical
mode and a command-line mode (`--cli`).

## Layout

- `src/` — the verified library (Verus):
  - `cli.rs` — argument parsing, the `--cli` switch, the snippet listing, the
    progress bar (the percentage text, a floating-point value, is written by
    the program), and every decision of a command-line run with its output
    and exit code (0 success, 1 input error, 2 usage error or emergency stop,
    3 Ctrl+C);
  - `engine.rs` — the sequence of actions that types a text and a run that
    carries it out, with laws on what reaches the window (also line by
    line), the progress reports, the stop checks, and what has been sent
    when a stop check says yes;
  - `countdown.rs` — the countdown before typing as a state machine;
  - `session.rs` — a whole run (countdown, then typing) as a state machine
    that decides when and why it ends and how many characters were sent;
  - `config.rs` — the snippet book (an `indexmap::IndexMap`) and its laws,
    configuration defaults and the loading decision;
  - `gui.rs` — status texts and the decisions of the window's buttons;
  - `screen.rs` — the screen-corner test of the emergency stop;
  - `numbers.rs`, `text.rs` — number grammars, whitespace, trimming, decimals.
- `app/` — the program: Win32 calls, file and JSON I/O, printing, sleeping,
  threads and the egui window, driving the library.
- `tests/` — tests of the library.
