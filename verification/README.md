# asd

A terminal text editor with multiple carets, undo and redo, a file tree and
a status bar. The editing logic is a library verified with Verus; a thin
program around it reads and writes files, talks to the clipboard and the
terminal, and draws.

## Layout

- `src/` — the verified library:
  - text model: `mostly_one_vec`, `little_string`, `text`, `char_utils`,
    `content`, `line_ending`;
  - carets: `cursor`, `selection`, `caret`;
  - history: `history`, `checkpoints`, and `round_trips`, which proves that
    undoing typing, a tab, a deleted character, a backspace or a line break gives
    the text back (and, for typing, the caret and the place in the history),
    that redoing puts the typing back, and that pasting what was cut gives the
    text back;
  - buffers: `buffer`, `edit_operators`, `edit_controller`, `buffers`;
  - around them: `scrollbar`, `terminal_cursor`, `file_tree`, `prompt`,
    `log`, `view` (what the screen shows of a buffer), `keymap` and `menu`
    (what keys and the mouse do).
- `app/` — the program: terminal input, files, clipboard, drawing.
- `tests/` — tests of the library on concrete values.
