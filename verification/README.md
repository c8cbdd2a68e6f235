termnix
=======

A foundation for building terminal multiplexers, with its behaviour stated in
contracts and proved by Verus.

- `src/` is the library. It performs no I/O: it says what to read and write, and
  is told how that went.
  - `size`, `terminal_types`, `terminal_buffer`, `terminal_scrollback`,
    `snapshot`: sizes, cells, screens, history, snapshots
  - `tokenizer`: the boundary to `vte` and `unicode-width`
  - `terminal_model`: the emulator as a mathematical state machine
  - `terminal`, `terminal_emu`: the emulator
  - `input`, `decimal`: keys, pastes and mouse events as bytes
  - `session`, `session_metrics`: one session's read buffer, write queue and
    lifecycle
  - `driver_config`, `driver_session`, `driver`: several sessions, driven
    round-robin under a budget
  - `pty`: what the results of system calls mean for the child process
  - `multiplexer_model`, `multiplexer`: windows, panes and focus
  - `terminal_laws`, `glyph_laws`, `session_laws`, `driver_laws`,
    `multiplexer_laws`: what holds of each of these as a whole
- `app/` opens the PTYs, spawns the children and makes the system calls.
- `tests/` runs the library against children that live in the tests.
