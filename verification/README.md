# iocraft

Terminal text, verified with Verus: string styling, escape sequences, text
layout, and output above a live display.

- `src/` is the library. It computes and touches no terminal: environment
  variables, exit codes and terminal sizes come in as plain values; strings to
  write, commands to run and strokes to draw go out.
- `app/` joins the library to a process: its environment, its streams, its
  clipboard programs and its event loop.
- `tests/` runs the library on concrete values.

The few outside functions that the library calls stand behind items whose
contracts are believed, each with a comment that says what is claimed:
`String::push` in `src/chars.rs`, the cluster and width functions of
`unicode-segmentation` and `unicode-width` in `src/display.rs`, and the
attribute numbers of `crossterm` in `src/ansi.rs`.
