# baduhan

A tabbed terminal for Windows with splits and browser panes. Everything that
the program decides stands in a library that is verified with Verus; the
program around it opens the windows, starts the shells and draws.

## Layout

- `src/` is the library. A window is a state (`window.rs`) that takes messages
  (`message.rs`) and queues work; every operation says in its contract what the
  state and the queue are afterwards.
  - Panes and tabs: `pane_tree`, `tabs`, `tab_ops`, `rearrange`, `fitting`,
    `chrome`.
  - Input: `keys`, `modes`, `input`, `keyboard`, `mouse`, `actions`,
    `overlays`, `pattern`.
  - Shells and pages: `term_pane`, `images`, `pty`, `links`, `scrollback`,
    `browser_pane`, `ctl`, `dragdrop`, `drops`.
  - Drawing, as lists of marks: `paint`, `tones`, `palette`, `decor`, `cells`,
    `grid_paint`, `bar_paint`, `overlay_paint`, `sheet_paint`, `frame_paint`.
  - The program as a whole: `app`, `config`, `fonts`, `scripting`, `session`,
    `restore`, `command_palette`, `hints`, `cheatsheet`.
- `tests/` runs the library on concrete values.
- `app/` is the program: it hands each message to the library, performs the
  work that comes out and reports back.

Lengths are integers, in units of 1/1024 of a device-independent pixel; the
shares of a split are integers, too. Public proof functions whose names begin
with `law_` state what holds of several operations together.
