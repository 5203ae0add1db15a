# wl-pick

A window switcher for wlroots compositors: a grid of live window previews that
prints which one you picked. It doubles as a screencast source picker for the
desktop portal.

No thumbnails are ever made. Each window is captured straight into a buffer
handed to its own subsurface and the compositor does the scaling.

## Layout

- `src/` is the picker's logic, verified with Verus: what the flags and the
  config file mean, where every element of the grid goes, which tiles are
  captured into which buffers, what is painted, how keys and the pointer are
  answered, and how a pick is reported. `src/lib.rs` lists the modules.
- `app/` is the program around it: the Wayland connection, sway's IPC socket,
  fonts and shared memory. It hands plain values to the library and does what
  the library answers. Fractions are worked out there, since the library holds
  none: a number with a fraction travels through it as it was written.
- `tests/` runs the library on concrete values.

## How it is stated

Each type that the logic changes has a view: `App` is a `Model`, `Tile` a
`Shot`, `Layout` a `Grid`, `Target` a `Record`, `Painter` a `Canvas`. A function
says what it does over those, and `wf` says what holds of every value: that the
selection is on screen, for one, whatever was pressed. What holds of several
functions at once is stated by the proof functions whose names start with `law_`.

What is taken on trust is small: how the standard library escapes a text in
quotes and which characters it takes for letters, that `String::push` adds a
character, and that fontdb hands out the names of the families it holds.

## Usage

The pick goes to stdout, nothing does if you cancel, and acting on the choice is
the caller's job. The exit status is 0 for a pick, 1 for anything else, and 2 if
`--timeout` fires. `wl-pick --help` lists the flags, the keys and the settings.
