# cmux

A terminal multiplexer for Linux with vertical tabs, split panes and
notification rings for coding agents, driven from a control socket by the
`cmux` command line. The core is written in Verus: its behaviour is stated in
`requires` / `ensures` contracts and proved.

## Layout

- `src/` — the verified library.
  - `ids`, `split`, `pane`, `tab`, `workspace`, `notification`: the topology
    (workspaces, tabs, split trees of panes, focus, zoom, closed-tab history,
    the notification feed) and every operation on it.
  - `screen`, `term`: the terminal emulator grid — cursor, scroll regions,
    alternate screen, scrollback, SGR attributes, OSC titles and
    notifications, search and viewport. Byte parsing is done by `vte`; the
    library applies what it recognises.
  - `keys`, `shortcuts`, `palette`, `render`, `config`: chords and key bytes,
    the default shortcut table, the command palette's fuzzy ranking, styled
    runs for drawing a screen, and the settings that are plain values.
  - `protocol`, `cli`: the control requests and responses, the workspace
    summary, and the command-line parser.
  - `engine`, `view`: the engine that answers control requests and keyboard
    actions, and what a frame of the window shows.
  - `pty`: the vocabulary of PTY events and errors.
- `tests/` — tests run against the compiled library.
- `app/` — the program around the library: the `cmux` command line, the
  headless app (control socket, a shell per pane, `cmux.json`, the saved
  session), with the JSON copies of the library's types.

Proved properties stand in `src/` as `law_*` proof functions beside the
operations they speak of.
