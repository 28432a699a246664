# powderman

Durable workflows on a Blender-style workbench, as a verified library.

`src/` holds the decisions, each with a contract proved by Verus:

- the layout tree (`area`, `area_laws`, `shares`, `workspace`, `layout_json`),
  the command bus and the workbench with its undo history (`command`,
  `workbench`), gestures, menus, the keymap and the status bar;
- the settings document and the Settings/Preferences fields (`settings`,
  `fields`), the data tree (`tree`, `json`), charts (`charts`), themes and
  icons;
- the workflow engine's bookkeeping (`engine`, `cron`, `timers`, `status`,
  `snapshot`) and the two grammar workflows as state machines: the daily
  sweep (`sweep`) and a fix run (`fix`), whose steps the caller performs;
- the file browser, viewers and diffs (`files`, `viewer`, `diff`, `demo`).

Calls into outside crates (`similar`, `serde_json`) and into std where vstd
has no specification sit behind a handful of trusted wrappers, each with a
doc comment saying what it claims.

`app/` is the binary: argument handling, the filesystem, git, systemd-run
and the clock, driving the library's functions. `tests/` runs the library
against concrete cases.
