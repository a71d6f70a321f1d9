# qmk_tui

The logic of a terminal front end for QMK keymap workflows, verified with Verus.

- `src/text.rs`: white space, trimming, line splitting, joining, decimal rendering.
- `src/qmk.rs`: QMK requests and their validation, `qmk` command arguments, QMK home paths.
- `src/discovery.rs`: the decisions of keyboard discovery (what is a keyboard, what is skipped,
  naming and ordering) as a walk that the caller feeds with directory listings.
- `src/app.rs`: text inputs, the keyboard list and the application state machine, with the
  laws that its operations keep.
- `src/cli.rs`: the command line settings.
- `app/`: the terminal program: argument parsing, terminal drawing, directory reads and
  running `qmk`.
