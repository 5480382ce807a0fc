# deepseek-tui-modes

Behavioral mode presets for DeepSeek-TUI: a system prompt is assembled from
prompt fragments chosen along three axes (agency, quality, scope), plus
modifiers, and handed to a DeepSeek-TUI daemon thread.

## Layout

- `src/` — the library, verified with Verus:
  - `presets.rs` — built-in presets, axis values and modifiers; axis merging.
  - `name_map.rs` — insertion-ordered maps from names to values.
  - `config.rs` — the configuration model and path resolution against the
    configuration file's directory.
  - `config_edit.rs` — the edits of the `config` subcommand.
  - `resolve.rs` — command line + configuration → fragment paths.
  - `assemble.rs` — manifest → fragment plan → assembled prompt.
  - `api.rs` — daemon version check, pre-flight prompt and event-stream scan.
  - `daemon.rs` — daemon launch parameters and health-check back-off.
  - `text.rs`, `numbers.rs` — string and decimal-number helpers.
  - `external.rs` — outside types carried through unchanged.
- `app/` — the program: argument parsing, file and network I/O, the daemon
  process, and displayable error types.
- `tests/` — tests of the library.
