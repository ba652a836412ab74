# Atrus

A keyboard-driven terminal file manager: browse, filter, sort files into
category folders, batch-rename, clean empty folders, find duplicates and large
files, all with a dry-run preview and undo.

The decisions are a library verified with Verus (`src/`); the program around it
(`app/`) reads keys, draws the screen with ratatui and does the disk work the
library asks for.

- `src/app.rs`: the state and its operations.  Operations that need the disk
  say what they need; the program hands the result back to the method that
  finishes them.
- `src/events.rs`: what each key does in each mode, and the outside work it
  asks for (`Command`).
- `src/engine.rs`: ordering listings, filtering, planning sorts, renames and
  clean-ups, ranking large files, grouping duplicates, planning undo.
- `src/apply.rs`: applying staged changes one file operation at a time.
- `src/config.rs`: the extension and target maps, and the built-in defaults.
- `src/text.rs`, `src/paths.rs`, `src/pattern.rs`, `src/digest.rs`: strings,
  std's path operations, the `regex` crate, SHA-256 from `sha2`.
- `src/order.rs`: stable insertion order, and its lemmas.
- `src/laws.rs`: properties that span operations.
