# hoi4_editor

The verified core of a Hearts of Iron IV map and state editor, written in
Verus. The functions in `src/` carry contracts that Verus proves, except a
few trusted ones that call the outside crates or std.

- `src/` — the library: the state edit session with its undo history
  (`edit`, `edit_model`, `working_set`), province and state indexes,
  compatibility scans of a project's map files, diagnostics, map
  presentation, country texts, state history at the initial bookmark,
  lasso candidates, the province save transaction and its file plan, menu
  clicks and the interface layout.
- `tests/` — tests of the library on concrete values.
- `app/` — what cannot be verified: file-system reads and writes (project
  scans, the province save's file operations), and the rules that work on
  floating-point numbers.

These trusted functions call `image`, `sha2`, `ahash` and a few std
functions; each has a doc comment that says what its contract claims and
what it leaves unsaid.
