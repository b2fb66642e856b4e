# aegis_disk

A terminal tool that analyses disk usage and plans safe cleanups: it scans a
directory tree, reports large files, development residue (`target/`,
`node_modules/`, caches), duplicate files and the space per file type, gives
advice, exports Markdown or JSON reports, and moves cleanable items into a
`.aegis_disk_trash/` quarantine directory instead of deleting them, never
touching protected system directories.

## Layout

- `src/` — the library, written in Verus and verified: the path model,
  the analyzers, the cleanup planner and its accounting, the safety guard,
  the size parser, the report renderers, the terminal view's text and the
  key handling. Public proof functions state the properties that hold
  across calls (for instance that a cleanup moves nothing from a protected
  root, that every duplicate group keeps a copy, and that a planned target
  keeps its place below the quarantine directory).
- `app/` — the program around it: command-line parsing, configuration
  files, walking the filesystem, hashing file contents as they are read,
  moving files, JSON serialisation and the terminal session.
- `tests/` — tests of the library's public functions.
