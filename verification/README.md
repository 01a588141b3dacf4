# Codex Atlas core

The logic of Codex Atlas — a single-user tool that ingests the header
dumps of game SDK dumpers (Dumper-7 for Unreal Engine), stores the symbol
graph, searches it, diffs two versions and exports trainer scaffolds —
as a library verified with Verus.

## Layout

- `src/` — the verified library (`atlas_core`):
  - `lexer`, `parser/` — the Dumper-7 header lexer and recursive-descent
    parser, producing a `model::SymbolGraph`;
  - `dumper7` — the parser front: which files are read, module names,
    the game identity from the dump's metadata;
  - `index` — lookups by fqn and local id over a graph;
  - `diff/` — the diff engine (overrides, exact matching, rename
    detection by fingerprint, member-level changes) and its laws;
  - `storage/` — persistent symbol ids, the rows an ingest writes, the
    graph loaded back from rows, and the law tying the two;
  - `search`, `export/`, `settings`, `watcher`, `commands` — the decisions
    of the search, export (template rendering with tera included),
    settings, folder watcher and user-interface operations;
  - `digest`, `clock`, `text` — the few calls into `blake3`, `chrono` and
    `std` that the logic makes, each behind a small trusted wrapper (the
    calls into `tera` and `serde_json` sit in `export/render`).
- `tests/` — unit and scenario tests, including the synthetic two-version
  fixture.
- `app/` — the command-line shell: SQLite (rusqlite, refinery), the
  tantivy index, file-system access, the notify/tokio
  watcher loop and logging.

The app reads its SQL migrations and the shipped template sources from
`migrations/` and `templates/` beside the executable, or from the
directories named by `ATLAS_MIGRATIONS_DIR` and `ATLAS_BUNDLED_TEMPLATES`.
