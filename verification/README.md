# chess_db

The logic of a chess reference database, verified with Verus: reading and repairing PGN,
canonical moves, importing games without duplicates, merging players, the queue of jobs and its
offline rule, safety copies, engine and cloud analysis, and what the command line says.

- `src/` holds the verified library. Every function states in its contract what it returns or
  changes. Laws that relate several functions are public proof functions whose names begin with
  `law_`.
- `src/chess.rs`, `src/text.rs`, `src/patterns.rs`, `src/auth.rs`, `src/feeds.rs`, `src/cli.rs`,
  `src/proxy.rs`, `src/reading.rs` and `src/csv_file.rs` hold the few functions that call other
  crates (shakmaty, pgn-reader, csv, regex, getrandom, chrono, serde_json) or parts of the standard
  library; their contracts are trusted.
- `tests/` runs the library on concrete values.
- `app/` is the program around it: the command line, DuckDB, HTTP, archives and processes.
