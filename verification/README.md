# ctxl

A context ledger. Large output of tools is stored under a handle, one SQLite
database per session, and a short preview takes its place. Commands bring back
the parts that are asked for: pages, matches, the lines of one file, a code
skeleton.

## Layout

- `src/` is the library: thresholds and interception, previews, compression,
  the cache key, the plan of schema migrations, retrieval and the reports. Every
  function carries a contract that Verus proves. What other crates compute enters
  through small wrappers whose contracts are stated and not proved; their doc
  comments name the function behind each.
- `app/` is the program around it: arguments, files, git, SQL.
- `tests/` runs the library with the other crates linked.

## What is proved across functions

- What is captured is stored as it came, and a view with room for it shows it
  again (`retrieve::window`, `intercept`, `intercept_grep`, `index`).
- Views are bounded, and consecutive pages tile.
- Output is intercepted exactly above its threshold, and that of the program
  itself never is.
- Equal parameters, in whatever order, give one cache key, and the session plays
  no part in it.
- Every database that is not newer reaches the latest schema; a current one is
  left alone.
