# insider-tracker

Reacts to SEC Form 4 insider filings: polls EDGAR's current-events feed,
parses each new filing, scores open-market purchases and sales against the
recent activity of other insiders in the same stock, and paper-trades the
resulting signals.

Layout:

- `src/` — the verified library (Verus): transaction codes, the per-symbol
  rolling state (tick history, insider event window, cluster count), the
  scoring rules, the signal engine's per-symbol map, the feed's text formats
  (accession numbers, filing directories, choice of the filing document),
  feed de-duplication, Form 4 flag, code and date fields, and the dedup store
  contract with its in-memory implementation.
- `app/` — the program around it: the async pipeline (tokio channels), HTTP
  (reqwest), XML deserialization (quick-xml/serde), SQLite persistence
  (sqlx), the paper executor and everything that handles floating-point
  prices and amounts.
- `tests/` — tests of the library on concrete values.

Times inside the library are nanoseconds since the Unix epoch (`i64`).
