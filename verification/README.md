# diesel_dualdb

Write Diesel code once and run it on PostgreSQL and SQLite. This crate holds
the parts of that which can be stated and proved, verified with Verus:

- `generate` — the schema generator. Logical migrations (`UUID`, `TIMESTAMP`,
  `JSON`, … column types) become a PostgreSQL migration tree, a SQLite
  migration tree and one `schema.rs`. Its contract gives the exact output (or
  the exact error) for every input, over specification functions in
  `segment` (the `-- dualdb:<backend>` escape hatch), `model` (the `schema.rs`
  model folded from `CREATE TABLE` / `ALTER TABLE`), `render` (the `table!`,
  `joinable!` and `allow_tables_to_appear_in_same_query!` text), `ddl` (per
  backend `up.sql` and the derived `down.sql`) and `mapping` (the type table).
  `sqlparser` parses and prints the DDL; `sqlparse` reads its syntax trees
  through small trusted functions whose results are named by `sql_parse` and
  `sql_render`.
- `types`, `timestamp` — the portable value types and the encodings the
  library owns: the 16-byte SQLite blob of a UUID, the version-1 `jsonb`
  framing, the decimal's canonical SQLite text (parsed by `bigdecimal`), and
  the fixed-width SQLite timestamp text, whose string order is proved to be
  the order of its date and time fields and which reads back as its instant
  cut to whole microseconds.
- `sql_types` — the portable marker types.
- `pool` — backend detection from a database URL.
- `macros` — what the `test` attribute and the `DualEnum` derive decide.

`app/` is the program around it: the `diesel-dualdb-schema` command (file
I/O), the `DualConnection`, the r2d2 pool, and the Diesel trait impls of the
portable types, which call the library's encoders.

The tests in `tests/` run the library with the real outside crates.
