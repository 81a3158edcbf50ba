# droplet_core

The host side of a sandboxed data-analysis runtime: agent code runs in a Monty
interpreter and reaches a local DuckDB engine only through registered tools and
opaque integer handles.

- `src/` — the verified library (Verus): the handle registry, the single-statement
  SQL guard, the SQL each engine operation composes, row capping, tool-argument
  conversion, the session's decision step, tool stub planning, and local parquet
  path resolution. Each public function carries a contract, and the laws that tie
  operations together are public proof functions.
- `app/` — plain Rust around the library: the DuckDB connection, the Monty REPL loop,
  float-valued cells, the tool registry, the proc-macro expansion and the Python
  bindings.
- `tests/` — tests of the library.

The `duckdb` crate is not listed in `Cargo.toml`: its bundled C++ engine could not be
built alongside this crate. `app/`, which holds the DuckDB connection, therefore does not
compile until `duckdb` is added back to `[dependencies]`, and it fails on `duckdb` alone;
`src/` and `tests/` do not need it.
