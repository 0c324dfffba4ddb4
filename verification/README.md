# firm_ql

FirmQL is a SQL-like query language over an entity graph: `SELECT` with joins,
`WHERE`, `ORDER BY`, `LIMIT`/`OFFSET`, functions and `LIKE`, plus
`SHOW ENTITY TYPES` and `DESCRIBE <type>`. This crate is the query engine, written in
Verus: each public function carries a contract over a mathematical model of its
inputs and results, and Verus proves the code against it.

## Layout

- `src/` — the verified library.
  - `graph.rs`: entities and the entity graph the queries run on.
  - `value.rs`, `float.rs`, `decimal.rs`: field values, IEEE doubles (through
    `rustc_apfloat`) and the shortest decimal text of a double.
  - `sql.rs`, `ast.rs`: SQL text parsed by `sqlparser` into the library's syntax tree.
  - `eval.rs`, `like.rs`: expressions, operators, functions and `LIKE` patterns.
  - `engine.rs`, `select.rs`, `project.rs`, `order.rs`, `sort.rs`: the execution of a
    `SELECT`, stated as `query_answers`.
  - `firmql.rs`: the `FirmQl` front end (`SHOW ENTITY TYPES`, `DESCRIBE`, SQL).
  - `result.rs`, `display.rs`, `error.rs`: result sets, their text, errors.
  - `cli.rs`, `mcp.rs`: what the command line and the MCP server show for a result.
  - `laws.rs`: properties over several operations (join row counts, filters, windows,
    negated predicates, converse comparisons).
- `tests/` — tests of the library.
- `app/` — the command-line program: reading a graph from a workspace, printing
  results, and serving queries over MCP (rmcp, TOON encoding).
