# cli_log_file_analyzer

Filters a log file with a small query language:

```text
cli-log-file-analyzer <file> <query>
```

Log lines look like `2021-02-09T11:40:59Z ERROR [database] connection refused`;
queries combine comparisons on `timestamp`, `level`, `source` and `message`
with `AND`, `OR`, `NOT` and parentheses.

Layout:

- `src/` — the library, with its proofs.
  - `token.rs` — query text to tokens (`tokenize`), specified by `lex`.
  - `parser.rs` — tokens to a `Query` (`parse`), specified by the grammar
    functions `p_expr` … `p_comparison`; every parsed query is well formed.
  - `record.rs` — one log line to a `LogRecord` and back (`parse_line`, `render`).
  - `evaluator.rs` — whether a record satisfies a query (`satisfies`).
  - `cli.rs` — one step of a run (`step`), a whole run over the lines of a
    log (`run`), and error messages.
  - `args.rs` — the two positional arguments.
  - `laws.rs` — properties that relate several of the above.
  - `grammar_laws.rs` — parentheses, `NOT`, and the precedence of `AND` over `OR`.
  - `lexer_laws.rs` — whitespace between texts, the first bad character, and
    tokens written back as text.
  - `text.rs` — character helpers and the calls into `std` taken on trust.
- `tests/` — the test suite.
- `app/main.rs` — the program: arguments, opening the file, and a loop that
  performs the reads and writes that the library's `step` asks for.
