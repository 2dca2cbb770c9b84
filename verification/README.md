# stl_base

A small EOPL-style language (integers, booleans, procedures, `let`, `letrec`, `cond`) with
an interactive loop, written in Verus.

- `src/lang/`: scanner, parser, environments, values and the evaluator, each with a
  mathematical model and contracts against it; `laws.rs`, `scan_laws.rs` and
  `parse_laws.rs` hold the properties proved of them as a whole.
- `src/repl.rs`, `src/completion.rs`, `src/report.rs`, `src/text.rs`: the decisions of the
  interactive loop (meta commands, what a line means, completion of words and `:load` paths,
  error messages and diagnostics) on plain strings.
- `src/testing.rs`: a helper that runs a source text against an expected outcome and reports
  a failure.
- `app/`: the terminal program around the library (line editing with `reedline`, reports
  with `miette`, files and processes).
- `tests/`: tests of the library.
