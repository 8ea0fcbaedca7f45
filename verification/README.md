# etac

The front end of a compiler for Eta, a small statically typed imperative
language, written in Verus: its lexer, escape decoding, diagnostics, source
map, syntax tree with its S-expression form, and the typing context are
verified against their specifications.

Layout:

- `src/span.rs`, `src/line_index.rs`, `src/sources.rs`, `src/file_names.rs`:
  positions in the global source space and their resolution to files,
  lines and columns.
- `src/lexer/`: the token grammar (longest match), the lexer, literal
  decoding, the text of tokens and errors, and the `.lexed` dump.
- `src/diag/`: diagnostics and the context that records and counts them.
- `src/ast/`: the syntax tree, the span table, and the S-expression form.
- `src/parse.rs`, `src/parse_log.rs`: parse outcomes, how parse failures
  become diagnostics, and the `.parsed` dump.
- `src/typecheck.rs`: types, node types and scopes, and the checks of
  declarations.
- `src/driver.rs`: the decisions of a run.
- `src/resolve.rs`: which files a compilation hands out (each once), and
  what a `use` that finds no interface reports.
- `app/`: the command line, file access, and rendering.
