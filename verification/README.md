# tejx

Front-end pieces of the TejX compiler (`tejxc`), written in Verus and proved
against their contracts.

## Layout

- `src/parser/` — recursive-descent parser from a token stream to the syntax tree
  of `src/ast.rs`, with error recovery. It joins operators that were lexed as two
  tokens (`= =` into `==`), reports what it cannot read as diagnostics, and always
  reaches the end of the input. `template.rs` splits template strings into text
  and `${...}` interpolations; the tokens of each interpolation are handed to the
  parser (`Parser::set_interpolations`) and read as expressions.
- `src/lowering.rs` — the symbol table of the pass from syntax trees to typed IR:
  nested scopes with lambda levels, mangled names, captured variables, type
  aliases, template lookup, and the helpers that name monomorphized instances;
  the variadic-function scan, the split of an async function into a worker and
  the body that queues it, and the `tejx_main` entry point.
- `src/hir.rs` — the typed intermediate form those passes build.
- `src/mir.rs`, `src/mir_lowering.rs` — the basic-block IR and the builder of the
  pass that makes it: scopes of unique names, fresh temporaries and blocks,
  emitting into the current block, the block and jump structure of `if`, loops,
  `break`/`continue`, `switch` and `try`/`finally`, the closing `return` of a
  function, and the locals of async state machines. Every step keeps each block
  index it records (targets, handlers, loop exits) that of an existing block.
- `src/imports.rs` — the decisions of import resolution: where an import's file
  is (`std:` modules in the library directory), what to do with one import (not
  found, circular, already loaded, load) and its diagnostic, when the prelude is
  added, and how an imported module is merged in (its default export renamed, its
  statements in place of the import, and the names it fails to export).
- `src/driver.rs` — command-line reading and output file names.
- `src/assemble.rs` — WebAssembly text to binary, through the `wat` crate.
- `src/text.rs`, `src/types.rs`, `src/token.rs`, `src/diagnostics.rs` — shared
  string helpers, the language's types, tokens and diagnostics.
- `app/main.rs` — the `tejxc` command line.
- `tests/` — tests on concrete inputs.

Laws that relate several operations are public proof functions named `law_*`.
