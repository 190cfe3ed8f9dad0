# scifi

The front end of a small language for describing online-game data:
collectables and their groups, users, events, functions and objects.

- `src/compile/` reads source text: a lexer (`lexer.rs`, `token.rs`) and a
  recursive-descent parser (`parser_rd.rs`) that builds the program tree.
  `parser.rs` holds the span lookup over token boundaries that error
  messages use.
- `src/ast/` is the program tree: types (`ty.rs`), scopes and variables
  (`var.rs`), expressions and operators (`expr.rs`, `oper.rs`,
  `primary.rs`), the arena that holds them (`tree.rs`), name resolution
  (`resolve.rs`, and `Ast::typecheck` in `tree.rs`) and the text form of
  expressions (`text.rs`).
- `src/split_vec.rs`, `src/later.rs`, `src/graph_cell.rs`, `src/util.rs`,
  `src/logger.rs` are the utility pieces.
- `app/` holds what touches the outside: reading program files and their
  includes, printing a compiled program as JSON, the logger and the future
  wrapper.

The functions in `src/` are verified with Verus against their contracts.
Three items are trusted rather than proved, each with a doc comment that
says what it claims: the contract of std's `<[T]>::swap`, the declaration of
std's `IterMut`, and the wrapper around `<[T]>::iter_mut`.
