# hul

A small dynamically typed scripting language (variables, blocks, `if`/`while`/`for`,
`break`/`continue`, first-class functions with closures, numbers, strings, booleans and
`nil`), implemented as a Verus library whose every stage is proved against a
specification.

## Layout

- `src/lexer.rs` — source text to tokens. `tokenize` specifies the token sequence (kinds,
  texts, 1-based line and column, every error message); `Lexer::collect_tokens` is proved
  to compute it. Laws: tokens come in text order, each at the line and column of its
  first character; the scanner finds no token exactly when only blanks and closed
  comments are left; no end-of-input token is made.
- `src/spacing.rs` — laws on what separates tokens: the tokens read from an index depend
  only on the text from there on, and a closed block comment separates tokens as a
  blank does.
- `src/ast.rs` — the syntax tree and its mathematical view.
- `src/parser.rs` — recursive descent with one function per precedence level and error
  recovery at statement boundaries; `parse_tokens` specifies the result (program or all
  syntax errors, one per line) and `Parser::parse_program` is proved to compute it.
  A number in a message is written as `{:?}` writes its double (`numeral_debug`).
- `src/value.rs` — values, truthiness, and the scopes (`Environment`): an arena of frames,
  each with its bindings and its enclosing frame (invariant `frames_ok`: a frame binds a
  name at most once, and its enclosing frame comes before it); laws of `let`,
  assignment and nesting.
- `src/interpreter.rs` — the big-step semantics (`eval`, `exec`, …) as spec functions and
  a tree-walking `Interpreter` proved to follow it.
- `src/laws.rs` — laws of the semantics: runs never lose scopes, functions or output;
  `and`/`or` short-circuit and return an operand; a `let` binds its value.
- `src/lib.rs` — `run`: lex, parse and interpret a source text.
- `app/main.rs` — the `hul` command (script file, or a prompt that keeps one
  interpreter, and so its bindings, from line to line).

## Numbers and output

A number is an IEEE 754 double held by its bit pattern. Reading a numeral, arithmetic,
comparison, formatting and `print` are requests to a host function
(`Fn(HostCall) -> HostReply`) supplied by the caller; the command and the tests supply
one built on `f64` and standard output. The semantics is stated for whatever the host
answers, provided it answers equal requests equally. The interpreter keeps a ghost log
of the `Print` requests it hands to the host; `interpret` and `run` state that log
exactly.

Every step of the semantics spends one unit of fuel; a run starts with `u64::MAX`.
