# lua

A small Lua front end and stack virtual machine, verified with Verus.

- `src/` is the verified library: the lexer (`lexer.rs`, with the token grammar as spec
  functions), the parser (`parser.rs`, against the grammar in `parser_spec.rs`), the
  bytecode compiler (`compiler.rs`, against `compiler_spec.rs`, with the laws in
  `compiler_laws.rs`, `expr_laws.rs` and `jump_laws.rs`, and the check of what it takes
  in `supported.rs`), the `Debug` text of tokens and values (`debug_text.rs`), nested scopes
  (`scope.rs`), the interpreter as a step machine (`vm.rs`) and the framing of bytecode
  files (`bytecode.rs`).
- `app/` is the rest: reading source and bytecode files, the host side of the
  interpreter and of binary operators (binary64 arithmetic, number comparison and
  formatting, `print`), and the serialized
  form of compiled functions.
- `tests/` runs the library on concrete programs.

Numbers are carried through the library as the decimal numerals of their binary64
values; the interpreter hands arithmetic and the comparison of numbers to its host.
