# Tara

Tara is a small scripting language: `make` declares a variable, `show(...)`
prints a line, `if`/`when`, `else`/`otherwise`, `while`/`during`, `for` and
`func` give control flow and functions. This crate holds its lexer, its
recursive-descent parser and its tree-walking interpreter, together with the
opcode tables of the Tara virtual machine, each with a proved contract.

## Layout

- `src/lexer.rs` — the lexer, and `next_token_at`/`tokens_from`, which say
  what it reads from every position of a text.
- `src/parser_spec.rs`, `src/parser.rs` — the grammar as spec functions over
  token sequences, and the parser proved to compute them.
- `src/semantics.rs` — what running a program does (`eval`, `exec`,
  `run_stmts`), and the laws of scopes and output.
- `src/env.rs`, `src/value.rs`, `src/interpreter.rs` — variables, values and
  the interpreter proved to follow the semantics.
- `src/tvm/` — the bytecode constants, opcodes and syscall ids.
- `app/main.rs` — the command-line program: reads a `.tara` file and runs it.

## Floating point

The library holds no `f64`: a float value is kept as the bit pattern of a
double, and every float operation is asked of a `Host`. The interpreter reaches
the host only through a `Port`, which records each line handed to `show` and
each answer the host gives. The interpreter's contract states the lines shown
exactly, for every mathematical account of the float operations that agrees
with the answers the host actually gave.
