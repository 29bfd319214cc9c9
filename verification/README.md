# nyx_lang

A toolchain for the small Nyx language, written in Verus: every function of
the library under `src/` carries a contract that Verus proves.

- `span`, `source`, `symbol`, `token`, `text`: byte spans, source files with
  line and column lookup, string interning, tokens, and decimal integers.
- `lexer`: turns source text into tokens, one step at a time; each step is
  specified by `lex_outcome`, and `Lexer::tokenize` collects the steps.
- `ast`, `parser`: the syntax tree and a precedence-climbing parser whose
  methods follow the grammar written as spec functions in `parser.rs`.
- `compiler`: constant folding, code generation into bytecode, and reading
  bytecode back as a listing.

Floating-point arithmetic is not part of the library. The values of float
literals reach the parser through a `FloatLiterals` table, as `f64` bit
patterns; the table records a value whose pattern is an infinity as an
overflow, so that no parsed literal is infinite. Constant
folding names each floating-point computation it needs as a `FloatQuery`,
whose result the caller records in a `FloatResults` table before compiling
again.

`app/` is the command-line program: it reads a file, runs the library,
computes the floating-point results, and prints diagnostics, syntax trees and
the bytecode listing. The library lays out the listing's text; the program
supplies only how each floating-point constant is written.
