# redbelly

A small scripting language. The library scans source text into tokens, parses the
tokens into a syntax tree, and keeps variables in nested scopes; its functions carry
contracts proved with Verus, except two small trusted wrappers around std: appending a
character to a `String` and reading bytes as UTF-8 text. The program under `app/` reads scripts from a file or
from standard input and runs them.

Layout of `src/`:

- `token.rs`: token kinds, token types and tokens.
- `scan_rules.rs`, `lexer.rs`, `scan_laws.rs`: what scanning a text gives (`lex`), the
  scanner that computes it, and properties of scanning (comments and blanks are ignored,
  every token is well formed, ...).
- `ast.rs`, `grammar.rs`, `parser.rs`: the syntax tree, the grammar stated over token
  sequences, and the recursive-descent parser proved to follow it.
- `environment.rs`: scopes of variables, with the laws that reading, defining, assigning
  and entering or leaving a scope obey.
- `printer.rs`: writing an expression as text in prefix form.
- `text.rs`: building text.
- `lib.rs`: reading a program's bytes, scanning and parsing it in one step.

Numbers are kept as the decimal text they were written as; the interpreter in `app/`
turns them into `f64` values when it evaluates expressions.
