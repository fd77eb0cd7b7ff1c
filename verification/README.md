# fast_desmos2 (lexer)

A lexer for the LaTeX-like input of a graphing calculator, verified with Verus.

- `src/lexing.rs` — tokens, the `Lexer` and `lex`.
- `src/lexing/grammar.rs` — what the lexer reads, stated over the bytes of the
  source; the contracts of `Lexer::lex_one` and `lex` refer to it.
- `src/lexing/laws.rs` — proved properties: reference texts of punctuation and
  names of built-in functions lex back to themselves, token spans are ordered
  and inside the source, the gaps between tokens are blanks, decimal tokens are
  decimal literals, tokens cover a backslash-free source without its spaces, and
  running out of input is reported only at the end.
- `src/lexing/builtins.rs` — built-in function names and their lookup.
- `app/` — printing tokens, the `f64` values of number tokens, and the glyph
  metrics and layout code, which work on floating point.
