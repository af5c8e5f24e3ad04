# cparser

A recursive-descent parser for a small subset of C (functions over `int`,
statements, and expressions with C's precedence levels), written in Verus.

`parse` turns a slice of located tokens into a program, or into a parse error
that names the location and the offending token. The parser reads the tokens
through `itertools::MultiPeek`, which gives it lookahead of any depth.

## Layout

- `src/token.rs`: tokens, keywords, and the text of a token in error messages.
- `src/ast.rs`: the syntax tree, and its mathematical model.
- `src/error.rs`: `ParseError` and the construction of its messages.
- `src/lookahead.rs`: the contracts of the `MultiPeek` calls the parser makes.
- `src/grammar.rs`: the grammar, as spec functions from tokens to an outcome.
- `src/parser.rs`: the parser, verified against the grammar; `parse` and `try_parse`.
- `src/laws.rs`: laws of the grammar: appending tokens after a program,
  concatenating programs and functions parsed one by one, how a parsed program
  splits into one piece of tokens per function, where errors point
  (and which tokens an error leaves), and that every phrase that parses takes
  tokens.
- `src/locality.rs`: a phrase's parse depends only on its own tokens and the
  token after it; a function's parse never looks past its last token, so each
  function of a parsed program parses alone from its own tokens.
- `src/roundtrip.rs`, `src/roundtrip_program.rs`: printing expressions and
  programs as tokens, and the proof that the printed tokens parse back.
- `app/lib.rs`: a `ParseError` with `Display` and `std::error::Error`, and a
  `parse` for callers that do not check that the tokens are complete.
- `tests/`: scenarios and the laws on concrete tokens.
