# A lexer and parser for arithmetic expressions, with proofs

The library (`src/`) reads source text into tokens and tokens into an
expression tree:

- `token`: token kinds (with the law that different kinds have different
  names), literal values (a floating-point literal is kept as
  its decimal text), source locations, the keyword table (`keyword`,
  `keyword_kind`) and `token_type_to_str`.
- `lexing`: the mathematical definition of lexing (`lex`, `lex_from`) over
  the characters of the text, with the laws proved about it (among them
  that lines and columns count the newlines and characters before the
  cursor).
- `lexer`: the `Lexer`, proved to produce exactly the tokens `lex_from`
  defines; `try_tokenize` reports the texts on which lexing fails,
  `tokenize` requires a text that lexes.
- `parser`: the grammar as spec functions (`parse_expr` and friends), the
  `Parser` proved against it, and the laws: a parse never reads past the
  end-of-input token, and an expression written out with parentheses parses
  back to itself.

`app/main.rs` runs the example program and evaluates the tree with
floating-point arithmetic, which stays outside the verified library.
