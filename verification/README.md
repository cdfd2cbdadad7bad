# trunk_parser

A parser for PHP token streams, verified with Verus.

- `src/token.rs` – tokens as the lexer hands them over.
- `src/ast.rs` – the syntax tree and its mathematical model.
- `src/error.rs` – parse errors and their messages.
- `src/grammar.rs` – the grammar, as spec functions over the token stream.
- `src/progress.rs` – every grammar rule stays within the stream and moves forward.
- `src/parser.rs` – the parser, proved to compute what the grammar describes.
- `src/laws.rs` – properties of the grammar as a whole.
- `src/frame.rs` – each grammar rule depends only on the tokens it reads.
- `src/join.rs` – top-level statements parse independently of their neighbours.
- `app/lib.rs` – `Display` and `std::error::Error` for parse errors.

Tokens are built by the caller; the tests write out the tokens of each PHP
snippet by hand.
