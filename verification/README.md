# tokens

A verified tokenizer. It reads source code in one of two modes: in the body of a
document most of the text is just text, in the header of a function it consists of
expressions.

- `src/` is the library, verified with [Verus](https://github.com/verus-lang/verus).
  `grammar.rs` says which token stands where, `tokens.rs` holds the tokenizer that
  is proved to yield exactly these tokens, with exactly these positions, and
  `laws.rs` states what holds of all tokens: that they follow each other without a
  gap, that no character of the source code is lost, how comments nest, and so on.
  `rest.rs` states that a token depends on nothing but the mode and the source code
  from its first character on.
- `app/` turns the digits of numbers into floating-point values and makes the
  tokenizer an `Iterator`.
- `tests/` runs the library.

Whether a character beyond ASCII may stand in an identifier is looked up in the
tables of the crate `unicode-xid`. That is the only outside code that the library
trusts, in the two functions `is_xid_start` and `is_xid_continue` of `expr.rs`.
