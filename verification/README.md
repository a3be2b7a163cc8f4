# score_lang

A small text notation for music: a tokenizer for score text, a
recursive-descent parser over the tokens, and the pitch arithmetic of note
names, written in Verus and proved against their contracts.

- `src/` holds the verified library: `text` (characters, and numerals
  compared by value), `token` (token kinds), `pattern`
  (leading-text matching through the `regex` crate), `decimal`, `lexer`
  (the tokenizer), `parser` and `pitch`.
- `app/` holds the WebAssembly glue: the browser entry point that logs the
  tokens of a text, the frequency arithmetic in floating point (including
  reading an octave from a digit through `detect_octave`), and the FM
  synthesiser built on the Web Audio API.
- `tests/` runs the library on concrete texts.
