# iake

A lexer and recursive-descent parser for a small imperative language
(`i32` declarations, assignments, `if`/`else`, `while`, `+`, `*`, `==`, `<`,
`#` line comments), verified with Verus.

Layout of `src/`:

- `text.rs`: character classes and decimal spelling of integers.
- `token.rs`: tokens, their one-byte codes and their display.
- `input.rs`, `input/file_input.rs`: the character source and its cursor.
- `lexer.rs`, `lexer/`: the lexer and its four automata (integer,
  identifier/keyword, operator, punctuation). Each automaton's behaviour is
  a spec function (`integer_scan`, `identifier_scan`, ...), and one lexing
  step is `lex_next`. `lexer/prefix.rs` proves that whitespace and comments
  in front of a text change no lexing result.
- `parser.rs`, `parser/`: the parser; each grammar rule is a spec function
  (`p_program`, `p_stm`, ...) that the executable parser is proved to follow.
  `parser/grammar.rs` gives the grammar as derivations over tokens and proves
  that the parser accepts exactly its sentences, with their trees.
- `ast.rs`: the syntax tree and its pre-order printout.
- `report.rs`: the token listing that the `app/` program writes, with the
  text's line count as `str::lines` counts it.

`app/main.rs` reads the example files and writes their listings.
