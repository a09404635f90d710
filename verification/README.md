# ccompiler

The front end of a small compiler for a subset of C, written in Verus: a lexer,
a recursive-descent parser and a semantic analyzer, each proved to compute
exactly what its mathematical specification says.

- `src/ast.rs`: the syntax tree and its mathematical model.
- `src/text.rs`: decimal numerals and the text helpers used by messages.
- `src/lexer.rs`: tokens, the lexing specification (`spec_tokenize`) and the lexer.
- `src/parser.rs`: the grammar as specification functions (`spec_parse`) and the parser.
- `src/semantic.rs`: scopes, the analysis specification (`spec_analyze`) and the analyzer.
- `app/main.rs`: the command-line driver (reads a file, runs the three phases).
- `tests/`: tests on concrete programs.
