# minilua

A small Lua-like language with a terminal editor: a lexer, a parser, a
checker that resolves names and lays out structs, an interpreter, and the
editor's panes, all verified with Verus.

Layout:

- `src/source.rs`: source text, spans, line and column arithmetic.
- `src/text.rs`: character classes and text building.
- `src/lexer.rs`: tokens and the lexer, with the lexing function it computes.
- `src/ast.rs`, `src/grammar.rs`, `src/parser.rs`: the syntax tree, the grammar
  as spec functions over token sequences, and the parser proved to compute it.
- `src/typing.rs`, `src/resolution.rs`: name resolution and struct layouts, and
  the checker proved to compute them.
- `src/semantics.rs`, `src/interpreter.rs`: what running a program does, over
  mathematical values and the host's answers, and the interpreter proved to do
  it.
- `src/editor.rs`, `src/render.rs`: the editor's state, key handling and what
  each pane shows.
- `app/`: the terminal front end (crossterm) and the process host that runs
  `exec` commands.
