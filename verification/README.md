# trtl

A small turtle-graphics language: a lexer, a recovering parser over token
runs, a stack machine, a pixel canvas and the byte encoding that carries
highlighted source text to the editor.

- `src/lang`: the lexer (`lex`), token runs and readings (`run`), parse
  results (`parse`), the syntax tree (`ast`), the grammar of expressions,
  statements and function headers (`grammar`) and the compiler from the
  syntax tree to machine code (`compile`). Each parser is specified by a
  model of the grammar over the token sequence; the laws state that lexing is
  lossless, that parses span the tokens they start at and that operator
  precedence and grouping come out as intended. The compiler is specified by
  a model of the code each construct compiles to.
- `src/machine`: the canvas with its line drawing, and the stack machine.
  The machine runs every integer instruction itself and hands float work back
  to its caller as a request.
- `src/wasm`: the encoding of highlighted text.
- `app`: the command-line entry point, the turtle (floating point), the
  driver that answers the machine's requests, and the interface to the web
  page.
