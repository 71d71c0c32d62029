# tuple_lang

A small language of numbers, colon symbols (`:name`), tuples, calls and function
definitions, taken from text to lexemes, to a syntax tree, to the code of a stack machine,
and run there. The library is written in Verus; each step states in its contract the
grammar or the rule it follows.

- `src/text.rs`: UTF-8 byte offsets, white space, appending characters to a string.
- `src/parsing/stream.rs`: a text read character by character (with the byte offset of each
  character) and a sequence of lexemes read one by one.
- `src/parsing/lexer.rs`, `parser.rs`, `pattern_parser.rs`: the grammars, as spec functions,
  and the readers that follow them; a reader that does not match leaves its input where it was.
- `src/parsing/invariance.rs`: what lexing does not see: a sign put before a number literal
  only joins it, and changing the runs of white space only moves the lexemes.
- `src/compiling/compiler.rs`: the code of expressions and definitions.
- `src/compiling/evaluation.rs`: running the code of an expression pushes its value.
- `src/vm.rs`: the stack machine.
- `app/main.rs`: the read-eval-print loop.

Number literals are kept as their text; only `app/` turns them into floating-point values.
