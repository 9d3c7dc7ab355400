# aglang

A small esoteric language with an interpreter, an x86-64 assembly generator
and a C translator. The library in `src/` is written in Verus; every
function there is verified against its contract, except the one trusted
wrapper `replace_all_matches` in `src/parser.rs`, whose contract about the
`regex_lite` call it makes is assumed.

- `src/parser.rs` reads program text into statements (comments, from a `$`
  to the next `$`, are removed with `regex_lite`).
- `src/interpreter.rs` runs statements one step at a time; the surroundings
  print, read input and loop.
- `src/compiler.rs` translates statements into assembly for Linux or Windows.
- `src/transpiler.rs` translates statements into C.
- `src/error.rs` holds the error kinds and the diagnostic format.
- `src/properties.rs` proves how the parts fit together.
- `app/main.rs` is the command-line program: files, processes, terminal.
