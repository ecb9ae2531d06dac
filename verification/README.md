# encore_compiler

A compiler from the Fleche language to the bytecode of the Encore VM, with a
disassembler for that bytecode, written in Verus. The functions of the
library carry contracts that Verus proves, except for a small set of trusted
wrappers around the standard library (the Unicode classes `Alphabetic`,
alphanumeric and `Uppercase`, the `Debug` text of characters and strings,
collecting characters into a vector and back, and UTF-8 decoding), marked
`#[verifier::external_body]`, whose contracts restate what the standard
library documents and are not proved.

## Layout

- `src/fleche/` — the Fleche front end: `lexer` (tokens, with an exact
  specification of what each read gives), `parser` (recursive descent into
  direct-style expressions, specified by a grammar of spec functions, with the
  proof that no step of it fails to advance), and the functions that read a
  whole source.
- `src/frontend.rs` — what a front end hands the compiler, and the registry of
  constructors: tags handed out in turn, names kept sorted.
- `src/ir/` — the intermediate languages: direct style (`ds`, `dsi`),
  continuation-passing style (`cps`, printed by `cps_text`), and the register
  level (`asm_ir`), with primitive operations (`prim`).
- `src/pass/` — the passes: name resolution, uncurrying, CPS conversion, the
  CPS simplifications and rewrites and the optimizer that runs them, register
  allocation, the peephole pass and bytecode emission.
- `src/pipeline.rs` — the passes in order, and the Rust bindings that can go
  beside a program.
- `src/program.rs`, `src/disasm.rs`, `src/listing.rs`, `src/viewer.rs` — the
  program file format (parsed and serialized, proved inverse), the decoder,
  the text of a listing and the panels and key handling of the interactive
  viewer.
- `app/` — the `encore` command line: files, the terminal, and the VM.
- `tests/` — tests of the library on concrete values.

The opcodes of the VM and the tags of its built-in constructors are given to
the library as values (`Opcodes`, `BuiltinCtors`); `app/` takes them from the
VM crate.
