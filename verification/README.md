# cradle_idl

A verified implementation of the Cradle interface definition language: the
lexer and parser of IDL files, name qualification, lowering into an
intermediate representation, and two source generators (Rust bindings and raw
FFI declarations). Every function of the library carries a contract that Verus
proves; the laws of the language (how enum members are numbered, what name
qualification guarantees, how identifiers split into words, ...) are stated and
proved as proof functions beside the code they are about.

Layout:

- `src/ast`: lexer (`lexer.rs`), syntax tree (`dom.rs`), the grammar as spec
  functions over the input bytes (`grammar.rs`) and the parser that follows it
  (`parser.rs` and `parser/`).
- `src/passes`: name qualification and lowering into the intermediate
  representation (`src/ir`).
- `src/codegen`: the generators; each returns the files to write.
- `src/case.rs`: identifier case conversions; `src/span.rs`, `src/num.rs`,
  `src/text.rs`, `src/pool.rs`: shared helpers.
- `src/example.rs`: a sample operator.
- `app/`: the command line front end (argument handling and file I/O).
- `tests/`: tests run against the compiled library.
