# brief

A verified library for the Brief language toolchain: the Brief compiler's
front end (parser, type and contract analyses, proof engine, symbolic
evaluation, foreign-function bindings), the Brief control language (`bvc`),
the kernel's shell language (`msh`) and its scheduling and security state
machines, and the native function library.

Every function in `src/` carries a `requires`/`ensures` contract checked by
Verus. Parsers are stated by spec functions over their input (tokens and
source bytes): each parsing function returns exactly what its spec function
gives, or an error exactly where the spec function gives none.

Layout:

- `src/compiler/` — parser (`parser`, `parser_items`, `parser_top`,
  `parser_html`), AST, analyses, proof engine, FFI registry and mappers,
  resolver, language analyzers (`wrapper`).
- `src/bvc/`, `src/msh/`, `src/kernel/`, `src/ffi_lib/` — the control
  language, the shell language, the kernel state machines, native functions.
- `tests/` — tests run against the compiled library.
- `app/` — the command-line program: file and terminal I/O around the library.
