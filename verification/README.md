# lib

A small compiler for a toy language with French keywords (`fonction`,
`retourner`, `entier`, `decimal`, `Texte`, `vide`), written in Verus.

- `src/` is the verified library: lexer, parser, semantic analysis,
  lowering to three-address code, the binary container (writer, reader and
  its byte layout) and a stack machine that runs one instruction per step.
  Each stage is specified by spec functions over mathematical views, and the
  laws of the library (reading back what was written, the header layout,
  temporaries written once and before they are read, a load after a store,
  a return after a call) are proof functions.
- `app/main.rs` is the command-line program: it reads files, runs the
  stages, and drives the machine, doing decimal additions itself.
- `tests/` holds the tests.

The binary header is 34 bytes long, but the offsets it declares count from
38; a decimal constant is read in place, so what follows it is read from its
payload on. Both are part of the format as written and read here.
