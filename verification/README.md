# lc3box

A toolbox for the Little Computer 3 (LC-3) written in Verus: an assembler, a
disassembler, a virtual machine and an interactive debugger, with their
behaviour stated as contracts and proved.

## Layout

- `src/` — the verified library.
  - `bits`, `text`, `opcode`, `pseudo`, `register`, `trap`, `object`,
    `memory_map`: the instruction-set vocabulary, numerals and the `.obj`
    format.
  - `instruction`, `listing`: decoding words and rendering listings.
  - `lexer`, `parser`, `codegen`: the two-pass assembler.
  - `memory`, `registers`, `machine`: the virtual machine, with keyboard and
    display traffic going through a `Console` the caller services.
  - `cmd`, `debug`, `repl`: the debugger's command language, engine and
    command loop.
  - `reading`, `round_trip`, `reassembly`: the proof that re-assembling a
    listing gives back the image it was rendered from.
  - `emulator`: the first-generation machine model.
- `tests/` — the test suite.
- `app/` — the command-line driver (`asm`, `disasm`, `run`, `dbg`): files,
  the terminal and argument handling.
