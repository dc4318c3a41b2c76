# bobtools

The Bob toolchain as a verified library: the executable and object file
formats, an assembler, a linker, a 16-bit machine, and the compilers for the
Bob language and for archive sources. The library is written in Verus; each
public function states what it returns or changes in `requires` / `ensures`
over mathematical models (`Seq`, `Map`, `int`, spec functions), and Verus
proves the code against those contracts.

## Layout

- `src/wire.rs`, `src/text.rs`: big-endian words and bytes; text helpers over
  character sequences, with the few calls into `std` that the library makes.
- `src/bobin`, `src/bobj`: the executable (`.bobin`) and object (`.bobj`)
  formats, readers and writers, with their round-trip laws.
- `src/basm`: the assembler: lexer, parser, symbol pass and object emission.
- `src/bl.rs`: the linker: symbol resolution and relocation.
- `src/bob16`: the machine: instruction decoding, one step of execution as a
  function of the machine state (over a memory of any length, with the words
  a step touches required to be in it), and bounded runs that hand input and output
  back to the caller as effects.
- `src/boblc`: the Bob compiler: source files and diagnostics, lexer, parser
  (proved against the grammar of items, statements and expressions, written
  as spec functions in `grammar.rs` and `parser.rs`), name resolution and type checking, three-address code, its optimisation
  passes and code generation, module loading; `src/boblc/archive` is the
  archive compiler with its own lexer, parser, optimiser and code generator.
- `tests/`: tests of the library on concrete inputs.
- `app/`: the command-line programs around the library: argument handling,
  files, terminal output, and the loop that runs the machine and performs its
  effects.

## Checking

Verus verifies `src/`; the tests run with the outside crates linked (`colored`
for terminal colours, `clap` for the command line of the linker).
