# bf_jit

A Brainf*ck runtime whose core is verified with Verus.

- `src/tokeniser.rs` turns source text into tokens, keeping the line and
  column of moves and jumps.
- `src/instruction/parse.rs` compiles tokens into instructions: runs of one
  command become one counting instruction, loops get matched jumps, and
  loops of the shapes `[-]`, `[->+<]`, `[-<+>]`, `[>]` and `[<]` fold into
  single instructions (`src/instruction/optimisation.rs`).
- `src/instruction/commands.rs` and `src/instruction/optimisation.rs` give
  every instruction its effect on the interpreter's state and the
  WebAssembly code that it emits; `src/compiler/web.rs` holds the LEB128
  encodings of the code's literals.
- `src/program.rs` holds a running program and the interpreter's step.
- `src/instruction/folding.rs` proves that a folded loop does what the
  loop's own instructions do.

`app/` runs programs: it reads the source, performs the input and output
that the step function asks for, and, in the browser, hands the emitted
code to JavaScript to compile while the interpreter runs.
