# forth_core

A small Forth interpreter whose core is verified with Verus.

- `src/stack.rs`, `src/word.rs`, `src/dictionary.rs`: the data stack, dictionary
  entries, and the dictionary with its code space, each with a mathematical view.
- `src/text.rs`: splitting a line into tokens and reading decimal numbers.
- `src/semantics.rs`: the interpreter's state as mathematical values and what one
  step of interpretation does to it; `src/laws.rs` and `src/lines.rs`: properties
  proved of it.
- `src/interpreter.rs`, `src/primv.rs`: the interpreter, proved to follow
  `semantics.rs`. Faults of the interpreted program (an empty stack, a bad
  address, ...) come back as `ForthError`; what the program prints comes back as
  `Output` items.
- `app/main.rs`: the interactive program: reads lines, runs the interpreter,
  prints its output, and stops with a panic on a fault.
