# byteflow

A register bytecode, a virtual machine for it, and a scheduler of flows that
exchange messages under capabilities and quotas. The library is verified with
Verus; the program around it is ordinary Rust.

- `src/bytecode`: values, instructions, the assembler, the module format, the
  verifier of modules and the disassembler. Decoding gives back what encoding
  wrote.
- `src/vm`: the machine. A step is a function from state to state and effect.
- `src/scheduler`: flows, mailboxes, capabilities, quotas, names, monitors,
  links, timers, supervisors, and the transitions that a worker performs.
- `src/jit`: hot code is compiled to operations on integer slots, which a
  machine runs and which are lowered to Cranelift's intermediate language.
  `meaning.rs` says what the lowered instructions do; under that reading they
  do what the operations do, and these what the trace does.
- `src/attest.rs`, `src/prng.rs`, `src/entropy.rs`, `src/memory.rs`: integrity
  tags, random words and the memory budget.
- `app`: the command line, the worker threads, doubles, and machine code. The
  workers share the scheduler behind one lock, which a worker holds while it
  runs a slice, but not while the host works for a flow. Compiled traces run
  there as operations on slots; machine code is made and entered by the command
  `demo jit-loop` only.
- `tests`: the library seen from outside.

Nothing is proved of a few functions of the standard library (the random
hasher, capacities of buffers, UTF-8 decoding, the debug form of a string,
sharing of an image) and of Cranelift's builder in `src/jit/clif.rs`: their
contracts are taken as given, as are the machine code that Cranelift makes and
the processor that runs it.
