# rokajit-x64

The x86-64 (System V AMD64) backend of a method JIT, written and proved in Verus.

A method comes as blocks of statements over locals, temporaries and constants. The
library lowers the statements to instruction descriptors, binds those to registers
and frame slots, and assembles the code. It also encodes what the runtime needs to
walk the method's frames: the GC info and the unwind info.

## What is proved

The contracts in `src/` say what each function returns or changes, and none of the
functions can panic or overflow. Functions named `law_` state what holds across
functions, among others:

- the processor reads every instruction as it was meant (`disasm.rs`), branches go
  to their labels, and recorded calls are calls, in the order of the code
  (`emission.rs`)
- the instructions of an integer operation, shift, division or widening leave its value
  in a register, and those of a comparison exactly 0 or 1 (`machine.rs`). This asks of
  the value machine that it keeps clear of a register in use
- the conditions of an integer or a float comparison give its truth value, unordered
  operands included (`flags.rs`)
- callee-saved registers are never named (`spare.rs`, `emission.rs`)
- where a GC pointer or a float is said to be in its frame slot, it was stored there by
  the instruction before or read from there, and values in the way of a write move away
  first (`residency.rs`)
- before every jump all values are asked into their slots, and no two of the labels that
  an emission makes for itself are the same (`emission.rs`); a switch reaches its case
  (`sequences.rs`)
- frame slots are aligned, disjoint and inside of the frame, and the stack is aligned
  at every call (`frame.rs`); no two arguments share a register or a stack word
  (`abi.rs`)
- the GC info reads back (`gcdecode.rs`), and a return register is reported live
  exactly from its call to the store of its result (`livedecode.rs`)
- the unwind info undoes the prolog (`unwind.rs`)

What float instructions compute is not modelled.

## Layout

- `src/`: the library
- `tests/`: its tests
- `app/`: what drives an emission, reports and displays

Where a value lies at a given moment is decided by a value machine outside of the
library, and addresses of methods come from the execution engine. An `Emitter` stops
with a request when it needs one of them and goes on with the reply.
