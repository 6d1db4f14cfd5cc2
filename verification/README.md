# basalt

The middle and the RV32IM end of a compiler for GPU kernels, verified with Verus.

Kernels come as syntax trees, of CUDA C or of Triton. They are checked, lowered to BIR (an
intermediate representation of basic blocks over typed instructions) and, one kernel at a time,
turned into RV32IM machine code with a soft-float runtime.

## Layout

- `src/bir.rs`, `src/diag.rs`: BIR, and diagnostics.
- `src/sema/`: the front end.
  - `c_ast`, `ty`, `scope`, `labels`, `checker`: CUDA C and its type checker.
  - `triton_ast`, `triton_ty`, `triton_check`: Triton and its tile shapes.
  - `builder`, `lower`, `triton_lower`: lowering both to BIR.
  - `grow`, `blocks`, `checked`, `lowered`: what checking and lowering keep.
  - `sound`, `uses`, `triton_uses`: that what lowered functions use has been made.
  - `triton_masks`: that a mask keeps its address from being touched.
- `src/rv/`: the back end.
  - `enc`: the instruction encoder, modelled by assembly text; `word`: what a word does.
  - `softfloat_ref`: single-precision arithmetic on bit patterns; `softfloat`: the same as
    assembly routines.
  - `check`, `lower`: what the backend refuses, and the code of a kernel.
  - `machine`, `softfloat_run`: that the routines compute the arithmetic.
  - `exec`, `flow`, `atomic`, `inst`: that the code of an instruction does its operation.
  - `thread`: that the code of a kernel runs its threads, block by block.
- `src/assoc.rs`, `src/bits.rs`, `src/numeral.rs`, `src/text.rs`: maps, casts, numerals and text.
- `app/`: floating-point literals, which verified code cannot hold.

## What is proved

Every function has a contract that says what it returns. On top of those stand laws, in proof
functions whose names start with `law_`. Some of them:

- Every routine of the runtime is a leaf that returns the rounded value of its operation, for all
  bit patterns, and keeps `ra` and `sp`.
- The runtime has the same bytes wherever it starts.
- What `supports` refuses, `emit` refuses with the same code; the same functions become the same
  object, whatever else their modules say.
- The words of a line of assembly text do what the line says, and are read back from the bytes.
- The code of an instruction stores the result of its operation in the instruction's cell of the
  frame, and writes nothing else.
- However far a kernel has gone through its threads and blocks, the code has followed it; the
  arguments arrive in their homes, and the return takes the frame down again.
- A program that goes on from another keeps its functions and its diagnostics.
- In lowered functions every instruction is listed once, in print order; operands and branches
  stay inside the function.
- A masked load or store is in a block that is only entered where its mask holds.
- Broadcasting tile shapes commutes, is idempotent and associates.
