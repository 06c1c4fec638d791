# noirc_evaluator (SSA core, verified)

The id-keyed containers of an SSA intermediate representation, a small
data-flow graph built on them, and the merging of the values that the two
branches of an `if` produce when the control-flow graph is flattened. Every
function is verified with Verus, except the few thin wrappers that call
`acvm`, `im` and std's hash maps, whose contracts are trusted.

Modules under `src/`:

- `map` — `Id`, `DenseMap` (ids are positions; nothing is ever removed) and
  `SparseMap` (a hash map keyed by id index; removal keeps other ids valid).
- `types`, `value`, `instruction`, `basic_block`, `call_stack` — the pieces of
  the IR, each with a mathematical model (`TypeView`, id indices, …).
- `field` — numeric constants as the 32-byte big-endian encoding that
  `acvm`'s `FieldElement` gives.
- `dfg` — the data-flow graph. Its invariant makes every operand come before
  the value it defines, so each value has a meaning, a `Term`.
- `value_merger` — `ValueMerger`: numbers become
  `cast(c) * a + cast(!c) * b`; arrays and slices are merged element by
  element, the shorter slice padded with placeholders. Each function states
  the exact `Term` of its result, that all new instructions are appended to the
  merger's block, and how many instructions and values it adds.
- `evaluation` — an evaluation of terms, and the laws that a merged value is
  `if c { a } else { b }` (slices padded with zeros).

Tests under `tests/` run the library, including an interpreter that evaluates
merged values on concrete inputs.
