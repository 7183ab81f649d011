# op_encoder

A verified library for two parts of a bytecode interpreter:

- **Fuel metering** (`fuel`): the fuel counter and the fuel costs of translating, validating and
  copying bytes.
- **Operator encoding** (`encoder`): operators are encoded into one contiguous byte stream. The last
  operator may be staged, so that it can be inspected, replaced or dropped. Branches refer to labels,
  which may be pinned later; `update_branch_offsets` stores the distances to the labels, and
  `relocate_branch_offsets` turns them into addresses once the operators are in their final place.

Operators are dispatched directly (they start with the address of their handler and are aligned as
machine words are) or indirectly (they start with their op-code and are packed). Numbers are stored in
little-endian byte order, and a branch offset is as wide as a machine word.

The contracts speak about models: `EncoderState`, `OpsState`, `LabelsState` and `FuelState`. The
modules `laws` and `session` prove what relates the operations to each other. The main result is
`law_encoded_branch_reaches_label`: whatever happens between encoding a branch and relocating the
encoded operators, the branch ends up storing the address of its label.

Whether there is memory for more operators is up to the allocator, and so is the address of the
final allocation. `EncodedOps::write_reserved` and `relocate_branch_offsets_at` say what happens for
every outcome.

`app/` implements formatting traits of the standard library for the error and cost types.
