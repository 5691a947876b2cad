# budzkvm

A deterministic 64-bit register machine with gas metering and an execution
trace, the Goldilocks-field arithmetic and Poseidon hash it uses, a 64-depth
sparse Merkle tree over accounts with a one-level transaction, and the
abstract syntax of the BudL contract language, verified with Verus.

- `src/isa.rs` opcodes, instructions, word encoding
- `src/field.rs` field inverse, Poseidon
- `src/memory.rs` little-endian memory words
- `src/vm.rs` machine semantics (`step_spec`, `run_spec`) and the machine
- `src/vm_laws.rs` properties of the semantics
- `src/keccak.rs` Keccak-256 (through `tiny-keccak`)
- `src/smt.rs` sparse Merkle tree, proofs and their verification
- `src/state.rs` accounts, state, transactions
- `src/ast.rs` BudL syntax tree
- `app/` JSON persistence of the state, serde forms of the records, and
  checked entry points for the machine
