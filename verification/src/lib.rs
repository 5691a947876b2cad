//! BudZKVM: a small deterministic register machine with gas metering and an
//! execution trace, a 64-depth sparse Merkle tree over accounts, and the
//! abstract syntax of the BudL contract language.

pub mod ast;
pub mod field;
pub mod isa;
pub mod keccak;
pub mod memory;
pub mod smt;
pub mod state;
pub mod vm;
pub mod vm_laws;
