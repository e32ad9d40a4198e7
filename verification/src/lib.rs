//! Coverage-guided fuzzing core for programs that run on a field-element
//! virtual machine: a mutation engine over 32-byte big-endian field elements,
//! the shared coverage / corpus / crash ledger, and the per-worker update step.

pub mod assoc;
pub mod buffer;
pub mod field;
pub mod magic;
pub mod model;
pub mod mutator;
pub mod rng;
pub mod stats;
pub mod worker;
