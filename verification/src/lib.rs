//! Verified building blocks for proofs of storage over sealed sectors: the
//! additive sector encoding over the BLS12-381 scalar field, the partitions
//! of a prover's sector set, the challenges and public inputs of a window
//! proof-of-spacetime, the report of faulty sectors, and a record of the
//! machine that a benchmark ran on.

pub mod challenge;
pub mod encode;
pub mod faults;
pub mod field;
pub mod hashing;
pub mod le_bytes;
pub mod metadata;
pub mod partition;
pub mod sector;
pub mod window;
