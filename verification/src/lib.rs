//! Verified core of a block-proof pipeline: a deterministic encoding
//! from hash strings into the proving system's scalar field, the
//! commitment computed over a block's transaction encodings, the
//! slot-tracking and resynchronization state machine, and the assembly
//! of per-block proof bundles.

pub mod bundle;
pub mod commit;
pub mod digest;
pub mod field;
pub mod resync;
pub mod tracker;
