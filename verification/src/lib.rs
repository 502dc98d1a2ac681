//! The off-chain engine of a zero-knowledge rollup shard: a private ledger of
//! accounts committed to a quad Merkle root, batches of deposits, withdrawals
//! and signed transfers applied to it atomically, and a proving backend
//! driven with the captured witness so the transition can be attested without
//! replaying the batch.

pub mod account;
pub mod bank;
pub mod circuits;
pub mod crypto;
pub mod field;
pub mod tree;
pub mod utils;

pub use field::FieldValue;
