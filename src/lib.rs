//! A proof-of-work light client: it follows a chain of block headers,
//! checks linkage, proof of work and retargeting, chooses between competing
//! chains by cumulative work, and verifies Merkle inclusion of transactions.
pub mod arith;
pub mod merkle;
pub mod script;
pub mod header;
pub mod store;
pub mod tx;
pub mod client;
pub mod laws;
