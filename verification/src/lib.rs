//! Core of a STARK shard verifier: a Merkle-tree vector commitment, a
//! transcript-driven shard verifier generic over field, hash and
//! polynomial-commitment capabilities, and a witness read/write binding
//! layer for recursive composition.
pub mod bits;
pub mod challenger;
pub mod columns;
pub mod field;
pub mod folder;
pub mod hashing;
pub mod io;
pub mod memory;
pub mod merkle_tree;
pub mod pcs;
pub mod sample;
pub mod shard_verifier;
pub mod types;
pub mod witness;
