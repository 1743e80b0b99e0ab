//! Proof-of-work search for hash-chained blocks.
//!
//! A block's digest is the SHA-256 of a canonical text built from its
//! fields and a candidate proof. A proof is valid when the low-order
//! `difficulty` bits of that digest are zero. The crate states, and Verus
//! proves, the text encoding, the validity predicate, the balanced
//! partition of a search interval into chunks, the scan that one chunk
//! performs, and how the queue of a worker pool takes tasks and shuts down.

pub mod text;
pub mod hashing;
pub mod difficulty;
pub mod partition;
pub mod queue;
pub mod block;
