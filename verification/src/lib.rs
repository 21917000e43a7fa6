//! Parallel brute-force search for the nonce whose preimage, built from a
//! fixed prefix, has the numerically smallest SHA-256 digest.
//!
//! The crate covers the search logic itself: the big-endian ordering of
//! digests, the variable-length base64 nonce encoding, the disjoint
//! partitioning of candidate integers across workers, the hashing loop each
//! worker runs, and the aggregation state machine that tracks the global
//! minimum over the workers' reports.  Thread spawning, terminal rendering
//! and key handling live outside the library.

pub mod aggregate;
pub mod args;
pub mod codec;
pub mod hash;
pub mod order;
pub mod partition;
