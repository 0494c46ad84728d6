//! Merkle-tree membership attestations bound to a Schnorr-style sigma
//! protocol over secp256k1.
//!
//! The crate builds binary SHA-256 hash trees, derives and checks
//! authentication paths, folds a path and root into a discrete-log witness
//! on the curve, and proves knowledge of that witness with a three-move
//! (commit, challenge, response) protocol.

pub mod curve;
pub mod merkle;
pub mod crypto_utils;
pub mod verification;
