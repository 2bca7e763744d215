//! Deterministic, revocable passphrase derivation.
//!
//! A master password and a domain go through a memory-hard KDF; the derived
//! key picks words from a word list without modulo bias; fingerprints of
//! retired keys make the derivation move on to the next candidate.

pub mod primitives;
pub mod encoding;
pub mod revocation;
pub mod kdf;
pub mod selector;
pub mod passphrase;
pub mod generator;
