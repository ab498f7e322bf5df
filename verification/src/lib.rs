//! Short, human-readable identifiers that open with a caller-chosen prefix.
//!
//! An identifier is the lowercase base-32 rendering of twenty bytes: a
//! twelve-byte payload whose leading bytes spell the prefix and whose remaining
//! bytes are random, followed by the first eight bytes of the payload's SHA-256
//! digest.
//!
//! [`generate_with_prefix`] draws the random bytes itself;
//! [`generate_with_entropy`] takes them from the caller and is a function of
//! its arguments. What holds of every identifier is proved in [`laws`].
//!
//! Base 32, SHA-256 and the random bytes come from the crates
//! `data_encoding`, `sha2` and `rand`, and the lowercase copy of a string from
//! `std`. The calls stand in [`base32`], [`checksum`], [`entropy`] and
//! [`alphabet`], each with the contract that the proofs rest on.

pub mod alphabet;
pub mod base32;
pub mod bits;
pub mod checksum;
pub mod entropy;
pub mod error;
pub mod identifier;
pub mod laws;
pub mod layout;
pub mod prefix;

pub use error::GenerateError;
pub use identifier::{generate_with_entropy, generate_with_prefix};
