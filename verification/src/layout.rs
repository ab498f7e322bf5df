//! The sizes that fix the shape of an identifier.

use vstd::prelude::*;

verus! {

/// Bytes of payload: the prefix's bytes, then random ones.
pub const DATA_LENGTH: usize = 12;

/// Bytes kept of the payload's digest.
pub const CHECKSUM_LENGTH: usize = 8;

/// Bytes that an identifier encodes: payload, then checksum.
pub const TOTAL_LENGTH: usize = DATA_LENGTH + CHECKSUM_LENGTH;

/// Bytes of a SHA-256 digest.
pub const DIGEST_LENGTH: usize = 32;

/// Characters of an identifier: one for every five bits of its bytes, the
/// last one filled up.
pub const IDENTIFIER_LENGTH: usize = 32;

/// Characters of a prefix that an identifier shows whatever its other bytes
/// are: as many as have all their five bits within the payload.
pub const PREFIX_CAPACITY: usize = 19;

} // verus!
