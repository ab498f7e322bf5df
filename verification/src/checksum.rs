//! The checksum of a payload: the head of its SHA-256 digest.

use crate::layout::{CHECKSUM_LENGTH, DIGEST_LENGTH};
use sha2::Digest;
use vstd::prelude::*;

verus! {

/// The SHA-256 digest of `message`.
pub uninterp spec fn sha256(message: Seq<u8>) -> Seq<u8>;

/// Calls `sha2::Sha256::digest`.
///
/// Trusted: the array holds the SHA-256 digest of `message`, which depends on
/// the bytes of the message and on nothing else.
#[verifier::external_body]
pub(crate) fn sha256_digest(message: &[u8]) -> (digest: [u8; DIGEST_LENGTH])
    ensures
        digest@ == sha256(message@),
{
    sha2::Sha256::digest(message).into()
}

/// The bytes that a checksum keeps of a digest: the first eight.
pub open spec fn truncated(digest: Seq<u8>) -> Seq<u8> {
    Seq::new(CHECKSUM_LENGTH as nat, |i: int| digest[i])
}

/// The checksum of a payload.
pub open spec fn checksum_of(payload: Seq<u8>) -> Seq<u8> {
    truncated(sha256(payload))
}

/// Keeps the first eight bytes of a digest.
pub fn truncate(digest: &[u8; DIGEST_LENGTH]) -> (checksum: [u8; CHECKSUM_LENGTH])
    ensures
        checksum@ == truncated(digest@),
{
    let mut checksum = [0u8; CHECKSUM_LENGTH];
    let mut i: usize = 0;
    while i < CHECKSUM_LENGTH
        invariant
            i <= CHECKSUM_LENGTH,
            forall|j: int| 0 <= j < i ==> checksum@[j] == digest@[j],
        decreases CHECKSUM_LENGTH - i,
    {
        checksum[i] = digest[i];
        i += 1;
    }
    assert(checksum@ =~= truncated(digest@));
    checksum
}

} // verus!
