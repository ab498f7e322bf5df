//! Where the random bytes of a payload come from.

use crate::layout::DATA_LENGTH;
use vstd::prelude::*;

verus! {

/// Calls `rand::random`.
///
/// Nothing is claimed of the bytes: they come from the thread's generator,
/// and no two calls need agree.
#[verifier::external_body]
pub(crate) fn random_bytes() -> (bytes: [u8; DATA_LENGTH]) {
    rand::random()
}

} // verus!
