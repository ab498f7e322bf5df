//! Identifiers: a payload that opens with a prefix, sealed with its checksum
//! and written in lowercase base 32.

use crate::alphabet::{ascii_lowercase, lowercased, to_lower};
use crate::base32::{as_chars, base32_encode, encoded};
use crate::checksum::{sha256, sha256_digest, truncate, truncated};
use crate::entropy::random_bytes;
use crate::error::GenerateError;
use crate::laws::{is_identifier, lemma_identifier_char, lemma_identifier_shape};
use crate::layout::{CHECKSUM_LENGTH, DATA_LENGTH, DIGEST_LENGTH, PREFIX_CAPACITY, TOTAL_LENGTH};
use crate::prefix::{decode_prefix, leading_bytes, verdict};
use vstd::prelude::*;

verus! {

/// The payload that `entropy` becomes once `leading` is written over its
/// first bytes, as far as both reach.
pub open spec fn payload_of(leading: Seq<u8>, entropy: Seq<u8>) -> Seq<u8> {
    Seq::new(
        DATA_LENGTH as nat,
        |j: int|
            if j < leading.len() {
                leading[j]
            } else {
                entropy[j]
            },
    )
}

/// The text of an identifier that encodes `bytes`.
pub open spec fn rendered(bytes: Seq<u8>) -> Seq<char> {
    lowercased(as_chars(encoded(bytes)))
}

/// The identifier of a payload, given the digest of that payload.
pub open spec fn sealed(payload: Seq<u8>, digest: Seq<u8>) -> Seq<char> {
    rendered(payload + truncated(digest))
}

/// The identifier that a prefix yields with the given random bytes.
pub open spec fn identifier(prefix: Seq<char>, entropy: Seq<u8>) -> Seq<char> {
    let payload = payload_of(leading_bytes(prefix), entropy);
    sealed(payload, sha256(payload))
}

/// What generating with the given random bytes comes to: the verdict on the
/// prefix, and the identifier where the prefix passes.
pub open spec fn generated(prefix: Seq<char>, entropy: Seq<u8>) -> Result<
    Seq<char>,
    GenerateError,
> {
    match verdict(prefix) {
        Ok(()) => Ok(identifier(prefix, entropy)),
        Err(error) => Err(error),
    }
}

/// Writes `leading` over the first bytes of `entropy`, stopping where either
/// ends.
pub fn embed(leading: &[u8], entropy: [u8; DATA_LENGTH]) -> (payload: [u8; DATA_LENGTH])
    ensures
        payload@ == payload_of(leading@, entropy@),
{
    let mut payload = entropy;
    let mut j: usize = 0;
    while j < DATA_LENGTH && j < leading.len()
        invariant
            j <= DATA_LENGTH,
            j <= leading@.len(),
            forall|i: int| 0 <= i < j ==> payload@[i] == leading@[i],
            forall|i: int| j <= i < DATA_LENGTH ==> payload@[i] == entropy@[i],
        decreases DATA_LENGTH - j,
    {
        payload[j] = leading[j];
        j += 1;
    }
    assert(payload@ =~= payload_of(leading@, entropy@));
    payload
}

/// Seals a payload: joins it with the head of its digest and writes the
/// twenty bytes in lowercase base 32.
pub fn seal(payload: &[u8; DATA_LENGTH], digest: &[u8; DIGEST_LENGTH]) -> (id: String)
    ensures
        id@ == sealed(payload@, digest@),
{
    let checksum = truncate(digest);
    let mut bytes = [0u8; TOTAL_LENGTH];
    let mut i: usize = 0;
    while i < DATA_LENGTH
        invariant
            i <= DATA_LENGTH,
            forall|j: int| 0 <= j < i ==> bytes@[j] == payload@[j],
        decreases DATA_LENGTH - i,
    {
        bytes[i] = payload[i];
        i += 1;
    }
    let mut k: usize = 0;
    while k < CHECKSUM_LENGTH
        invariant
            k <= CHECKSUM_LENGTH,
            forall|j: int| 0 <= j < DATA_LENGTH ==> bytes@[j] == payload@[j],
            forall|j: int| 0 <= j < k ==> bytes@[DATA_LENGTH + j] == checksum@[j],
        decreases CHECKSUM_LENGTH - k,
    {
        bytes[DATA_LENGTH + k] = checksum[k];
        k += 1;
    }
    assert(bytes@ =~= payload@ + truncated(digest@));
    let text = base32_encode(bytes.as_slice());
    ascii_lowercase(text.as_str())
}

/// Builds the identifier whose payload is `entropy` with `leading` written
/// over its first bytes.
fn assemble(leading: &[u8], entropy: [u8; DATA_LENGTH]) -> (id: String)
    ensures
        id@ == sealed(
            payload_of(leading@, entropy@),
            sha256(payload_of(leading@, entropy@)),
        ),
{
    let payload = embed(leading, entropy);
    let digest = sha256_digest(payload.as_slice());
    seal(&payload, &digest)
}

/// Generates the identifier that `prefix` yields with the random bytes
/// `entropy`, or reports why the prefix cannot open an identifier.
///
/// The identifier has thirty-two characters, lowercase letters and digits
/// from `2` to `7`, and starts with the first nineteen characters of the
/// prefix in lowercase, or with all of them where the prefix has fewer.
pub fn generate_with_entropy(prefix: &str, entropy: [u8; DATA_LENGTH]) -> (outcome: Result<
    String,
    GenerateError,
>)
    ensures
        match generated(prefix@, entropy@) {
            Ok(text) => outcome matches Ok(id) && id@ == text,
            Err(error) => outcome == Err::<String, GenerateError>(error),
        },
        outcome matches Ok(id) ==> is_identifier(id@),
        outcome matches Ok(id) ==> forall|k: int|
            0 <= k < prefix@.len() && k < PREFIX_CAPACITY ==> #[trigger] id@[k] == to_lower(
                prefix@[k],
            ),
{
    match decode_prefix(prefix) {
        Ok(leading) => {
            let id = assemble(leading.as_slice(), entropy);
            proof {
                lemma_identifier_shape(prefix@, entropy@);
                assert forall|k: int|
                    0 <= k < prefix@.len() && k < PREFIX_CAPACITY implies #[trigger] id@[k]
                    == to_lower(prefix@[k]) by {
                    lemma_identifier_char(prefix@, entropy@, k);
                }
            }
            Ok(id)
        },
        Err(error) => Err(error),
    }
}

/// Generates an identifier that starts with `prefix`, or reports why the
/// prefix cannot open one.
///
/// The prefix is judged before any random byte is drawn, so whether it
/// passes, and the error where it does not, depend on the prefix alone. The
/// identifier is the one that the prefix yields with the twelve bytes drawn.
/// It has thirty-two characters, lowercase letters and digits from `2` to
/// `7`, and starts with the first nineteen characters of the prefix in
/// lowercase, or with all of them where the prefix has fewer.
pub fn generate_with_prefix(prefix: &str) -> (outcome: Result<String, GenerateError>)
    ensures
        match verdict(prefix@) {
            Ok(()) => outcome matches Ok(id) && exists|entropy: Seq<u8>|
                entropy.len() == DATA_LENGTH && id@ == #[trigger] identifier(prefix@, entropy),
            Err(error) => outcome == Err::<String, GenerateError>(error),
        },
        outcome matches Ok(id) ==> is_identifier(id@),
        outcome matches Ok(id) ==> forall|k: int|
            0 <= k < prefix@.len() && k < PREFIX_CAPACITY ==> #[trigger] id@[k] == to_lower(
                prefix@[k],
            ),
{
    match decode_prefix(prefix) {
        Ok(leading) => {
            let entropy = random_bytes();
            let id = assemble(leading.as_slice(), entropy);
            proof {
                assert(id@ == identifier(prefix@, entropy@));
                lemma_identifier_shape(prefix@, entropy@);
                assert forall|k: int|
                    0 <= k < prefix@.len() && k < PREFIX_CAPACITY implies #[trigger] id@[k]
                    == to_lower(prefix@[k]) by {
                    lemma_identifier_char(prefix@, entropy@, k);
                }
            }
            Ok(id)
        },
        Err(error) => Err(error),
    }
}

} // verus!
