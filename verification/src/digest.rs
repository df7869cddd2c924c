//! The two cryptographic hash functions the contracts rely on. Both are computed
//! by outside crates; their results are named here and never restated.

use sha3::Digest;
use vstd::prelude::*;

verus! {

/// The SHA3-256 digest of a byte string, as `sha3::Sha3_256` computes it.
pub uninterp spec fn sha3_256_digest(input: Seq<u8>) -> Seq<u8>;

/// The SHA2-256 digest of a byte string, as ink's `hash_bytes::<Sha2x256>` computes it.
pub uninterp spec fn sha2_256_digest(input: Seq<u8>) -> Seq<u8>;

/// Hashes `input` with `sha3::Sha3_256` (`new`, `update`, `finalize`).
/// Claimed: the 32 output bytes are the digest named `sha3_256_digest` of the
/// input bytes, so the same input always gives the same output. Nothing is
/// claimed about which bytes those are.
#[verifier::external_body]
pub(crate) fn sha3_256(input: &[u8]) -> (out: [u8; 32])
    ensures
        out@ == sha3_256_digest(input@),
{
    let mut hasher = sha3::Sha3_256::new();
    hasher.update(input);
    hasher.finalize().into()
}

/// Hashes `input` with `ink::env::hash_bytes::<ink::env::hash::Sha2x256>`, which
/// writes the SHA2-256 digest into a 32-byte buffer.
/// Claimed: the 32 output bytes are the digest named `sha2_256_digest` of the
/// input bytes (a pure function of them). Nothing is claimed about which bytes those are.
#[verifier::external_body]
pub(crate) fn sha2_256(input: &[u8]) -> (out: [u8; 32])
    ensures
        out@ == sha2_256_digest(input@),
{
    let mut out = [0u8; 32];
    ink::env::hash_bytes::<ink::env::hash::Sha2x256>(input, &mut out);
    out
}

} // verus!
