//! The SHA-256 primitive behind both transaction identity and block sealing.

use vstd::prelude::*;
use sha2::Digest;

verus! {

/// The SHA-256 digest of a byte string. The digest itself is left
/// uninterpreted: contracts relate hashes to each other and to the inputs
/// they were computed from, never to concrete digest values.
pub uninterp spec fn sha256_of(bytes: Seq<u8>) -> Seq<u8>;

/// Relies on `sha2::Sha256` through the `digest::Digest` trait: the SHA-256
/// digest is a function of the input bytes alone, and is exactly 32 bytes.
#[verifier::external_body]
pub(crate) fn sha256(data: &Vec<u8>) -> (r: [u8; 32])
    ensures
        r@ == sha256_of(data@),
{
    let mut hasher = sha2::Sha256::new();
    hasher.update(data.as_slice());
    hasher.finalize().into()
}

} // verus!
