//! The SHA-256 digest kept with every imported source.
use sha2::Digest;
use vstd::prelude::*;

verus! {

/// The SHA-256 digest of a byte sequence.
pub uninterp spec fn sha256_of(bytes: Seq<u8>) -> Seq<u8>;

/// Calls `sha2::Sha256::digest` on `bytes` and returns the 32-byte digest.
/// Trusted: the result is the digest of exactly these bytes, a function of the
/// bytes alone; what the digest is on given bytes is left to `sha2`.
#[verifier::external_body]
pub(crate) fn sha256_digest(bytes: &[u8]) -> (r: [u8; 32])
    ensures
        r@ == sha256_of(bytes@),
{
    sha2::Sha256::digest(bytes).into()
}

} // verus!
