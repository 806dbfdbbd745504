//! The cryptographic hash primitive behind content hashes and proof chains.

use vstd::prelude::*;

verus! {

/// The SHA-256 digest of a byte sequence.  The digest function itself is not
/// modelled; the contracts of this crate only depend on it being a fixed
/// 32-byte function of the input bytes.
pub uninterp spec fn sha256_of(bytes: Seq<u8>) -> Seq<u8>;

/// Relies on `sha2::Sha256::digest`: the SHA-256 digest is a function of the
/// input bytes alone, and is exactly 32 bytes long.
#[verifier::external_body]
pub(crate) fn sha256(bytes: &[u8]) -> (r: Vec<u8>)
    ensures
        r@ == sha256_of(bytes@),
        r@.len() == 32,
{
    <sha2::Sha256 as sha2::Digest>::digest(bytes).to_vec()
}

} // verus!
