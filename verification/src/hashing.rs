//! SHA-256, computed by the `sha2` crate.

use sha2::Digest;
use sha2::Sha256;
use vstd::prelude::*;

verus! {

/// The SHA-256 digest of a message: 32 bytes that depend on the message
/// alone.
pub uninterp spec fn sha256_digest(message: Seq<u8>) -> Seq<u8>;

/// Calls `Digest::digest` of `sha2::Sha256` on `message` and hands the 32
/// output bytes back as an array. Not proved: that the bytes are the
/// SHA-256 digest of `message`, which is all the contract says.
#[verifier::external_body]
pub(crate) fn sha256(message: &[u8]) -> (digest: [u8; 32])
    ensures
        digest@ == sha256_digest(message@),
{
    Sha256::digest(message).into()
}

} // verus!
