//! Content digests.

use sha2::{Digest, Sha256};
use vstd::prelude::*;

verus! {

/// The SHA-256 digest of a byte string, as the `sha2` crate computes it.
pub uninterp spec fn sha256(bytes: Seq<u8>) -> Seq<u8>;

/// Calls `sha2::Sha256::digest` and hands back its 32 bytes.
///
/// The contract only gives the outcome its name: the same bytes always have the same digest.
/// Nothing is claimed about which digest that is.
#[verifier::external_body]
fn sha256_of(bytes: &Vec<u8>) -> (hash: crate::types::Hash)
    ensures
        hash@ == sha256(bytes@),
{
    Sha256::digest(bytes).into()
}

/// The content hash of a byte string: the 32-byte value whose bytes are its SHA-256 digest.
pub open spec fn digest(bytes: Seq<u8>) -> crate::types::Hash {
    choose|hash: crate::types::Hash| hash@ == sha256(bytes)
}

/// Computes the content hash of `bytes`.
pub fn hash_bytes(bytes: &Vec<u8>) -> (hash: crate::types::Hash)
    ensures
        hash == digest(bytes@),
        hash@ == sha256(bytes@),
{
    let hash = sha256_of(bytes);
    proof {
        let chosen = digest(bytes@);
        assert(chosen@ == sha256(bytes@));
        assert(chosen =~= hash);
    }
    hash
}

} // verus!
