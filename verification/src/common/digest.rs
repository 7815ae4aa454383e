use sha2::Digest;
use vstd::prelude::*;

verus! {

/// SHA-256 of a byte string, as the `sha2` crate computes it.
pub uninterp spec fn sha256(data: Seq<u8>) -> Seq<u8>;

/// Calls `sha2::Sha256`: a fresh hasher is fed `first`, then `second`, and
/// finalized. Claimed: the result is SHA-256 of the two inputs one after the
/// other (feeding a hasher in pieces hashes their concatenation) and is 32
/// bytes long (the output size of `Sha256`).
#[verifier::external_body]
pub(crate) fn sha256_of_pair(first: &[u8], second: &[u8]) -> (digest: Vec<u8>)
    ensures
        digest@ == sha256(first@ + second@),
        digest@.len() == 32,
{
    let mut hasher = sha2::Sha256::new();
    hasher.update(first);
    hasher.update(second);
    hasher.finalize().to_vec()
}

} // verus!
