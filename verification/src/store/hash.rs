//! The two hash functions of the Merkle tree, taken from the `tendermint`
//! crate. Nothing here is proved: each function below states what the crate
//! computes and gives the result a name that the rest of the store reasons
//! with.

use vstd::prelude::*;

verus! {

/// A SHA-256 digest.
pub type Digest = [u8; 32];

/// The digest of a leaf of the tree: what `tendermint`'s `MerkleHash::leaf_hash`
/// returns for these bytes with SHA-256 as the hasher (the digest of a zero
/// byte followed by the leaf).
pub uninterp spec fn leaf_digest(leaf: Seq<u8>) -> Seq<u8>;

/// The digest of an inner node: what `tendermint`'s `MerkleHash::inner_hash`
/// returns for the digests of its two children with SHA-256 as the hasher
/// (the digest of a one byte followed by both).
pub uninterp spec fn node_digest(left: Seq<u8>, right: Seq<u8>) -> Seq<u8>;

/// Calls `tendermint::merkle::MerkleHash::leaf_hash` on a fresh SHA-256
/// hasher. Assumed: the result is a function of the bytes alone, named
/// `leaf_digest`.
#[verifier::external_body]
pub(crate) fn leaf_hash(leaf: &[u8]) -> (h: Digest)
    ensures
        h@ == leaf_digest(leaf@),
{
    let mut hasher = tendermint::crypto::default::Sha256::default();
    tendermint::merkle::MerkleHash::leaf_hash(&mut hasher, leaf)
}

/// Calls `tendermint::merkle::MerkleHash::inner_hash` on a fresh SHA-256
/// hasher. Assumed: the result is a function of the two digests alone, named
/// `node_digest`.
#[verifier::external_body]
pub(crate) fn inner_hash(left: &Digest, right: &Digest) -> (h: Digest)
    ensures
        h@ == node_digest(left@, right@),
{
    let mut hasher = tendermint::crypto::default::Sha256::default();
    tendermint::merkle::MerkleHash::inner_hash(&mut hasher, *left, *right)
}

} // verus!
