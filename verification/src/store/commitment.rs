//! The commitment to a snapshot: the root of the Merkle tree whose leaves are
//! the snapshot's entries in key order.

use vstd::prelude::*;
use vstd::bytes::{spec_u64_to_le_bytes, u64_to_le_bytes};
use crate::store::hash::{leaf_digest, leaf_hash, Digest};
use crate::store::merkle::{digests, root, root_of};
use crate::store::snapshot::{canonical, Pairs, Snapshot};

verus! {

/// The bytes that stand for one entry in the tree: the length of the key in
/// eight little-endian bytes, then the key, then the value.
pub open spec fn entry_leaf(key: Seq<u8>, value: Seq<u8>) -> Seq<u8> {
    spec_u64_to_le_bytes(key.len() as u64) + key + value
}

/// The digest of the leaf that stands for one entry.
pub open spec fn entry_digest(key: Seq<u8>, value: Seq<u8>) -> Seq<u8> {
    leaf_digest(entry_leaf(key, value))
}

/// The leaf digests of a list of entries, in the same order.
pub open spec fn leaf_digests(s: Pairs) -> Seq<Seq<u8>> {
    s.map_values(|p: (Seq<u8>, Seq<u8>)| entry_digest(p.0, p.1))
}

/// The commitment to the map `m`: the Merkle root over the leaf digests of
/// its entries in key order. It depends on nothing but the map.
pub open spec fn state_root(m: Map<Seq<u8>, Seq<u8>>) -> Seq<u8> {
    root(leaf_digests(canonical(m)))
}

/// Different entries have different leaves: the bytes of a leaf tell where
/// the key ends and the value begins.
pub proof fn lemma_entry_leaf_injective(k1: Seq<u8>, v1: Seq<u8>, k2: Seq<u8>, v2: Seq<u8>)
    requires
        k1.len() <= u64::MAX,
        k2.len() <= u64::MAX,
        entry_leaf(k1, v1) == entry_leaf(k2, v2),
    ensures
        k1 == k2,
        v1 == v2,
{
    vstd::bytes::lemma_auto_spec_u64_to_from_le_bytes();
    let a = entry_leaf(k1, v1);
    let b = entry_leaf(k2, v2);
    let n1 = spec_u64_to_le_bytes(k1.len() as u64);
    let n2 = spec_u64_to_le_bytes(k2.len() as u64);
    assert(a.subrange(0, 8) =~= n1);
    assert(b.subrange(0, 8) =~= n2);
    assert(vstd::bytes::spec_u64_from_le_bytes(n1) == vstd::bytes::spec_u64_from_le_bytes(n2));
    assert(k1.len() == k2.len());
    assert(a.subrange(8, 8 + k1.len() as int) =~= k1);
    assert(b.subrange(8, 8 + k2.len() as int) =~= k2);
    assert(a.len() == 8 + k1.len() + v1.len());
    assert(b.len() == 8 + k2.len() + v2.len());
    assert(a.subrange(8 + k1.len() as int, a.len() as int) =~= v1);
    assert(b.subrange(8 + k2.len() as int, b.len() as int) =~= v2);
}

/// The digest of the leaf that stands for `key` with `value`.
pub fn leaf_of(key: &[u8], value: &[u8]) -> (h: Digest)
    ensures
        h@ == entry_digest(key@, value@),
{
    let mut bytes = u64_to_le_bytes(key.len() as u64);
    let mut i: usize = 0;
    while i < key.len()
        invariant
            0 <= i <= key.len(),
            bytes@ == spec_u64_to_le_bytes(key@.len() as u64) + key@.subrange(0, i as int),
        decreases key.len() - i,
    {
        bytes.push(key[i]);
        assert(key@.subrange(0, i as int).push(key@[i as int]) =~= key@.subrange(0, i as int + 1));
        i += 1;
    }
    assert(key@.subrange(0, i as int) =~= key@);
    let mut j: usize = 0;
    while j < value.len()
        invariant
            0 <= j <= value.len(),
            bytes@ == spec_u64_to_le_bytes(key@.len() as u64) + key@ + value@.subrange(0, j as int),
        decreases value.len() - j,
    {
        bytes.push(value[j]);
        assert(value@.subrange(0, j as int).push(value@[j as int]) =~= value@.subrange(
            0,
            j as int + 1,
        ));
        j += 1;
    }
    assert(value@.subrange(0, j as int) =~= value@);
    leaf_hash(bytes.as_slice())
}

/// The leaf digests of a snapshot, in key order.
pub fn leaves_of(state: &Snapshot) -> (leaves: Vec<Digest>)
    ensures
        digests(leaves@) == leaf_digests(state.pairs()),
        leaves@.len() == state.pairs().len(),
{
    let mut leaves: Vec<Digest> = Vec::with_capacity(state.len());
    let mut i: usize = 0;
    while i < state.len()
        invariant
            0 <= i <= state.pairs().len(),
            leaves@.len() == i,
            digests(leaves@) == leaf_digests(state.pairs().take(i as int)),
        decreases state.pairs().len() - i,
    {
        let e = state.entry(i);
        let ghost before = digests(leaves@);
        let h = leaf_of(e.key.as_slice(), e.value.as_slice());
        leaves.push(h);
        proof {
            assert(digests(leaves@) =~= before.push(h@));
            assert(state.pairs().take(i as int + 1) =~= state.pairs().take(i as int).push(
                state.pairs()[i as int],
            ));
            assert(leaf_digests(state.pairs().take(i as int + 1)) =~= leaf_digests(
                state.pairs().take(i as int),
            ).push(h@));
        }
        i += 1;
    }
    assert(state.pairs().take(i as int) =~= state.pairs());
    leaves
}

/// The commitment to a snapshot.
pub fn commitment(state: &Snapshot) -> (h: Digest)
    requires
        state.wf(),
    ensures
        h@ == state_root(state@),
{
    proof {
        state.lemma_canonical();
    }
    let leaves = leaves_of(state);
    root_of(&leaves)
}

} // verus!
