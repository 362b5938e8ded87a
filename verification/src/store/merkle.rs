//! A Merkle tree over a list of leaf digests, shaped as RFC 6962 shapes it:
//! a tree of `n > 1` leaves splits at the largest power of two below `n`.
//! The module computes roots, builds the audit path of a leaf and recomputes
//! a root from such a path.

use vstd::prelude::*;
use crate::store::hash::{inner_hash, node_digest, Digest};

verus! {

/// The digests that a list of hashes holds.
pub open spec fn digests(v: Seq<Digest>) -> Seq<Seq<u8>> {
    v.map_values(|h: Digest| h@)
}

/// Doubles `k` for as long as the double stays below `n`.
pub open spec fn split_from(k: nat, n: nat) -> nat
    decreases n - k,
{
    if 0 < k && 2 * k < n {
        split_from(2 * k, n)
    } else {
        k
    }
}

/// The number of leaves in the left subtree of a tree of `n` leaves: the
/// largest power of two strictly below `n`.
pub open spec fn split(n: nat) -> nat {
    split_from(1, n)
}

/// The root of an empty tree: thirty-two zero bytes.
pub open spec fn empty_root() -> Seq<u8> {
    Seq::new(32, |i: int| 0u8)
}

/// The root of the tree whose leaves have the digests `leaves`.
pub open spec fn root(leaves: Seq<Seq<u8>>) -> Seq<u8>
    decreases leaves.len(),
{
    let k = split(leaves.len()) as int;
    if leaves.len() == 0 {
        empty_root()
    } else if leaves.len() == 1 {
        leaves[0]
    } else if 0 < k < leaves.len() {
        node_digest(root(leaves.take(k)), root(leaves.skip(k)))
    } else {
        empty_root()
    }
}

/// The audit path of leaf `i`: the roots of the subtrees that hang off the
/// way from that leaf up to the root, nearest first.
pub open spec fn audit_path(leaves: Seq<Seq<u8>>, i: int) -> Seq<Seq<u8>>
    decreases leaves.len(),
{
    let k = split(leaves.len()) as int;
    if leaves.len() <= 1 || !(0 < k < leaves.len()) {
        Seq::empty()
    } else if i < k {
        audit_path(leaves.take(k), i).push(root(leaves.skip(k)))
    } else {
        audit_path(leaves.skip(k), i - k).push(root(leaves.take(k)))
    }
}

/// The root that a leaf digest and an audit path give for a tree of `total`
/// leaves with the leaf at `index`, or `None` where the path does not have
/// the length that this position asks for.
pub open spec fn root_from_path(total: nat, index: nat, leaf: Seq<u8>, path: Seq<Seq<u8>>)
    -> Option<Seq<u8>>
    decreases total,
{
    let k = split(total);
    if index >= total {
        None
    } else if total == 1 {
        if path.len() == 0 {
            Some(leaf)
        } else {
            None
        }
    } else if path.len() == 0 || !(0 < k < total) {
        None
    } else if index < k {
        match root_from_path(k, index, leaf, path.drop_last()) {
            Some(left) => Some(node_digest(left, path.last())),
            None => None,
        }
    } else {
        match root_from_path((total - k) as nat, (index - k) as nat, leaf, path.drop_last()) {
            Some(right) => Some(node_digest(path.last(), right)),
            None => None,
        }
    }
}

proof fn lemma_split_from(k: nat, n: nat)
    requires
        0 < k < n,
    ensures
        k <= split_from(k, n) < n,
    decreases n - k,
{
    if 2 * k < n {
        lemma_split_from(2 * k, n);
    }
}

/// A tree of two or more leaves splits into two parts that are not empty.
pub proof fn lemma_split(n: nat)
    requires
        n >= 2,
    ensures
        0 < split(n) < n,
{
    lemma_split_from(1, n);
}

/// The audit path of a leaf leads from its digest back to the root.
pub proof fn lemma_audit_path(leaves: Seq<Seq<u8>>, i: int)
    requires
        0 <= i < leaves.len(),
    ensures
        root_from_path(leaves.len(), i as nat, leaves[i], audit_path(leaves, i)) == Some(
            root(leaves),
        ),
    decreases leaves.len(),
{
    let n = leaves.len();
    if n >= 2 {
        lemma_split(n);
        let k = split(n) as int;
        let path = audit_path(leaves, i);
        if i < k {
            lemma_audit_path(leaves.take(k), i);
            assert(path.drop_last() =~= audit_path(leaves.take(k), i));
            assert(leaves.take(k)[i] == leaves[i]);
        } else {
            lemma_audit_path(leaves.skip(k), i - k);
            assert(path.drop_last() =~= audit_path(leaves.skip(k), i - k));
            assert(leaves.skip(k)[i - k] == leaves[i]);
        }
    }
}

/// The largest power of two strictly below `n`.
pub fn split_point(n: u64) -> (k: u64)
    requires
        n >= 2,
    ensures
        k == split(n as nat),
        0 < k < n,
{
    let mut k: u64 = 1;
    while k < n - k
        invariant
            0 < k < n,
            split_from(k as nat, n as nat) == split(n as nat),
        decreases n - k,
    {
        k = k + k;
    }
    k
}

/// The all-zero hash that stands for an empty tree.
pub fn empty_hash() -> (h: Digest)
    ensures
        h@ == empty_root(),
{
    let h: Digest = [0u8; 32];
    assert(h@ =~= empty_root());
    h
}

/// The root of the tree over `leaves[lo..hi]`.
fn root_of_range(leaves: &Vec<Digest>, lo: usize, hi: usize) -> (h: Digest)
    requires
        lo <= hi <= leaves.len(),
    ensures
        h@ == root(digests(leaves@).subrange(lo as int, hi as int)),
    decreases hi - lo,
{
    let ghost part = digests(leaves@).subrange(lo as int, hi as int);
    if hi == lo {
        empty_hash()
    } else if hi - lo == 1 {
        leaves[lo]
    } else {
        let k = split_point((hi - lo) as u64) as usize;
        let left = root_of_range(leaves, lo, lo + k);
        let right = root_of_range(leaves, lo + k, hi);
        proof {
            assert(part.take(k as int) =~= digests(leaves@).subrange(lo as int, lo + k));
            assert(part.skip(k as int) =~= digests(leaves@).subrange(lo + k, hi as int));
        }
        inner_hash(&left, &right)
    }
}

/// The root of the tree over all of `leaves`.
pub fn root_of(leaves: &Vec<Digest>) -> (h: Digest)
    ensures
        h@ == root(digests(leaves@)),
{
    assert(digests(leaves@).subrange(0, leaves@.len() as int) =~= digests(leaves@));
    root_of_range(leaves, 0, leaves.len())
}

/// Appends to `path` the audit path of leaf `i` within `leaves[lo..hi]`.
fn extend_path(leaves: &Vec<Digest>, lo: usize, hi: usize, i: usize, path: &mut Vec<Digest>)
    requires
        lo <= i < hi <= leaves.len(),
    ensures
        digests(final(path)@) == digests(old(path)@) + audit_path(
            digests(leaves@).subrange(lo as int, hi as int),
            i - lo,
        ),
    decreases hi - lo,
{
    let ghost part = digests(leaves@).subrange(lo as int, hi as int);
    let ghost before = digests(path@);
    if hi - lo >= 2 {
        let k = split_point((hi - lo) as u64) as usize;
        proof {
            assert(part.take(k as int) =~= digests(leaves@).subrange(lo as int, lo + k));
            assert(part.skip(k as int) =~= digests(leaves@).subrange(lo + k, hi as int));
        }
        if i < lo + k {
            extend_path(leaves, lo, lo + k, i, path);
            let ghost mid = digests(path@);
            let aunt = root_of_range(leaves, lo + k, hi);
            path.push(aunt);
            assert(digests(path@) =~= mid.push(aunt@));
        } else {
            extend_path(leaves, lo + k, hi, i, path);
            let ghost mid = digests(path@);
            let aunt = root_of_range(leaves, lo, lo + k);
            path.push(aunt);
            assert(digests(path@) =~= mid.push(aunt@));
        }
        assert(digests(path@) =~= before + audit_path(part, i - lo));
    } else {
        assert(digests(path@) =~= before + audit_path(part, i - lo));
    }
}

/// The audit path of leaf `i` of the tree over `leaves`.
pub fn path_of(leaves: &Vec<Digest>, i: usize) -> (path: Vec<Digest>)
    requires
        i < leaves.len(),
    ensures
        digests(path@) == audit_path(digests(leaves@), i as int),
{
    let mut path: Vec<Digest> = Vec::new();
    assert(digests(leaves@).subrange(0, leaves@.len() as int) =~= digests(leaves@));
    extend_path(leaves, 0, leaves.len(), i, &mut path);
    assert(digests(path@) =~= audit_path(digests(leaves@), i as int));
    path
}

/// Recomputes a root from the first `len` entries of `path`.
fn climb(total: u64, index: u64, leaf: &Digest, path: &Vec<Digest>, len: usize) -> (r: Option<Digest>)
    requires
        len <= path.len(),
    ensures
        match r {
            Some(h) => root_from_path(
                total as nat,
                index as nat,
                leaf@,
                digests(path@).take(len as int),
            ) == Some(h@),
            None => root_from_path(
                total as nat,
                index as nat,
                leaf@,
                digests(path@).take(len as int),
            ).is_none(),
        },
    decreases total,
{
    let ghost p = digests(path@).take(len as int);
    if index >= total {
        None
    } else if total == 1 {
        if len == 0 {
            Some(*leaf)
        } else {
            None
        }
    } else if len == 0 {
        None
    } else {
        let k = split_point(total);
        proof {
            assert(p.drop_last() =~= digests(path@).take(len - 1));
            assert(p.last() == path@[len - 1]@);
        }
        if index < k {
            match climb(k, index, leaf, path, len - 1) {
                Some(left) => Some(inner_hash(&left, &path[len - 1])),
                None => None,
            }
        } else {
            match climb(total - k, index - k, leaf, path, len - 1) {
                Some(right) => Some(inner_hash(&path[len - 1], &right)),
                None => None,
            }
        }
    }
}

/// The root that `leaf` and `path` give for a tree of `total` leaves with the
/// leaf at `index`; `None` where the path is too short or too long for that
/// position, or the index is not below `total`.
pub fn root_from(total: u64, index: u64, leaf: &Digest, path: &Vec<Digest>) -> (r: Option<Digest>)
    ensures
        match r {
            Some(h) => root_from_path(total as nat, index as nat, leaf@, digests(path@)) == Some(
                h@,
            ),
            None => root_from_path(total as nat, index as nat, leaf@, digests(path@)).is_none(),
        },
{
    assert(digests(path@).take(path@.len() as int) =~= digests(path@));
    climb(total, index, leaf, path, path.len())
}

} // verus!
