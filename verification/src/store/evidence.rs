//! Proofs that a key holds a value, or holds none, in a state with a given
//! commitment. A proof stands alone: it can be checked against the
//! commitment without the store.

use vstd::prelude::*;
use crate::store::commitment::{entry_digest, leaf_digests, leaf_of, leaves_of, state_root};
use crate::store::hash::Digest;
use crate::store::key::{bytes_eq, compare, copy_bytes, lemma_lt_asymmetric, lex_lt, Order};
use crate::store::merkle::{audit_path, digests, empty_hash, empty_root, lemma_audit_path, path_of,
    root, root_from, root_from_path};
use crate::store::snapshot::{canonical, lemma_gap, lemma_index_of, lookup, sorted, to_map, Pairs,
    Snapshot};

verus! {

/// An entry of the state with its place among the entries and the audit
/// path of its leaf.
pub struct Neighbour {
    pub index: u64,
    pub key: Vec<u8>,
    pub value: Vec<u8>,
    pub path: Vec<Digest>,
}

/// A neighbour as a mathematical value.
pub struct NeighbourModel {
    pub index: nat,
    pub key: Seq<u8>,
    pub value: Seq<u8>,
    pub path: Seq<Seq<u8>>,
}

impl View for Neighbour {
    type V = NeighbourModel;

    open spec fn view(&self) -> NeighbourModel {
        NeighbourModel {
            index: self.index as nat,
            key: self.key@,
            value: self.value@,
            path: digests(self.path@),
        }
    }
}

/// A proof about one key in a state of `total` entries.
pub enum Proof {
    /// The key is the entry at `index`, and `path` is the audit path of its
    /// leaf.
    Exists { total: u64, index: u64, path: Vec<Digest> },
    /// The key is absent: `left` is the entry just before the place where it
    /// would stand and `right` the entry just after; either is missing where
    /// the place is at that end of the state.
    Absent { total: u64, left: Option<Neighbour>, right: Option<Neighbour> },
}

/// A proof as a mathematical value.
pub enum ProofModel {
    Exists { total: nat, index: nat, path: Seq<Seq<u8>> },
    Absent { total: nat, left: Option<NeighbourModel>, right: Option<NeighbourModel> },
}

impl View for Proof {
    type V = ProofModel;

    open spec fn view(&self) -> ProofModel {
        match self {
            Proof::Exists { total, index, path } => ProofModel::Exists {
                total: *total as nat,
                index: *index as nat,
                path: digests(path@),
            },
            Proof::Absent { total, left, right } => ProofModel::Absent {
                total: *total as nat,
                left: match left {
                    Some(n) => Some(n@),
                    None => None,
                },
                right: match right {
                    Some(n) => Some(n@),
                    None => None,
                },
            },
        }
    }
}

/// Whether the neighbour is an entry of a state of `total` entries with the
/// commitment `root`.
pub open spec fn attested(root: Seq<u8>, total: nat, n: NeighbourModel) -> bool {
    root_from_path(total, n.index, entry_digest(n.key, n.value), n.path) == Some(root)
}

/// Whether the proof `p` shows that, in a state with the commitment `root`, `key`
/// holds `value` (holds nothing, where `value` is `None`).
pub open spec fn proves(root: Seq<u8>, key: Seq<u8>, value: Option<Seq<u8>>, p: ProofModel)
    -> bool {
    match p {
        ProofModel::Exists { total, index, path } => {
            &&& value is Some
            &&& root_from_path(total, index, entry_digest(key, value->0), path) == Some(root)
        },
        ProofModel::Absent { total, left, right } => {
            &&& value is None
            &&& match (left, right) {
                (None, None) => total == 0 && root == empty_root(),
                (Some(l), None) => {
                    &&& l.index + 1 == total
                    &&& lex_lt(l.key, key)
                    &&& attested(root, total, l)
                },
                (None, Some(r)) => {
                    &&& r.index == 0
                    &&& lex_lt(key, r.key)
                    &&& attested(root, total, r)
                },
                (Some(l), Some(r)) => {
                    &&& l.index + 1 == r.index
                    &&& lex_lt(l.key, key)
                    &&& lex_lt(key, r.key)
                    &&& attested(root, total, l)
                    &&& attested(root, total, r)
                },
            }
        },
    }
}

/// Whether two digests are the same.
pub fn same_digest(a: &Digest, b: &Digest) -> (r: bool)
    ensures
        r == (a@ == b@),
{
    bytes_eq(a.as_slice(), b.as_slice())
}

impl Neighbour {
    /// Whether the neighbour is an entry of a state of `total` entries with
    /// the commitment `root`.
    pub fn check(&self, root: &Digest, total: u64) -> (r: bool)
        ensures
            r == attested(root@, total as nat, self@),
    {
        let leaf = leaf_of(self.key.as_slice(), self.value.as_slice());
        match root_from(total, self.index, &leaf, &self.path) {
            Some(h) => same_digest(&h, root),
            None => false,
        }
    }
}

impl Proof {
    /// Checks the proof against a commitment: whether it shows that `key`
    /// holds `value` (holds nothing, where `value` is `None`) in a state
    /// with the commitment `root`.
    pub fn verify(&self, root: &Digest, key: &[u8], value: Option<&[u8]>) -> (r: bool)
        ensures
            r == proves(
                root@,
                key@,
                match value {
                    Some(v) => Some(v@),
                    None => None,
                },
                self@,
            ),
    {
        match self {
            Proof::Exists { total, index, path } => {
                match value {
                    Some(v) => {
                        let leaf = leaf_of(key, v);
                        match root_from(*total, *index, &leaf, path) {
                            Some(h) => same_digest(&h, root),
                            None => false,
                        }
                    },
                    None => false,
                }
            },
            Proof::Absent { total, left, right } => {
                if value.is_some() {
                    return false;
                }
                match (left, right) {
                    (None, None) => {
                        let empty = empty_hash();
                        *total == 0 && same_digest(root, &empty)
                    },
                    (Some(l), None) => {
                        l.index < u64::MAX && l.index + 1 == *total && is_less(
                            l.key.as_slice(),
                            key,
                        ) && l.check(root, *total)
                    },
                    (None, Some(r)) => {
                        r.index == 0 && is_less(key, r.key.as_slice()) && r.check(root, *total)
                    },
                    (Some(l), Some(r)) => {
                        l.index < u64::MAX && l.index + 1 == r.index && is_less(
                            l.key.as_slice(),
                            key,
                        ) && is_less(key, r.key.as_slice()) && l.check(root, *total) && r.check(
                            root,
                            *total,
                        )
                    },
                }
            },
        }
    }
}

/// Whether `a` comes strictly before `b`.
pub fn is_less(a: &[u8], b: &[u8]) -> (r: bool)
    ensures
        r == lex_lt(a@, b@),
{
    match compare(a, b) {
        Order::Less => true,
        Order::Equal => {
            proof {
                crate::store::key::lemma_lt_irreflexive(a@);
            }
            false
        },
        Order::Greater => false,
    }
}

/// Whether `i` is the place of `key` in the list `s`: every entry before it
/// has a smaller key and no entry from it on has.
pub open spec fn is_slot(s: Pairs, key: Seq<u8>, i: int) -> bool {
    &&& 0 <= i <= s.len()
    &&& forall|j: int| 0 <= j < i ==> lex_lt(#[trigger] s[j].0, key)
    &&& forall|j: int| i <= j < s.len() ==> !lex_lt(#[trigger] s[j].0, key)
}

/// The place of `key` in the list `s`: the index of the entry that holds
/// it, or the index at which it would have to be inserted.
pub open spec fn slot(s: Pairs, key: Seq<u8>) -> int {
    choose|i: int| is_slot(s, key, i)
}

/// The entry at index `i` of the list `s` as a neighbour.
pub open spec fn neighbour_of(s: Pairs, i: int) -> NeighbourModel {
    NeighbourModel {
        index: i as nat,
        key: s[i].0,
        value: s[i].1,
        path: audit_path(leaf_digests(s), i),
    }
}

/// The proof of what the state with the sorted entries `s` holds under
/// `key`: the audit path of the entry that holds it, or its two neighbours.
pub open spec fn proof_of(s: Pairs, key: Seq<u8>) -> ProofModel {
    let i = slot(s, key);
    if i < s.len() && s[i].0 == key {
        ProofModel::Exists { total: s.len(), index: i as nat, path: audit_path(leaf_digests(s), i) }
    } else {
        ProofModel::Absent {
            total: s.len(),
            left: if i > 0 {
                Some(neighbour_of(s, i - 1))
            } else {
                None
            },
            right: if i < s.len() {
                Some(neighbour_of(s, i))
            } else {
                None
            },
        }
    }
}

/// A key has one place in a list.
pub proof fn lemma_slot(s: Pairs, key: Seq<u8>, i: int)
    requires
        is_slot(s, key, i),
    ensures
        slot(s, key) == i,
{
    let j = slot(s, key);
    if j < i {
        assert(lex_lt(s[j].0, key));
    } else if i < j {
        assert(lex_lt(s[i].0, key));
    }
}

/// In a sorted list the entry that holds a key stands at the place of that
/// key, and where no entry holds it, the place is where the larger keys
/// begin.
pub proof fn lemma_found_slot(s: Pairs, key: Seq<u8>, i: int)
    requires
        sorted(s),
        0 <= i <= s.len(),
        forall|j: int| 0 <= j < i ==> lex_lt(#[trigger] s[j].0, key),
        i < s.len() ==> s[i].0 == key || lex_lt(key, s[i].0),
    ensures
        slot(s, key) == i,
{
    assert forall|j: int| i <= j < s.len() implies !lex_lt(#[trigger] s[j].0, key) by {
        if s[i].0 == key {
            if j > i {
                lemma_lt_asymmetric(s[i].0, s[j].0);
            } else {
                crate::store::key::lemma_lt_irreflexive(key);
            }
        } else {
            if j > i {
                crate::store::key::lemma_lt_transitive(key, s[i].0, s[j].0);
            }
            lemma_lt_asymmetric(key, s[j].0);
        }
    }
    lemma_slot(s, key, i);
}

/// The proof of a key shows what the state holds under that key: checked
/// against the commitment to the state, it is accepted for the value that
/// the state holds, or for absence where it holds none.
pub proof fn lemma_proof_of_proves(s: Pairs, key: Seq<u8>)
    requires
        sorted(s),
    ensures
        proves(root(leaf_digests(s)), key, lookup(to_map(s), key), proof_of(s, key)),
{
    let i = slot(s, key);
    lemma_total_order_gives_slot(s, key);
    let leaves = leaf_digests(s);
    if i < s.len() && s[i].0 == key {
        lemma_index_of(s, i);
        lemma_audit_path(leaves, i);
    } else {
        assert forall|j: int| i <= j < s.len() implies lex_lt(key, #[trigger] s[j].0) by {
            crate::store::key::lemma_lt_total(key, s[j].0);
            if s[j].0 == key {
                // The entry at `i` would then be smaller than the key or equal to it.
                if j > i {
                    crate::store::key::lemma_lt_total(key, s[i].0);
                    lemma_lt_asymmetric(s[i].0, s[j].0);
                }
            }
        }
        lemma_gap(s, i, key);
        if i > 0 {
            lemma_audit_path(leaves, i - 1);
        }
        if i < s.len() {
            lemma_audit_path(leaves, i);
        }
        if s.len() == 0 {
            assert(leaves =~= Seq::<Seq<u8>>::empty());
        }
    }
}

/// Every key has a place in a sorted list.
pub proof fn lemma_total_order_gives_slot(s: Pairs, key: Seq<u8>)
    requires
        sorted(s),
    ensures
        is_slot(s, key, slot(s, key)),
{
    let i = first_not_below(s, key, 0);
    assert forall|j: int| i <= j < s.len() implies !lex_lt(#[trigger] s[j].0, key) by {
        if j > i && lex_lt(s[j].0, key) {
            crate::store::key::lemma_lt_transitive(s[i].0, s[j].0, key);
        }
    }
    assert(is_slot(s, key, i));
}

proof fn first_not_below(s: Pairs, key: Seq<u8>, k: int) -> (i: int)
    requires
        0 <= k <= s.len(),
        forall|j: int| 0 <= j < k ==> lex_lt(#[trigger] s[j].0, key),
    ensures
        k <= i <= s.len(),
        forall|j: int| 0 <= j < i ==> lex_lt(#[trigger] s[j].0, key),
        i < s.len() ==> !lex_lt(s[i].0, key),
    decreases s.len() - k,
{
    if k < s.len() && lex_lt(s[k].0, key) {
        first_not_below(s, key, k + 1)
    } else {
        k
    }
}

/// The entry at index `i` of `state` as a neighbour.
fn neighbour_at(state: &Snapshot, leaves: &Vec<Digest>, i: usize) -> (n: Neighbour)
    requires
        i < state.pairs().len(),
        state.pairs().len() <= u64::MAX,
        digests(leaves@) == leaf_digests(state.pairs()),
        leaves@.len() == state.pairs().len(),
    ensures
        n@ == neighbour_of(state.pairs(), i as int),
{
    let e = state.entry(i);
    let path = path_of(leaves, i);
    Neighbour {
        index: i as u64,
        key: copy_bytes(e.key.as_slice()),
        value: copy_bytes(e.value.as_slice()),
        path,
    }
}

/// The proof of what `state` holds under `key`. `Proof::verify` accepts it
/// against the commitment to the state, for the value that the state holds
/// under `key` or, where it holds none, for absence.
pub fn prove(state: &Snapshot, key: &[u8]) -> (p: Proof)
    requires
        state.wf(),
    ensures
        p@ == proof_of(canonical(state@), key@),
        proves(state_root(state@), key@, lookup(state@, key@), p@),
{
    let n = state.len();
    let leaves = leaves_of(state);
    proof {
        state.lemma_canonical();
        lemma_proof_of_proves(state.pairs(), key@);
    }
    match state.find(key) {
        Ok(i) => {
            let path = path_of(&leaves, i);
            proof {
                lemma_found_slot(state.pairs(), key@, i as int);
            }
            Proof::Exists { total: n as u64, index: i as u64, path }
        },
        Err(i) => {
            proof {
                lemma_found_slot(state.pairs(), key@, i as int);
                if i < n {
                    lemma_lt_asymmetric(key@, state.pairs()[i as int].0);
                }
            }
            let left = if i > 0 {
                Some(neighbour_at(state, &leaves, i - 1))
            } else {
                None
            };
            let right = if i < n {
                Some(neighbour_at(state, &leaves, i))
            } else {
                None
            };
            Proof::Absent { total: n as u64, left, right }
        },
    }
}

} // verus!
