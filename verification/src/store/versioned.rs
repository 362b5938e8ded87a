//! The versioned store: a working state that `set` and `delete` change, and
//! the list of states that have been sealed, each with its commitment. The
//! first of them is the genesis state, height 0; every commit adds one.

use vstd::prelude::*;
use crate::store::commitment::{commitment, state_root};
use crate::store::evidence::{proof_of, prove, proves, Proof};
use crate::store::hash::Digest;
use crate::store::height::{Height, StoreError};
use crate::store::key::copy_bytes;
use crate::store::merkle::{empty_hash, empty_root};
use crate::store::snapshot::{canonical, lemma_sorted_unique, lookup, sorted, to_map, Pairs,
    Snapshot};

verus! {

/// The largest height that a store can reach: the states of the heights from
/// 0 to this one are as many as a `u64` can count.
pub const MAX_HEIGHT: u64 = 0xffff_ffff_ffff_fffe;

/// One state of the store as a map from keys to values.
pub type State = Map<Seq<u8>, Seq<u8>>;

/// The store as a mathematical value: the sealed states by height, the
/// genesis state first, and the working state.
pub struct StoreModel {
    pub committed: Seq<State>,
    pub working: State,
}

impl StoreModel {
    /// A store that holds nothing: an empty genesis state and an empty
    /// working state.
    pub open spec fn empty() -> StoreModel {
        StoreModel { committed: seq![Map::empty()], working: Map::empty() }
    }

    /// The number of commits so far.
    pub open spec fn height(self) -> nat {
        (self.committed.len() - 1) as nat
    }

    /// The state of the last commit; the genesis state before the first one.
    pub open spec fn latest(self) -> State {
        self.committed.last()
    }

    /// Whether `height` is a sealed state of the store.
    pub open spec fn is_committed(self, height: Height) -> bool {
        match height {
            Height::Pending => false,
            Height::Latest => true,
            Height::Stable(h) => h < self.committed.len(),
        }
    }

    /// The state that `height` addresses, or `None` where it lies beyond the
    /// last commit.
    pub open spec fn state_at(self, height: Height) -> Option<State> {
        match height {
            Height::Pending => Some(self.working),
            Height::Latest => Some(self.latest()),
            Height::Stable(h) => if h < self.committed.len() {
                Some(self.committed[h as int])
            } else {
                None
            },
        }
    }

    /// What a read of `key` at `height` returns.
    pub open spec fn get(self, height: Height, key: Seq<u8>) -> Option<Seq<u8>> {
        match self.state_at(height) {
            Some(state) => lookup(state, key),
            None => None,
        }
    }

    /// The store after a write of `value` under `key`.
    pub open spec fn set(self, key: Seq<u8>, value: Seq<u8>) -> StoreModel {
        StoreModel { working: self.working.insert(key, value), ..self }
    }

    /// The store after `key` was deleted.
    pub open spec fn delete(self, key: Seq<u8>) -> StoreModel {
        StoreModel { working: self.working.remove(key), ..self }
    }

    /// The store after a commit: the working state becomes the newest sealed
    /// state and stays the working state of the next block.
    pub open spec fn commit(self) -> StoreModel {
        StoreModel { committed: self.committed.push(self.working), ..self }
    }

    /// The store after the working state was sealed as the genesis state.
    pub open spec fn seal_genesis(self) -> StoreModel {
        StoreModel { committed: seq![self.working], ..self }
    }

    /// The commitment to the state of the last commit.
    pub open spec fn root(self) -> Seq<u8> {
        state_root(self.latest())
    }

    /// The commitment to the state at a sealed height.
    pub open spec fn root_at(self, height: Height) -> Option<Seq<u8>> {
        if self.is_committed(height) {
            match self.state_at(height) {
                Some(state) => Some(state_root(state)),
                None => None,
            }
        } else {
            None
        }
    }
}

/// The commitment to the empty state is the root of the empty tree.
pub proof fn lemma_empty_state_root()
    ensures
        state_root(Map::empty()) == empty_root(),
{
    let e: Pairs = Seq::empty();
    assert(sorted(e));
    assert(to_map(e) =~= Map::<Seq<u8>, Seq<u8>>::empty());
    let c = canonical(Map::<Seq<u8>, Seq<u8>>::empty());
    lemma_sorted_unique(e, c);
    assert(crate::store::commitment::leaf_digests(c) =~= Seq::<Seq<u8>>::empty());
}

/// A sealed state with its commitment.
struct Version {
    state: Snapshot,
    root: Digest,
}

/// The versioned store.
pub struct VersionedStore {
    committed: Vec<Version>,
    working: Snapshot,
}

impl View for VersionedStore {
    type V = StoreModel;

    closed spec fn view(&self) -> StoreModel {
        StoreModel {
            committed: self.committed@.map_values(|v: Version| v.state@),
            working: self.working@,
        }
    }
}

impl VersionedStore {
    /// The representation invariant: every state is well formed, every
    /// stored commitment is the commitment to its state, there is a genesis
    /// state, and the heights can be numbered by a `u64`.
    pub closed spec fn wf(&self) -> bool {
        &&& self.working.wf()
        &&& 0 < self.committed@.len() <= u64::MAX
        &&& forall|i: int|
            0 <= i < self.committed@.len() ==> {
                &&& (#[trigger] self.committed@[i]).state.wf()
                &&& self.committed@[i].root@ == state_root(self.committed@[i].state@)
            }
    }

    /// A well-formed store has a genesis state.
    pub proof fn lemma_has_genesis(&self)
        requires
            self.wf(),
        ensures
            self@.committed.len() > 0,
    {
    }

    /// A store that holds nothing.
    pub fn new() -> (s: VersionedStore)
        ensures
            s.wf(),
            s@ == StoreModel::empty(),
    {
        let mut committed: Vec<Version> = Vec::new();
        proof {
            lemma_empty_state_root();
        }
        committed.push(Version { state: Snapshot::new(), root: empty_hash() });
        let s = VersionedStore { committed, working: Snapshot::new() };
        assert(s@.committed =~= seq![Map::<Seq<u8>, Seq<u8>>::empty()]);
        s
    }

    /// The number of commits so far.
    pub fn current_height(&self) -> (h: u64)
        requires
            self.wf(),
        ensures
            h == self@.height(),
    {
        (self.committed.len() - 1) as u64
    }

    /// The sealed state that `height` addresses, with its commitment.
    fn version_at(&self, height: Height) -> (r: Option<&Version>)
        requires
            self.wf(),
        ensures
            match r {
                Some(v) => {
                    &&& v.state.wf()
                    &&& self@.is_committed(height)
                    &&& self@.state_at(height) == Some(v.state@)
                    &&& v.root@ == state_root(v.state@)
                },
                None => !self@.is_committed(height) || self@.state_at(height).is_none(),
            },
    {
        match height {
            Height::Pending => None,
            Height::Latest => {
                let n = self.committed.len();
                Some(&self.committed[n - 1])
            },
            Height::Stable(h) => {
                if (h as u128) < self.committed.len() as u128 {
                    Some(&self.committed[h as usize])
                } else {
                    None
                }
            },
        }
    }

    /// The value under `key` in the state that `height` addresses. `None`
    /// where the key is absent there or the height lies beyond the last
    /// commit. Reads never change the store.
    pub fn get(&self, height: Height, key: &[u8]) -> (r: Option<Vec<u8>>)
        requires
            self.wf(),
        ensures
            match r {
                Some(v) => self@.get(height, key@) == Some(v@),
                None => self@.get(height, key@).is_none(),
            },
    {
        let state = match height {
            Height::Pending => &self.working,
            _ => match self.version_at(height) {
                Some(v) => &v.state,
                None => {
                    return None;
                },
            },
        };
        match state.get(key) {
            Some(v) => Some(copy_bytes(v.as_slice())),
            None => None,
        }
    }

    /// Writes `value` under `key` in the working state and returns the value
    /// that the working state held there before.
    pub fn set(&mut self, key: Vec<u8>, value: Vec<u8>) -> (r: Option<Vec<u8>>)
        requires
            old(self).wf(),
        ensures
            final(self).wf(),
            final(self)@ == old(self)@.set(key@, value@),
            match r {
                Some(v) => old(self)@.get(Height::Pending, key@) == Some(v@),
                None => old(self)@.get(Height::Pending, key@).is_none(),
            },
    {
        self.working.insert(key, value)
    }

    /// Deletes `key` from the working state and returns the value that the
    /// working state held there before.
    pub fn delete(&mut self, key: &[u8]) -> (r: Option<Vec<u8>>)
        requires
            old(self).wf(),
        ensures
            final(self).wf(),
            final(self)@ == old(self)@.delete(key@),
            match r {
                Some(v) => old(self)@.get(Height::Pending, key@) == Some(v@),
                None => old(self)@.get(Height::Pending, key@).is_none(),
            },
    {
        self.working.remove(key)
    }

    /// Seals the working state as the next height and returns that height
    /// with its commitment. Fails, and leaves the store as it was, only at
    /// the largest height.
    pub fn commit(&mut self) -> (r: Result<(u64, Digest), StoreError>)
        requires
            old(self).wf(),
        ensures
            final(self).wf(),
            match r {
                Ok((height, root)) => {
                    &&& old(self)@.height() < MAX_HEIGHT
                    &&& final(self)@ == old(self)@.commit()
                    &&& height == old(self)@.height() + 1
                    &&& root@ == state_root(old(self)@.working)
                    &&& root@ == final(self)@.root()
                },
                Err(e) => {
                    &&& old(self)@.height() == MAX_HEIGHT
                    &&& e == StoreError::HeightOverflow
                    &&& final(self)@ == old(self)@
                },
            },
    {
        let n = self.committed.len();
        if n as u128 > MAX_HEIGHT as u128 {
            return Err(StoreError::HeightOverflow);
        }
        let state = self.working.duplicate();
        let root = commitment(&state);
        let ghost before = self.committed@;
        self.committed.push(Version { state, root });
        proof {
            assert(self@.committed =~= old(self)@.committed.push(old(self)@.working));
            assert forall|i: int| 0 <= i < self.committed@.len() implies {
                &&& (#[trigger] self.committed@[i]).state.wf()
                &&& self.committed@[i].root@ == state_root(self.committed@[i].state@)
            } by {
                if i < before.len() {
                    assert(self.committed@[i] == before[i]);
                }
            }
        }
        Ok((n as u64, root))
    }

    /// Seals the working state as the genesis state, height 0, and returns
    /// its commitment. Fails, and leaves the store as it was, once a block
    /// has been committed.
    pub fn seal_genesis(&mut self) -> (r: Result<Digest, StoreError>)
        requires
            old(self).wf(),
        ensures
            final(self).wf(),
            match r {
                Ok(root) => {
                    &&& old(self)@.height() == 0
                    &&& final(self)@ == old(self)@.seal_genesis()
                    &&& root@ == final(self)@.root()
                },
                Err(e) => {
                    &&& old(self)@.height() != 0
                    &&& e == StoreError::NotAtGenesis
                    &&& final(self)@ == old(self)@
                },
            },
    {
        if self.committed.len() != 1 {
            return Err(StoreError::NotAtGenesis);
        }
        let state = self.working.duplicate();
        let root = commitment(&state);
        self.committed.set(0, Version { state, root });
        proof {
            assert(self@.committed =~= seq![old(self)@.working]);
        }
        Ok(root)
    }

    /// The commitment to the state of the last commit.
    pub fn root_hash(&self) -> (root: Digest)
        requires
            self.wf(),
        ensures
            root@ == self@.root(),
    {
        let n = self.committed.len();
        self.committed[n - 1].root
    }

    /// The commitment to the state at a sealed height. Fails where the
    /// height is the block in progress or lies beyond the last commit.
    pub fn root_hash_at(&self, height: Height) -> (r: Result<Digest, StoreError>)
        requires
            self.wf(),
        ensures
            match r {
                Ok(root) => self@.root_at(height) == Some(root@),
                Err(e) => self@.root_at(height).is_none() && e == StoreError::HeightNotFound,
            },
    {
        match self.version_at(height) {
            Some(v) => Ok(v.root),
            None => Err(StoreError::HeightNotFound),
        }
    }

    /// A proof of what the state at a sealed height holds under `key`, which
    /// `Proof::verify` accepts against the commitment to that state. Fails
    /// where the height is the block in progress or lies beyond the last
    /// commit.
    pub fn get_proof(&self, height: Height, key: &[u8]) -> (r: Result<Proof, StoreError>)
        requires
            self.wf(),
        ensures
            match r {
                Ok(p) => {
                    &&& self@.root_at(height) is Some
                    &&& p@ == proof_of(canonical(self@.state_at(height)->0), key@)
                    &&& proves(self@.root_at(height)->0, key@, self@.get(height, key@), p@)
                },
                Err(e) => self@.root_at(height).is_none() && e == StoreError::HeightNotFound,
            },
    {
        match self.version_at(height) {
            Some(v) => Ok(prove(&v.state, key)),
            None => Err(StoreError::HeightNotFound),
        }
    }
}

} // verus!
