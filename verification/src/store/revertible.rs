//! The revertible store: a versioned store under a buffer of pending writes.
//!
//! Writes go to the buffer. A read of the block in progress sees the buffer
//! laid over the working state; a read of a committed height never sees it.
//! `revert` throws the buffer away, `apply` moves it into the working state,
//! and `commit` applies it and seals the result.

use vstd::prelude::*;
use crate::store::commitment::state_root;
use crate::store::evidence::{proof_of, proves, Proof};
use crate::store::hash::Digest;
use crate::store::height::{Height, StoreError};
use crate::store::snapshot::{canonical, lookup, Snapshot};
use crate::store::versioned::{State, StoreModel, VersionedStore, MAX_HEIGHT};

verus! {

/// What the buffer holds for a key: a value to write, or `None` for a
/// deletion.
pub type WriteSet = Map<Seq<u8>, Option<Seq<u8>>>;

/// The write set that a map of written values and a map of deleted keys
/// stand for; where a key is in both, the written value counts.
pub open spec fn write_set(writes: State, deletes: State) -> WriteSet {
    Map::new(
        |k: Seq<u8>| writes.contains_key(k) || deletes.contains_key(k),
        |k: Seq<u8>|
            if writes.contains_key(k) {
                Some(writes[k])
            } else {
                None
            },
    )
}

/// What a read of `key` finds when `pending` lies over `state`.
pub open spec fn visible(state: State, pending: WriteSet, key: Seq<u8>) -> Option<Seq<u8>> {
    if pending.contains_key(key) {
        pending[key]
    } else {
        lookup(state, key)
    }
}

/// The state that results when `pending` is laid over `state`.
pub open spec fn overlay(state: State, pending: WriteSet) -> State {
    Map::new(
        |k: Seq<u8>| visible(state, pending, k).is_some(),
        |k: Seq<u8>| visible(state, pending, k).unwrap(),
    )
}

/// The revertible store as a mathematical value.
pub struct RevertibleModel {
    pub base: StoreModel,
    pub pending: WriteSet,
}

impl RevertibleModel {
    /// An empty store with an empty buffer.
    pub open spec fn empty() -> RevertibleModel {
        RevertibleModel { base: StoreModel::empty(), pending: Map::empty() }
    }

    /// The number of commits so far.
    pub open spec fn height(self) -> nat {
        self.base.height()
    }

    /// What a read of `key` at `height` returns: the buffer counts for the
    /// block in progress and for no other height.
    pub open spec fn get(self, height: Height, key: Seq<u8>) -> Option<Seq<u8>> {
        match height {
            Height::Pending => visible(self.base.working, self.pending, key),
            _ => self.base.get(height, key),
        }
    }

    /// The store after a write of `value` under `key`.
    pub open spec fn set(self, key: Seq<u8>, value: Seq<u8>) -> RevertibleModel {
        RevertibleModel { pending: self.pending.insert(key, Some(value)), ..self }
    }

    /// The store after `key` was deleted.
    pub open spec fn delete(self, key: Seq<u8>) -> RevertibleModel {
        RevertibleModel { pending: self.pending.insert(key, None), ..self }
    }

    /// The store after the buffer was thrown away.
    pub open spec fn revert(self) -> RevertibleModel {
        RevertibleModel { pending: Map::empty(), ..self }
    }

    /// The store after the buffer was moved into the working state.
    pub open spec fn apply(self) -> RevertibleModel {
        RevertibleModel {
            base: StoreModel { working: overlay(self.base.working, self.pending), ..self.base },
            pending: Map::empty(),
        }
    }

    /// The store after the buffer was applied and the result committed.
    pub open spec fn commit(self) -> RevertibleModel {
        RevertibleModel { base: self.apply().base.commit(), pending: Map::empty() }
    }

    /// The store after the buffer was applied and the result sealed as the
    /// genesis state.
    pub open spec fn seal_genesis(self) -> RevertibleModel {
        RevertibleModel { base: self.apply().base.seal_genesis(), pending: Map::empty() }
    }

    /// The store as one sees it who may see sealed states only: nothing is
    /// pending, and the working state is the state of the last commit.
    pub open spec fn sealed(self) -> RevertibleModel {
        RevertibleModel {
            base: StoreModel { working: self.base.latest(), ..self.base },
            pending: Map::empty(),
        }
    }

    /// The commitment to the state of the last commit.
    pub open spec fn root(self) -> Seq<u8> {
        self.base.root()
    }

    /// The commitment to the state at a committed height.
    pub open spec fn root_at(self, height: Height) -> Option<Seq<u8>> {
        self.base.root_at(height)
    }
}

/// One operation on a revertible store.
pub enum Op {
    Write(Seq<u8>, Seq<u8>),
    Delete(Seq<u8>),
    Revert,
    Apply,
    Commit,
}

/// The store after one operation.
pub open spec fn step(s: RevertibleModel, op: Op) -> RevertibleModel {
    match op {
        Op::Write(key, value) => s.set(key, value),
        Op::Delete(key) => s.delete(key),
        Op::Revert => s.revert(),
        Op::Apply => s.apply(),
        Op::Commit => s.commit(),
    }
}

/// The store after a list of operations, the first of them first.
pub open spec fn run(s: RevertibleModel, ops: Seq<Op>) -> RevertibleModel
    decreases ops.len(),
{
    if ops.len() == 0 {
        s
    } else {
        step(run(s, ops.drop_last()), ops.last())
    }
}

/// A write is read back from the block in progress, and so is a deletion.
pub proof fn lemma_read_your_write(s: RevertibleModel, key: Seq<u8>, value: Seq<u8>)
    ensures
        s.set(key, value).get(Height::Pending, key) == Some(value),
        s.delete(key).get(Height::Pending, key).is_none(),
{
}

/// A write to one key leaves the reads of every other key as they were.
pub proof fn lemma_write_leaves_other_keys(
    s: RevertibleModel,
    key: Seq<u8>,
    value: Seq<u8>,
    other: Seq<u8>,
    height: Height,
)
    requires
        other != key,
    ensures
        s.set(key, value).get(height, other) == s.get(height, other),
        s.delete(key).get(height, other) == s.get(height, other),
{
}

/// After `revert` every read returns what it returned before the pending
/// writes: a key that had no pending write before a `set` or a `delete`
/// reads, after the revert, as it read before that operation.
pub proof fn lemma_revert_restores(s: RevertibleModel, key: Seq<u8>, value: Seq<u8>)
    requires
        !s.pending.contains_key(key),
    ensures
        s.set(key, value).revert().get(Height::Pending, key) == s.get(Height::Pending, key),
        s.delete(key).revert().get(Height::Pending, key) == s.get(Height::Pending, key),
{
}

/// After `revert` the store is as it was at the last commit or `apply`,
/// whatever was written since.
pub proof fn lemma_revert_forgets(s: RevertibleModel, writes: Seq<Op>)
    requires
        forall|i: int| 0 <= i < writes.len() ==> (#[trigger] writes[i] is Write || writes[i] is Delete),
    ensures
        run(s, writes).revert() == s.revert(),
    decreases writes.len(),
{
    if writes.len() > 0 {
        lemma_revert_forgets(s, writes.drop_last());
        assert(writes.last() is Write || writes.last() is Delete);
    }
}

/// What a sealed height holds never changes: no operation alters a read of
/// a height that is committed already.
pub proof fn lemma_history_stays(s: RevertibleModel, op: Op, h: u64, key: Seq<u8>)
    requires
        s.base.committed.len() > 0,
        h <= s.height(),
    ensures
        step(s, op).get(Height::Stable(h), key) == s.get(Height::Stable(h), key),
        step(s, op).root_at(Height::Stable(h)) == s.root_at(Height::Stable(h)),
{
}

/// What a sealed height holds never changes, however many operations
/// follow: writes committed at a later height leave every earlier height as
/// it was.
pub proof fn lemma_history_stays_for_good(s: RevertibleModel, ops: Seq<Op>, h: u64, key: Seq<u8>)
    requires
        s.base.committed.len() > 0,
        h <= s.height(),
    ensures
        run(s, ops).base.committed.len() > 0,
        run(s, ops).height() >= s.height(),
        run(s, ops).get(Height::Stable(h), key) == s.get(Height::Stable(h), key),
        run(s, ops).root_at(Height::Stable(h)) == s.root_at(Height::Stable(h)),
    decreases ops.len(),
{
    if ops.len() > 0 {
        lemma_history_stays_for_good(s, ops.drop_last(), h, key);
        lemma_history_stays(run(s, ops.drop_last()), ops.last(), h, key);
    }
}

/// A commit raises the height by exactly one; no other operation changes
/// it. So the heights that commits return are strictly increasing, and none
/// is returned twice.
pub proof fn lemma_commit_raises_height(s: RevertibleModel, op: Op)
    requires
        s.base.committed.len() > 0,
    ensures
        step(s, op).base.committed.len() > 0,
        op is Commit ==> step(s, op).height() == s.height() + 1,
        !(op is Commit) ==> step(s, op).height() == s.height(),
{
}

/// The state that a commit seals is what a read of the block in progress
/// saw just before, and its commitment is the commitment to that state.
pub proof fn lemma_commit_seals_what_was_seen(s: RevertibleModel, key: Seq<u8>)
    requires
        s.base.committed.len() > 0,
    ensures
        s.commit().get(Height::Latest, key) == s.get(Height::Pending, key),
        s.commit().root() == state_root(overlay(s.base.working, s.pending)),
{
}

/// Stores that start alike and are fed the same operations in the same
/// order end alike: the same reads and the same commitment at every height.
pub proof fn lemma_same_operations_same_roots(
    a: RevertibleModel,
    b: RevertibleModel,
    ops: Seq<Op>,
    height: Height,
)
    requires
        a == b,
    ensures
        run(a, ops) == run(b, ops),
        run(a, ops).root_at(height) == run(b, ops).root_at(height),
{
}

/// The commitment to a state depends on what the state holds and on
/// nothing else: stores whose states at a height hold the same, however
/// they came to hold it, have the same commitment there.
pub proof fn lemma_same_contents_same_root(a: RevertibleModel, b: RevertibleModel, height: Height)
    requires
        a.base.is_committed(height),
        b.base.is_committed(height),
        a.base.state_at(height) == b.base.state_at(height),
    ensures
        a.root_at(height) == b.root_at(height),
{
}

/// The sealed states do not depend on what is pending or in the working
/// state: stores that have committed the same look the same to one who may
/// see sealed states only.
pub proof fn lemma_sealed_ignores_the_block_in_progress(a: RevertibleModel, b: RevertibleModel)
    requires
        a.base.committed == b.base.committed,
    ensures
        a.sealed() == b.sealed(),
{
}

/// In the sealed view a read of the block in progress is a read of the last
/// commit, and every sealed height reads as in the store itself.
pub proof fn lemma_sealed_reads(s: RevertibleModel, height: Height, key: Seq<u8>)
    ensures
        s.sealed().get(Height::Pending, key) == s.get(Height::Latest, key),
        height != Height::Pending ==> s.sealed().get(height, key) == s.get(height, key),
        s.sealed().root_at(height) == s.root_at(height),
        s.sealed().height() == s.height(),
{
}

/// Laying the empty write set over a state changes nothing.
pub proof fn lemma_overlay_empty(state: State)
    ensures
        overlay(state, Map::empty()) == state,
{
    assert(overlay(state, Map::empty()) =~= state);
}

/// A revertible store.
pub struct RevertibleStore {
    store: VersionedStore,
    writes: Snapshot,
    deletes: Snapshot,
}

impl View for RevertibleStore {
    type V = RevertibleModel;

    closed spec fn view(&self) -> RevertibleModel {
        RevertibleModel { base: self.store@, pending: write_set(self.writes@, self.deletes@) }
    }
}

impl RevertibleStore {
    /// The representation invariant.
    pub closed spec fn wf(&self) -> bool {
        &&& self.store.wf()
        &&& self.writes.wf()
        &&& self.deletes.wf()
    }

    /// Wraps `store` under an empty buffer.
    pub fn new(store: VersionedStore) -> (s: RevertibleStore)
        requires
            store.wf(),
        ensures
            s.wf(),
            s@ == (RevertibleModel { base: store@, pending: Map::empty() }),
    {
        let s = RevertibleStore { store, writes: Snapshot::new(), deletes: Snapshot::new() };
        assert(s@.pending =~= Map::empty());
        s
    }

    /// The number of commits so far.
    pub fn current_height(&self) -> (h: u64)
        requires
            self.wf(),
        ensures
            h == self@.height(),
    {
        self.store.current_height()
    }

    /// The commitment to the state of the last commit.
    pub fn root_hash(&self) -> (root: Digest)
        requires
            self.wf(),
        ensures
            root@ == self@.root(),
    {
        self.store.root_hash()
    }

    /// The commitment to the state at a committed height. Fails where the
    /// height is the block in progress or lies beyond the last commit.
    pub fn root_hash_at(&self, height: Height) -> (r: Result<Digest, StoreError>)
        requires
            self.wf(),
        ensures
            match r {
                Ok(root) => self@.root_at(height) == Some(root@),
                Err(e) => self@.root_at(height).is_none() && e == StoreError::HeightNotFound,
            },
    {
        self.store.root_hash_at(height)
    }

    /// A proof of what the state at a committed height holds under `key`,
    /// which `Proof::verify` accepts against the commitment to that state.
    /// Fails where the height is the block in progress or lies beyond the
    /// last commit.
    pub fn get_proof(&self, height: Height, key: &[u8]) -> (r: Result<Proof, StoreError>)
        requires
            self.wf(),
        ensures
            match r {
                Ok(p) => {
                    &&& self@.root_at(height) is Some
                    &&& p@ == proof_of(canonical(self@.base.state_at(height)->0), key@)
                    &&& proves(self@.root_at(height)->0, key@, self@.get(height, key@), p@)
                },
                Err(e) => self@.root_at(height).is_none() && e == StoreError::HeightNotFound,
            },
    {
        self.store.get_proof(height, key)
    }

    /// The value under `key` at `height`. A read of `Height::Pending` sees
    /// the pending writes; a read of any other height does not.
    pub fn get(&self, height: Height, key: &[u8]) -> (r: Option<Vec<u8>>)
        requires
            self.wf(),
        ensures
            match r {
                Some(v) => self@.get(height, key@) == Some(v@),
                None => self@.get(height, key@).is_none(),
            },
    {
        match height {
            Height::Pending => {
                match self.writes.get(key) {
                    Some(v) => Some(crate::store::key::copy_bytes(v.as_slice())),
                    None => match self.deletes.get(key) {
                        Some(_) => None,
                        None => self.store.get(height, key),
                    },
                }
            },
            _ => self.store.get(height, key),
        }
    }

    /// Buffers a write of `value` under `key` and returns the value that a
    /// read of the block in progress found there before.
    pub fn set(&mut self, key: Vec<u8>, value: Vec<u8>) -> (r: Option<Vec<u8>>)
        requires
            old(self).wf(),
        ensures
            final(self).wf(),
            final(self)@ == old(self)@.set(key@, value@),
            match r {
                Some(v) => old(self)@.get(Height::Pending, key@) == Some(v@),
                None => old(self)@.get(Height::Pending, key@).is_none(),
            },
    {
        let previous = self.get(Height::Pending, key.as_slice());
        self.writes.insert(key, value);
        assert(self@.pending =~= old(self)@.pending.insert(key@, Some(value@)));
        previous
    }

    /// Buffers the deletion of `key` and returns the value that a read of
    /// the block in progress found there before.
    pub fn delete(&mut self, key: &[u8]) -> (r: Option<Vec<u8>>)
        requires
            old(self).wf(),
        ensures
            final(self).wf(),
            final(self)@ == old(self)@.delete(key@),
            match r {
                Some(v) => old(self)@.get(Height::Pending, key@) == Some(v@),
                None => old(self)@.get(Height::Pending, key@).is_none(),
            },
    {
        let previous = self.get(Height::Pending, key);
        self.writes.remove(key);
        self.deletes.insert(crate::store::key::copy_bytes(key), Vec::new());
        assert(self@.pending =~= old(self)@.pending.insert(key@, None));
        previous
    }

    /// Throws the pending writes away: every read then returns what it
    /// returned before the first of them.
    pub fn revert(&mut self)
        requires
            old(self).wf(),
        ensures
            final(self).wf(),
            final(self)@ == old(self)@.revert(),
    {
        self.writes = Snapshot::new();
        self.deletes = Snapshot::new();
        assert(self@.pending =~= Map::empty());
    }

    /// Moves the pending writes into the working state. No read changes its
    /// result, and a later `revert` no longer undoes them.
    pub fn apply(&mut self)
        requires
            old(self).wf(),
        ensures
            final(self).wf(),
            final(self)@ == old(self)@.apply(),
    {
        let ghost target = overlay(self@.base.working, self@.pending);
        loop
            invariant
                self.wf(),
                self@.base.committed == old(self)@.base.committed,
                overlay(self@.base.working, self@.pending) == target,
            ensures
                self.wf(),
                self.deletes@ == Map::<Seq<u8>, Seq<u8>>::empty(),
                self@.base.committed == old(self)@.base.committed,
                overlay(self@.base.working, self@.pending) == target,
            decreases self.deletes.pairs().len(),
        {
            let ghost before = self@;
            match self.deletes.pop() {
                Some(e) => {
                    self.store.delete(e.key.as_slice());
                    assert(overlay(self@.base.working, self@.pending) =~= overlay(
                        before.base.working,
                        before.pending,
                    ));
                },
                None => {
                    proof {
                        self.deletes.lemma_no_entries();
                    }
                    break ;
                },
            }
        }
        loop
            invariant
                self.wf(),
                self.deletes@ == Map::<Seq<u8>, Seq<u8>>::empty(),
                self@.base.committed == old(self)@.base.committed,
                overlay(self@.base.working, self@.pending) == target,
            ensures
                self.wf(),
                self.deletes@ == Map::<Seq<u8>, Seq<u8>>::empty(),
                self.writes@ == Map::<Seq<u8>, Seq<u8>>::empty(),
                self@.base.committed == old(self)@.base.committed,
                overlay(self@.base.working, self@.pending) == target,
            decreases self.writes.pairs().len(),
        {
            let ghost before = self@;
            match self.writes.pop() {
                Some(e) => {
                    self.store.set(e.key, e.value);
                    assert(overlay(self@.base.working, self@.pending) =~= overlay(
                        before.base.working,
                        before.pending,
                    ));
                },
                None => {
                    proof {
                        self.writes.lemma_no_entries();
                    }
                    break ;
                },
            }
        }
        proof {
            assert(self@.pending =~= Map::empty());
            lemma_overlay_empty(self@.base.working);
        }
    }

    /// Applies the pending writes and seals the result as the genesis
    /// state, height 0. Fails, and leaves the store as it was, once a block
    /// has been committed.
    pub fn seal_genesis(&mut self) -> (r: Result<Digest, StoreError>)
        requires
            old(self).wf(),
        ensures
            final(self).wf(),
            match r {
                Ok(root) => {
                    &&& old(self)@.height() == 0
                    &&& final(self)@ == old(self)@.seal_genesis()
                    &&& root@ == final(self)@.root()
                },
                Err(e) => {
                    &&& old(self)@.height() != 0
                    &&& e == StoreError::NotAtGenesis
                    &&& final(self)@ == old(self)@
                },
            },
    {
        if self.store.current_height() != 0 {
            return Err(StoreError::NotAtGenesis);
        }
        self.apply();
        self.store.seal_genesis()
    }

    /// Applies the pending writes and seals the result as the next height.
    /// Fails, and leaves the store as it was, only at the largest height.
    pub fn commit(&mut self) -> (r: Result<(u64, Digest), StoreError>)
        requires
            old(self).wf(),
        ensures
            final(self).wf(),
            match r {
                Ok((height, root)) => {
                    &&& old(self)@.height() < MAX_HEIGHT
                    &&& final(self)@ == old(self)@.commit()
                    &&& height == old(self)@.height() + 1
                    &&& root@ == final(self)@.root()
                },
                Err(e) => {
                    &&& old(self)@.height() == MAX_HEIGHT
                    &&& e == StoreError::HeightOverflow
                    &&& final(self)@ == old(self)@
                },
            },
    {
        if self.store.current_height() == MAX_HEIGHT {
            return Err(StoreError::HeightOverflow);
        }
        self.apply();
        self.store.commit()
    }
}

} // verus!
