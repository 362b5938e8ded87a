//! The sub-store: the shared store as one module may see it. Every key that
//! goes in is put under the module's namespace first, and no method takes a
//! key as it stands in the store.

use vstd::prelude::*;
use crate::store::evidence::{proof_of, proves, Proof};
use crate::store::snapshot::canonical;
use crate::store::hash::Digest;
use crate::store::height::{Height, StoreError};
use crate::store::identifier::{in_namespace, is_identifier, lemma_not_in_other_namespace, prefixed,
    Identifier};
use crate::store::revertible::RevertibleModel;
use crate::store::shared::SharedStore;

verus! {

/// The sealed height that a height stands for in a view of sealed states:
/// the last commit for the block in progress, any other height itself.
pub open spec fn at_rest(height: Height) -> Height {
    match height {
        Height::Pending => Height::Latest,
        _ => height,
    }
}

/// A sub-store as a mathematical value: the whole store and the namespace
/// through which it is seen.
pub struct SubStoreModel {
    pub store: RevertibleModel,
    pub prefix: Seq<u8>,
}

impl SubStoreModel {
    /// What a read of `key` at `height` returns.
    pub open spec fn get(self, height: Height, key: Seq<u8>) -> Option<Seq<u8>> {
        self.store.get(height, prefixed(self.prefix, key))
    }

    /// The sub-store after a write of `value` under `key`.
    pub open spec fn set(self, key: Seq<u8>, value: Seq<u8>) -> SubStoreModel {
        SubStoreModel { store: self.store.set(prefixed(self.prefix, key), value), ..self }
    }

    /// The sub-store after `key` was deleted.
    pub open spec fn delete(self, key: Seq<u8>) -> SubStoreModel {
        SubStoreModel { store: self.store.delete(prefixed(self.prefix, key)), ..self }
    }

    /// Whether `next` can come of `self` by what a sub-store lets its holder
    /// do: the namespace is the same, nothing is committed or applied, and
    /// of the pending writes only those in the namespace differ.
    pub open spec fn confines(self, next: SubStoreModel) -> bool {
        &&& next.prefix == self.prefix
        &&& next.store.base == self.store.base
        &&& forall|k: Seq<u8>|
            !in_namespace(self.prefix, k) ==> {
                &&& self.store.pending.contains_key(k) == #[trigger] next.store.pending.contains_key(
                    k,
                )
                &&& self.store.pending[k] == next.store.pending[k]
            }
    }
}

/// Whatever is done through a sub-store leaves every read through a
/// sub-store of another namespace as it was.
pub proof fn lemma_isolation(
    before: SubStoreModel,
    after: SubStoreModel,
    other: Seq<u8>,
    height: Height,
    key: Seq<u8>,
)
    requires
        before.confines(after),
        is_identifier(before.prefix),
        is_identifier(other),
        other != before.prefix,
    ensures
        (SubStoreModel { store: after.store, prefix: other }).get(height, key) == (SubStoreModel {
            store: before.store,
            prefix: other,
        }).get(height, key),
{
    lemma_not_in_other_namespace(other, before.prefix, key);
    let k = prefixed(other, key);
    assert(before.store.pending.contains_key(k) == after.store.pending.contains_key(k));
}

/// A write through one sub-store is not seen through a sub-store of another
/// namespace, even under the same key.
pub proof fn lemma_write_isolated(
    store: RevertibleModel,
    id1: Seq<u8>,
    id2: Seq<u8>,
    key: Seq<u8>,
    value: Seq<u8>,
    height: Height,
    other_key: Seq<u8>,
)
    requires
        is_identifier(id1),
        is_identifier(id2),
        id1 != id2,
    ensures
        (SubStoreModel { store: (SubStoreModel { store, prefix: id1 }).set(key, value).store, prefix: id2 }).get(
            height,
            other_key,
        ) == (SubStoreModel { store, prefix: id2 }).get(height, other_key),
        (SubStoreModel { store: (SubStoreModel { store, prefix: id1 }).delete(key).store, prefix: id2 }).get(
            height,
            other_key,
        ) == (SubStoreModel { store, prefix: id2 }).get(height, other_key),
{
    crate::store::identifier::lemma_namespaces_disjoint(id1, id2, key, other_key);
}

/// The shared store seen through the namespace of one module.
pub struct SubStore {
    store: SharedStore,
    prefix: Identifier,
}

impl View for SubStore {
    type V = SubStoreModel;

    closed spec fn view(&self) -> SubStoreModel {
        SubStoreModel { store: self.store@, prefix: self.prefix@ }
    }
}

impl SubStore {
    /// The representation invariant.
    pub closed spec fn wf(&self) -> bool {
        self.store.wf() && self.prefix.wf()
    }

    /// The namespace of a well-formed sub-store is an identifier.
    pub proof fn lemma_prefix_valid(&self)
        requires
            self.wf(),
        ensures
            is_identifier(self@.prefix),
    {
        self.prefix.lemma_valid();
    }

    /// The view of `store` through the namespace `prefix`.
    pub fn new(store: SharedStore, prefix: Identifier) -> (s: SubStore)
        requires
            store.wf(),
            prefix.wf(),
        ensures
            s.wf(),
            s@ == (SubStoreModel { store: store@, prefix: prefix@ }),
    {
        SubStore { store, prefix }
    }

    /// Gives the shared store back.
    pub fn release(self) -> (store: SharedStore)
        requires
            self.wf(),
        ensures
            store.wf(),
            store@ == self@.store,
    {
        self.store
    }

    /// The namespace.
    pub fn prefix(&self) -> (id: &Identifier)
        requires
            self.wf(),
        ensures
            id.wf(),
            id@ == self@.prefix,
    {
        &self.prefix
    }

    /// The number of commits so far.
    pub fn current_height(&self) -> (h: u64)
        requires
            self.wf(),
        ensures
            h == self@.store.height(),
    {
        self.store.read().current_height()
    }

    /// The value under `key` of this namespace at `height`.
    pub fn get(&self, height: Height, key: &[u8]) -> (r: Option<Vec<u8>>)
        requires
            self.wf(),
        ensures
            match r {
                Some(v) => self@.get(height, key@) == Some(v@),
                None => self@.get(height, key@).is_none(),
            },
    {
        let k = self.prefix.prefixed_key(key);
        self.store.read().get(height, k.as_slice())
    }

    /// Buffers a write of `value` under `key` of this namespace and returns
    /// the value that a read of the block in progress found there before.
    pub fn set(&mut self, key: &[u8], value: Vec<u8>) -> (r: Option<Vec<u8>>)
        requires
            old(self).wf(),
        ensures
            final(self).wf(),
            final(self)@ == old(self)@.set(key@, value@),
            old(self)@.confines(final(self)@),
            match r {
                Some(v) => old(self)@.get(Height::Pending, key@) == Some(v@),
                None => old(self)@.get(Height::Pending, key@).is_none(),
            },
    {
        let k = self.prefix.prefixed_key(key);
        let r = self.store.write().set(k, value);
        r
    }

    /// Buffers the deletion of `key` of this namespace and returns the value
    /// that a read of the block in progress found there before.
    pub fn delete(&mut self, key: &[u8]) -> (r: Option<Vec<u8>>)
        requires
            old(self).wf(),
        ensures
            final(self).wf(),
            final(self)@ == old(self)@.delete(key@),
            old(self)@.confines(final(self)@),
            match r {
                Some(v) => old(self)@.get(Height::Pending, key@) == Some(v@),
                None => old(self)@.get(Height::Pending, key@).is_none(),
            },
    {
        let k = self.prefix.prefixed_key(key);
        let r = self.store.write().delete(k.as_slice());
        r
    }
}

/// The shared store seen through the namespace of one module, for reading
/// only, and only what has been sealed: no read through it sees a pending
/// write or the working state of the block in progress.
pub struct SubStoreRef<'a> {
    store: &'a SharedStore,
    prefix: &'a Identifier,
}

impl<'a> View for SubStoreRef<'a> {
    type V = SubStoreModel;

    closed spec fn view(&self) -> SubStoreModel {
        SubStoreModel { store: self.store@.sealed(), prefix: self.prefix@ }
    }
}

impl<'a> SubStoreRef<'a> {
    /// The representation invariant.
    pub closed spec fn wf(&self) -> bool {
        self.store.wf() && self.prefix.wf()
    }

    /// The read-only view of `store` through the namespace `prefix`.
    pub fn new(store: &'a SharedStore, prefix: &'a Identifier) -> (s: SubStoreRef<'a>)
        requires
            store.wf(),
            prefix.wf(),
        ensures
            s.wf(),
            s@ == (SubStoreModel { store: store@.sealed(), prefix: prefix@ }),
    {
        SubStoreRef { store, prefix }
    }

    /// The namespace.
    pub fn prefix(&self) -> (id: &Identifier)
        requires
            self.wf(),
        ensures
            id.wf(),
            id@ == self@.prefix,
    {
        self.prefix
    }

    /// The number of commits so far.
    pub fn current_height(&self) -> (h: u64)
        requires
            self.wf(),
        ensures
            h == self@.store.height(),
    {
        self.store.read().current_height()
    }

    /// A proof of what the sealed state at `height` holds under `key` of
    /// this namespace, where `Height::Pending` stands for the last commit.
    /// The proof speaks of the key as it stands in the store,
    /// `prefixed(prefix, key)`, and `Proof::verify` accepts it against the
    /// commitment to that state. Fails where the height lies beyond the last
    /// commit.
    pub fn get_proof(&self, height: Height, key: &[u8]) -> (r: Result<Proof, StoreError>)
        requires
            self.wf(),
        ensures
            match r {
                Ok(p) => {
                    &&& self@.store.root_at(at_rest(height)) is Some
                    &&& p@ == proof_of(
                        canonical(self@.store.base.state_at(at_rest(height))->0),
                        prefixed(self@.prefix, key@),
                    )
                    &&& proves(
                        self@.store.root_at(at_rest(height))->0,
                        prefixed(self@.prefix, key@),
                        self@.get(height, key@),
                        p@,
                    )
                },
                Err(e) => self@.store.root_at(at_rest(height)).is_none() && e
                    == StoreError::HeightNotFound,
            },
    {
        let k = self.prefix.prefixed_key(key);
        let h = match height {
            Height::Pending => Height::Latest,
            _ => height,
        };
        self.store.read().get_proof(h, k.as_slice())
    }

    /// The commitment to the sealed state at `height`, where
    /// `Height::Pending` stands for the last commit. Fails where the height
    /// lies beyond the last commit.
    pub fn root_hash_at(&self, height: Height) -> (r: Result<Digest, StoreError>)
        requires
            self.wf(),
        ensures
            match r {
                Ok(root) => self@.store.root_at(at_rest(height)) == Some(root@),
                Err(e) => self@.store.root_at(at_rest(height)).is_none() && e
                    == StoreError::HeightNotFound,
            },
    {
        let h = match height {
            Height::Pending => Height::Latest,
            _ => height,
        };
        self.store.read().root_hash_at(h)
    }

    /// The value under `key` of this namespace at `height`. In this view
    /// the block in progress holds what the last commit holds.
    pub fn get(&self, height: Height, key: &[u8]) -> (r: Option<Vec<u8>>)
        requires
            self.wf(),
        ensures
            match r {
                Some(v) => self@.get(height, key@) == Some(v@),
                None => self@.get(height, key@).is_none(),
            },
    {
        let k = self.prefix.prefixed_key(key);
        let h = match height {
            Height::Pending => Height::Latest,
            _ => height,
        };
        self.store.read().get(h, k.as_slice())
    }
}

} // verus!
