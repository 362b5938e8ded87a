//! The shared store: the one store instance that every holder works on.

use vstd::prelude::*;
use crate::store::revertible::{RevertibleModel, RevertibleStore};
use crate::store::versioned::VersionedStore;

verus! {

/// The single store of an application. Whoever holds it by `&` may read,
/// whoever holds it by `&mut` is the one writer.
pub struct SharedStore {
    inner: RevertibleStore,
}

impl View for SharedStore {
    type V = RevertibleModel;

    closed spec fn view(&self) -> RevertibleModel {
        self.inner@
    }
}

impl SharedStore {
    /// The representation invariant.
    pub closed spec fn wf(&self) -> bool {
        self.inner.wf()
    }

    /// Shares `store`.
    pub fn new(store: RevertibleStore) -> (s: SharedStore)
        requires
            store.wf(),
        ensures
            s.wf(),
            s@ == store@,
    {
        SharedStore { inner: store }
    }

    /// Moves the store out and leaves an empty one in its place, for the
    /// time that a holder works on it by value.
    pub fn take(&mut self) -> (s: SharedStore)
        ensures
            s@ == old(self)@,
            s.wf() == old(self).wf(),
            final(self).wf(),
            final(self)@ == RevertibleModel::empty(),
    {
        let mut taken = SharedStore { inner: RevertibleStore::new(VersionedStore::new()) };
        core::mem::swap(self, &mut taken);
        taken
    }

    /// The store, for reading.
    pub fn read(&self) -> (s: &RevertibleStore)
        requires
            self.wf(),
        ensures
            s.wf(),
            s@ == self@,
    {
        &self.inner
    }

    /// The store, for writing.
    pub fn write(&mut self) -> (s: &mut RevertibleStore)
        requires
            old(self).wf(),
        ensures
            s.wf(),
            s@ == old(self)@,
            final(self)@ == final(s)@,
            final(self).wf() == final(s).wf(),
    {
        &mut self.inner
    }
}

} // verus!
