//! The dispatch engine: the registered modules in their order, and the
//! routing of every lifecycle call to the modules that it concerns.
//!
//! The order of registration is the only priority among modules: a message
//! or a query goes to the first module that does not decline it.

use vstd::prelude::*;
use crate::modules::{outcome_of, AbciEvent, Answer, BlockHeader, Error, Genesis,
    Module, Outcome, QueryResult};
use crate::store::hash::Digest;
use crate::store::height::{Height, StoreError};
use crate::store::identifier::{is_identifier, Identifier, Path};
use crate::store::revertible::RevertibleModel;
use crate::store::shared::SharedStore;
use crate::store::sub::{SubStore, SubStoreModel, SubStoreRef};
use crate::store::versioned::MAX_HEIGHT;
use crate::wire::{decode_tx, messages_of, tx_messages, Any};

verus! {

/// Why a transaction was not delivered.
#[derive(Clone, Copy, Debug, PartialEq, Eq, Structural)]
pub enum DispatchError {
    /// Two modules name the same namespace.
    DuplicateIdentifier,
    /// The bytes do not decode to a transaction.
    InvalidTx,
    /// The transaction holds no message.
    EmptyTx,
    /// A module failed, or, with `Error::NotHandled`, no module took the
    /// message.
    Module(Error),
}

impl DispatchError {
    /// What went wrong, in words.
    pub open spec fn text(self) -> Seq<char> {
        match self {
            DispatchError::DuplicateIdentifier => "two modules share an identifier"@,
            DispatchError::InvalidTx => "failed to deserialize tx"@,
            DispatchError::EmptyTx => "Empty Tx"@,
            DispatchError::Module(e) => e.text(),
        }
    }

    /// What went wrong, in words.
    pub fn message(&self) -> (s: String)
        ensures
            s@ == self.text(),
    {
        match self {
            DispatchError::DuplicateIdentifier => "two modules share an identifier".to_owned(),
            DispatchError::InvalidTx => "failed to deserialize tx".to_owned(),
            DispatchError::EmptyTx => "Empty Tx".to_owned(),
            DispatchError::Module(e) => e.message(),
        }
    }
}

/// The store as module `m` gets to see it.
pub open spec fn scoped<M: Module>(store: RevertibleModel, m: M) -> SubStoreModel {
    SubStoreModel { store, prefix: m.namespace() }
}

/// Whether an outcome is the signal to ask the next module.
pub open spec fn declined(r: Outcome) -> bool {
    r == Err::<Seq<AbciEvent>, Error>(Error::NotHandled)
}

/// What the delivery of `message` comes to when the modules from index `i`
/// on are asked in turn: the modules and the store afterwards, and the
/// outcome. A module that declines is passed over, with whatever it has
/// changed; the first that does not decline ends the round; where all
/// decline, so does the round.
pub open spec fn deliver_from<M: Module>(
    modules: Seq<M>,
    store: RevertibleModel,
    message: (Seq<char>, Seq<u8>),
    i: int,
) -> (Seq<M>, RevertibleModel, Outcome)
    decreases modules.len() - i,
{
    if i < 0 || i >= modules.len() {
        (modules, store, Err(Error::NotHandled))
    } else {
        let (m, s, r) = modules[i].deliver_spec(scoped(store, modules[i]), message);
        if declined(r) {
            deliver_from(modules.update(i, m), s.store, message, i + 1)
        } else {
            (modules.update(i, m), s.store, r)
        }
    }
}

/// What the delivery of the messages from index `j` on comes to, one after
/// the other, with `events` emitted so far: the first failure ends the run.
pub open spec fn deliver_all<M: Module>(
    modules: Seq<M>,
    store: RevertibleModel,
    messages: Seq<(Seq<char>, Seq<u8>)>,
    j: int,
    events: Seq<AbciEvent>,
) -> (Seq<M>, RevertibleModel, Result<Seq<AbciEvent>, DispatchError>)
    decreases messages.len() - j,
{
    if j < 0 || j >= messages.len() {
        (modules, store, Ok(events))
    } else {
        let (m, s, r) = deliver_from(modules, store, messages[j], 0);
        match r {
            Ok(emitted) => deliver_all(m, s, messages, j + 1, events + emitted),
            Err(e) => (m, s, Err(DispatchError::Module(e))),
        }
    }
}

/// What the delivery of a decoded transaction comes to: a transaction
/// without messages is refused before any module is asked.
pub open spec fn deliver_messages_spec<M: Module>(
    modules: Seq<M>,
    store: RevertibleModel,
    messages: Seq<(Seq<char>, Seq<u8>)>,
) -> (Seq<M>, RevertibleModel, Result<Seq<AbciEvent>, DispatchError>) {
    if messages.len() == 0 {
        (modules, store, Err(DispatchError::EmptyTx))
    } else {
        deliver_all(modules, store, messages, 0, Seq::empty())
    }
}

/// What the delivery of an encoded transaction comes to.
pub open spec fn deliver_msg_spec<M: Module>(modules: Seq<M>, store: RevertibleModel, tx: Seq<u8>)
    -> (Seq<M>, RevertibleModel, Result<Seq<AbciEvent>, DispatchError>) {
    match tx_messages(tx) {
        Some(messages) => deliver_messages_spec(modules, store, messages),
        None => (modules, store, Err(DispatchError::InvalidTx)),
    }
}

/// The answer to a query when the modules from index `i` on are asked in
/// turn: the index and the answer of the first module that does not
/// decline.
pub open spec fn query_from<M: Module>(
    modules: Seq<M>,
    store: RevertibleModel,
    data: Seq<u8>,
    path: Option<Seq<u8>>,
    height: Height,
    prove: bool,
    i: int,
) -> (int, Answer)
    decreases modules.len() - i,
{
    if i < 0 || i >= modules.len() {
        (i, Err(Error::NotHandled))
    } else {
        let r = modules[i].query_spec(scoped(store, modules[i]), data, path, height, prove);
        if r == Err::<crate::modules::QueryResultModel, Error>(Error::NotHandled) {
            query_from(modules, store, data, path, height, prove, i + 1)
        } else {
            (i, r)
        }
    }
}

/// The answer that a routed result stands for.
pub open spec fn routed_answer(r: Result<(usize, QueryResult), Error>) -> Answer {
    match r {
        Ok((_, result)) => Ok(result@),
        Err(e) => Err(e),
    }
}

/// What the beginning of a block comes to when the modules from index `i`
/// on are told of it in turn, with `events` emitted so far: every module
/// takes part, and the events are joined in the order of the modules.
pub open spec fn begin_block_from<M: Module>(
    modules: Seq<M>,
    store: RevertibleModel,
    header: BlockHeader,
    i: int,
    events: Seq<AbciEvent>,
) -> (Seq<M>, RevertibleModel, Seq<AbciEvent>)
    decreases modules.len() - i,
{
    if i < 0 || i >= modules.len() {
        (modules, store, events)
    } else {
        let (m, s, emitted) = modules[i].begin_block_spec(scoped(store, modules[i]), header);
        begin_block_from(modules.update(i, m), s.store, header, i + 1, events + emitted)
    }
}

/// What the initialisation comes to when the modules from index `i` on are
/// set up in turn.
pub open spec fn init_from<M: Module>(
    modules: Seq<M>,
    store: RevertibleModel,
    app_state: Genesis,
    i: int,
) -> (Seq<M>, RevertibleModel)
    decreases modules.len() - i,
{
    if i < 0 || i >= modules.len() {
        (modules, store)
    } else {
        let (m, s) = modules[i].init_spec(scoped(store, modules[i]), app_state);
        init_from(modules.update(i, m), s.store, app_state, i + 1)
    }
}

/// Whether the modules are fit to be registered together: each keeps its
/// invariant and names a namespace, and no two name the same.
pub open spec fn registrable<M: Module>(modules: Seq<M>) -> bool {
    &&& forall|i: int|
        0 <= i < modules.len() ==> (#[trigger] modules[i]).inv() && is_identifier(
            modules[i].namespace(),
        )
    &&& distinct_namespaces(modules)
}

/// No two of the modules name the same namespace.
pub open spec fn distinct_namespaces<M: Module>(modules: Seq<M>) -> bool {
    forall|i: int, j: int|
        0 <= i < j < modules.len() ==> (#[trigger] modules[i]).namespace() != (
        #[trigger] modules[j]).namespace()
}

/// The index of the first module with the namespace `prefix`, if any.
pub open spec fn position<M: Module>(modules: Seq<M>, prefix: Seq<u8>, i: int) -> Option<int>
    decreases modules.len() - i,
{
    if i < 0 || i >= modules.len() {
        None
    } else if modules[i].namespace() == prefix {
        Some(i)
    } else {
        position(modules, prefix, i + 1)
    }
}

/// The dispatch engine.
pub struct ModuleServices<M: Module> {
    modules: Vec<M>,
}

impl<M: Module> View for ModuleServices<M> {
    type V = Seq<M>;

    closed spec fn view(&self) -> Seq<M> {
        self.modules@
    }
}

impl<M: Module> ModuleServices<M> {
    /// The invariant of the engine: its modules are fit to be registered
    /// together.
    pub open spec fn wf(&self) -> bool {
        registrable(self@)
    }

    /// Registers `modules` in their order. Fails where two of them name the
    /// same namespace.
    pub fn new(modules: Vec<M>) -> (r: Result<Self, DispatchError>)
        requires
            forall|i: int| 0 <= i < modules@.len() ==> (#[trigger] modules@[i]).inv(),
        ensures
            match r {
                Ok(engine) => engine.wf() && engine@ == modules@ && distinct_namespaces(modules@),
                Err(e) => e == DispatchError::DuplicateIdentifier && !distinct_namespaces(
                    modules@,
                ),
            },
    {
        let n = modules.len();
        let mut i: usize = 0;
        while i < n
            invariant
                n == modules@.len(),
                0 <= i <= n,
                forall|k: int| 0 <= k < n ==> (#[trigger] modules@[k]).inv(),
                forall|k: int| 0 <= k < i ==> is_identifier((#[trigger] modules@[k]).namespace()),
                forall|a: int, b: int|
                    0 <= a < b < n && a < i ==> (#[trigger] modules@[a]).namespace() != (
                    #[trigger] modules@[b]).namespace(),
            decreases n - i,
        {
            let id = modules[i].prefix();
            proof {
                id.lemma_valid();
            }
            let mut j: usize = i + 1;
            while j < n
                invariant
                    n == modules@.len(),
                    0 <= i < j <= n,
                    forall|k: int| 0 <= k < n ==> (#[trigger] modules@[k]).inv(),
                    forall|b: int|
                        i < b < j ==> modules@[i as int].namespace() != (
                        #[trigger] modules@[b]).namespace(),
                decreases n - j,
            {
                if modules[i].prefix().same(modules[j].prefix()) {
                    return Err(DispatchError::DuplicateIdentifier);
                }
                j += 1;
            }
            i += 1;
        }
        Ok(ModuleServices { modules })
    }

    /// The number of registered modules.
    pub fn len(&self) -> (n: usize)
        ensures
            n == self@.len(),
    {
        self.modules.len()
    }

    /// The index of the module with the namespace `prefix`, if one is
    /// registered.
    pub fn find(&self, prefix: &Identifier) -> (r: Option<usize>)
        requires
            self.wf(),
        ensures
            match r {
                Some(i) => position(self@, prefix@, 0) == Some(i as int) && i < self@.len(),
                None => position(self@, prefix@, 0).is_none(),
            },
    {
        let mut i: usize = 0;
        while i < self.modules.len()
            invariant
                0 <= i <= self.modules@.len(),
                self.wf(),
                position(self@, prefix@, i as int) == position(self@, prefix@, 0),
            decreases self.modules@.len() - i,
        {
            if self.modules[i].prefix().same(prefix) {
                return Some(i);
            }
            i += 1;
        }
        None
    }

    /// The module at index `i`.
    pub fn module(&self, i: usize) -> (m: &M)
        requires
            i < self@.len(),
        ensures
            *m == self@[i as int],
    {
        &self.modules[i]
    }

    /// Sets every module up from the genesis document, in the order of
    /// registration.
    pub fn init(&mut self, store: &mut SharedStore, app_state: &Genesis)
        requires
            old(self).wf(),
            old(store).wf(),
        ensures
            final(self).wf(),
            final(store).wf(),
            final(store)@.base == old(store)@.base,
            (final(self)@, final(store)@) == init_from(old(self)@, old(store)@, *app_state, 0),
    {
        let mut i: usize = 0;
        while i < self.modules.len()
            invariant
                0 <= i <= self.modules@.len(),
                self.wf(),
                store.wf(),
                store@.base == old(store)@.base,
                init_from(self@, store@, *app_state, i as int) == init_from(
                    old(self)@,
                    old(store)@,
                    *app_state,
                    0,
                ),
            decreases self.modules@.len() - i,
        {
            let ghost before = self@;
            let id = self.modules[i].prefix().duplicate();
            let mut sub = SubStore::new(store.take(), id);
            self.modules[i].init(&mut sub, app_state);
            *store = sub.release();
            proof {
                assert(self@ =~= before.update(i as int, self@[i as int]));
                lemma_update_registrable(before, i as int, self@[i as int]);
            }
            i += 1;
        }
    }

    /// Delivers one message: asks the modules in the order of registration
    /// and stops at the first that does not decline. Returns that module's
    /// events or error; `Error::NotHandled` where every module declines.
    pub fn deliver(&mut self, store: &mut SharedStore, message: &Any) -> (r: Result<
        Vec<AbciEvent>,
        Error,
    >)
        requires
            old(self).wf(),
            old(store).wf(),
        ensures
            final(self).wf(),
            final(store).wf(),
            final(store)@.base == old(store)@.base,
            (final(self)@, final(store)@, outcome_of(r)) == deliver_from(
                old(self)@,
                old(store)@,
                message@,
                0,
            ),
    {
        let mut i: usize = 0;
        while i < self.modules.len()
            invariant
                0 <= i <= self.modules@.len(),
                self.wf(),
                store.wf(),
                store@.base == old(store)@.base,
                deliver_from(self@, store@, message@, i as int) == deliver_from(
                    old(self)@,
                    old(store)@,
                    message@,
                    0,
                ),
            decreases self.modules@.len() - i,
        {
            let ghost before = self@;
            let id = self.modules[i].prefix().duplicate();
            let mut sub = SubStore::new(store.take(), id);
            let r = self.modules[i].deliver(&mut sub, message);
            *store = sub.release();
            proof {
                assert(self@ =~= before.update(i as int, self@[i as int]));
                lemma_update_registrable(before, i as int, self@[i as int]);
            }
            match r {
                Err(Error::NotHandled) => {
                    i += 1;
                },
                other => {
                    return other;
                },
            }
        }
        Err(Error::NotHandled)
    }

    /// Delivers the messages of a transaction one after the other and joins
    /// the events. A transaction without messages is refused; the first
    /// message that fails, or that no module takes, ends the delivery with
    /// its error. What the messages before it have written stays pending:
    /// to undo it is the caller's part.
    pub fn deliver_messages(&mut self, store: &mut SharedStore, messages: &Vec<Any>) -> (r: Result<
        Vec<AbciEvent>,
        DispatchError,
    >)
        requires
            old(self).wf(),
            old(store).wf(),
        ensures
            final(self).wf(),
            final(store).wf(),
            final(store)@.base == old(store)@.base,
            (final(self)@, final(store)@, match r {
                Ok(events) => Ok(events@),
                Err(e) => Err(e),
            }) == deliver_messages_spec(old(self)@, old(store)@, messages_of(messages@)),
    {
        if messages.len() == 0 {
            return Err(DispatchError::EmptyTx);
        }
        let ghost all = messages_of(messages@);
        let mut events: Vec<AbciEvent> = Vec::new();
        let mut j: usize = 0;
        while j < messages.len()
            invariant
                0 <= j <= messages@.len(),
                all == messages_of(messages@),
                self.wf(),
                store.wf(),
                store@.base == old(store)@.base,
                deliver_all(self@, store@, all, j as int, events@) == deliver_all(
                    old(self)@,
                    old(store)@,
                    all,
                    0,
                    Seq::empty(),
                ),
            decreases messages@.len() - j,
        {
            assert(all[j as int] == messages@[j as int]@);
            let ghost so_far = events@;
            match self.deliver(store, &messages[j]) {
                Ok(mut emitted) => {
                    let ghost e = emitted@;
                    events.append(&mut emitted);
                    assert(events@ == so_far + e);
                },
                Err(e) => {
                    return Err(DispatchError::Module(e));
                },
            }
            j += 1;
        }
        Ok(events)
    }

    /// Decodes a transaction and delivers its messages. Fails with
    /// `DispatchError::InvalidTx`, before any module is asked, where the
    /// bytes do not decode.
    pub fn deliver_msg(&mut self, store: &mut SharedStore, tx: &[u8]) -> (r: Result<
        Vec<AbciEvent>,
        DispatchError,
    >)
        requires
            old(self).wf(),
            old(store).wf(),
        ensures
            final(self).wf(),
            final(store).wf(),
            final(store)@.base == old(store)@.base,
            (final(self)@, final(store)@, match r {
                Ok(events) => Ok(events@),
                Err(e) => Err(e),
            }) == deliver_msg_spec(old(self)@, old(store)@, tx@),
    {
        match decode_tx(tx) {
            Some(messages) => self.deliver_messages(store, &messages),
            None => Err(DispatchError::InvalidTx),
        }
    }

    /// Puts a query to the modules in the order of registration and returns
    /// the answer of the first that does not decline, with the index of that
    /// module; `Error::NotHandled` where every module declines. The store is
    /// only read, and the modules get to see its sealed states only: the
    /// answer does not depend on what is pending or in the working state.
    pub fn query(
        &self,
        store: &SharedStore,
        data: &[u8],
        path: Option<&Path>,
        height: Height,
        prove: bool,
    ) -> (r: Result<(usize, QueryResult), Error>)
        requires
            self.wf(),
            store.wf(),
            match path {
                Some(p) => p.wf(),
                None => true,
            },
        ensures
            routed_answer(r) == query_from(
                self@,
                store@.sealed(),
                data@,
                match path {
                    Some(p) => Some(p@),
                    None => None,
                },
                height,
                prove,
                0,
            ).1,
            match r {
                Ok((i, _)) => i < self@.len() && i == query_from(
                    self@,
                    store@.sealed(),
                    data@,
                    match path {
                        Some(p) => Some(p@),
                        None => None,
                    },
                    height,
                    prove,
                    0,
                ).0,
                Err(_) => true,
            },
    {
        let ghost route = match path {
            Some(p) => Some(p@),
            None => None,
        };
        let mut i: usize = 0;
        while i < self.modules.len()
            invariant
                0 <= i <= self.modules@.len(),
                self.wf(),
                store.wf(),
                match path {
                    Some(p) => p.wf(),
                    None => true,
                },
                route == match path {
                    Some(p) => Some(p@),
                    None => None,
                },
                query_from(self@, store@.sealed(), data@, route, height, prove, i as int)
                    == query_from(self@, store@.sealed(), data@, route, height, prove, 0),
            decreases self.modules@.len() - i,
        {
            let m = &self.modules[i];
            let sub = SubStoreRef::new(store, m.prefix());
            match m.query(&sub, data, path, height, prove) {
                Err(Error::NotHandled) => {
                    i += 1;
                },
                Err(e) => {
                    return Err(e);
                },
                Ok(result) => {
                    return Ok((i, result));
                },
            }
        }
        Err(Error::NotHandled)
    }

    /// Tells every module of the beginning of a block, in the order of
    /// registration, and joins the events that they emit.
    pub fn begin_block(&mut self, store: &mut SharedStore, header: &BlockHeader) -> (events: Vec<
        AbciEvent,
    >)
        requires
            old(self).wf(),
            old(store).wf(),
        ensures
            final(self).wf(),
            final(store).wf(),
            final(store)@.base == old(store)@.base,
            (final(self)@, final(store)@, events@) == begin_block_from(
                old(self)@,
                old(store)@,
                *header,
                0,
                Seq::empty(),
            ),
    {
        let mut events: Vec<AbciEvent> = Vec::new();
        let mut i: usize = 0;
        while i < self.modules.len()
            invariant
                0 <= i <= self.modules@.len(),
                self.wf(),
                store.wf(),
                store@.base == old(store)@.base,
                begin_block_from(self@, store@, *header, i as int, events@) == begin_block_from(
                    old(self)@,
                    old(store)@,
                    *header,
                    0,
                    Seq::empty(),
                ),
            decreases self.modules@.len() - i,
        {
            let ghost before = self@;
            let ghost so_far = events@;
            let id = self.modules[i].prefix().duplicate();
            let mut sub = SubStore::new(store.take(), id);
            let mut emitted = self.modules[i].begin_block(&mut sub, header);
            *store = sub.release();
            let ghost e = emitted@;
            events.append(&mut emitted);
            proof {
                assert(events@ == so_far + e);
                assert(self@ =~= before.update(i as int, self@[i as int]));
                lemma_update_registrable(before, i as int, self@[i as int]);
            }
            i += 1;
        }
        events
    }

    /// Commits the shared store, once, whatever the number of modules: all
    /// of them keep their state in it.
    pub fn commit(&self, store: &mut SharedStore) -> (r: Result<(u64, Digest), StoreError>)
        requires
            old(store).wf(),
        ensures
            final(store).wf(),
            match r {
                Ok((height, root)) => {
                    &&& old(store)@.height() < MAX_HEIGHT
                    &&& final(store)@ == old(store)@.commit()
                    &&& height == old(store)@.height() + 1
                    &&& root@ == final(store)@.root()
                },
                Err(e) => {
                    &&& old(store)@.height() == MAX_HEIGHT
                    &&& e == StoreError::HeightOverflow
                    &&& final(store)@ == old(store)@
                },
            },
    {
        let r = store.write().commit();
        r
    }
}

/// The order of registration decides: where the module at index `i` is asked
/// and does not decline, the outcome is its outcome, and no module behind it
/// is asked or changed, whether it would have taken the message or not.
pub proof fn lemma_first_taker_handles<M: Module>(
    modules: Seq<M>,
    store: RevertibleModel,
    message: (Seq<char>, Seq<u8>),
    i: int,
)
    requires
        0 <= i < modules.len(),
        !declined(modules[i].deliver_spec(scoped(store, modules[i]), message).2),
    ensures
        ({
            let (m, s, r) = modules[i].deliver_spec(scoped(store, modules[i]), message);
            deliver_from(modules, store, message, i) == (modules.update(i, m), s.store, r)
        }),
        forall|j: int|
            i < j < modules.len() ==> deliver_from(modules, store, message, i).0[j] == modules[j],
{
}

/// A module that declines is passed over: the round goes on behind it with
/// what it has left.
pub proof fn lemma_decliner_is_passed_over<M: Module>(
    modules: Seq<M>,
    store: RevertibleModel,
    message: (Seq<char>, Seq<u8>),
    i: int,
)
    requires
        0 <= i < modules.len(),
        declined(modules[i].deliver_spec(scoped(store, modules[i]), message).2),
    ensures
        ({
            let (m, s, r) = modules[i].deliver_spec(scoped(store, modules[i]), message);
            deliver_from(modules, store, message, i) == deliver_from(
                modules.update(i, m),
                s.store,
                message,
                i + 1,
            )
        }),
{
}

/// A query, too, goes to the first module that does not decline it.
pub proof fn lemma_first_taker_answers<M: Module>(
    modules: Seq<M>,
    store: RevertibleModel,
    data: Seq<u8>,
    path: Option<Seq<u8>>,
    height: Height,
    prove: bool,
    i: int,
)
    requires
        0 <= i < modules.len(),
        modules[i].query_spec(scoped(store, modules[i]), data, path, height, prove) != Err::<
            crate::modules::QueryResultModel,
            Error,
        >(Error::NotHandled),
    ensures
        query_from(modules, store, data, path, height, prove, i) == (
            i,
            modules[i].query_spec(scoped(store, modules[i]), data, path, height, prove),
        ),
{
}

/// Putting a module with the same namespace in the place of another keeps
/// the modules fit to be registered together.
pub proof fn lemma_update_registrable<M: Module>(modules: Seq<M>, i: int, m: M)
    requires
        registrable(modules),
        0 <= i < modules.len(),
        m.inv(),
        m.namespace() == modules[i].namespace(),
    ensures
        registrable(modules.update(i, m)),
{
    let next = modules.update(i, m);
    assert forall|k: int| 0 <= k < next.len() implies (#[trigger] next[k]).inv() && is_identifier(
        next[k].namespace(),
    ) by {
        if k != i {
            assert(next[k] == modules[k]);
        }
    }
    assert forall|a: int, b: int| 0 <= a < b < next.len() implies (#[trigger] next[a]).namespace()
        != (#[trigger] next[b]).namespace() by {
        assert(next[a].namespace() == modules[a].namespace());
        assert(next[b].namespace() == modules[b].namespace());
    }
}

} // verus!
