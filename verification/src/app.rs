//! The application: the state machine that the consensus engine drives with
//! its lifecycle calls.
//!
//! The application is `Uninitialized` until `init_chain`, then `Ready`; a
//! block runs from `begin_block` through any number of `deliver_tx` to
//! `commit`, which makes it `Ready` again. A call that does not fit the
//! phase is refused and changes nothing. Queries are answered in any phase
//! from sealed states only.

use vstd::prelude::*;
use vstd::string::StringExecFns;
use vstd::string::StringSliceAdditionalSpecFns;
use crate::dispatch::{begin_block_from, deliver_msg_spec, init_from, position, query_from,
    DispatchError, ModuleServices};
use crate::modules::{proof_ops_of, AbciEvent, BlockHeader, Error, Module, ProofOp, QueryResult};
use crate::store::encoding::encoding;
use crate::store::evidence::proof_of;
use crate::store::snapshot::canonical;
use crate::store::height::{Height, StoreError};
use crate::store::identifier::{is_path, prefixed, Identifier, Path};
use crate::store::key::copy_bytes;
use crate::store::revertible::{RevertibleModel, RevertibleStore};
use crate::store::shared::SharedStore;
use crate::store::sub::{SubStoreModel, SubStoreRef};
use crate::store::versioned::{VersionedStore, MAX_HEIGHT};
use crate::wire::{check_header, checked_header, decode_tx, json_document, parse_json, tx_messages};

verus! {

/// Where the application stands in its lifecycle.
#[derive(Clone, Copy, Debug, PartialEq, Eq, Structural)]
pub enum Phase {
    /// The chain has not been initialised.
    Uninitialized,
    /// No block is in progress.
    Ready,
    /// A block has begun and is not yet committed.
    BlockInProgress,
}

/// Why the application refused a call.
#[derive(Clone, Copy, Debug, PartialEq, Eq, Structural)]
pub enum AppError {
    /// The call does not fit the phase.
    OutOfOrder,
    /// The genesis state is not a JSON document.
    InvalidGenesis,
    /// The request holds no header.
    MissingHeader,
    /// The header of the request does not pass the checks.
    InvalidHeader,
    /// The store refused to commit.
    Store(StoreError),
}

impl AppError {
    /// What went wrong, in words.
    pub open spec fn text(self) -> Seq<char> {
        match self {
            AppError::OutOfOrder => "call out of order"@,
            AppError::InvalidGenesis => "genesis state isn't valid JSON"@,
            AppError::MissingHeader => "missing block header"@,
            AppError::InvalidHeader => "invalid block header"@,
            AppError::Store(_) => "failed to commit to state"@,
        }
    }

    /// What went wrong, in words.
    pub fn message(&self) -> (s: String)
        ensures
            s@ == self.text(),
    {
        match self {
            AppError::OutOfOrder => "call out of order".to_owned(),
            AppError::InvalidGenesis => "genesis state isn't valid JSON".to_owned(),
            AppError::MissingHeader => "missing block header".to_owned(),
            AppError::InvalidHeader => "invalid block header".to_owned(),
            AppError::Store(_) => "failed to commit to state".to_owned(),
        }
    }
}

/// The answer to `info`.
pub struct InfoResponse {
    pub data: String,
    pub version: String,
    pub app_version: u64,
    pub last_block_height: u64,
    pub last_block_app_hash: Vec<u8>,
}

/// The answer to `init_chain`.
pub struct InitChainResponse {
    pub app_hash: Vec<u8>,
}

/// The answer to `begin_block`.
pub struct BeginBlockResponse {
    pub events: Vec<AbciEvent>,
}

/// The answer to `deliver_tx`. The code is 0 where the transaction was
/// delivered.
pub struct DeliverTxResponse {
    pub code: u32,
    pub log: String,
    pub events: Vec<AbciEvent>,
}

/// The answer to `commit`.
pub struct CommitResponse {
    pub data: Vec<u8>,
    pub retain_height: i64,
}

/// The answer to `query`. The code is 0 where a module answered.
pub struct QueryResponse {
    pub code: u32,
    pub log: String,
    pub key: Vec<u8>,
    pub value: Vec<u8>,
    pub proof_ops: Option<Vec<ProofOp>>,
    pub height: u64,
}

/// The application as a mathematical value.
pub struct AppModel<M> {
    pub store: RevertibleModel,
    pub modules: Seq<M>,
    pub phase: Phase,
}

/// The log of a transaction that failed.
pub open spec fn failure_log(e: DispatchError) -> Seq<char> {
    "failed to deliver tx: "@ + e.text()
}

/// The log of a query that failed.
pub open spec fn query_error_log(e: Error) -> Seq<char> {
    match e {
        Error::NotHandled => "query msg not handled"@,
        _ => "query error: "@ + e.text(),
    }
}

/// Whether `r` is the answer to a query that failed with `log`: code 1, the
/// log, and nothing else.
pub open spec fn query_failed(r: QueryResponse, log: Seq<char>) -> bool {
    &&& r.code == 1
    &&& r.log@ == log
    &&& r.key@.len() == 0
    &&& r.value@.len() == 0
    &&& r.proof_ops is None
    &&& r.height == 0
}

/// Whether `ops` are the proof steps of a module followed by one step of
/// the store: a step with an empty kind and the key `key`, whose body is
/// the encoding of the proof of what `state` holds under `key`.
pub open spec fn with_store_proof(
    ops: Seq<(Seq<char>, Seq<u8>, Seq<u8>)>,
    of_module: Seq<(Seq<char>, Seq<u8>, Seq<u8>)>,
    state: Map<Seq<u8>, Seq<u8>>,
    key: Seq<u8>,
) -> bool {
    &&& ops.len() == of_module.len() + 1
    &&& ops.drop_last() == of_module
    &&& ops.last().0.len() == 0
    &&& ops.last().1 == key
    &&& ops.last().2 == encoding(proof_of(canonical(state), key))
}

impl<M: Module> AppModel<M> {
    /// The application after `init_chain` with a parsed genesis document:
    /// every module is set up, and what they have written is sealed as the
    /// genesis state.
    pub open spec fn init_chain(self, app_state: serde_json::Value) -> AppModel<M> {
        let (modules, store) = init_from(self.modules, self.store, app_state, 0);
        AppModel { store: store.seal_genesis(), modules, phase: Phase::Ready }
    }

    /// The application after `begin_block`, and the events emitted: every
    /// module is told, and what they have written becomes part of the block.
    pub open spec fn begin_block(self, header: BlockHeader) -> (AppModel<M>, Seq<AbciEvent>) {
        let (modules, store, events) = begin_block_from(
            self.modules,
            self.store,
            header,
            0,
            Seq::empty(),
        );
        (AppModel { store: store.apply(), modules, phase: Phase::BlockInProgress }, events)
    }

    /// The application after `deliver_tx`, and the outcome: where every
    /// message is delivered, what the modules have written becomes part of
    /// the block; where the delivery fails, all of it is thrown away.
    pub open spec fn deliver_tx(self, tx: Seq<u8>) -> (
        AppModel<M>,
        Result<Seq<AbciEvent>, DispatchError>,
    ) {
        let (modules, store, r) = deliver_msg_spec(self.modules, self.store, tx);
        match r {
            Ok(events) => (AppModel { store: store.apply(), modules, ..self }, Ok(events)),
            Err(e) => (AppModel { store: store.revert(), modules, ..self }, Err(e)),
        }
    }

    /// The application after `commit`.
    pub open spec fn commit(self) -> AppModel<M> {
        AppModel { store: self.store.commit(), phase: Phase::Ready, ..self }
    }
}

/// The application.
pub struct BaseCoinApp<M: Module> {
    store: SharedStore,
    modules: ModuleServices<M>,
    phase: Phase,
}

impl<M: Module> View for BaseCoinApp<M> {
    type V = AppModel<M>;

    closed spec fn view(&self) -> AppModel<M> {
        AppModel { store: self.store@, modules: self.modules@, phase: self.phase }
    }
}

impl<M: Module> BaseCoinApp<M> {
    /// The invariant of the application: store and engine are well formed,
    /// and between two calls no write is pending.
    pub closed spec fn wf(&self) -> bool {
        &&& self.store.wf()
        &&& self.modules.wf()
        &&& self.store@.pending == Map::<Seq<u8>, Option<Seq<u8>>>::empty()
        &&& self.store@.base.committed.len() > 0
    }

    /// Between two calls no write is pending, and the modules are fit to be
    /// registered together.
    pub proof fn lemma_wf(&self)
        requires
            self.wf(),
        ensures
            self@.store.pending == Map::<Seq<u8>, Option<Seq<u8>>>::empty(),
            crate::dispatch::registrable(self@.modules),
    {
    }

    /// An application over `store` with `modules` registered in their
    /// order. Fails where two modules name the same namespace.
    pub fn new(store: VersionedStore, modules: Vec<M>) -> (r: Result<Self, DispatchError>)
        requires
            store.wf(),
            forall|i: int| 0 <= i < modules@.len() ==> (#[trigger] modules@[i]).inv(),
        ensures
            match r {
                Ok(app) => {
                    &&& crate::dispatch::distinct_namespaces(modules@)
                    &&& app.wf()
                    &&& app@ == (AppModel {
                        store: RevertibleModel { base: store@, pending: Map::empty() },
                        modules: modules@,
                        phase: Phase::Uninitialized,
                    })
                },
                Err(e) => e == DispatchError::DuplicateIdentifier
                    && !crate::dispatch::distinct_namespaces(modules@),
            },
    {
        proof {
            store.lemma_has_genesis();
        }
        match ModuleServices::new(modules) {
            Ok(engine) => Ok(
                BaseCoinApp {
                    store: SharedStore::new(RevertibleStore::new(store)),
                    modules: engine,
                    phase: Phase::Uninitialized,
                },
            ),
            Err(e) => Err(e),
        }
    }

    /// The phase of the lifecycle.
    pub fn phase(&self) -> (p: Phase)
        ensures
            p == self@.phase,
    {
        self.phase
    }

    /// The engine with the registered modules.
    pub fn modules(&self) -> (m: &ModuleServices<M>)
        requires
            self.wf(),
        ensures
            m.wf(),
            m@ == self@.modules,
    {
        &self.modules
    }

    /// The store, for reading.
    pub fn store(&self) -> (s: &SharedStore)
        requires
            self.wf(),
        ensures
            s.wf(),
            s@ == self@.store,
    {
        &self.store
    }

    /// The sealed states of the store as the module with the namespace
    /// `prefix` sees them; `None` where no such module is registered.
    pub fn get_store<'a>(&'a self, prefix: &'a Identifier) -> (r: Option<SubStoreRef<'a>>)
        requires
            self.wf(),
            prefix.wf(),
        ensures
            match r {
                Some(sub) => {
                    &&& position(self@.modules, prefix@, 0) is Some
                    &&& sub.wf()
                    &&& sub@ == (SubStoreModel { store: self@.store.sealed(), prefix: prefix@ })
                },
                None => position(self@.modules, prefix@, 0) is None,
            },
    {
        match self.modules.find(prefix) {
            Some(_) => Some(SubStoreRef::new(&self.store, prefix)),
            None => None,
        }
    }

    /// Reports the height and the commitment of the last commit. Changes
    /// nothing.
    pub fn info(&self) -> (r: InfoResponse)
        requires
            self.wf(),
        ensures
            r.data@ == "basecoin-rs"@,
            r.version@ == "0.1.0"@,
            r.app_version == 1,
            r.last_block_height == self@.store.height(),
            r.last_block_app_hash@ == self@.store.root(),
    {
        let state = self.store.read();
        let root = state.root_hash();
        InfoResponse {
            data: "basecoin-rs".to_owned(),
            version: "0.1.0".to_owned(),
            app_version: 1,
            last_block_height: state.current_height(),
            last_block_app_hash: copy_bytes(root.as_slice()),
        }
    }

    /// Initialises the chain from a parsed genesis document: sets every
    /// module up and seals what they have written as the genesis state.
    /// Refused, with nothing changed, unless the application is
    /// `Uninitialized`.
    pub fn init_chain_with(&mut self, app_state: &serde_json::Value) -> (r: Result<
        InitChainResponse,
        AppError,
    >)
        requires
            old(self).wf(),
        ensures
            final(self).wf(),
            match r {
                Ok(response) => {
                    &&& old(self)@.phase == Phase::Uninitialized
                    &&& old(self)@.store.height() == 0
                    &&& final(self)@ == old(self)@.init_chain(*app_state)
                    &&& response.app_hash@ == final(self)@.store.root()
                },
                Err(e) => {
                    &&& final(self)@ == old(self)@
                    &&& e == AppError::OutOfOrder
                    &&& (old(self)@.phase != Phase::Uninitialized || old(self)@.store.height()
                        != 0)
                },
            },
    {
        if self.phase != Phase::Uninitialized || self.store.read().current_height() != 0 {
            return Err(AppError::OutOfOrder);
        }
        self.modules.init(&mut self.store, app_state);
        match self.store.write().seal_genesis() {
            Ok(root) => {
                self.phase = Phase::Ready;
                Ok(InitChainResponse { app_hash: copy_bytes(root.as_slice()) })
            },
            Err(_) => Err(AppError::OutOfOrder),
        }
    }

    /// Initialises the chain from the bytes of a genesis document. Fails
    /// with `AppError::InvalidGenesis`, and changes nothing, where the bytes
    /// are not a JSON document: the chain must not start from a state that
    /// nobody knows.
    pub fn init_chain(&mut self, app_state_bytes: &[u8]) -> (r: Result<InitChainResponse, AppError>)
        requires
            old(self).wf(),
        ensures
            final(self).wf(),
            match r {
                Ok(response) => {
                    &&& old(self)@.phase == Phase::Uninitialized
                    &&& old(self)@.store.height() == 0
                    &&& json_document(app_state_bytes@) is Some
                    &&& final(self)@ == old(self)@.init_chain(json_document(app_state_bytes@)->0)
                    &&& response.app_hash@ == final(self)@.store.root()
                },
                Err(e) => {
                    &&& final(self)@ == old(self)@
                    &&& e == if json_document(app_state_bytes@) is None {
                        AppError::InvalidGenesis
                    } else {
                        AppError::OutOfOrder
                    }
                    &&& (json_document(app_state_bytes@) is None || old(self)@.phase
                        != Phase::Uninitialized || old(self)@.store.height() != 0)
                },
            },
    {
        match parse_json(app_state_bytes) {
            Some(app_state) => self.init_chain_with(&app_state),
            None => Err(AppError::InvalidGenesis),
        }
    }

    /// Begins a block with a checked header: tells every module and makes
    /// what they have written part of the block. Refused, with nothing
    /// changed, unless the application is `Ready`.
    pub fn begin_block_with(&mut self, header: &BlockHeader) -> (r: Result<
        BeginBlockResponse,
        AppError,
    >)
        requires
            old(self).wf(),
        ensures
            final(self).wf(),
            match r {
                Ok(response) => {
                    &&& old(self)@.phase == Phase::Ready
                    &&& (final(self)@, response.events@) == old(self)@.begin_block(*header)
                },
                Err(e) => {
                    &&& final(self)@ == old(self)@
                    &&& e == AppError::OutOfOrder
                    &&& old(self)@.phase != Phase::Ready
                },
            },
    {
        if self.phase != Phase::Ready {
            return Err(AppError::OutOfOrder);
        }
        let events = self.modules.begin_block(&mut self.store, header);
        self.store.write().apply();
        self.phase = Phase::BlockInProgress;
        Ok(BeginBlockResponse { events })
    }

    /// Begins a block with the header of the request. Fails, and changes
    /// nothing, where the request holds no header or the header does not
    /// pass the checks.
    pub fn begin_block(&mut self, header: Option<tendermint_proto::types::Header>) -> (r: Result<
        BeginBlockResponse,
        AppError,
    >)
        requires
            old(self).wf(),
        ensures
            final(self).wf(),
            match r {
                Ok(response) => {
                    &&& old(self)@.phase == Phase::Ready
                    &&& header is Some
                    &&& checked_header(header->0) is Some
                    &&& (final(self)@, response.events@) == old(self)@.begin_block(
                        checked_header(header->0)->0,
                    )
                },
                Err(e) => {
                    &&& final(self)@ == old(self)@
                    &&& e == if header is None {
                        AppError::MissingHeader
                    } else if checked_header(header->0) is None {
                        AppError::InvalidHeader
                    } else {
                        AppError::OutOfOrder
                    }
                    &&& (header is None || checked_header(header->0) is None || old(self)@.phase
                        != Phase::Ready)
                },
            },
    {
        match header {
            Some(raw) => match check_header(raw) {
                Some(checked) => self.begin_block_with(&checked),
                None => Err(AppError::InvalidHeader),
            },
            None => Err(AppError::MissingHeader),
        }
    }

    /// Delivers a transaction. Where every message is taken by a module and
    /// succeeds, the code is 0 and what the modules have written becomes
    /// part of the block. Where the bytes do not decode, the transaction
    /// holds no message, a message fails or no module takes it, or no block
    /// is in progress, the code is 1 and the store is as it was before the
    /// call.
    pub fn deliver_tx(&mut self, tx: &[u8]) -> (r: DeliverTxResponse)
        requires
            old(self).wf(),
        ensures
            final(self).wf(),
            final(self)@.phase == old(self)@.phase,
            r.code == 0 || r.code == 1,
            r.code != 0 ==> final(self)@.store == old(self)@.store && r.events@.len() == 0,
            old(self)@.phase != Phase::BlockInProgress ==> {
                &&& r.code == 1
                &&& r.log@ == AppError::OutOfOrder.text()
                &&& final(self)@ == old(self)@
            },
            old(self)@.phase == Phase::BlockInProgress ==> {
                &&& final(self)@ == old(self)@.deliver_tx(tx@).0
                &&& match old(self)@.deliver_tx(tx@).1 {
                    Ok(events) => r.code == 0 && r.events@ == events && r.log@ == "success"@,
                    Err(e) => r.code == 1 && r.log@ == failure_log(e),
                }
            },
    {
        if self.phase != Phase::BlockInProgress {
            return DeliverTxResponse {
                code: 1,
                log: AppError::OutOfOrder.message(),
                events: Vec::new(),
            };
        }
        match self.modules.deliver_msg(&mut self.store, tx) {
            Ok(events) => {
                self.store.write().apply();
                DeliverTxResponse { code: 0, log: "success".to_owned(), events }
            },
            Err(e) => {
                self.store.write().revert();
                let log = "failed to deliver tx: ".to_owned().concat(e.message().as_str());
                DeliverTxResponse { code: 1, log, events: Vec::new() }
            },
        }
    }

    /// Commits the block in progress: seals the working state as the next
    /// height and returns its commitment. Refused, with nothing changed,
    /// unless a block is in progress; fails, with nothing changed, at the
    /// largest height.
    pub fn commit(&mut self) -> (r: Result<CommitResponse, AppError>)
        requires
            old(self).wf(),
        ensures
            final(self).wf(),
            match r {
                Ok(response) => {
                    &&& old(self)@.phase == Phase::BlockInProgress
                    &&& old(self)@.store.height() < MAX_HEIGHT
                    &&& final(self)@ == old(self)@.commit()
                    &&& final(self)@.store.height() == old(self)@.store.height() + 1
                    &&& response.data@ == final(self)@.store.root()
                    &&& response.retain_height == 0
                },
                Err(e) => {
                    &&& final(self)@ == old(self)@
                    &&& e == if old(self)@.phase != Phase::BlockInProgress {
                        AppError::OutOfOrder
                    } else {
                        AppError::Store(StoreError::HeightOverflow)
                    }
                    &&& (old(self)@.phase != Phase::BlockInProgress || old(self)@.store.height()
                        == MAX_HEIGHT)
                },
            },
    {
        if self.phase != Phase::BlockInProgress {
            return Err(AppError::OutOfOrder);
        }
        match self.modules.commit(&mut self.store) {
            Ok((_, root)) => {
                self.phase = Phase::Ready;
                Ok(CommitResponse { data: copy_bytes(root.as_slice()), retain_height: 0 })
            },
            Err(e) => Err(AppError::Store(e)),
        }
    }

    /// Answers a query from the sealed states of the store, whatever the
    /// phase; pending writes and the working state of a block in progress
    /// are never seen. The modules are asked in the order of registration.
    ///
    /// `height` 0 asks for the last commit. Where a module answers, the code
    /// is 0; with `prove`, the proof steps are those of the module followed
    /// by the proof of the store for the key `data` in the namespace of the
    /// module that answered, at the height asked for. That proof decodes
    /// with `Proof::decode` and is accepted by `Proof::verify` against the
    /// commitment of that height (`lemma_proof_of_proves`). Where every module
    /// declines, a module fails, or a proof is asked for at a height that
    /// the store does not hold, the code is 1. Changes nothing.
    pub fn query(&self, path: &str, data: &[u8], height: u64, prove: bool) -> (r: QueryResponse)
        requires
            self.wf(),
        ensures
            ({
                let route = if is_path(path.spec_bytes()) {
                    Some(path.spec_bytes())
                } else {
                    None
                };
                let h = Height::of_raw(height);
                let (i, answer) = query_from(
                    self@.modules,
                    self@.store.sealed(),
                    data@,
                    route,
                    h,
                    prove,
                    0,
                );
                match answer {
                    Err(e) => query_failed(r, query_error_log(e)),
                    Ok(result) => if prove && self@.store.root_at(h) is None {
                        query_failed(r, query_error_log(Error::Store(StoreError::HeightNotFound)))
                    } else {
                        &&& r.code == 0
                        &&& r.log@ == "exists"@
                        &&& r.key@ == data@
                        &&& r.value@ == result.data
                        &&& r.height == self@.store.height()
                        &&& if prove {
                            &&& r.proof_ops is Some
                            &&& 0 <= i < self@.modules.len()
                            &&& with_store_proof(
                                proof_ops_of(r.proof_ops->0@),
                                match result.proof {
                                    Some(ops) => ops,
                                    None => Seq::empty(),
                                },
                                self@.store.base.state_at(h)->0,
                                prefixed(self@.modules[i].namespace(), data@),
                            )
                        } else {
                            r.proof_ops is None
                        }
                    },
                }
            }),
    {
        let route = match Path::new(path) {
            Ok(p) => Some(p),
            Err(_) => None,
        };
        let h = Height::from(height);
        let answer = match &route {
            Some(p) => self.modules.query(&self.store, data, Some(p), h, prove),
            None => self.modules.query(&self.store, data, None, h, prove),
        };
        match answer {
            Err(e) => Self::query_error(e),
            Ok((i, result)) => {
                let state = self.store.read();
                let QueryResult { data: value, proof: of_module } = result;
                let proof_ops = if prove {
                    let key = self.modules.module(i).prefix().prefixed_key(data);
                    match state.get_proof(h, key.as_slice()) {
                        Ok(p) => {
                            let mut ops = match of_module {
                                Some(ops) => ops,
                                None => {
                                    let none: Vec<ProofOp> = Vec::new();
                                    assert(proof_ops_of(none@) =~= Seq::empty());
                                    none
                                },
                            };
                            let ghost before = proof_ops_of(ops@);
                            let op = ProofOp { kind: String::new(), key, data: p.encode() };
                            let ghost step = op@;
                            ops.push(op);
                            proof {
                                assert(proof_ops_of(ops@) =~= before.push(step));
                                assert(proof_ops_of(ops@).drop_last() =~= before);
                                assert(step.2 == encoding(p@));
                            }
                            Some(ops)
                        },
                        Err(e) => {
                            return Self::query_error(Error::Store(e));
                        },
                    }
                } else {
                    None
                };
                QueryResponse {
                    code: 0,
                    log: "exists".to_owned(),
                    key: copy_bytes(data),
                    value,
                    proof_ops,
                    height: state.current_height(),
                }
            },
        }
    }

    /// The answer to a query that failed with `e`.
    fn query_error(e: Error) -> (r: QueryResponse)
        ensures
            query_failed(r, query_error_log(e)),
    {
        let log = match e {
            Error::NotHandled => "query msg not handled".to_owned(),
            _ => "query error: ".to_owned().concat(e.message().as_str()),
        };
        QueryResponse {
            code: 1,
            log,
            key: Vec::new(),
            value: Vec::new(),
            proof_ops: None,
            height: 0,
        }
    }

    /// Checks that the bytes decode to a transaction, as a simulation of its
    /// delivery would have to begin. Changes nothing.
    pub fn simulate(&self, tx: &[u8]) -> (r: Result<(), DispatchError>)
        ensures
            match r {
                Ok(()) => tx_messages(tx@) is Some,
                Err(e) => tx_messages(tx@) is None && e == DispatchError::InvalidTx,
            },
    {
        match decode_tx(tx) {
            Some(_) => Ok(()),
            None => Err(DispatchError::InvalidTx),
        }
    }
}

} // verus!
