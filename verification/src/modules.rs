//! Modules: the units of business logic that the application dispatches to.
//! A module is bound to one namespace of the store and reaches the store
//! through a sub-store of that namespace only.

pub mod dnn;
pub mod prefix;

use vstd::prelude::*;
use crate::store::height::{Height, StoreError};
use crate::store::identifier::{is_identifier, Identifier, Path};
use crate::store::sub::{SubStore, SubStoreModel, SubStoreRef};
use crate::wire::Any;

verus! {

/// An event as modules emit it.
pub type AbciEvent = tendermint_proto::abci::Event;

/// A block header as modules receive it.
pub type BlockHeader = tendermint::block::Header;

/// A parsed genesis document.
pub type Genesis = serde_json::Value;

/// Why a module did not do what it was asked.
#[derive(Clone, Copy, Debug, PartialEq, Eq, Structural)]
pub enum Error {
    /// The message or query is not for this module. This is a signal to
    /// ask the next module, and an error only when the last module gives it.
    NotHandled,
    /// The store refused an operation.
    Store(StoreError),
    /// The bank module rejected its message.
    Bank,
    /// The IBC module rejected its message.
    Ibc,
    /// The network-weights module rejected its message.
    Dnn(DnnError),
}

/// Why the network-weights module rejected a message.
#[derive(Clone, Copy, Debug, PartialEq, Eq, Structural)]
pub enum DnnError {
    /// The body of the message does not decode.
    MsgDecodeFailure,
    /// The message decodes but is not valid.
    MsgValidationFailure,
    /// The account does not exist.
    NonExistentAccount,
    /// The amount is not a number.
    InvalidAmount,
    /// The sender holds less than the amount.
    InsufficientSourceFunds,
    /// The receiver's balance would overflow.
    DestFundOverflow,
    /// The store refused an operation.
    Store,
}

impl DnnError {
    /// What went wrong, in words.
    pub open spec fn text(self) -> Seq<char> {
        match self {
            DnnError::MsgDecodeFailure => "failed to decode message"@,
            DnnError::MsgValidationFailure => "failed to validate message"@,
            DnnError::NonExistentAccount => "account doesn't exist"@,
            DnnError::InvalidAmount => "invalid amount specified"@,
            DnnError::InsufficientSourceFunds => "insufficient funds in sender account"@,
            DnnError::DestFundOverflow => "receiver account funds overflow"@,
            DnnError::Store => "store error"@,
        }
    }

    /// What went wrong, in words.
    pub fn message(&self) -> (s: String)
        ensures
            s@ == self.text(),
    {
        match self {
            DnnError::MsgDecodeFailure => "failed to decode message".to_owned(),
            DnnError::MsgValidationFailure => "failed to validate message".to_owned(),
            DnnError::NonExistentAccount => "account doesn't exist".to_owned(),
            DnnError::InvalidAmount => "invalid amount specified".to_owned(),
            DnnError::InsufficientSourceFunds => "insufficient funds in sender account".to_owned(),
            DnnError::DestFundOverflow => "receiver account funds overflow".to_owned(),
            DnnError::Store => "store error".to_owned(),
        }
    }
}

impl Error {
    /// What went wrong, in words.
    pub open spec fn text(self) -> Seq<char> {
        match self {
            Error::NotHandled => "no module could handle specified message"@,
            Error::Store(_) => "store error"@,
            Error::Bank => "bank module error"@,
            Error::Ibc => "IBC module error"@,
            Error::Dnn(_) => "DNN module error"@,
        }
    }

    /// What went wrong, in words.
    pub fn message(&self) -> (s: String)
        ensures
            s@ == self.text(),
    {
        match self {
            Error::NotHandled => "no module could handle specified message".to_owned(),
            Error::Store(_) => "store error".to_owned(),
            Error::Bank => "bank module error".to_owned(),
            Error::Ibc => "IBC module error".to_owned(),
            Error::Dnn(_) => "DNN module error".to_owned(),
        }
    }
}

/// One step of a proof: the kind of step, the key it speaks of, and its
/// encoded body.
pub struct ProofOp {
    pub kind: String,
    pub key: Vec<u8>,
    pub data: Vec<u8>,
}

impl View for ProofOp {
    type V = (Seq<char>, Seq<u8>, Seq<u8>);

    open spec fn view(&self) -> (Seq<char>, Seq<u8>, Seq<u8>) {
        (self.kind@, self.key@, self.data@)
    }
}

/// The proof steps that a list holds.
pub open spec fn proof_ops_of(v: Seq<ProofOp>) -> Seq<(Seq<char>, Seq<u8>, Seq<u8>)> {
    v.map_values(|op: ProofOp| op@)
}

/// What a module answers to a query: the data, and the steps of a proof
/// where one was asked for.
pub struct QueryResult {
    pub data: Vec<u8>,
    pub proof: Option<Vec<ProofOp>>,
}

/// A query result as a mathematical value.
pub struct QueryResultModel {
    pub data: Seq<u8>,
    pub proof: Option<Seq<(Seq<char>, Seq<u8>, Seq<u8>)>>,
}

impl View for QueryResult {
    type V = QueryResultModel;

    open spec fn view(&self) -> QueryResultModel {
        QueryResultModel {
            data: self.data@,
            proof: match self.proof {
                Some(ops) => Some(proof_ops_of(ops@)),
                None => None,
            },
        }
    }
}

/// What a delivery comes to: the events emitted, or the reason it failed.
pub type Outcome = Result<Seq<AbciEvent>, Error>;

/// The outcome that a result stands for.
pub open spec fn outcome_of(r: Result<Vec<AbciEvent>, Error>) -> Outcome {
    match r {
        Ok(events) => Ok(events@),
        Err(e) => Err(e),
    }
}

/// What a query comes to.
pub type Answer = Result<QueryResultModel, Error>;

/// The answer that a result stands for.
pub open spec fn answer_of(r: Result<QueryResult, Error>) -> Answer {
    match r {
        Ok(result) => Ok(result@),
        Err(e) => Err(e),
    }
}

/// A module.
///
/// A module must be deterministic: what a call returns, and what it leaves
/// behind in the module and in the store, is a function of the module, the
/// store and the arguments. Each method has a specification function that
/// names this function, and the method's contract ties the two together. A
/// module written without proofs writes the methods and lets the
/// specification functions stand.
///
/// A mutating method gets the store as a sub-store of the module's own
/// namespace, and must leave everything outside that namespace as it was.
pub trait Module: Sized {
    /// The invariant of the module's own data.
    open spec fn inv(&self) -> bool {
        true
    }

    /// The name of the module's namespace.
    open spec fn namespace(&self) -> Seq<u8> {
        arbitrary()
    }

    /// What `deliver` does: the module and the store after the call, and the
    /// outcome.
    open spec fn deliver_spec(self, store: SubStoreModel, message: (Seq<char>, Seq<u8>)) -> (
        Self,
        SubStoreModel,
        Outcome,
    ) {
        arbitrary()
    }

    /// What `init` does: the module and the store after the call.
    open spec fn init_spec(self, store: SubStoreModel, app_state: Genesis) -> (Self, SubStoreModel) {
        arbitrary()
    }

    /// What `query` returns.
    open spec fn query_spec(
        &self,
        store: SubStoreModel,
        data: Seq<u8>,
        path: Option<Seq<u8>>,
        height: Height,
        prove: bool,
    ) -> Answer {
        arbitrary()
    }

    /// What `begin_block` does: the module and the store after the call, and
    /// the events emitted.
    open spec fn begin_block_spec(self, store: SubStoreModel, header: BlockHeader) -> (
        Self,
        SubStoreModel,
        Seq<AbciEvent>,
    ) {
        arbitrary()
    }

    /// The identifier of the module's namespace.
    fn prefix(&self) -> (id: &Identifier)
        requires
            self.inv(),
        ensures
            id.wf(),
            id@ == self.namespace(),
    ;

    /// Executes `message`. Returns the events emitted; `Error::NotHandled`
    /// where the message is not for this module; any other error where it is
    /// for this module and fails.
    fn deliver(&mut self, store: &mut SubStore, message: &Any) -> (r: Result<Vec<AbciEvent>, Error>)
        requires
            old(self).inv(),
            old(store).wf(),
            old(store)@.prefix == old(self).namespace(),
        ensures
            final(self).inv(),
            final(self).namespace() == old(self).namespace(),
            final(store).wf(),
            old(store)@.confines(final(store)@),
            (*final(self), final(store)@, outcome_of(r)) == old(self).deliver_spec(
                old(store)@,
                message@,
            ),
    ;

    /// Sets the module up from the genesis document.
    fn init(&mut self, store: &mut SubStore, app_state: &Genesis)
        requires
            old(self).inv(),
            old(store).wf(),
            old(store)@.prefix == old(self).namespace(),
        ensures
            final(self).inv(),
            final(self).namespace() == old(self).namespace(),
            final(store).wf(),
            old(store)@.confines(final(store)@),
            (*final(self), final(store)@) == old(self).init_spec(old(store)@, *app_state),
    ;

    /// Answers a query. `path` is a hint by which a module can tell queries
    /// that are not addressed to it. Returns `Error::NotHandled` where the
    /// query is not for this module.
    fn query(
        &self,
        store: &SubStoreRef,
        data: &[u8],
        path: Option<&Path>,
        height: Height,
        prove: bool,
    ) -> (r: Result<QueryResult, Error>)
        requires
            self.inv(),
            store.wf(),
            store@.prefix == self.namespace(),
            match path {
                Some(p) => p.wf(),
                None => true,
            },
        ensures
            answer_of(r) == self.query_spec(
                store@,
                data@,
                match path {
                    Some(p) => Some(p@),
                    None => None,
                },
                height,
                prove,
            ),
    ;

    /// Takes note of the beginning of a block and returns the events that
    /// this gives rise to.
    fn begin_block(&mut self, store: &mut SubStore, header: &BlockHeader) -> (events: Vec<AbciEvent>)
        requires
            old(self).inv(),
            old(store).wf(),
            old(store)@.prefix == old(self).namespace(),
        ensures
            final(self).inv(),
            final(self).namespace() == old(self).namespace(),
            final(store).wf(),
            old(store)@.confines(final(store)@),
            (*final(self), final(store)@, events@) == old(self).begin_block_spec(
                old(store)@,
                *header,
            ),
    ;
}

/// Something that names a namespace.
pub trait Identifiable {
    /// The name.
    open spec fn name(&self) -> Seq<u8> {
        arbitrary()
    }

    /// The identifier with that name.
    fn identifier(&self) -> (id: Identifier)
        ensures
            id.wf(),
            id@ == self.name(),
            is_identifier(self.name()),
    ;
}

} // verus!
