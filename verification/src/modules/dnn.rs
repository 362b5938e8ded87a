//! The network-weights module. It claims every message and asks for one run
//! of the off-chain network per message; the run itself is not part of the
//! state transition, so the module only counts the runs that are due and
//! leaves it to its owner to start them.

use vstd::prelude::*;
use crate::modules::{AbciEvent, Answer, BlockHeader, DnnError, Error, Genesis, Module, Outcome,
    QueryResult};
use crate::store::height::Height;
use crate::store::identifier::{Identifier, Path};
use crate::store::key::bytes_eq;
use crate::store::sub::{SubStore, SubStoreModel, SubStoreRef};
use crate::wire::Any;

verus! {

/// The weights of a network, as a JSON document.
pub struct NetworkWeights(pub Genesis);

/// The module.
pub struct DnnStorage {
    prefix: Identifier,
    due: u64,
}

/// The count after one more run has come due; it stays at the largest
/// number once it is there.
pub open spec fn one_more(due: u64) -> u64 {
    if due < u64::MAX {
        (due + 1) as u64
    } else {
        due
    }
}

impl DnnStorage {
    /// The number of runs that are due.
    pub closed spec fn due(&self) -> u64 {
        self.due
    }

    /// The module as it is after one more run has come due.
    pub closed spec fn with_one_more(self) -> DnnStorage {
        DnnStorage { due: one_more(self.due), ..self }
    }

    /// What one more run changes: the count of the runs that are due, and
    /// nothing else.
    pub proof fn lemma_with_one_more(self)
        ensures
            self.with_one_more().due() == one_more(self.due()),
            self.with_one_more().namespace() == self.namespace(),
            self.with_one_more().inv() == self.inv(),
    {
    }

    /// The name of the one message type that `decode` lets pass.
    pub open spec fn accepted_type() -> Seq<char> {
        "/cosmos.bank.v1beta1.MsgSend"@
    }

    /// A module bound to the namespace `prefix`, with no run due.
    pub fn new(prefix: Identifier) -> (m: DnnStorage)
        requires
            prefix.wf(),
        ensures
            m.inv(),
            m.namespace() == prefix@,
            m.due() == 0,
    {
        DnnStorage { prefix, due: 0 }
    }

    /// Hands out the number of runs that are due and starts counting anew.
    pub fn take_due(&mut self) -> (n: u64)
        ensures
            n == old(self).due(),
            final(self).due() == 0,
            final(self).namespace() == old(self).namespace(),
            final(self).inv() == old(self).inv(),
    {
        let n = self.due;
        self.due = 0;
        n
    }

    /// Tells whether `message` is of the accepted type and, if so, hands on
    /// its decoded body: `Error::NotHandled` for any other type, a decode
    /// failure where the type fits and `body` is `None`.
    pub fn decode<T>(message: &Any, body: Option<T>) -> (r: Result<T, Error>)
        ensures
            r == if message@.0 != Self::accepted_type() {
                Err::<T, Error>(Error::NotHandled)
            } else {
                match body {
                    Some(b) => Ok(b),
                    None => Err(Error::Dnn(DnnError::MsgDecodeFailure)),
                }
            },
    {
        let name = message.type_url.as_str();
        let accepted = "/cosmos.bank.v1beta1.MsgSend";
        proof {
            vstd::utf8::encode_utf8_decode_utf8(name@);
            vstd::utf8::encode_utf8_decode_utf8(accepted@);
        }
        if !bytes_eq(name.as_bytes(), accepted.as_bytes()) {
            return Err(Error::NotHandled);
        }
        match body {
            Some(b) => Ok(b),
            None => Err(Error::Dnn(DnnError::MsgDecodeFailure)),
        }
    }
}

impl Module for DnnStorage {
    closed spec fn inv(&self) -> bool {
        self.prefix.wf()
    }

    closed spec fn namespace(&self) -> Seq<u8> {
        self.prefix@
    }

    open spec fn deliver_spec(self, store: SubStoreModel, message: (Seq<char>, Seq<u8>)) -> (
        Self,
        SubStoreModel,
        Outcome,
    ) {
        (self.with_one_more(), store, Ok(Seq::empty()))
    }

    open spec fn init_spec(self, store: SubStoreModel, app_state: Genesis) -> (Self, SubStoreModel) {
        (self, store)
    }

    open spec fn query_spec(
        &self,
        store: SubStoreModel,
        data: Seq<u8>,
        path: Option<Seq<u8>>,
        height: Height,
        prove: bool,
    ) -> Answer {
        Err(Error::NotHandled)
    }

    open spec fn begin_block_spec(self, store: SubStoreModel, header: BlockHeader) -> (
        Self,
        SubStoreModel,
        Seq<AbciEvent>,
    ) {
        (self, store, Seq::empty())
    }

    fn prefix(&self) -> (id: &Identifier) {
        &self.prefix
    }

    fn deliver(&mut self, store: &mut SubStore, message: &Any) -> (r: Result<Vec<AbciEvent>, Error>) {
        if self.due < u64::MAX {
            self.due = self.due + 1;
        }
        Ok(Vec::new())
    }

    fn init(&mut self, store: &mut SubStore, app_state: &Genesis) {
    }

    fn query(
        &self,
        store: &SubStoreRef,
        data: &[u8],
        path: Option<&Path>,
        height: Height,
        prove: bool,
    ) -> (r: Result<QueryResult, Error>) {
        Err(Error::NotHandled)
    }

    fn begin_block(&mut self, store: &mut SubStore, header: &BlockHeader) -> (events: Vec<
        AbciEvent,
    >) {
        Vec::new()
    }
}

} // verus!
