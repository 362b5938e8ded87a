use basecoin::dispatch::{DispatchError, ModuleServices};
use basecoin::modules::{DnnError, Error, Module, ProofOp, QueryResult};
use basecoin::store::height::{Height, StoreError};
use basecoin::store::identifier::{Identifier, Path};
use basecoin::store::revertible::RevertibleStore;
use basecoin::store::shared::SharedStore;
use basecoin::store::sub::{SubStore, SubStoreRef};
use basecoin::store::versioned::VersionedStore;
use basecoin::wire::Any;
use cosmrs::proto::cosmos::tx::v1beta1::{AuthInfo, Fee, Tx, TxBody};
use prost::Message;
use tendermint_proto::abci::Event;

/// A module that takes the messages whose type it is told to take, notes each
/// call in its namespace, and emits one event per message taken.
struct Probe {
    id: Identifier,
    takes: &'static str,
    fails: bool,
    calls: u32,
}

fn probe(name: &str, takes: &'static str) -> Probe {
    Probe { id: Identifier::new(name).unwrap(), takes, fails: false, calls: 0 }
}

/// An event of the given kind without attributes, from its protobuf encoding: the kind is
/// field 1, a string.
fn event(kind: &str) -> Event {
    let mut bytes = vec![0x0a, kind.len() as u8];
    bytes.extend_from_slice(kind.as_bytes());
    Event::decode(bytes.as_slice()).unwrap()
}

impl Module for Probe {
    fn prefix(&self) -> &Identifier {
        &self.id
    }

    fn deliver(&mut self, store: &mut SubStore, message: &Any) -> Result<Vec<Event>, Error> {
        self.calls += 1;
        store.set(b"asked", message.type_url.clone().into_bytes());
        if self.takes != "*" && message.type_url != self.takes {
            return Err(Error::NotHandled);
        }
        store.set(b"taken", message.value.clone());
        if self.fails {
            return Err(Error::Bank);
        }
        Ok(vec![event(&format!("{}:{}", String::from_utf8_lossy(self.id.as_bytes()), message.type_url))])
    }

    fn init(&mut self, store: &mut SubStore, app_state: &serde_json::Value) {
        let name = String::from_utf8_lossy(self.id.as_bytes()).to_string();
        if let Some(v) = app_state.get(&name) {
            store.set(b"genesis", v.to_string().into_bytes());
        }
    }

    fn query(
        &self,
        store: &SubStoreRef,
        data: &[u8],
        path: Option<&Path>,
        height: Height,
        prove: bool,
    ) -> Result<QueryResult, Error> {
        match path {
            Some(p) if p.starts_with(&self.id) => {}
            _ => return Err(Error::NotHandled),
        }
        match store.get(height, data) {
            Some(value) => Ok(QueryResult {
                data: value,
                proof: if prove {
                    Some(vec![ProofOp { kind: "probe".to_string(), key: data.to_vec(), data: vec![1] }])
                } else {
                    None
                },
            }),
            None => Err(Error::Store(StoreError::HeightNotFound)),
        }
    }

    fn begin_block(&mut self, store: &mut SubStore, header: &tendermint::block::Header) -> Vec<Event> {
        store.set(b"block", header.height.value().to_string().into_bytes());
        vec![event(&format!("begin:{}", String::from_utf8_lossy(self.id.as_bytes())))]
    }
}

fn shared() -> SharedStore {
    SharedStore::new(RevertibleStore::new(VersionedStore::new()))
}

fn msg(type_url: &str, value: &[u8]) -> Any {
    Any { type_url: type_url.to_string(), value: value.to_vec() }
}

fn tx_bytes(messages: Vec<(&str, &[u8])>) -> Vec<u8> {
    let body = TxBody {
        messages: messages
            .into_iter()
            .map(|(t, v)| cosmrs::Any { type_url: t.to_string(), value: v.to_vec() })
            .collect(),
        ..Default::default()
    };
    let auth_info = AuthInfo { fee: Some(Fee::default()), ..Default::default() };
    Tx { body: Some(body), auth_info: Some(auth_info), signatures: vec![] }.encode_to_vec()
}

fn header(height: i64) -> tendermint::block::Header {
    let raw = tendermint_proto::types::Header {
        version: Some(tendermint_proto::version::Consensus { block: 11, app: 1 }),
        chain_id: "test-chain".to_string(),
        height,
        time: Some(tendermint_proto::google::protobuf::Timestamp { seconds: 1, nanos: 0 }),
        proposer_address: vec![0u8; 20],
        ..Default::default()
    };
    tendermint::block::Header::try_from(raw).unwrap()
}

fn kinds(events: &[Event]) -> Vec<String> {
    events.iter().map(|e| String::from_utf8(e.encode_to_vec()[2..].to_vec()).unwrap()).collect()
}

#[test]
fn registration_rejects_duplicate_identifiers() {
    assert!(ModuleServices::new(vec![probe("a", "*"), probe("b", "*"), probe("c", "*")]).is_ok());
    assert!(ModuleServices::<Probe>::new(vec![]).is_ok());
    for names in [vec!["a", "a"], vec!["a", "b", "a"], vec!["a", "b", "b"], vec!["b", "a", "c", "b"]] {
        let modules = names.into_iter().map(|n| probe(n, "*")).collect();
        assert!(matches!(ModuleServices::new(modules), Err(DispatchError::DuplicateIdentifier)));
    }
}

#[test]
fn find_locates_modules_by_prefix() {
    let engine = ModuleServices::new(vec![probe("a", "*"), probe("b", "*")]).unwrap();
    assert_eq!(engine.len(), 2);
    assert_eq!(engine.find(&Identifier::new("a").unwrap()), Some(0));
    assert_eq!(engine.find(&Identifier::new("b").unwrap()), Some(1));
    assert_eq!(engine.find(&Identifier::new("c").unwrap()), None);
    assert_eq!(engine.module(1).prefix().as_bytes(), b"b");
}

#[test]
fn message_claimed_by_both_is_handled_by_the_first() {
    let mut store = shared();
    let mut engine = ModuleServices::new(vec![probe("a", "/m"), probe("b", "/m")]).unwrap();
    let events = engine.deliver(&mut store, &msg("/m", b"x")).unwrap();
    assert_eq!(kinds(&events), vec!["a:/m"]);
    assert_eq!(engine.module(0).calls, 1);
    assert_eq!(engine.module(1).calls, 0);
    assert_eq!(store.read().get(Height::Pending, b"a/taken"), Some(b"x".to_vec()));
    assert_eq!(store.read().get(Height::Pending, b"b/asked"), None);

    // With the order of registration reversed, the other module handles it.
    let mut store = shared();
    let mut engine = ModuleServices::new(vec![probe("b", "/m"), probe("a", "/m")]).unwrap();
    let events = engine.deliver(&mut store, &msg("/m", b"x")).unwrap();
    assert_eq!(kinds(&events), vec!["b:/m"]);
}

#[test]
fn declining_modules_are_passed_over() {
    let mut store = shared();
    let mut engine =
        ModuleServices::new(vec![probe("a", "/x"), probe("b", "/y"), probe("c", "/z")]).unwrap();
    let events = engine.deliver(&mut store, &msg("/y", b"1")).unwrap();
    assert_eq!(kinds(&events), vec!["b:/y"]);
    assert_eq!(
        (engine.module(0).calls, engine.module(1).calls, engine.module(2).calls),
        (1, 1, 0)
    );
    // What a declining module wrote before it declined stays pending, as its own doing.
    assert_eq!(store.read().get(Height::Pending, b"a/asked"), Some(b"/y".to_vec()));
    assert_eq!(store.read().get(Height::Pending, b"c/asked"), None);
}

#[test]
fn unclaimed_message_is_a_dispatch_failure() {
    let mut store = shared();
    let mut engine = ModuleServices::new(vec![probe("a", "/x"), probe("b", "/y")]).unwrap();
    assert_eq!(engine.deliver(&mut store, &msg("/none", b"")).unwrap_err(), Error::NotHandled);
    assert_eq!((engine.module(0).calls, engine.module(1).calls), (1, 1));
    let mut none = ModuleServices::<Probe>::new(vec![]).unwrap();
    assert_eq!(none.deliver(&mut store, &msg("/x", b"")).unwrap_err(), Error::NotHandled);
}

#[test]
fn failing_module_stops_the_round() {
    let mut store = shared();
    let mut failing = probe("a", "/m");
    failing.fails = true;
    let mut engine = ModuleServices::new(vec![failing, probe("b", "/m")]).unwrap();
    assert_eq!(engine.deliver(&mut store, &msg("/m", b"")).unwrap_err(), Error::Bank);
    assert_eq!(engine.module(1).calls, 0);
}

#[test]
fn deliver_messages_joins_events_and_refuses_empty() {
    let mut store = shared();
    let mut engine = ModuleServices::new(vec![probe("a", "/x"), probe("b", "/y")]).unwrap();
    assert!(matches!(engine.deliver_messages(&mut store, &vec![]), Err(DispatchError::EmptyTx)));
    assert_eq!((engine.module(0).calls, engine.module(1).calls), (0, 0));
    let events = engine
        .deliver_messages(&mut store, &vec![msg("/y", b"1"), msg("/x", b"2"), msg("/y", b"3")])
        .unwrap();
    assert_eq!(kinds(&events), vec!["b:/y", "a:/x", "b:/y"]);
    assert_eq!(store.read().get(Height::Pending, b"b/taken"), Some(b"3".to_vec()));
}

#[test]
fn deliver_messages_stops_at_the_first_failure() {
    let mut store = shared();
    let mut engine = ModuleServices::new(vec![probe("a", "/x"), probe("b", "/y")]).unwrap();
    let r = engine.deliver_messages(&mut store, &vec![msg("/x", b"1"), msg("/q", b"2"), msg("/y", b"3")]);
    assert!(matches!(r, Err(DispatchError::Module(Error::NotHandled))));
    // The first message was delivered and its write is pending; the third was never tried.
    assert_eq!(store.read().get(Height::Pending, b"a/taken"), Some(b"1".to_vec()));
    assert_eq!(store.read().get(Height::Pending, b"b/taken"), None);
    assert_eq!(store.read().get(Height::Pending, b"b/asked"), Some(b"/q".to_vec()));
}

#[test]
fn deliver_msg_decodes_the_transaction() {
    let mut store = shared();
    let mut engine = ModuleServices::new(vec![probe("a", "/x"), probe("b", "/y")]).unwrap();
    let events = engine
        .deliver_msg(&mut store, &tx_bytes(vec![("/x", b"one"), ("/y", b"two")]))
        .unwrap();
    assert_eq!(kinds(&events), vec!["a:/x", "b:/y"]);
    assert_eq!(store.read().get(Height::Pending, b"a/taken"), Some(b"one".to_vec()));
    assert_eq!(store.read().get(Height::Pending, b"b/taken"), Some(b"two".to_vec()));
}

#[test]
fn deliver_msg_rejects_undecodable_and_empty_transactions() {
    let mut store = shared();
    let mut engine = ModuleServices::new(vec![probe("a", "*")]).unwrap();
    assert!(matches!(engine.deliver_msg(&mut store, &[0xff, 0xff, 0xff]), Err(DispatchError::InvalidTx)));
    // A transaction without a body does not decode either.
    assert!(matches!(engine.deliver_msg(&mut store, &[]), Err(DispatchError::InvalidTx)));
    assert!(matches!(engine.deliver_msg(&mut store, &tx_bytes(vec![])), Err(DispatchError::EmptyTx)));
    assert_eq!(engine.module(0).calls, 0);
    assert_eq!(store.read().get(Height::Pending, b"a/asked"), None);
}

#[test]
fn begin_block_reaches_every_module_in_order() {
    let mut store = shared();
    let mut engine =
        ModuleServices::new(vec![probe("a", "/x"), probe("b", "/y"), probe("c", "/z")]).unwrap();
    let events = engine.begin_block(&mut store, &header(7));
    assert_eq!(kinds(&events), vec!["begin:a", "begin:b", "begin:c"]);
    for ns in ["a", "b", "c"] {
        let key = format!("{}/block", ns).into_bytes();
        assert_eq!(store.read().get(Height::Pending, &key), Some(b"7".to_vec()));
    }
    let mut none = ModuleServices::<Probe>::new(vec![]).unwrap();
    assert!(none.begin_block(&mut store, &header(8)).is_empty());
}

#[test]
fn init_hands_every_module_the_whole_document() {
    let mut store = shared();
    let mut engine = ModuleServices::new(vec![probe("a", "/x"), probe("b", "/y")]).unwrap();
    let doc: serde_json::Value = serde_json::from_str("{\"a\": 1, \"b\": {\"k\": true}}").unwrap();
    engine.init(&mut store, &doc);
    assert_eq!(store.read().get(Height::Pending, b"a/genesis"), Some(b"1".to_vec()));
    assert_eq!(store.read().get(Height::Pending, b"b/genesis"), Some(b"{\"k\":true}".to_vec()));
}

#[test]
fn query_goes_to_the_first_module_that_answers() {
    let mut store = shared();
    store.write().set(b"a/k".to_vec(), b"from a".to_vec());
    store.write().set(b"b/k".to_vec(), b"from b".to_vec());
    store.write().commit().unwrap();
    store.write().set(b"b/k".to_vec(), b"pending".to_vec());
    let engine = ModuleServices::new(vec![probe("a", "/x"), probe("b", "/y")]).unwrap();
    let path = Path::new("b/anything").unwrap();
    let (i, result) = engine.query(&store, b"k", Some(&path), Height::Latest, false).unwrap();
    assert_eq!(i, 1);
    assert_eq!(result.data, b"from b".to_vec());
    assert!(result.proof.is_none());
    let (i, result) = engine
        .query(&store, b"k", Some(&Path::new("a").unwrap()), Height::Pending, true)
        .unwrap();
    assert_eq!(i, 0);
    assert_eq!(result.data, b"from a".to_vec());
    assert_eq!(result.proof.unwrap().len(), 1);
    // No module is addressed, or no path is given: every module declines.
    let nobody = engine.query(&store, b"k", Some(&Path::new("c/k").unwrap()), Height::Latest, false);
    assert_eq!(nobody.err(), Some(Error::NotHandled));
    assert_eq!(engine.query(&store, b"k", None, Height::Latest, false).err(), Some(Error::NotHandled));
    // The module that is addressed fails: its error is the answer.
    let missing = engine.query(&store, b"zz", Some(&path), Height::Latest, false);
    assert_eq!(missing.err(), Some(Error::Store(StoreError::HeightNotFound)));
}

#[test]
fn commit_commits_the_shared_store_once() {
    let mut store = shared();
    let mut engine =
        ModuleServices::new(vec![probe("a", "*"), probe("b", "*"), probe("c", "*")]).unwrap();
    engine.deliver(&mut store, &msg("/m", b"v")).unwrap();
    let (height, root) = engine.commit(&mut store).unwrap();
    assert_eq!(height, 1);
    assert_eq!(store.read().current_height(), 1);
    assert_eq!(store.read().root_hash(), root);
    assert_eq!(store.read().get(Height::Latest, b"a/taken"), Some(b"v".to_vec()));
}

#[test]
fn error_messages() {
    assert_eq!(Error::NotHandled.message(), "no module could handle specified message");
    assert_eq!(Error::Store(StoreError::InvalidPath).message(), "store error");
    assert_eq!(Error::Bank.message(), "bank module error");
    assert_eq!(Error::Ibc.message(), "IBC module error");
    assert_eq!(Error::Dnn(DnnError::InvalidAmount).message(), "DNN module error");
    assert_eq!(DnnError::MsgDecodeFailure.message(), "failed to decode message");
    assert_eq!(DnnError::MsgValidationFailure.message(), "failed to validate message");
    assert_eq!(DnnError::NonExistentAccount.message(), "account doesn't exist");
    assert_eq!(DnnError::InvalidAmount.message(), "invalid amount specified");
    assert_eq!(DnnError::InsufficientSourceFunds.message(), "insufficient funds in sender account");
    assert_eq!(DnnError::DestFundOverflow.message(), "receiver account funds overflow");
    assert_eq!(DnnError::Store.message(), "store error");
    assert_eq!(DispatchError::DuplicateIdentifier.message(), "two modules share an identifier");
    assert_eq!(DispatchError::InvalidTx.message(), "failed to deserialize tx");
    assert_eq!(DispatchError::EmptyTx.message(), "Empty Tx");
    assert_eq!(DispatchError::Module(Error::Ibc).message(), "IBC module error");
}
