use basecoin::app::{AppError, BaseCoinApp, Phase};
use basecoin::dispatch::DispatchError;
use basecoin::modules::{Error, Module, QueryResult};
use basecoin::store::height::Height;
use basecoin::store::identifier::{Identifier, Path};
use basecoin::store::sub::{SubStore, SubStoreRef};
use basecoin::store::versioned::VersionedStore;
use basecoin::wire::Any;
use cosmrs::proto::cosmos::tx::v1beta1::{AuthInfo, Fee, Tx, TxBody};
use prost::Message;
use tendermint_proto::abci::Event;

/// A ledger of balances. It takes the messages of type `/bank.Send`, whose body is
/// `from:to:amount`, and keeps the balance of an account under `balances/<account>`.
struct Ledger {
    id: Identifier,
}

fn ledger() -> Ledger {
    Ledger { id: Identifier::new("bank").unwrap() }
}

fn balance_key(account: &str) -> Vec<u8> {
    format!("balances/{}", account).into_bytes()
}

fn read_balance(store: &SubStore, account: &str) -> Option<u64> {
    store
        .get(Height::Pending, &balance_key(account))
        .map(|v| String::from_utf8(v).unwrap().parse().unwrap())
}

fn event(kind: &str) -> Event {
    let mut bytes = vec![0x0a, kind.len() as u8];
    bytes.extend_from_slice(kind.as_bytes());
    Event::decode(bytes.as_slice()).unwrap()
}

fn kinds(events: &[Event]) -> Vec<String> {
    events.iter().map(|e| String::from_utf8(e.encode_to_vec()[2..].to_vec()).unwrap()).collect()
}

impl Module for Ledger {
    fn prefix(&self) -> &Identifier {
        &self.id
    }

    fn deliver(&mut self, store: &mut SubStore, message: &Any) -> Result<Vec<Event>, Error> {
        if message.type_url != "/bank.Send" {
            return Err(Error::NotHandled);
        }
        let body = String::from_utf8(message.value.clone()).map_err(|_| Error::Bank)?;
        let parts: Vec<&str> = body.split(':').collect();
        if parts.len() != 3 {
            return Err(Error::Bank);
        }
        let amount: u64 = parts[2].parse().map_err(|_| Error::Bank)?;
        let from = read_balance(store, parts[0]).ok_or(Error::Bank)?;
        // The debit is written before the credit is checked, so that a failure leaves a
        // partial write behind for the application to throw away.
        let rest = from.checked_sub(amount).ok_or(Error::Bank)?;
        store.set(&balance_key(parts[0]), rest.to_string().into_bytes());
        let to = read_balance(store, parts[1]).unwrap_or(0);
        let sum = to.checked_add(amount).ok_or(Error::Bank)?;
        store.set(&balance_key(parts[1]), sum.to_string().into_bytes());
        Ok(vec![event("transfer")])
    }

    fn init(&mut self, store: &mut SubStore, app_state: &serde_json::Value) {
        if let Some(balances) = app_state["bank"]["balances"].as_object() {
            for (account, amount) in balances {
                store.set(&balance_key(account), amount.as_u64().unwrap().to_string().into_bytes());
            }
        }
    }

    fn query(
        &self,
        store: &SubStoreRef,
        _data: &[u8],
        path: Option<&Path>,
        height: Height,
        _prove: bool,
    ) -> Result<QueryResult, Error> {
        let p = match path {
            Some(p) if p.starts_with(&self.id) && p.as_bytes().len() > 5 => p,
            _ => return Err(Error::NotHandled),
        };
        match store.get(height, &p.as_bytes()[5..]) {
            Some(value) => Ok(QueryResult { data: value, proof: None }),
            None => Err(Error::Bank),
        }
    }

    fn begin_block(&mut self, _store: &mut SubStore, header: &tendermint::block::Header) -> Vec<Event> {
        vec![event(&format!("block:{}:{}", header.chain_id, header.height))]
    }
}

const GENESIS: &str = "{\"bank\": {\"balances\": {\"acct1\": 100, \"acct2\": 5}}}";

fn tx_bytes(messages: Vec<(&str, &str)>) -> Vec<u8> {
    let body = TxBody {
        messages: messages
            .into_iter()
            .map(|(t, v)| cosmrs::Any { type_url: t.to_string(), value: v.as_bytes().to_vec() })
            .collect(),
        ..Default::default()
    };
    let auth_info = AuthInfo { fee: Some(Fee::default()), ..Default::default() };
    Tx { body: Some(body), auth_info: Some(auth_info), signatures: vec![] }.encode_to_vec()
}

fn raw_header(height: i64) -> tendermint_proto::types::Header {
    tendermint_proto::types::Header {
        version: Some(tendermint_proto::version::Consensus { block: 11, app: 1 }),
        chain_id: "test-chain".to_string(),
        height,
        time: Some(tendermint_proto::google::protobuf::Timestamp { seconds: 1, nanos: 0 }),
        proposer_address: vec![0u8; 20],
        ..Default::default()
    }
}

fn app() -> BaseCoinApp<Ledger> {
    BaseCoinApp::new(VersionedStore::new(), vec![ledger()]).unwrap()
}

fn started() -> BaseCoinApp<Ledger> {
    let mut app = app();
    app.init_chain(GENESIS.as_bytes()).unwrap();
    app
}

fn in_block() -> BaseCoinApp<Ledger> {
    let mut app = started();
    app.begin_block(Some(raw_header(1))).unwrap();
    app
}

fn balance(app: &BaseCoinApp<Ledger>, account: &str) -> Option<String> {
    let r = app.query(&format!("bank/balances/{}", account), b"", 0, false);
    if r.code == 0 {
        Some(String::from_utf8(r.value).unwrap())
    } else {
        None
    }
}

/// What the block in progress holds for an account, which no query shows.
fn working_balance(app: &BaseCoinApp<Ledger>, account: &str) -> Option<Vec<u8>> {
    let key = format!("bank/balances/{}", account).into_bytes();
    app.store().read().get(Height::Pending, &key)
}

#[test]
fn new_application_is_uninitialized() {
    let app = app();
    assert_eq!(app.phase(), Phase::Uninitialized);
    assert_eq!(app.modules().len(), 1);
    let info = app.info();
    assert_eq!(info.data, "basecoin-rs");
    assert_eq!(info.version, "0.1.0");
    assert_eq!(info.app_version, 1);
    assert_eq!(info.last_block_height, 0);
    assert_eq!(info.last_block_app_hash, vec![0u8; 32]);
}

#[test]
fn new_rejects_modules_with_the_same_identifier() {
    let r = BaseCoinApp::new(VersionedStore::new(), vec![ledger(), ledger()]);
    assert!(matches!(r, Err(DispatchError::DuplicateIdentifier)));
}

#[test]
fn get_store_finds_registered_modules_only() {
    let app = started();
    let bank = Identifier::new("bank").unwrap();
    let ibc = Identifier::new("ibc").unwrap();
    let sub = app.get_store(&bank).unwrap();
    assert_eq!(sub.prefix().as_bytes(), b"bank");
    assert_eq!(sub.get(Height::Latest, b"balances/acct1"), Some(b"100".to_vec()));
    assert!(app.get_store(&ibc).is_none());
}

#[test]
fn valid_genesis_initialises_the_chain() {
    let mut app = app();
    let response = app.init_chain(GENESIS.as_bytes()).unwrap();
    assert_eq!(app.phase(), Phase::Ready);
    assert_ne!(response.app_hash, vec![0u8; 32]);
    assert_eq!(app.info().last_block_app_hash, response.app_hash);
    assert_eq!(app.info().last_block_height, 0);
    let r = app.query("bank/balances/acct1", b"", 0, false);
    assert_eq!(r.code, 0);
    assert_eq!(r.log, "exists");
    assert_eq!(r.value, b"100".to_vec());
    assert_eq!(r.height, 0);
    assert!(r.proof_ops.is_none());
    assert_eq!(balance(&app, "acct2"), Some("5".to_string()));
    assert_eq!(balance(&app, "acct3"), None);
}

#[test]
fn malformed_genesis_is_refused() {
    for bad in [&b"{\"bank\": "[..], b"", b"not json", &[0xff, 0xfe], b"{} trailing"] {
        let mut app = app();
        assert_eq!(app.init_chain(bad).err(), Some(AppError::InvalidGenesis));
        assert_eq!(app.phase(), Phase::Uninitialized);
        assert_eq!(app.info().last_block_app_hash, vec![0u8; 32]);
    }
}

#[test]
fn init_chain_twice_is_out_of_order() {
    let mut app = started();
    let hash = app.info().last_block_app_hash;
    assert_eq!(app.init_chain(b"{}").err(), Some(AppError::OutOfOrder));
    assert_eq!(app.init_chain(b"not json").err(), Some(AppError::InvalidGenesis));
    assert_eq!(app.info().last_block_app_hash, hash);
    assert_eq!(balance(&app, "acct1"), Some("100".to_string()));
}

#[test]
fn calls_out_of_order_change_nothing() {
    let mut app = app();
    assert_eq!(app.begin_block(Some(raw_header(1))).err(), Some(AppError::OutOfOrder));
    assert_eq!(app.commit().err(), Some(AppError::OutOfOrder));
    let r = app.deliver_tx(&tx_bytes(vec![("/bank.Send", "acct1:acct2:1")]));
    assert_eq!((r.code, r.log.as_str()), (1, "call out of order"));
    assert_eq!(app.phase(), Phase::Uninitialized);

    let mut app = started();
    assert_eq!(app.commit().err(), Some(AppError::OutOfOrder));
    let r = app.deliver_tx(&tx_bytes(vec![("/bank.Send", "acct1:acct2:1")]));
    assert_eq!(r.code, 1);
    assert_eq!(working_balance(&app, "acct1"), Some(b"100".to_vec()));
    assert_eq!(app.phase(), Phase::Ready);

    let mut app = in_block();
    assert_eq!(app.begin_block(Some(raw_header(2))).err(), Some(AppError::OutOfOrder));
    assert_eq!(app.phase(), Phase::BlockInProgress);
}

#[test]
fn begin_block_needs_a_valid_header() {
    let mut app = started();
    assert_eq!(app.begin_block(None).err(), Some(AppError::MissingHeader));
    let mut no_version = raw_header(1);
    no_version.version = None;
    assert_eq!(app.begin_block(Some(no_version)).err(), Some(AppError::InvalidHeader));
    let mut short_address = raw_header(1);
    short_address.proposer_address = vec![0u8; 19];
    assert_eq!(app.begin_block(Some(short_address)).err(), Some(AppError::InvalidHeader));
    assert_eq!(app.phase(), Phase::Ready);
    let response = app.begin_block(Some(raw_header(1))).unwrap();
    assert_eq!(kinds(&response.events), vec!["block:test-chain:1"]);
    assert_eq!(app.phase(), Phase::BlockInProgress);
}

#[test]
fn begin_block_with_a_checked_header() {
    let mut app = started();
    let header = tendermint::block::Header::try_from(raw_header(3)).unwrap();
    let response = app.begin_block_with(&header).unwrap();
    assert_eq!(kinds(&response.events), vec!["block:test-chain:3"]);
    assert_eq!(app.begin_block_with(&header).err(), Some(AppError::OutOfOrder));
}

#[test]
fn init_chain_with_a_parsed_document() {
    let mut app = app();
    let doc: serde_json::Value = serde_json::from_str(GENESIS).unwrap();
    let response = app.init_chain_with(&doc).unwrap();
    let mut other = self::app();
    assert_eq!(other.init_chain(GENESIS.as_bytes()).unwrap().app_hash, response.app_hash);
    assert_eq!(app.init_chain_with(&doc).err(), Some(AppError::OutOfOrder));
}

#[test]
fn successful_transfer_is_delivered() {
    let mut app = in_block();
    let r = app.deliver_tx(&tx_bytes(vec![("/bank.Send", "acct1:acct2:30")]));
    assert_eq!(r.code, 0);
    assert_eq!(r.log, "success");
    assert_eq!(kinds(&r.events), vec!["transfer"]);
    assert_eq!(working_balance(&app, "acct1"), Some(b"70".to_vec()));
    assert_eq!(working_balance(&app, "acct2"), Some(b"35".to_vec()));
    // Not committed yet: queries still see the genesis state.
    assert_eq!(balance(&app, "acct1"), Some("100".to_string()));
    assert_eq!(app.query("bank/balances/acct1", b"", 0, false).height, 0);
}

#[test]
fn empty_message_transaction_is_rejected() {
    let mut app = in_block();
    let before = app.info();
    let r = app.deliver_tx(&tx_bytes(vec![]));
    assert_ne!(r.code, 0);
    assert_eq!(r.log, "failed to deliver tx: Empty Tx");
    assert!(r.events.is_empty());
    let after = app.info();
    assert_eq!(after.last_block_height, before.last_block_height);
    assert_eq!(after.last_block_app_hash, before.last_block_app_hash);
    assert_eq!(working_balance(&app, "acct1"), Some(b"100".to_vec()));
    assert_eq!(working_balance(&app, "acct2"), Some(b"5".to_vec()));
    assert_eq!(app.phase(), Phase::BlockInProgress);
    // The block goes on, and commits to the state it began with.
    let genesis_hash = before.last_block_app_hash;
    assert_eq!(app.commit().unwrap().data, genesis_hash);
}

#[test]
fn undecodable_transaction_is_rejected() {
    let mut app = in_block();
    let r = app.deliver_tx(&[0xff, 0x00, 0x12]);
    assert_eq!(r.code, 1);
    assert_eq!(r.log, "failed to deliver tx: failed to deserialize tx");
    assert_eq!(working_balance(&app, "acct1"), Some(b"100".to_vec()));
}

#[test]
fn unclaimed_second_message_discards_the_first() {
    let mut app = in_block();
    let r = app.deliver_tx(&tx_bytes(vec![("/bank.Send", "acct1:acct2:30"), ("/unknown", "x")]));
    assert_ne!(r.code, 0);
    assert_eq!(r.log, "failed to deliver tx: no module could handle specified message");
    assert!(r.events.is_empty());
    assert_eq!(working_balance(&app, "acct1"), Some(b"100".to_vec()));
    assert_eq!(working_balance(&app, "acct2"), Some(b"5".to_vec()));
    let genesis_hash = app.info().last_block_app_hash;
    assert_eq!(app.commit().unwrap().data, genesis_hash);
    assert_eq!(balance(&app, "acct1"), Some("100".to_string()));
}

#[test]
fn failed_transaction_discards_only_its_own_writes() {
    let mut app = in_block();
    assert_eq!(app.deliver_tx(&tx_bytes(vec![("/bank.Send", "acct1:acct2:30")])).code, 0);
    // The second transfer of this transaction overdraws acct2 after the first has been written.
    let r = app.deliver_tx(&tx_bytes(vec![
        ("/bank.Send", "acct2:acct3:10"),
        ("/bank.Send", "acct2:acct3:1000"),
    ]));
    assert_eq!(r.code, 1);
    assert_eq!(r.log, "failed to deliver tx: bank module error");
    assert_eq!(working_balance(&app, "acct1"), Some(b"70".to_vec()));
    assert_eq!(working_balance(&app, "acct2"), Some(b"35".to_vec()));
    assert_eq!(working_balance(&app, "acct3"), None);
    assert_eq!(app.deliver_tx(&tx_bytes(vec![("/bank.Send", "acct2:acct3:10")])).code, 0);
    app.commit().unwrap();
    assert_eq!(balance(&app, "acct1"), Some("70".to_string()));
    assert_eq!(balance(&app, "acct2"), Some("25".to_string()));
    assert_eq!(balance(&app, "acct3"), Some("10".to_string()));
}

#[test]
fn commit_after_a_transfer_changes_the_app_hash() {
    let mut app = in_block();
    let before = app.info().last_block_app_hash;
    assert_eq!(app.deliver_tx(&tx_bytes(vec![("/bank.Send", "acct1:acct2:30")])).code, 0);
    let response = app.commit().unwrap();
    assert_eq!(response.retain_height, 0);
    assert_ne!(response.data, before);
    assert_eq!(app.phase(), Phase::Ready);
    let info = app.info();
    assert_eq!(info.last_block_height, 1);
    assert_eq!(info.last_block_app_hash, response.data);

    // A proof for the key of the account that received the transfer verifies against the new hash.
    let root: [u8; 32] = response.data.clone().try_into().unwrap();
    let store = app.store().read();
    let proof = store.get_proof(Height::Latest, b"bank/balances/acct2").unwrap();
    assert!(proof.verify(&root, b"bank/balances/acct2", Some(b"35")));
    assert!(!proof.verify(&root, b"bank/balances/acct2", Some(b"5")));
    let old_root: [u8; 32] = before.try_into().unwrap();
    assert!(!proof.verify(&old_root, b"bank/balances/acct2", Some(b"35")));
    let old_proof = store.get_proof(Height::Stable(0), b"bank/balances/acct2").unwrap();
    assert!(old_proof.verify(&old_root, b"bank/balances/acct2", Some(b"5")));
}

#[test]
fn heights_rise_by_one_per_block() {
    let mut app = started();
    let mut hashes = vec![app.info().last_block_app_hash];
    for height in 1..=5u64 {
        app.begin_block(Some(raw_header(height as i64))).unwrap();
        assert_eq!(app.deliver_tx(&tx_bytes(vec![("/bank.Send", "acct1:acct2:1")])).code, 0);
        let data = app.commit().unwrap().data;
        assert_eq!(app.info().last_block_height, height);
        assert!(!hashes.contains(&data));
        hashes.push(data);
    }
    // Every height stays readable as it was committed.
    for height in 1..=5u64 {
        let r = app.query("bank/balances/acct1", b"", height, false);
        assert_eq!(r.value, (100 - height).to_string().into_bytes());
        assert_eq!(r.height, 5);
    }
}

#[test]
fn query_with_proof_appends_the_store_proof() {
    let mut app = in_block();
    app.deliver_tx(&tx_bytes(vec![("/bank.Send", "acct1:acct2:30")]));
    let hash = app.commit().unwrap().data;
    let r = app.query("bank/balances/acct2", b"balances/acct2", 0, true);
    assert_eq!(r.code, 0);
    assert_eq!(r.key, b"balances/acct2".to_vec());
    assert_eq!(r.value, b"35".to_vec());
    assert_eq!(r.height, 1);
    let ops = r.proof_ops.unwrap();
    assert_eq!(ops.len(), 1);
    assert_eq!(ops[0].kind, "");
    assert_eq!(ops[0].key, b"bank/balances/acct2".to_vec());
    // The proof step stands alone: decoded, it verifies against the hash of the commit.
    let root: [u8; 32] = hash.try_into().unwrap();
    let decoded = basecoin::store::evidence::Proof::decode(&ops[0].data).unwrap();
    assert!(decoded.verify(&root, &ops[0].key, Some(&r.value)));
    assert!(!decoded.verify(&root, &ops[0].key, Some(b"36")));
    let store = app.store().read();
    let expected = store.get_proof(Height::Latest, b"bank/balances/acct2").unwrap();
    assert_eq!(ops[0].data, expected.encode());
}

#[test]
fn query_failures() {
    let app = started();
    let r = app.query("ibc/clients", b"", 0, false);
    assert_eq!((r.code, r.log.as_str()), (1, "query msg not handled"));
    assert!(r.value.is_empty() && r.key.is_empty() && r.proof_ops.is_none());
    assert_eq!(r.height, 0);
    let r = app.query("not a path", b"", 0, false);
    assert_eq!((r.code, r.log.as_str()), (1, "query msg not handled"));
    let r = app.query("bank/balances/nobody", b"", 0, false);
    assert_eq!((r.code, r.log.as_str()), (1, "query error: bank module error"));
    // A height beyond the last commit holds nothing for the module to find.
    let r = app.query("bank/balances/acct1", b"", 9, true);
    assert_eq!(r.code, 1);
}

#[test]
fn simulate_checks_that_the_transaction_decodes() {
    let app = app();
    assert_eq!(app.simulate(&tx_bytes(vec![("/bank.Send", "a:b:1")])), Ok(()));
    assert_eq!(app.simulate(&tx_bytes(vec![])), Ok(()));
    assert_eq!(app.simulate(&[0xff, 0xff]), Err(DispatchError::InvalidTx));
}

#[test]
fn app_error_messages() {
    assert_eq!(AppError::OutOfOrder.message(), "call out of order");
    assert_eq!(AppError::InvalidGenesis.message(), "genesis state isn't valid JSON");
    assert_eq!(AppError::MissingHeader.message(), "missing block header");
    assert_eq!(AppError::InvalidHeader.message(), "invalid block header");
    assert_eq!(
        AppError::Store(basecoin::store::height::StoreError::HeightOverflow).message(),
        "failed to commit to state"
    );
}
