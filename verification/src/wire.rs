//! What reaches the application from the consensus engine, and the decoders
//! for it. The types of events, block headers and genesis documents belong
//! to other crates and pass through this library unread; the decoders call
//! those crates, and their contracts are assumptions about them.

use vstd::prelude::*;

verus! {

/// An event that a module emits; the library hands events on unread.
#[verifier::external_type_specification]
#[verifier::external_body]
pub struct ExEvent(tendermint_proto::abci::Event);

/// The header of a block, as modules receive it.
#[verifier::external_type_specification]
#[verifier::external_body]
pub struct ExHeader(tendermint::block::Header);

/// The header of a block as it arrives, before it has been checked.
#[verifier::external_type_specification]
#[verifier::external_body]
pub struct ExRawHeader(tendermint_proto::types::Header);

/// A parsed genesis document.
#[verifier::external_type_specification]
#[verifier::external_body]
pub struct ExValue(serde_json::Value);

/// A message of a transaction: the name of its type and its encoded body.
pub struct Any {
    pub type_url: String,
    pub value: Vec<u8>,
}

impl View for Any {
    type V = (Seq<char>, Seq<u8>);

    open spec fn view(&self) -> (Seq<char>, Seq<u8>) {
        (self.type_url@, self.value@)
    }
}

/// The messages that a list holds, each as its type name and body.
pub open spec fn messages_of(v: Seq<Any>) -> Seq<(Seq<char>, Seq<u8>)> {
    v.map_values(|m: Any| m@)
}

/// The messages of the transaction that `bytes` encode, in order: what
/// `cosmrs::Tx::from_bytes` decodes, or `None` where it fails.
pub uninterp spec fn tx_messages(bytes: Seq<u8>) -> Option<Seq<(Seq<char>, Seq<u8>)>>;

/// The genesis document that `bytes` hold as JSON text: what
/// `serde_json::from_slice` parses, or `None` where it fails.
pub uninterp spec fn json_document(bytes: Seq<u8>) -> Option<serde_json::Value>;

/// The checked form of a raw block header: what the `TryFrom` conversion of
/// `tendermint::block::Header` gives, or `None` where it fails.
pub uninterp spec fn checked_header(raw: tendermint_proto::types::Header) -> Option<
    tendermint::block::Header,
>;

/// Calls `cosmrs::Tx::from_bytes` and keeps the messages of the body.
/// Assumed: whether the bytes decode, and to which messages, depends on the
/// bytes alone.
#[verifier::external_body]
pub(crate) fn decode_tx(bytes: &[u8]) -> (r: Option<Vec<Any>>)
    ensures
        match r {
            Some(messages) => tx_messages(bytes@) == Some(messages_of(messages@)),
            None => tx_messages(bytes@).is_none(),
        },
{
    match cosmrs::Tx::from_bytes(bytes) {
        Ok(tx) => Some(
            tx.body.messages.into_iter().map(|m| Any { type_url: m.type_url, value: m.value }).collect(),
        ),
        Err(_) => None,
    }
}

/// Calls `serde_json::from_slice`. Assumed: whether the bytes parse, and to
/// which document, depends on the bytes alone.
#[verifier::external_body]
pub(crate) fn parse_json(bytes: &[u8]) -> (r: Option<serde_json::Value>)
    ensures
        r == json_document(bytes@),
{
    serde_json::from_slice(bytes).ok()
}

/// Calls the `TryFrom` conversion from a raw header to a
/// `tendermint::block::Header`. Assumed: whether the header passes, and what
/// it becomes, depends on the raw header alone.
#[verifier::external_body]
pub(crate) fn check_header(raw: tendermint_proto::types::Header) -> (r: Option<
    tendermint::block::Header,
>)
    ensures
        r == checked_header(raw),
{
    tendermint::block::Header::try_from(raw).ok()
}

} // verus!
