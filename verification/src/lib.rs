//! A replicated state machine for a Tendermint-style blockchain node.
//!
//! The crate has two halves. [`store`] is a versioned key-value store with a
//! Merkle commitment per committed height, a revertible write buffer on top of
//! it and prefix-isolated views for modules. [`modules`], [`dispatch`] and
//! [`app`] route the consensus engine's lifecycle calls to an ordered list of
//! modules and turn them into store reads and writes; [`wire`] holds what
//! arrives from the consensus engine and the decoders for it.
//!
//! Every function is verified against a contract stated over mathematical
//! models (`Seq`, `Map`, `int`); the few calls into other crates are confined
//! to small wrappers whose contracts are assumptions.

pub mod store;
pub mod wire;
pub mod modules;
pub mod dispatch;
pub mod app;
