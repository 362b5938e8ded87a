//! The store stack: ordered snapshots, Merkle commitments, the versioned
//! store, its revertible overlay and the namespaced views handed to modules.

pub mod key;
pub mod snapshot;
pub mod hash;
pub mod merkle;
pub mod height;
pub mod identifier;
pub mod commitment;
pub mod evidence;
pub mod encoding;
pub mod versioned;
pub mod revertible;
pub mod shared;
pub mod sub;
