//! The namespaces of the modules that ship with the application.

use vstd::prelude::*;
use crate::modules::Identifiable;
use crate::store::identifier::Identifier;

verus! {

/// The namespace of the bank module: `bank`.
#[derive(Clone, Copy)]
pub struct Bank;

impl Identifiable for Bank {
    open spec fn name(&self) -> Seq<u8> {
        seq![98u8, 97u8, 110u8, 107u8]
    }

    fn identifier(&self) -> (id: Identifier) {
        Identifier::from_valid_bytes(vec![98u8, 97u8, 110u8, 107u8])
    }
}

/// The namespace of the IBC module: `ibc`.
#[derive(Clone, Copy)]
pub struct Ibc;

impl Identifiable for Ibc {
    open spec fn name(&self) -> Seq<u8> {
        seq![105u8, 98u8, 99u8]
    }

    fn identifier(&self) -> (id: Identifier) {
        Identifier::from_valid_bytes(vec![105u8, 98u8, 99u8])
    }
}

/// The namespace of the auth module: `auth`.
#[derive(Clone, Copy)]
pub struct Auth;

impl Identifiable for Auth {
    open spec fn name(&self) -> Seq<u8> {
        seq![97u8, 117u8, 116u8, 104u8]
    }

    fn identifier(&self) -> (id: Identifier) {
        Identifier::from_valid_bytes(vec![97u8, 117u8, 116u8, 104u8])
    }
}

/// The namespace of the staking module: `staking`.
#[derive(Clone, Copy)]
pub struct Staking;

impl Identifiable for Staking {
    open spec fn name(&self) -> Seq<u8> {
        seq![115u8, 116u8, 97u8, 107u8, 105u8, 110u8, 103u8]
    }

    fn identifier(&self) -> (id: Identifier) {
        Identifier::from_valid_bytes(vec![115u8, 116u8, 97u8, 107u8, 105u8, 110u8, 103u8])
    }
}

} // verus!
