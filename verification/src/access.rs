//! State-access events, as produced by the execution loop.

use vstd::prelude::*;

use crate::model::AccessView;

verus! {

/// One observation that a piece of state was touched during execution:
/// either an account was accessed, or one of its storage slots was.
/// The payloads are the raw (unhashed) key bytes.
pub enum StateAccess {
    Account(Vec<u8>),
    StorageSlot(Vec<u8>, Vec<u8>),
}

impl View for StateAccess {
    type V = AccessView;

    open spec fn view(&self) -> AccessView {
        match self {
            StateAccess::Account(address) => AccessView::Account { address: address@ },
            StateAccess::StorageSlot(address, slot) => AccessView::StorageSlot {
                address: address@,
                slot: slot@,
            },
        }
    }
}

} // verus!
