//! The mathematical model of proof-target gathering.
//!
//! A batch of proof targets is modelled as a finite map from hashed account
//! key to the set of hashed storage-slot keys requested under that account.
//! The same shape models the coverage of a multiproof: which accounts and
//! slots a (partial) witness speaks for. This module defines how a single
//! state-access event transforms a target map, how a whole event sequence
//! folds into one, and how the coverage of two partial proofs merges.

use vstd::prelude::*;

use crate::hashing::keccak_of;

verus! {

/// A target map: hashed account key to set of hashed storage-slot keys.
pub type Targets = Map<Seq<u8>, Set<Seq<u8>>>;

/// A state-access event, abstractly: the raw bytes of the address touched,
/// and of the storage slot where one was read.
pub enum AccessView {
    Account { address: Seq<u8> },
    StorageSlot { address: Seq<u8>, slot: Seq<u8> },
}

/// Ensure the account key `a` is present, with an empty slot set if new.
pub open spec fn add_account(m: Targets, a: Seq<u8>) -> Targets {
    if m.contains_key(a) {
        m
    } else {
        m.insert(a, Set::empty())
    }
}

/// Ensure the account key `a` is present and add slot key `s` to its set.
pub open spec fn add_slot(m: Targets, a: Seq<u8>, s: Seq<u8>) -> Targets {
    if m.contains_key(a) {
        m.insert(a, m[a].insert(s))
    } else {
        m.insert(a, Set::empty().insert(s))
    }
}

/// How one state-access event transforms a target map: keys are the
/// Keccak-256 digests of the raw address and slot bytes.
pub open spec fn apply_access(m: Targets, ev: AccessView) -> Targets {
    match ev {
        AccessView::Account { address } => add_account(m, keccak_of(address)),
        AccessView::StorageSlot { address, slot } => add_slot(
            m,
            keccak_of(address),
            keccak_of(slot),
        ),
    }
}

/// The target map obtained by folding a whole event sequence, in order,
/// into the empty map.
pub open spec fn targets_of(evs: Seq<AccessView>) -> Targets
    decreases evs.len(),
{
    if evs.len() == 0 {
        Map::empty()
    } else {
        apply_access(targets_of(evs.drop_last()), evs.last())
    }
}

/// Merged coverage of two partial proofs: the union of their account keys,
/// with the slot sets of shared accounts united.
pub open spec fn merge_views(a: Targets, b: Targets) -> Targets {
    Map::new(
        |k: Seq<u8>| a.contains_key(k) || b.contains_key(k),
        |k: Seq<u8>|
            if a.contains_key(k) && b.contains_key(k) {
                a[k].union(b[k])
            } else if a.contains_key(k) {
                a[k]
            } else {
                b[k]
            },
    )
}

} // verus!
