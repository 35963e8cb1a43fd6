//! One dispatch unit's deduplicated proof targets.

use vstd::prelude::*;

use crate::access::StateAccess;
use crate::hashing::{keccak256_bytes, keccak_of};
use crate::model::{apply_access, Targets};
use crate::table::TargetTable;

verus! {

/// The targets gathered for one dispatch: a map from hashed account key to
/// the set of hashed storage-slot keys requested under it. An account that
/// was only accessed directly is present with an empty slot set. Built
/// incrementally from state-access events; duplicates collapse.
pub struct TargetBatch {
    table: TargetTable,
}

impl View for TargetBatch {
    type V = Targets;

    closed spec fn view(&self) -> Targets {
        self.table@
    }
}

impl TargetBatch {
    /// Internal validity: one row per account key, no duplicate slots.
    pub closed spec fn wf(&self) -> bool {
        self.table.wf()
    }

    /// A batch with no targets.
    pub fn new() -> (r: TargetBatch)
        ensures
            r.wf(),
            r@ == Map::<Seq<u8>, Set<Seq<u8>>>::empty(),
    {
        TargetBatch { table: TargetTable::new() }
    }

    /// Fold one state-access event into the batch: an account access ensures
    /// the hashed account key is present; a storage-slot access additionally
    /// records the hashed slot key under it. Idempotent on duplicates.
    pub fn record(&mut self, access: &StateAccess)
        requires
            old(self).wf(),
        ensures
            final(self).wf(),
            final(self)@ == apply_access(old(self)@, access@),
    {
        self.table.record(access);
    }

    /// Whether no target has been recorded.
    pub fn is_empty(&self) -> (r: bool)
        ensures
            r <==> self@ =~= Map::<Seq<u8>, Set<Seq<u8>>>::empty(),
    {
        self.table.is_empty_table()
    }

    /// Whether the account with the given raw address bytes is a target.
    pub fn has_account(&self, address: &[u8]) -> (r: bool)
        ensures
            r == self@.contains_key(keccak_of(address@)),
    {
        let h = keccak256_bytes(address);
        self.table.contains_key_bytes(&h)
    }

    /// Whether the given raw slot is a target under the given raw address.
    pub fn has_slot(&self, address: &[u8], slot: &[u8]) -> (r: bool)
        requires
            self.wf(),
        ensures
            r == (self@.contains_key(keccak_of(address@)) && self@[keccak_of(address@)].contains(
                keccak_of(slot@),
            )),
    {
        let ha = keccak256_bytes(address);
        let hs = keccak256_bytes(slot);
        self.table.slot_recorded(&ha, &hs)
    }

    /// Whether the given hashed account key is a target.
    pub fn contains_account_key(&self, key: &Vec<u8>) -> (r: bool)
        ensures
            r == self@.contains_key(key@),
    {
        self.table.contains_key_bytes(key)
    }

    /// Whether the given hashed slot key is a target under the hashed
    /// account key.
    pub fn contains_slot_key(&self, key: &Vec<u8>, slot: &Vec<u8>) -> (r: bool)
        requires
            self.wf(),
        ensures
            r == (self@.contains_key(key@) && self@[key@].contains(slot@)),
    {
        self.table.slot_recorded(key, slot)
    }

    /// How many distinct accounts the batch targets.
    pub fn account_count(&self) -> (n: usize)
        requires
            self.wf(),
        ensures
            n == self@.dom().len(),
    {
        self.table.account_count()
    }

    /// How many distinct slots the batch targets under the given raw address.
    pub fn slot_count(&self, address: &[u8]) -> (n: usize)
        requires
            self.wf(),
        ensures
            self@.contains_key(keccak_of(address@)) ==> n == self@[keccak_of(address@)].len(),
            !self@.contains_key(keccak_of(address@)) ==> n == 0,
    {
        let h = keccak256_bytes(address);
        self.table.slot_count(&h)
    }

    /// Whether the two batches hold exactly the same targets.
    pub fn same_targets(&self, other: &TargetBatch) -> (r: bool)
        requires
            self.wf(),
            other.wf(),
        ensures
            r == (self@ == other@),
    {
        self.table.same_view(&other.table)
    }

    pub(crate) fn into_table(self) -> (r: TargetTable)
        ensures
            r@ == self@,
            self.wf() ==> r.wf(),
    {
        self.table
    }
}

} // verus!
