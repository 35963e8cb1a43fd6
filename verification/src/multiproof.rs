//! The multiproof accumulator.
//!
//! A multiproof is a witness covering a set of accounts and storage slots;
//! partial witnesses merge into larger ones. This type tracks the coverage
//! of such a witness — which hashed account and slot keys it speaks for —
//! which is all the gathering engine reads of it: the cryptographic payload
//! is computed and checked by the proof backend, outside this crate. Merge
//! is the union of coverage: commutative, associative, with the empty proof
//! as identity (see `crate::laws`).

use vstd::prelude::*;

use crate::hashing::keccak_of;
use crate::model::{merge_views, Targets};
use crate::table::TargetTable;
use crate::targets::TargetBatch;

verus! {

/// The coverage of one (partial or merged) multiproof.
pub struct MultiProof {
    covered: TargetTable,
}

impl View for MultiProof {
    type V = Targets;

    closed spec fn view(&self) -> Targets {
        self.covered@
    }
}

impl MultiProof {
    /// Internal validity: one row per account key, no duplicate slots.
    pub closed spec fn wf(&self) -> bool {
        self.covered.wf()
    }

    /// The empty proof: covers nothing; the identity of merge.
    pub fn empty() -> (r: MultiProof)
        ensures
            r.wf(),
            r@ == Map::<Seq<u8>, Set<Seq<u8>>>::empty(),
    {
        MultiProof { covered: TargetTable::new() }
    }

    /// The proof fragment a backend returns for one batch: it covers exactly
    /// the batch's targets.
    pub fn covering(batch: TargetBatch) -> (r: MultiProof)
        requires
            batch.wf(),
        ensures
            r.wf(),
            r@ == batch@,
    {
        MultiProof { covered: batch.into_table() }
    }

    /// Merge a fragment in: the coverage becomes the union of the two, slot
    /// sets of shared accounts united.
    pub fn merge(&mut self, other: MultiProof)
        requires
            old(self).wf(),
            other.wf(),
        ensures
            final(self).wf(),
            final(self)@ == merge_views(old(self)@, other@),
    {
        self.covered.absorb(&other.covered);
    }

    /// Whether the proof covers nothing.
    pub fn is_empty(&self) -> (r: bool)
        ensures
            r <==> self@ =~= Map::<Seq<u8>, Set<Seq<u8>>>::empty(),
    {
        self.covered.is_empty_table()
    }

    /// Whether the account with the given hashed key is covered.
    pub fn covers_account_key(&self, key: &Vec<u8>) -> (r: bool)
        ensures
            r == self@.contains_key(key@),
    {
        self.covered.contains_key_bytes(key)
    }

    /// Whether the given hashed slot key is covered under the hashed
    /// account key.
    pub fn covers_slot_key(&self, key: &Vec<u8>, slot: &Vec<u8>) -> (r: bool)
        requires
            self.wf(),
        ensures
            r == (self@.contains_key(key@) && self@[key@].contains(slot@)),
    {
        self.covered.slot_recorded(key, slot)
    }

    /// Whether the account with the given raw address bytes is covered.
    pub fn covers_account(&self, address: &[u8]) -> (r: bool)
        ensures
            r == self@.contains_key(keccak_of(address@)),
    {
        let h = crate::hashing::keccak256_bytes(address);
        self.covered.contains_key_bytes(&h)
    }

    /// Whether the given raw slot is covered under the given raw address.
    pub fn covers_slot(&self, address: &[u8], slot: &[u8]) -> (r: bool)
        requires
            self.wf(),
        ensures
            r == (self@.contains_key(keccak_of(address@)) && self@[keccak_of(address@)].contains(
                keccak_of(slot@),
            )),
    {
        let ha = crate::hashing::keccak256_bytes(address);
        let hs = crate::hashing::keccak256_bytes(slot);
        self.covered.slot_recorded(&ha, &hs)
    }

    /// How many distinct accounts the proof covers.
    pub fn account_count(&self) -> (n: usize)
        requires
            self.wf(),
        ensures
            n == self@.dom().len(),
    {
        self.covered.account_count()
    }

    /// Whether the two proofs cover exactly the same targets.
    pub fn agrees(&self, other: &MultiProof) -> (r: bool)
        requires
            self.wf(),
            other.wf(),
        ensures
            r == (self@ == other@),
    {
        self.covered.same_view(&other.covered)
    }
}

impl Default for MultiProof {
    /// The default proof is the empty one.
    fn default() -> (r: MultiProof)
        ensures
            r.wf(),
            r@ == Map::<Seq<u8>, Set<Seq<u8>>>::empty(),
    {
        MultiProof::empty()
    }
}

} // verus!
