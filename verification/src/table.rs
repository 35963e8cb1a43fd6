//! The concrete target table behind batches and proof coverage.
//!
//! A table is a vector of entries, one per distinct hashed account key, each
//! carrying the distinct hashed storage-slot keys recorded under it. Its view
//! is the target map of `crate::model`; well-formedness says the account keys
//! are pairwise distinct and so are the slots within one entry, mirroring the
//! map-of-sets the table stands for.

use vstd::prelude::*;

use crate::access::StateAccess;
use crate::hashing::keccak256_bytes;
use crate::model::{add_account, add_slot, apply_access, merge_views, Targets};

verus! {

/// One account's row: the hashed account key and the hashed slot keys
/// recorded under it.
pub(crate) struct TargetEntry {
    pub(crate) account: Vec<u8>,
    pub(crate) slots: Vec<Vec<u8>>,
}

/// The set of byte strings held by a vector of byte vectors.
pub(crate) open spec fn views_set(s: Seq<Vec<u8>>) -> Set<Seq<u8>> {
    Set::new(|x: Seq<u8>| exists|j: int| 0 <= j < s.len() && s[j]@ == x)
}

impl TargetEntry {
    /// The set of hashed slot keys this row records.
    pub(crate) open spec fn slot_set(&self) -> Set<Seq<u8>> {
        views_set(self.slots@)
    }

    /// The slots of one row hold no duplicates.
    pub(crate) open spec fn wf(&self) -> bool {
        forall|i: int, j: int|
            0 <= i < j < self.slots@.len() ==> self.slots@[i]@ != self.slots@[j]@
    }
}

/// Account keys are pairwise distinct across entries.
pub(crate) open spec fn unique_accounts(s: Seq<TargetEntry>) -> bool {
    forall|i: int, j: int| 0 <= i < j < s.len() ==> s[i].account@ != s[j].account@
}

/// Every row is well-formed and no account key repeats.
pub(crate) open spec fn entries_wf(s: Seq<TargetEntry>) -> bool {
    unique_accounts(s) && forall|i: int| 0 <= i < s.len() ==> s[i].wf()
}

/// The target map a sequence of rows stands for.
pub(crate) open spec fn entries_view(s: Seq<TargetEntry>) -> Targets
    decreases s.len(),
{
    if s.len() == 0 {
        Map::empty()
    } else {
        entries_view(s.drop_last()).insert(s.last().account@, s.last().slot_set())
    }
}

/// The view's keys are exactly the account keys of the rows.
pub(crate) proof fn lemma_view_contains(s: Seq<TargetEntry>, k: Seq<u8>)
    ensures
        entries_view(s).contains_key(k) <==> exists|i: int|
            0 <= i < s.len() && #[trigger] s[i].account@ == k,
    decreases s.len(),
{
    if s.len() > 0 {
        lemma_view_contains(s.drop_last(), k);
        if entries_view(s).contains_key(k) && s.last().account@ != k {
            let i = choose|i: int| 0 <= i < s.drop_last().len() && #[trigger] s.drop_last()[i].account@ == k;
            assert(s[i].account@ == k);
        }
        if exists|i: int| 0 <= i < s.len() && #[trigger] s[i].account@ == k {
            let i = choose|i: int| 0 <= i < s.len() && #[trigger] s[i].account@ == k;
            if i < s.len() - 1 {
                assert(s.drop_last()[i].account@ == k);
            }
        }
    }
}

/// Under unique account keys, the view maps each row's account key to
/// exactly that row's slot set.
pub(crate) proof fn lemma_view_at(s: Seq<TargetEntry>, i: int)
    requires
        unique_accounts(s),
        0 <= i < s.len(),
    ensures
        entries_view(s).contains_key(s[i].account@),
        entries_view(s)[s[i].account@] == s[i].slot_set(),
    decreases s.len(),
{
    if i < s.len() - 1 {
        assert(unique_accounts(s.drop_last())) by {
            assert(forall|x: int, y: int|
                0 <= x < y < s.drop_last().len() ==> s.drop_last()[x] == s[x] && s.drop_last()[y]
                    == s[y]);
        }
        assert(s.drop_last()[i] == s[i]);
        lemma_view_at(s.drop_last(), i);
        assert(s.last().account@ != s[i].account@);
    }
}

/// Appending a row with a fresh account key inserts that key.
pub(crate) proof fn lemma_view_push(s: Seq<TargetEntry>, e: TargetEntry)
    ensures
        entries_view(s.push(e)) == entries_view(s).insert(e.account@, e.slot_set()),
{
    assert(s.push(e).drop_last() =~= s);
    assert(s.push(e).last() == e);
}

/// Replacing row `i` by one with the same account key rewrites the view at
/// that key alone.
pub(crate) proof fn lemma_view_update(s: Seq<TargetEntry>, i: int, e: TargetEntry)
    requires
        unique_accounts(s),
        0 <= i < s.len(),
        e.account@ == s[i].account@,
    ensures
        entries_view(s.update(i, e)) == entries_view(s).insert(e.account@, e.slot_set()),
    decreases s.len(),
{
    let s2 = s.update(i, e);
    if i == s.len() - 1 {
        assert(s2.drop_last() =~= s.drop_last());
        assert(s2.last() == e);
        assert(entries_view(s.update(i, e)) =~= entries_view(s).insert(e.account@, e.slot_set()));
    } else {
        assert(unique_accounts(s.drop_last())) by {
            assert(forall|x: int, y: int|
                0 <= x < y < s.drop_last().len() ==> s.drop_last()[x] == s[x] && s.drop_last()[y]
                    == s[y]);
        }
        assert(s.drop_last()[i] == s[i]);
        lemma_view_update(s.drop_last(), i, e);
        assert(s2.drop_last() =~= s.drop_last().update(i, e));
        assert(s2.last() == s.last());
        assert(s.last().account@ != e.account@);
        assert(entries_view(s2) =~= entries_view(s).insert(e.account@, e.slot_set()));
    }
}

/// Byte-vector equality, decided element by element.
pub(crate) fn bytes_eq(a: &Vec<u8>, b: &Vec<u8>) -> (r: bool)
    ensures
        r <==> a@ == b@,
{
    if a.len() != b.len() {
        return false;
    }
    let mut i: usize = 0;
    while i < a.len()
        invariant
            i <= a@.len(),
            a@.len() == b@.len(),
            forall|j: int| 0 <= j < i ==> a@[j] == b@[j],
        decreases a@.len() - i,
    {
        if a[i] != b[i] {
            return false;
        }
        i += 1;
    }
    proof {
        assert(a@ =~= b@);
    }
    true
}

/// Copy of a byte vector.
pub(crate) fn copy_bytes(v: &Vec<u8>) -> (r: Vec<u8>)
    ensures
        r@ == v@,
{
    let mut r: Vec<u8> = Vec::new();
    let mut i: usize = 0;
    while i < v.len()
        invariant
            i <= v@.len(),
            r@ == v@.take(i as int),
        decreases v@.len() - i,
    {
        r.push(v[i]);
        proof {
            assert(r@ =~= v@.take(i as int + 1));
        }
        i += 1;
    }
    proof {
        assert(v@.take(v@.len() as int) =~= v@);
    }
    r
}

/// Whether a vector of byte vectors holds the given byte string.
pub(crate) fn contains_bytes(s: &Vec<Vec<u8>>, x: &Vec<u8>) -> (r: bool)
    ensures
        r <==> views_set(s@).contains(x@),
{
    let mut i: usize = 0;
    while i < s.len()
        invariant
            i <= s@.len(),
            forall|j: int| 0 <= j < i ==> s@[j]@ != x@,
        decreases s@.len() - i,
    {
        if bytes_eq(&s[i], x) {
            return true;
        }
        i += 1;
    }
    false
}

/// Appending a byte vector adds exactly its bytes to the set.
pub(crate) proof fn lemma_views_set_push(s: Seq<Vec<u8>>, v: Vec<u8>)
    ensures
        views_set(s.push(v)) == views_set(s).insert(v@),
{
    assert forall|x: Seq<u8>|
        views_set(s.push(v)).contains(x) <==> views_set(s).insert(v@).contains(x) by {
        if views_set(s.push(v)).contains(x) {
            let j = choose|j: int| 0 <= j < s.push(v).len() && s.push(v)[j]@ == x;
            if j < s.len() {
                assert(s[j]@ == x);
            }
        }
        if views_set(s).contains(x) {
            let j = choose|j: int| 0 <= j < s.len() && s[j]@ == x;
            assert(s.push(v)[j]@ == x);
        }
        assert(s.push(v)[s.len() as int]@ == v@);
    }
    assert(views_set(s.push(v)) =~= views_set(s).insert(v@));
}

/// The empty vector stands for the empty set.
pub(crate) proof fn lemma_views_set_empty(s: Seq<Vec<u8>>)
    requires
        s.len() == 0,
    ensures
        views_set(s) == Set::<Seq<u8>>::empty(),
{
    assert(views_set(s) =~= Set::<Seq<u8>>::empty());
}

/// The table: one row per distinct hashed account key.
pub(crate) struct TargetTable {
    pub(crate) entries: Vec<TargetEntry>,
}

impl View for TargetTable {
    type V = Targets;

    closed spec fn view(&self) -> Targets {
        entries_view(self.entries@)
    }
}

impl TargetTable {
    pub(crate) open spec fn wf(&self) -> bool {
        entries_wf(self.entries@)
    }

    pub(crate) fn new() -> (r: TargetTable)
        ensures
            r.wf(),
            r@ == Map::<Seq<u8>, Set<Seq<u8>>>::empty(),
    {
        TargetTable { entries: Vec::new() }
    }

    /// Index of the row holding `key`, if one does.
    fn find_account(&self, key: &Vec<u8>) -> (r: Option<usize>)
        ensures
            match r {
                Some(i) => i < self.entries@.len() && self.entries@[i as int].account@ == key@,
                None => forall|i: int|
                    0 <= i < self.entries@.len() ==> self.entries@[i].account@ != key@,
            },
    {
        let mut i: usize = 0;
        while i < self.entries.len()
            invariant
                i <= self.entries@.len(),
                forall|j: int| 0 <= j < i ==> self.entries@[j].account@ != key@,
            decreases self.entries@.len() - i,
        {
            if bytes_eq(&self.entries[i].account, key) {
                return Some(i);
            }
            i += 1;
        }
        None
    }

    /// Make sure a row for `key` exists, empty if new.
    pub(crate) fn ensure_account_key(&mut self, key: Vec<u8>)
        requires
            old(self).wf(),
        ensures
            final(self).wf(),
            final(self)@ == add_account(old(self)@, key@),
    {
        proof {
            lemma_view_contains(self.entries@, key@);
        }
        match self.find_account(&key) {
            Some(_) => {},
            None => {
                let e = TargetEntry { account: key, slots: Vec::new() };
                let ghost ge = e;
                let ghost s0 = self.entries@;
                self.entries.push(e);
                proof {
                    lemma_view_push(s0, ge);
                    lemma_views_set_empty(ge.slots@);
                    assert(entries_wf(self.entries@)) by {
                        assert(forall|i: int|
                            0 <= i < s0.len() ==> self.entries@[i] == s0[i]);
                    }
                }
            },
        }
    }

    /// Make sure a row for `key` exists and record `slot` under it.
    pub(crate) fn insert_slot_key(&mut self, key: Vec<u8>, slot: Vec<u8>)
        requires
            old(self).wf(),
        ensures
            final(self).wf(),
            final(self)@ == add_slot(old(self)@, key@, slot@),
    {
        proof {
            lemma_view_contains(self.entries@, key@);
        }
        match self.find_account(&key) {
            Some(i) => {
                proof {
                    lemma_view_at(self.entries@, i as int);
                }
                let ghost s0 = self.entries@;
                let mut e = self.entries.remove(i);
                let ghost e0 = e;
                if !contains_bytes(&e.slots, &slot) {
                    e.slots.push(slot);
                    proof {
                        lemma_views_set_push(e0.slots@, slot);
                    }
                }
                let ghost ge = e;
                self.entries.insert(i, e);
                proof {
                    assert(self.entries@ =~= s0.update(i as int, ge));
                    lemma_view_update(s0, i as int, ge);
                    assert(ge.slot_set() =~= e0.slot_set().insert(slot@));
                    assert(final(self)@ =~~= add_slot(old(self)@, key@, slot@));
                    assert(entries_wf(self.entries@)) by {
                        assert(forall|x: int|
                            0 <= x < s0.len() && x != i ==> self.entries@[x] == s0[x]);
                    }
                }
            },
            None => {
                let mut slots: Vec<Vec<u8>> = Vec::new();
                slots.push(slot);
                let e = TargetEntry { account: key, slots };
                let ghost ge = e;
                let ghost s0 = self.entries@;
                self.entries.push(e);
                proof {
                    lemma_view_push(s0, ge);
                    lemma_views_set_empty(Seq::<Vec<u8>>::empty());
                    lemma_views_set_push(Seq::<Vec<u8>>::empty(), slot);
                    assert(ge.slot_set() =~= Set::<Seq<u8>>::empty().insert(slot@));
                    assert(final(self)@ =~~= add_slot(old(self)@, key@, slot@));
                    assert(entries_wf(self.entries@)) by {
                        assert(forall|x: int|
                            0 <= x < s0.len() ==> self.entries@[x] == s0[x]);
                    }
                }
            },
        }
    }

    /// Fold one state-access event into the table, hashing its raw keys.
    pub(crate) fn record(&mut self, access: &StateAccess)
        requires
            old(self).wf(),
        ensures
            final(self).wf(),
            final(self)@ == apply_access(old(self)@, access@),
    {
        match access {
            StateAccess::Account(address) => {
                let h = keccak256_bytes(address.as_slice());
                self.ensure_account_key(h);
            },
            StateAccess::StorageSlot(address, slot) => {
                let ha = keccak256_bytes(address.as_slice());
                let hs = keccak256_bytes(slot.as_slice());
                self.insert_slot_key(ha, hs);
            },
        }
    }

    /// Whether the hashed account key is present.
    pub(crate) fn contains_key_bytes(&self, key: &Vec<u8>) -> (r: bool)
        ensures
            r == self@.contains_key(key@),
    {
        proof {
            lemma_view_contains(self.entries@, key@);
        }
        self.find_account(key).is_some()
    }

    /// Whether the hashed slot key is recorded under the hashed account key.
    pub(crate) fn slot_recorded(&self, key: &Vec<u8>, slot: &Vec<u8>) -> (r: bool)
        requires
            self.wf(),
        ensures
            r == (self@.contains_key(key@) && self@[key@].contains(slot@)),
    {
        proof {
            lemma_view_contains(self.entries@, key@);
        }
        match self.find_account(key) {
            Some(i) => {
                proof {
                    lemma_view_at(self.entries@, i as int);
                }
                contains_bytes(&self.entries[i].slots, slot)
            },
            None => false,
        }
    }

    /// Whether the table records nothing at all.
    pub(crate) fn is_empty_table(&self) -> (r: bool)
        ensures
            r <==> self@ =~= Map::<Seq<u8>, Set<Seq<u8>>>::empty(),
    {
        if self.entries.len() == 0 {
            true
        } else {
            proof {
                lemma_view_contains(self.entries@, self.entries@[0].account@);
            }
            false
        }
    }

    /// How many distinct account keys the table records.
    pub(crate) fn account_count(&self) -> (n: usize)
        requires
            self.wf(),
        ensures
            n == self@.dom().len(),
    {
        proof {
            lemma_dom_len(self.entries@);
        }
        self.entries.len()
    }

    /// How many distinct slot keys are recorded under the hashed account key.
    pub(crate) fn slot_count(&self, key: &Vec<u8>) -> (n: usize)
        requires
            self.wf(),
        ensures
            self@.contains_key(key@) ==> n == self@[key@].len(),
            !self@.contains_key(key@) ==> n == 0,
    {
        proof {
            lemma_view_contains(self.entries@, key@);
        }
        match self.find_account(key) {
            Some(i) => {
                proof {
                    lemma_view_at(self.entries@, i as int);
                    lemma_slot_set_len(self.entries@[i as int]);
                }
                self.entries[i].slots.len()
            },
            None => 0,
        }
    }
}

/// Under unique account keys the view has one key per row.
pub(crate) proof fn lemma_dom_len(s: Seq<TargetEntry>)
    requires
        unique_accounts(s),
    ensures
        entries_view(s).dom().len() == s.len(),
{
    let keys = s.map_values(|e: TargetEntry| e.account@);
    assert forall|x: Seq<u8>|
        entries_view(s).dom().contains(x) <==> keys.to_set().contains(x) by {
        lemma_view_contains(s, x);
        if entries_view(s).contains_key(x) {
            let i = choose|i: int| 0 <= i < s.len() && #[trigger] s[i].account@ == x;
            assert(keys[i] == x);
        }
        if keys.to_set().contains(x) {
            let i = choose|i: int| 0 <= i < keys.len() && keys[i] == x;
            assert(s[i].account@ == x);
        }
    }
    assert(entries_view(s).dom() =~= keys.to_set());
    assert(keys.no_duplicates()) by {
        assert(forall|i: int, j: int|
            0 <= i < j < s.len() ==> keys[i] != keys[j]);
    }
    keys.unique_seq_to_set();
}

/// A well-formed row records one slot key per stored slot.
pub(crate) proof fn lemma_slot_set_len(e: TargetEntry)
    requires
        e.wf(),
    ensures
        e.slot_set().len() == e.slots@.len(),
{
    let vs = e.slots@.map_values(|v: Vec<u8>| v@);
    assert forall|x: Seq<u8>| e.slot_set().contains(x) <==> vs.to_set().contains(x) by {
        if e.slot_set().contains(x) {
            let j = choose|j: int| 0 <= j < e.slots@.len() && e.slots@[j]@ == x;
            assert(vs[j] == x);
        }
        if vs.to_set().contains(x) {
            let j = choose|j: int| 0 <= j < vs.len() && vs[j] == x;
            assert(e.slots@[j]@ == x);
        }
    }
    assert(e.slot_set() =~= vs.to_set());
    assert(vs.no_duplicates()) by {
        assert(forall|i: int, j: int|
            0 <= i < j < e.slots@.len() ==> vs[i] != vs[j]);
    }
    vs.unique_seq_to_set();
}

/// Record each of `slots` in turn under the account key `k`.
pub(crate) open spec fn add_slots(m: Targets, k: Seq<u8>, slots: Seq<Vec<u8>>) -> Targets
    decreases slots.len(),
{
    if slots.len() == 0 {
        m
    } else {
        add_slot(add_slots(m, k, slots.drop_last()), k, slots.last()@)
    }
}

/// Fold one row into a target map: its account key, then all its slots.
pub(crate) open spec fn absorb_entry(m: Targets, e: TargetEntry) -> Targets {
    add_slots(add_account(m, e.account@), e.account@, e.slots@)
}

/// Fold a sequence of rows into a target map, in order.
pub(crate) open spec fn absorb_seq(m: Targets, s: Seq<TargetEntry>) -> Targets
    decreases s.len(),
{
    if s.len() == 0 {
        m
    } else {
        absorb_entry(absorb_seq(m, s.drop_last()), s.last())
    }
}

/// Recording a run of slots under a present key unions them into its set.
pub(crate) proof fn lemma_add_slots_acc(m: Targets, k: Seq<u8>, slots: Seq<Vec<u8>>)
    requires
        m.contains_key(k),
    ensures
        add_slots(m, k, slots) == m.insert(k, m[k].union(views_set(slots))),
    decreases slots.len(),
{
    if slots.len() == 0 {
        lemma_views_set_empty(slots);
        assert(add_slots(m, k, slots) =~~= m.insert(k, m[k].union(views_set(slots))));
    } else {
        lemma_add_slots_acc(m, k, slots.drop_last());
        assert(slots.drop_last().push(slots.last()) =~= slots);
        lemma_views_set_push(slots.drop_last(), slots.last());
        assert(add_slots(m, k, slots) =~~= m.insert(k, m[k].union(views_set(slots))));
    }
}

/// A single row folds in as the merge with its one-key map.
pub(crate) proof fn lemma_absorb_entry_merge(m: Targets, e: TargetEntry)
    ensures
        absorb_entry(m, e) == merge_views(
            m,
            Map::<Seq<u8>, Set<Seq<u8>>>::empty().insert(e.account@, e.slot_set()),
        ),
{
    let k = e.account@;
    let ma = add_account(m, k);
    lemma_add_slots_acc(ma, k, e.slots@);
    assert(absorb_entry(m, e) =~~= merge_views(
        m,
        Map::<Seq<u8>, Set<Seq<u8>>>::empty().insert(k, e.slot_set()),
    ));
}

/// Merging a one-key map whose key the right side lacks extends it there.
pub(crate) proof fn lemma_merge_single(m: Targets, v: Targets, k: Seq<u8>, s: Set<Seq<u8>>)
    requires
        !v.contains_key(k),
    ensures
        merge_views(merge_views(m, v), Map::<Seq<u8>, Set<Seq<u8>>>::empty().insert(k, s))
            == merge_views(m, v.insert(k, s)),
{
    assert(merge_views(merge_views(m, v), Map::<Seq<u8>, Set<Seq<u8>>>::empty().insert(k, s))
        =~~= merge_views(m, v.insert(k, s)));
}

/// Folding well-formed rows into `m` merges their whole view into `m`.
pub(crate) proof fn lemma_absorb_seq_merge(m: Targets, s: Seq<TargetEntry>)
    requires
        unique_accounts(s),
    ensures
        absorb_seq(m, s) == merge_views(m, entries_view(s)),
    decreases s.len(),
{
    if s.len() == 0 {
        assert(absorb_seq(m, s) =~~= merge_views(m, entries_view(s)));
    } else {
        assert(unique_accounts(s.drop_last())) by {
            assert(forall|x: int, y: int|
                0 <= x < y < s.drop_last().len() ==> s.drop_last()[x] == s[x] && s.drop_last()[y]
                    == s[y]);
        }
        lemma_absorb_seq_merge(m, s.drop_last());
        lemma_absorb_entry_merge(absorb_seq(m, s.drop_last()), s.last());
        lemma_view_contains(s.drop_last(), s.last().account@);
        assert(!entries_view(s.drop_last()).contains_key(s.last().account@)) by {
            if exists|i: int|
                0 <= i < s.drop_last().len() && #[trigger] s.drop_last()[i].account@
                    == s.last().account@ {
                let i = choose|i: int|
                    0 <= i < s.drop_last().len() && #[trigger] s.drop_last()[i].account@
                        == s.last().account@;
                assert(s[i].account@ == s[s.len() - 1].account@);
            }
        }
        lemma_merge_single(
            m,
            entries_view(s.drop_last()),
            s.last().account@,
            s.last().slot_set(),
        );
    }
}

impl TargetTable {
    /// Fold every row of `other` into this table; the view becomes the
    /// merged coverage of the two.
    pub(crate) fn absorb(&mut self, other: &TargetTable)
        requires
            old(self).wf(),
            other.wf(),
        ensures
            final(self).wf(),
            final(self)@ == merge_views(old(self)@, other@),
    {
        let ghost m0 = old(self)@;
        let mut i: usize = 0;
        while i < other.entries.len()
            invariant
                self.wf(),
                other.wf(),
                i <= other.entries@.len(),
                self@ == absorb_seq(m0, other.entries@.take(i as int)),
            decreases other.entries@.len() - i,
        {
            let ghost mi = self@;
            let e = &other.entries[i];
            let key = copy_bytes(&e.account);
            self.ensure_account_key(key);
            let mut j: usize = 0;
            while j < e.slots.len()
                invariant
                    self.wf(),
                    other.wf(),
                    i < other.entries@.len(),
                    e == other.entries@[i as int],
                    j <= e.slots@.len(),
                    self@ == add_slots(add_account(mi, e.account@), e.account@, e.slots@.take(
                        j as int,
                    )),
                decreases e.slots@.len() - j,
            {
                let ka = copy_bytes(&e.account);
                let sv = copy_bytes(&e.slots[j]);
                self.insert_slot_key(ka, sv);
                proof {
                    assert(e.slots@.take(j as int + 1).drop_last() =~= e.slots@.take(j as int));
                    assert(e.slots@.take(j as int + 1).last() == e.slots@[j as int]);
                }
                j += 1;
            }
            proof {
                assert(e.slots@.take(e.slots@.len() as int) =~= e.slots@);
                assert(other.entries@.take(i as int + 1).drop_last() =~= other.entries@.take(
                    i as int,
                ));
                assert(other.entries@.take(i as int + 1).last() == other.entries@[i as int]);
            }
            i += 1;
        }
        proof {
            assert(other.entries@.take(other.entries@.len() as int) =~= other.entries@);
            lemma_absorb_seq_merge(m0, other.entries@);
        }
    }
}

/// Whether every target of `a` is also a target of `b`.
pub(crate) open spec fn covered_by(a: Targets, b: Targets) -> bool {
    forall|k: Seq<u8>|
        #[trigger] a.contains_key(k) ==> b.contains_key(k) && a[k].subset_of(b[k])
}

/// Mutual coverage is equality of target maps.
pub(crate) proof fn lemma_covered_antisym(a: Targets, b: Targets)
    requires
        covered_by(a, b),
        covered_by(b, a),
    ensures
        a == b,
{
    assert forall|k: Seq<u8>| a.contains_key(k) implies a[k] =~= b[k] by {
        assert(b.contains_key(k));
    }
    assert(a =~~= b);
}

impl TargetTable {
    /// Whether every account and slot recorded here is recorded in `other`.
    pub(crate) fn contained_in(&self, other: &TargetTable) -> (r: bool)
        requires
            self.wf(),
            other.wf(),
        ensures
            r == covered_by(self@, other@),
    {
        let mut i: usize = 0;
        while i < self.entries.len()
            invariant
                self.wf(),
                other.wf(),
                i <= self.entries@.len(),
                forall|x: int|
                    0 <= x < i ==> other@.contains_key(#[trigger] self.entries@[x].account@)
                        && self.entries@[x].slot_set().subset_of(
                        other@[self.entries@[x].account@],
                    ),
            decreases self.entries@.len() - i,
        {
            let e = &self.entries[i];
            if !other.contains_key_bytes(&e.account) {
                proof {
                    lemma_view_at(self.entries@, i as int);
                }
                return false;
            }
            let mut j: usize = 0;
            while j < e.slots.len()
                invariant
                    self.wf(),
                    other.wf(),
                    i < self.entries@.len(),
                    e == self.entries@[i as int],
                    j <= e.slots@.len(),
                    other@.contains_key(e.account@),
                    forall|y: int| 0 <= y < j ==> other@[e.account@].contains(#[trigger] e.slots@[y]@),
                decreases e.slots@.len() - j,
            {
                if !other.slot_recorded(&e.account, &e.slots[j]) {
                    proof {
                        lemma_view_at(self.entries@, i as int);
                        assert(self@[e.account@].contains(e.slots@[j as int]@));
                    }
                    return false;
                }
                j += 1;
            }
            proof {
                lemma_view_at(self.entries@, i as int);
                assert forall|x: Seq<u8>| e.slot_set().contains(x) implies other@[e.account@].contains(
                    x,
                ) by {
                    let y = choose|y: int| 0 <= y < e.slots@.len() && e.slots@[y]@ == x;
                    assert(other@[e.account@].contains(e.slots@[y]@));
                }
            }
            i += 1;
        }
        proof {
            assert forall|k: Seq<u8>| #[trigger] self@.contains_key(k) implies other@.contains_key(k)
                && self@[k].subset_of(other@[k]) by {
                lemma_view_contains(self.entries@, k);
                let x = choose|x: int| 0 <= x < self.entries@.len() && #[trigger] self.entries@[x].account@
                    == k;
                lemma_view_at(self.entries@, x);
            }
        }
        true
    }

    /// Whether the two tables record exactly the same targets.
    pub(crate) fn same_view(&self, other: &TargetTable) -> (r: bool)
        requires
            self.wf(),
            other.wf(),
        ensures
            r == (self@ == other@),
    {
        let a = self.contained_in(other);
        let b = other.contained_in(self);
        proof {
            if a && b {
                lemma_covered_antisym(self@, other@);
            }
        }
        a && b
    }
}

} // verus!
