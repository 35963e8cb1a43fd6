//! The laws the gathering engines rest on.
//!
//! Results of concurrently dispatched units of work may come back and be
//! merged in any order, and the event stream may be cut into delivery
//! batches at arbitrary points; neither may change the final merged proof.
//! This module states and proves both, over the target-map model that the
//! executable types' contracts are written in.

use vstd::prelude::*;

use crate::hashing::keccak_of;
use crate::model::{
    add_account, add_slot, apply_access, merge_views, targets_of, AccessView, Targets,
};

verus! {

/// The events of a sequence of delivery batches, in delivery order.
pub open spec fn concat_all(chunks: Seq<Seq<AccessView>>) -> Seq<AccessView>
    decreases chunks.len(),
{
    if chunks.len() == 0 {
        Seq::empty()
    } else {
        concat_all(chunks.drop_last()) + chunks.last()
    }
}

/// The coverage obtained by aggregating each delivery batch on its own and
/// merging the per-batch results in delivery order.
pub open spec fn chunked_targets(chunks: Seq<Seq<AccessView>>) -> Targets
    decreases chunks.len(),
{
    if chunks.len() == 0 {
        Map::empty()
    } else {
        merge_views(chunked_targets(chunks.drop_last()), targets_of(chunks.last()))
    }
}

/// Law: merging proof coverage is commutative.
pub proof fn lemma_merge_commutative(a: Targets, b: Targets)
    ensures
        merge_views(a, b) == merge_views(b, a),
{
    assert(merge_views(a, b) =~~= merge_views(b, a));
}

/// Law: merging proof coverage is associative.
pub proof fn lemma_merge_associative(a: Targets, b: Targets, c: Targets)
    ensures
        merge_views(a, merge_views(b, c)) == merge_views(merge_views(a, b), c),
{
    assert(merge_views(a, merge_views(b, c)) =~~= merge_views(merge_views(a, b), c));
}

/// Law: the empty proof is the identity of merging.
pub proof fn lemma_merge_identity(a: Targets)
    ensures
        merge_views(a, Map::empty()) == a,
        merge_views(Map::empty(), a) == a,
{
    assert(merge_views(a, Map::empty()) =~~= a);
    assert(merge_views(Map::empty(), a) =~~= a);
}

/// Folding one more event into the right side of a merge is the same as
/// folding it into the merged whole.
proof fn lemma_apply_merge(a: Targets, b: Targets, ev: AccessView)
    ensures
        apply_access(merge_views(a, b), ev) == merge_views(a, apply_access(b, ev)),
{
    match ev {
        AccessView::Account { address } => {
            let k = keccak_of(address);
            assert(add_account(merge_views(a, b), k) =~~= merge_views(a, add_account(b, k)));
        },
        AccessView::StorageSlot { address, slot } => {
            let k = keccak_of(address);
            let s = keccak_of(slot);
            assert(add_slot(merge_views(a, b), k, s) =~~= merge_views(a, add_slot(b, k, s)));
        },
    }
}

/// Law: the targets of two event runs delivered one after the other are the
/// merge of the targets of each run — computing a set of targets in
/// sub-batches and merging loses and invents nothing.
pub proof fn lemma_targets_concat(e1: Seq<AccessView>, e2: Seq<AccessView>)
    ensures
        targets_of(e1 + e2) == merge_views(targets_of(e1), targets_of(e2)),
    decreases e2.len(),
{
    if e2.len() == 0 {
        assert(e1 + e2 =~= e1);
        lemma_merge_identity(targets_of(e1));
    } else {
        lemma_targets_concat(e1, e2.drop_last());
        assert((e1 + e2).drop_last() =~= e1 + e2.drop_last());
        assert((e1 + e2).last() == e2.last());
        lemma_apply_merge(targets_of(e1), targets_of(e2.drop_last()), e2.last());
    }
}

/// Law: aggregating each delivery batch on its own and merging the results
/// in delivery order covers exactly the targets of the whole event stream.
pub proof fn lemma_chunks_cover_whole(chunks: Seq<Seq<AccessView>>)
    ensures
        chunked_targets(chunks) == targets_of(concat_all(chunks)),
    decreases chunks.len(),
{
    if chunks.len() == 0 {
    } else {
        lemma_chunks_cover_whole(chunks.drop_last());
        lemma_targets_concat(concat_all(chunks.drop_last()), chunks.last());
    }
}

/// Law (batching invariance): however the same event stream is cut into
/// delivery batches, the merged coverage is the same.
pub proof fn lemma_batching_invariance(c1: Seq<Seq<AccessView>>, c2: Seq<Seq<AccessView>>)
    requires
        concat_all(c1) == concat_all(c2),
    ensures
        chunked_targets(c1) == chunked_targets(c2),
{
    lemma_chunks_cover_whole(c1);
    lemma_chunks_cover_whole(c2);
}

/// Law (deduplication): a storage-slot access submitted twice, followed by
/// an access to the owning account, yields exactly one target entry — the
/// hashed account key — carrying exactly the one hashed slot key.
pub proof fn lemma_duplicate_access_collapses(address: Seq<u8>, slot: Seq<u8>)
    ensures
        ({
            let evs = seq![
                (AccessView::StorageSlot { address, slot }),
                (AccessView::StorageSlot { address, slot }),
                (AccessView::Account { address }),
            ];
            targets_of(evs).dom() == set![keccak_of(address)] && targets_of(evs)[keccak_of(
                address,
            )] == set![keccak_of(slot)]
        }),
{
    let k = keccak_of(address);
    let s = keccak_of(slot);
    let e0 = AccessView::StorageSlot { address, slot };
    let e2 = AccessView::Account { address };
    let evs = seq![e0, e0, e2];
    let s0 = Seq::<AccessView>::empty();
    let s1 = seq![e0];
    let s2 = seq![e0, e0];
    assert(evs.drop_last() =~= s2);
    assert(s2.drop_last() =~= s1);
    assert(s1.drop_last() =~= s0);
    assert(targets_of(s0) == Map::<Seq<u8>, Set<Seq<u8>>>::empty());
    assert(s1.last() == e0);
    assert(targets_of(s1) == apply_access(targets_of(s0), e0));
    let m1 = targets_of(s1);
    assert(m1 == add_slot(Map::empty(), k, s));
    assert(s2.last() == e0);
    assert(targets_of(s2) == apply_access(m1, e0));
    let m2 = targets_of(s2);
    assert(m2 == add_slot(m1, k, s));
    assert(m1.contains_key(k));
    assert(m1[k].insert(s) =~= m1[k]);
    assert(m2 =~= m1);
    assert(evs.last() == e2);
    assert(targets_of(evs) == apply_access(m2, e2));
    let m3 = targets_of(evs);
    assert(m3 == add_account(m2, k));
    assert(m3.dom() =~= set![k]);
    assert(m3[k] =~= set![s]);
}

/// Merged coverage of a run of proof fragments, in arrival order.
pub open spec fn merge_all(ms: Seq<Targets>) -> Targets
    decreases ms.len(),
{
    if ms.len() == 0 {
        Map::empty()
    } else {
        merge_views(merge_all(ms.drop_last()), ms.last())
    }
}

/// Any one fragment of the run can be pulled out and merged last instead.
proof fn lemma_merge_all_extract(ms: Seq<Targets>, i: int)
    requires
        0 <= i < ms.len(),
    ensures
        merge_all(ms) == merge_views(merge_all(ms.remove(i)), ms[i]),
    decreases ms.len(),
{
    if i == ms.len() - 1 {
        assert(ms.remove(i) =~= ms.drop_last());
    } else {
        lemma_merge_all_extract(ms.drop_last(), i);
        assert(ms.remove(i).drop_last() =~= ms.drop_last().remove(i));
        assert(ms.remove(i).last() == ms.last());
        let a = merge_all(ms.drop_last().remove(i));
        let x = ms[i];
        let l = ms.last();
        lemma_merge_associative(a, x, l);
        lemma_merge_commutative(x, l);
        lemma_merge_associative(a, l, x);
    }
}

/// Law (merge in any order): two runs holding the same fragments, however
/// the fragments are ordered between them, merge to the same coverage.
pub proof fn lemma_merge_any_order(ms1: Seq<Targets>, ms2: Seq<Targets>)
    requires
        ms1.to_multiset() == ms2.to_multiset(),
    ensures
        merge_all(ms1) == merge_all(ms2),
    decreases ms1.len(),
{
    broadcast use vstd::seq_lib::group_to_multiset_ensures;

    if ms1.len() == 0 {
        assert(ms2.to_multiset().len() == 0);
    } else {
        let x = ms1.last();
        assert(ms1.contains(x));
        assert(ms2.to_multiset().count(x) > 0);
        assert(ms2.contains(x));
        let i = choose|i: int| 0 <= i < ms2.len() && ms2[i] == x;
        lemma_merge_all_extract(ms2, i);
        assert(ms1.drop_last().to_multiset() =~= ms1.to_multiset().remove(x)) by {
            assert(ms1.drop_last().push(x) =~= ms1);
            assert(ms1.drop_last().push(x).to_multiset() =~= ms1.drop_last().to_multiset().insert(
                x,
            ));
        }
        assert(ms2.remove(i).to_multiset() =~= ms2.to_multiset().remove(x));
        lemma_merge_any_order(ms1.drop_last(), ms2.remove(i));
    }
}

/// Merging each batch's own coverage in delivery order is the fold of the
/// per-batch coverages.
proof fn lemma_chunked_is_merge_all(chunks: Seq<Seq<AccessView>>)
    ensures
        chunked_targets(chunks) == merge_all(
            chunks.map_values(|c: Seq<AccessView>| targets_of(c)),
        ),
    decreases chunks.len(),
{
    let ms = chunks.map_values(|c: Seq<AccessView>| targets_of(c));
    if chunks.len() == 0 {
    } else {
        lemma_chunked_is_merge_all(chunks.drop_last());
        assert(ms.drop_last() =~= chunks.drop_last().map_values(
            |c: Seq<AccessView>| targets_of(c),
        ));
        assert(ms.last() == targets_of(chunks.last()));
    }
}

/// Law (partition): for any partition of the event stream into sub-batches,
/// merging the sub-batch coverages in any completion order yields exactly
/// the coverage of computing the whole stream at once.
pub proof fn lemma_partition_any_order(chunks: Seq<Seq<AccessView>>, ms: Seq<Targets>)
    requires
        ms.to_multiset() == chunks.map_values(
            |c: Seq<AccessView>| targets_of(c),
        ).to_multiset(),
    ensures
        merge_all(ms) == targets_of(concat_all(chunks)),
{
    lemma_merge_any_order(ms, chunks.map_values(|c: Seq<AccessView>| targets_of(c)));
    lemma_chunked_is_merge_all(chunks);
    lemma_chunks_cover_whole(chunks);
}

} // verus!
