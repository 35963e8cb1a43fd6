use proof_gather::access::StateAccess;
use proof_gather::multiproof::MultiProof;
use proof_gather::targets::TargetBatch;

fn hashed(bytes: &[u8]) -> Vec<u8> {
    alloy_primitives::keccak256(bytes).to_vec()
}

#[test]
fn target_keys_are_keccak_digests() {
    let mut batch = TargetBatch::new();
    batch.record(&StateAccess::Account(vec![]));
    // Keccak-256 of the empty string.
    let expected: Vec<u8> = vec![
        0xc5, 0xd2, 0x46, 0x01, 0x86, 0xf7, 0x23, 0x3c, 0x92, 0x7e, 0x7d, 0xb2, 0xdc, 0xc7, 0x03,
        0xc0, 0xe5, 0x00, 0xb6, 0x53, 0xca, 0x82, 0x27, 0x3b, 0x7b, 0xfa, 0xd8, 0x04, 0x5d, 0x85,
        0xa4, 0x70,
    ];
    assert_eq!(expected, hashed(&[]));
    assert!(batch.contains_account_key(&expected));
    // The raw (unhashed) address bytes are not a key.
    assert!(!batch.contains_account_key(&vec![]));
}

#[test]
fn duplicate_accesses_collapse() {
    let address: Vec<u8> = vec![0xaa, 0x01];
    let slot: Vec<u8> = vec![0xbb, 0x02];
    let mut batch = TargetBatch::new();
    batch.record(&StateAccess::StorageSlot(address.clone(), slot.clone()));
    batch.record(&StateAccess::StorageSlot(address.clone(), slot.clone()));
    batch.record(&StateAccess::Account(address.clone()));
    assert_eq!(batch.account_count(), 1);
    assert!(batch.has_account(&address));
    assert_eq!(batch.slot_count(&address), 1);
    assert!(batch.has_slot(&address, &slot));
    assert!(batch.contains_account_key(&hashed(&address)));
    assert!(batch.contains_slot_key(&hashed(&address), &hashed(&slot)));
}

#[test]
fn one_batch_groups_targets_by_account() {
    let a1: Vec<u8> = vec![0x01];
    let a2: Vec<u8> = vec![0x02];
    let s2: Vec<u8> = vec![0x02];
    let s3: Vec<u8> = vec![0x03];
    let mut batch = TargetBatch::new();
    batch.record(&StateAccess::Account(a1.clone()));
    batch.record(&StateAccess::StorageSlot(a1.clone(), s2.clone()));
    batch.record(&StateAccess::StorageSlot(a2.clone(), s3.clone()));
    assert_eq!(batch.account_count(), 2);
    assert!(batch.has_account(&a1));
    assert!(batch.has_account(&a2));
    assert!(batch.has_slot(&a1, &s2));
    assert!(batch.has_slot(&a2, &s3));
    assert!(!batch.has_slot(&a1, &s3));
    assert!(!batch.has_slot(&a2, &s2));
    assert_eq!(batch.slot_count(&a1), 1);
    assert_eq!(batch.slot_count(&a2), 1);
    assert!(!batch.is_empty());
}

#[test]
fn empty_batch_has_no_targets() {
    let batch = TargetBatch::new();
    assert!(batch.is_empty());
    assert_eq!(batch.account_count(), 0);
    assert!(!batch.has_account(&[0x01]));
    assert_eq!(batch.slot_count(&[0x01]), 0);
}

fn scenario_events() -> Vec<StateAccess> {
    vec![
        StateAccess::Account(vec![0x01]),
        StateAccess::StorageSlot(vec![0x01], vec![0x02]),
        StateAccess::StorageSlot(vec![0x02], vec![0x03]),
    ]
}

fn proof_of_chunks(chunks: Vec<Vec<StateAccess>>) -> MultiProof {
    let mut merged = MultiProof::default();
    for chunk in chunks {
        let mut batch = TargetBatch::new();
        for access in &chunk {
            batch.record(access);
        }
        merged.merge(MultiProof::covering(batch));
    }
    merged
}

#[test]
fn chunking_does_not_change_the_merged_proof() {
    let one = proof_of_chunks(vec![scenario_events()]);
    let mut events = scenario_events();
    let third = events.split_off(2);
    let two = proof_of_chunks(vec![events, third]);
    let mut events = scenario_events();
    let rest = events.split_off(1);
    let three = proof_of_chunks(vec![events, rest]);
    assert!(one.agrees(&two));
    assert!(one.agrees(&three));
    assert_eq!(one.account_count(), 2);
    assert!(one.covers_slot(&[0x01], &[0x02]));
    assert!(one.covers_slot(&[0x02], &[0x03]));
}

#[test]
fn merge_is_commutative_and_has_identity() {
    let mut left_batch = TargetBatch::new();
    left_batch.record(&StateAccess::StorageSlot(vec![0x01], vec![0x02]));
    let mut right_batch = TargetBatch::new();
    right_batch.record(&StateAccess::StorageSlot(vec![0x01], vec![0x03]));
    right_batch.record(&StateAccess::Account(vec![0x04]));

    let mut left_first = MultiProof::covering(left_batch);
    let mut left_batch2 = TargetBatch::new();
    left_batch2.record(&StateAccess::StorageSlot(vec![0x01], vec![0x02]));
    let mut right_batch2 = TargetBatch::new();
    right_batch2.record(&StateAccess::StorageSlot(vec![0x01], vec![0x03]));
    right_batch2.record(&StateAccess::Account(vec![0x04]));

    let mut right_first = MultiProof::covering(right_batch2);
    left_first.merge(MultiProof::covering(right_batch));
    right_first.merge(MultiProof::covering(left_batch2));
    assert!(left_first.agrees(&right_first));
    assert_eq!(left_first.account_count(), 2);

    let mut with_identity = MultiProof::default();
    assert!(with_identity.is_empty());
    let mut same_batch = TargetBatch::new();
    same_batch.record(&StateAccess::StorageSlot(vec![0x01], vec![0x02]));
    with_identity.merge(MultiProof::covering(same_batch));
    let mut plain_batch = TargetBatch::new();
    plain_batch.record(&StateAccess::StorageSlot(vec![0x01], vec![0x02]));
    assert!(with_identity.agrees(&MultiProof::covering(plain_batch)));
}

#[test]
fn covering_covers_exactly_the_batch() {
    let mut batch = TargetBatch::new();
    batch.record(&StateAccess::StorageSlot(vec![0x0a], vec![0x0b]));
    batch.record(&StateAccess::Account(vec![0x0c]));
    let proof = MultiProof::covering(batch);
    assert!(proof.covers_account(&[0x0a]));
    assert!(proof.covers_slot(&[0x0a], &[0x0b]));
    assert!(proof.covers_account(&[0x0c]));
    assert!(!proof.covers_account(&[0x0b]));
    assert!(proof.covers_account_key(&hashed(&[0x0c])));
    assert!(proof.covers_slot_key(&hashed(&[0x0a]), &hashed(&[0x0b])));
    assert_eq!(proof.account_count(), 2);
}

#[test]
fn same_targets_is_order_insensitive() {
    let mut forward = TargetBatch::new();
    forward.record(&StateAccess::Account(vec![0x01]));
    forward.record(&StateAccess::StorageSlot(vec![0x02], vec![0x03]));
    let mut backward = TargetBatch::new();
    backward.record(&StateAccess::StorageSlot(vec![0x02], vec![0x03]));
    backward.record(&StateAccess::Account(vec![0x01]));
    assert!(forward.same_targets(&backward));
    let mut extra = TargetBatch::new();
    extra.record(&StateAccess::Account(vec![0x01]));
    assert!(!forward.same_targets(&extra));
}
