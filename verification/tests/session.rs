use proof_gather::access::StateAccess;
use proof_gather::multiproof::MultiProof;
use proof_gather::session::{ProofComputationError, ProofSession};
use proof_gather::targets::TargetBatch;

fn window_one() -> TargetBatch {
    let mut batch = TargetBatch::new();
    batch.record(&StateAccess::Account(vec![0x01]));
    batch.record(&StateAccess::StorageSlot(vec![0x01], vec![0x02]));
    batch
}

fn window_two() -> TargetBatch {
    let mut batch = TargetBatch::new();
    batch.record(&StateAccess::StorageSlot(vec![0x02], vec![0x03]));
    batch
}

fn whole_stream() -> TargetBatch {
    let mut batch = TargetBatch::new();
    batch.record(&StateAccess::Account(vec![0x01]));
    batch.record(&StateAccess::StorageSlot(vec![0x01], vec![0x02]));
    batch.record(&StateAccess::StorageSlot(vec![0x02], vec![0x03]));
    batch
}

#[test]
fn empty_stream_yields_empty_proof() {
    let mut session = ProofSession::new();
    assert!(!session.is_terminal());
    session.note_closed();
    assert!(session.is_terminal());
    let result = session.finish(17);
    assert_eq!(result.elapsed_micros, 17);
    match result.outcome {
        Ok(proof) => assert!(proof.is_empty()),
        Err(_) => panic!("an empty stream is not an error"),
    }
}

#[test]
fn terminal_exactly_when_closed_and_nothing_outstanding() {
    let mut session = ProofSession::new();
    assert!(!session.is_terminal());
    assert!(session.register_dispatch(&window_one()));
    assert_eq!(session.outstanding_count(), 1);
    session.note_closed();
    assert!(session.is_closed());
    assert!(!session.is_terminal());
    session.harvest(Ok(MultiProof::covering(window_one())));
    assert_eq!(session.outstanding_count(), 0);
    assert!(session.is_terminal());
}

#[test]
fn empty_batches_are_not_dispatched() {
    let mut session = ProofSession::new();
    assert!(!session.register_dispatch(&TargetBatch::new()));
    assert_eq!(session.outstanding_count(), 0);
}

fn run_two_windows(first_back: bool) -> MultiProof {
    let mut session = ProofSession::new();
    assert!(session.register_dispatch(&window_one()));
    assert!(session.register_dispatch(&window_two()));
    assert_eq!(session.outstanding_count(), 2);
    session.note_closed();
    let results = if first_back {
        [MultiProof::covering(window_one()), MultiProof::covering(window_two())]
    } else {
        [MultiProof::covering(window_two()), MultiProof::covering(window_one())]
    };
    for proof in results {
        session.harvest(Ok(proof));
    }
    assert!(session.is_terminal());
    match session.finish(1).outcome {
        Ok(proof) => proof,
        Err(_) => panic!("both units of work succeeded"),
    }
}

#[test]
fn two_windows_merge_to_the_single_batch_proof() {
    let in_order = run_two_windows(true);
    let reversed = run_two_windows(false);
    let whole = MultiProof::covering(whole_stream());
    assert!(in_order.agrees(&whole));
    assert!(reversed.agrees(&whole));
    assert_eq!(in_order.account_count(), 2);
    assert!(in_order.covers_slot(&[0x01], &[0x02]));
    assert!(in_order.covers_slot(&[0x02], &[0x03]));
}

#[test]
fn backend_failure_is_surfaced_and_stops_dispatch() {
    let mut session = ProofSession::new();
    assert!(session.register_dispatch(&window_one()));
    assert!(session.register_dispatch(&window_two()));
    session.harvest(Err(ProofComputationError::new(String::from(
        "inconsistent snapshot",
    ))));
    assert!(session.failed());
    // No further batches go out once the failure is observed.
    assert!(!session.register_dispatch(&whole_stream()));
    assert_eq!(session.outstanding_count(), 1);
    // Work already in flight is still drained before the session ends.
    session.harvest(Ok(MultiProof::covering(window_two())));
    session.note_closed();
    assert!(session.is_terminal());
    let result = session.finish(3);
    match result.outcome {
        Ok(_) => panic!("the failure must be surfaced"),
        Err(error) => assert_eq!(error.message(), "inconsistent snapshot"),
    }
}

#[test]
fn first_failure_wins() {
    let mut session = ProofSession::new();
    assert!(session.register_dispatch(&window_one()));
    assert!(session.register_dispatch(&window_two()));
    session.harvest(Err(ProofComputationError::new(String::from("first"))));
    session.harvest(Err(ProofComputationError::new(String::from("second"))));
    session.note_closed();
    match session.finish(0).outcome {
        Ok(_) => panic!("the failure must be surfaced"),
        Err(error) => assert_eq!(error.message(), "first"),
    }
}
