use lightclient::driver::{DriverInstruction, SingleStreamConnectionTask, SingleStreamDriver};
use lightclient::hashing::blake2b_256;
use lightclient::parachain::{
    FetchState, ParaheadError, fetch_failed, fetch_ready, parahead_from_validation_data,
    parahead_needs_report,
};
use lightclient::randomness::rng_from_seed;
use lightclient::service::PeerId;
use lightclient::sync_service::{
    CallProofQuery, CallProofQueryAction, CallProofQueryError, StorageQuery, StorageQueryAction,
    StorageQueryErrorDetail, StorageQueryOutcome, SyncPeer, INITIAL_RESPONSE_NODES_CAP,
    peers_assumed_know_blocks,
};
use lightclient::protocol::Role;

/// The BLAKE2b-256 digest of the empty string, against the reference vector.
#[test]
fn blake2b_empty_string() {
    let digest = blake2b_256(b"");
    let expected: [u8; 32] = [
        0x0e, 0x57, 0x51, 0xc0, 0x26, 0xe5, 0x43, 0xb2, 0xe8, 0xab, 0x2e, 0xb0, 0x60, 0x99,
        0xda, 0xa1, 0xd1, 0xe5, 0xdf, 0x47, 0x77, 0x8f, 0x77, 0x87, 0xfa, 0xab, 0x45, 0xcd,
        0xf1, 0x2f, 0xe3, 0xa8,
    ];
    assert_eq!(digest.as_slice(), expected.as_slice());
}

fn sync_peer(b: u8, best: u64, known: Vec<[u8; 32]>) -> SyncPeer {
    SyncPeer {
        peer_id: PeerId::from_bytes(vec![b]),
        role: Role::Full,
        best_number: best,
        best_hash: [b; 32],
        known_blocks: known,
    }
}

/// A peer knows a block if it announced it or its best height covers it.
#[test]
fn peers_know_blocks() {
    let peers = vec![
        sync_peer(1, 100, vec![]),
        sync_peer(2, 5, vec![[9; 32]]),
        sync_peer(3, 5, vec![]),
    ];
    let knowing = peers_assumed_know_blocks(&peers, 50, &[9; 32]);
    assert_eq!(knowing, vec![0, 1]);
}

/// The storage query rotates peers, halves the node cap on oversize
/// refusals (never below one), and fails once the attempts are exhausted.
#[test]
fn storage_query_retry_loop() {
    let mut rng = rng_from_seed([3; 32]);
    let mut q = StorageQuery::new(2);

    // With no peer knowing the block, the query fails outright.
    assert!(matches!(q.next_action(&mut rng, 0), StorageQueryAction::Failed));

    // A peer is picked within bounds.
    match q.next_action(&mut rng, 3) {
        StorageQueryAction::QueryPeer { peer_index } => assert!(peer_index < 3),
        _ => panic!("expected a peer query"),
    }

    // An oversize refusal halves the cap without consuming an attempt.
    q.inject_outcome(StorageQueryOutcome::RequestTooLarge);
    assert!(matches!(q.next_action(&mut rng, 3), StorageQueryAction::QueryPeer { .. }));

    // Two network errors exhaust the two attempts.
    q.inject_outcome(StorageQueryOutcome::NetworkError);
    q.inject_outcome(StorageQueryOutcome::NetworkError);
    assert!(matches!(q.next_action(&mut rng, 3), StorageQueryAction::Failed));
    let err = q.into_error();
    assert_eq!(err.errors, vec![
        StorageQueryErrorDetail::Network,
        StorageQueryErrorDetail::Network,
    ]);
    assert!(err.is_network_problem());
}

/// The node cap never drops below one; at one, an oversize refusal counts
/// as an error.
#[test]
fn storage_query_cap_floor() {
    let mut q = StorageQuery::new(1000);
    let mut halvings = 0usize;
    let mut cap = INITIAL_RESPONSE_NODES_CAP;
    while cap > 1 {
        q.inject_outcome(StorageQueryOutcome::RequestTooLarge);
        cap /= 2;
        halvings += 1;
        assert!(halvings < 64);
    }
    // At cap one, the refusal is now counted.
    q.inject_outcome(StorageQueryOutcome::RequestTooLarge);
    let err = q.into_error();
    assert_eq!(err.errors, vec![StorageQueryErrorDetail::RequestTooLarge]);
    assert!(!err.is_network_problem());
}

/// A completed query finishes regardless of the attempt budget.
#[test]
fn storage_query_completion() {
    let mut rng = rng_from_seed([4; 32]);
    let mut q = StorageQuery::new(1);
    q.inject_outcome(StorageQueryOutcome::Answered);
    assert!(q.is_complete());
    assert!(matches!(q.next_action(&mut rng, 0), StorageQueryAction::Finished));
}

/// A mixed error list is not a pure network problem.
#[test]
fn call_proof_error_classification() {
    let network_only = CallProofQueryError { errors: vec![true, true] };
    assert!(network_only.is_network_problem());
    let mixed = CallProofQueryError { errors: vec![true, false] };
    assert!(!mixed.is_network_problem());
    let empty = CallProofQueryError { errors: vec![] };
    assert!(empty.is_network_problem());
}

/// A missing parachain core is reported as `NoCore` and re-scheduled with a
/// cool-down; no block is emitted.
#[test]
fn parachain_no_core() {
    let fetched = parahead_from_validation_data(None);
    match fetched {
        Err(ParaheadError::NoCore) => {}
        _ => panic!("expected the no-core error"),
    }
    assert!(!ParaheadError::NoCore.is_network_problem());

    // The failed slot cools down and becomes ready again afterwards.
    let failed = fetch_failed(FetchState::InProgress, 1_000);
    assert!(!fetch_ready(failed, 1_000, 5_000));
    assert!(!fetch_ready(failed, 5_999, 5_000));
    assert!(fetch_ready(failed, 6_000, 5_000));
}

/// Identical parachain heads across sibling relay blocks are deduplicated
/// by comparing the hash of the head with the one last reported.
#[test]
fn parachain_head_deduplication() {
    let head = b"para-head".to_vec();
    assert!(parahead_needs_report(&head, &None));
    let hash = blake2b_256(&head);
    assert!(!parahead_needs_report(&head, &Some(hash.clone())));
    let other = blake2b_256(b"another-head");
    assert!(parahead_needs_report(&head, &Some(other)));
}

/// The driver starts a second send to the coordinator only after the first
/// was acknowledged, under interleaved socket and coordinator events.
#[test]
fn driver_single_in_flight_send() {
    let mut task: SingleStreamConnectionTask<u32, u32> = SingleStreamConnectionTask::new();
    task.queue_to_coordinator(1);
    task.queue_to_coordinator(2);
    let mut driver = SingleStreamDriver::new(task);

    // The first socket event pulls the first message and starts its send.
    match driver.process_io(false) {
        DriverInstruction::StartSend(m) => assert_eq!(m, 1),
        _ => panic!("expected a send to start"),
    }
    // While the send is in flight, a coordinator message is injected without
    // touching the socket.
    driver.on_coordinator_message(7);
    // Only after the acknowledgement does the next send start.
    driver.on_message_sent();
    match driver.process_io(false) {
        DriverInstruction::StartSend(m) => assert_eq!(m, 2),
        _ => panic!("expected the second send to start"),
    }
    driver.on_message_sent();
    // Nothing left: the driver just waits.
    match driver.process_io(false) {
        DriverInstruction::Continue => {}
        _ => panic!("expected the driver to wait"),
    }
}

/// A socket failure resets the task; once drained, the driver exits.
#[test]
fn driver_exits_after_reset_and_drain() {
    let mut task: SingleStreamConnectionTask<u32, u32> = SingleStreamConnectionTask::new();
    task.queue_to_coordinator(5);
    let mut driver = SingleStreamDriver::new(task);

    match driver.process_io(true) {
        DriverInstruction::StartSend(m) => assert_eq!(m, 5),
        _ => panic!("expected the residual message to be flushed"),
    }
    driver.on_message_sent();
    match driver.process_io(true) {
        DriverInstruction::Exit => {}
        _ => panic!("expected the driver to exit"),
    }
}

/// The call-proof query rotates peers, treats an empty proof as a failure
/// of the peer, and succeeds on the first non-empty proof.
#[test]
fn call_proof_query_rotation() {
    let mut q = CallProofQuery::new(3);
    match q.next_action(2) {
        CallProofQueryAction::QueryPeer { peer_index } => assert_eq!(peer_index, 0),
        _ => panic!("expected the first peer to be tried"),
    }
    // An empty proof: the peer does not know the block.
    q.inject_outcome(Some(0), false);
    match q.next_action(2) {
        CallProofQueryAction::QueryPeer { peer_index } => assert_eq!(peer_index, 1),
        _ => panic!("expected the second peer to be tried"),
    }
    // A non-empty proof finishes the query.
    q.inject_outcome(Some(40), false);
    assert!(matches!(q.next_action(2), CallProofQueryAction::Finished));
}

/// With every peer exhausted, the query fails and classifies its errors.
#[test]
fn call_proof_query_failure() {
    let mut q = CallProofQuery::new(2);
    q.inject_outcome(None, true);
    q.inject_outcome(None, true);
    assert!(matches!(q.next_action(5), CallProofQueryAction::Failed));
    let err = q.into_error();
    assert!(err.is_network_problem());
}
