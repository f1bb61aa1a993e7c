use lightclient::runtime_host::{
    Config, ErrorDetail, HostVmPrototype, RuntimeHostVm, StartErr, VmStep, run,
};
use lightclient::parachain::FetchState;
use lightclient::runtime_service::{
    AsyncTree, CompileError, CoreVersion, DecodedCallProof, ProofEntry, Runtime, RuntimeCall,
    RuntimeCallError, RuntimeError, RuntimeService, TreeBlock, runtime_from_compile_outcomes,
};

fn proto(steps: Vec<VmStep>) -> HostVmPrototype {
    HostVmPrototype { exported_functions: vec![b"entry".to_vec()], steps }
}

fn run_entry(steps: Vec<VmStep>) -> RuntimeHostVm {
    run(Config {
        virtual_machine: proto(steps),
        function_to_call: b"entry".to_vec(),
        parameter: Vec::new(),
        max_log_level: 3,
    })
    .unwrap()
}

/// An unknown entry point is refused and the prototype handed back.
#[test]
fn unknown_entry_point() {
    let r = run(Config {
        virtual_machine: proto(vec![VmStep::Finished { value: vec![] }]),
        function_to_call: b"missing".to_vec(),
        parameter: Vec::new(),
        max_log_level: 0,
    });
    match r {
        Err((StartErr::FunctionNotFound, p)) => {
            assert_eq!(p.steps.len(), 1);
        }
        _ => panic!("expected the function to be missing"),
    }
}

/// A main-trie storage read reaches the caller; injecting the value resumes
/// the run up to the final value, with the logs accumulated.
#[test]
fn storage_get_flow() {
    let vm = run_entry(vec![
        VmStep::LogEmit { message: b"hello".to_vec() },
        VmStep::StorageGet { main_trie: true, key: b":code".to_vec() },
        VmStep::GetMaxLogLevel,
        VmStep::Finished { value: vec![42] },
    ]);
    let get = match vm {
        RuntimeHostVm::StorageGet(get) => get,
        _ => panic!("expected a storage read"),
    };
    assert_eq!(get.key(), &b":code".to_vec());
    match get.inject_value(Some(vec![1, 2])) {
        RuntimeHostVm::Finished(Ok(success)) => {
            assert_eq!(success.virtual_machine.value(), &vec![42]);
            assert_eq!(success.logs, b"hello".to_vec());
        }
        _ => panic!("expected the run to finish"),
    }
}

/// A child-trie read resolves to nothing without reaching the caller.
#[test]
fn child_trie_read_skipped() {
    let vm = run_entry(vec![
        VmStep::StorageGet { main_trie: false, key: b"child".to_vec() },
        VmStep::NextChildTrie,
        VmStep::Finished { value: vec![7] },
    ]);
    match vm {
        RuntimeHostVm::Finished(Ok(success)) => {
            assert_eq!(success.virtual_machine.value(), &vec![7]);
        }
        _ => panic!("expected the run to finish without stopping"),
    }
}

/// A forbidden host call ends the run with the corresponding error.
#[test]
fn forbidden_host_call() {
    let vm = run_entry(vec![VmStep::ForbiddenHostFunction]);
    match vm {
        RuntimeHostVm::Finished(Err(e)) => {
            assert!(matches!(e.detail, ErrorDetail::ForbiddenHostCall));
        }
        _ => panic!("expected a forbidden-host-call error"),
    }
}

/// Logs accumulate up to the one-mebibyte cap; reaching it fails the run.
#[test]
fn logs_too_long() {
    let chunk = vec![0x61; 1024 * 512];
    let vm = run_entry(vec![
        VmStep::LogEmit { message: chunk.clone() },
        VmStep::LogEmit { message: chunk.clone() },
        VmStep::Finished { value: vec![] },
    ]);
    match vm {
        RuntimeHostVm::Finished(Err(e)) => {
            assert!(matches!(e.detail, ErrorDetail::LogsTooLong));
        }
        _ => panic!("expected the logs to overflow"),
    }
}

/// A signature verification stops the run and exposes the request.
#[test]
fn signature_verification_flow() {
    let vm = run_entry(vec![
        VmStep::SignatureVerification {
            message: b"msg".to_vec(),
            signature: b"sig".to_vec(),
            public_key: b"key".to_vec(),
            valid: true,
        },
        VmStep::Finished { value: vec![1] },
    ]);
    let sig = match vm {
        RuntimeHostVm::SignatureVerification(sig) => sig,
        _ => panic!("expected a signature verification"),
    };
    assert_eq!(sig.message(), &b"msg".to_vec());
    assert_eq!(sig.signature(), &b"sig".to_vec());
    assert_eq!(sig.public_key(), &b"key".to_vec());
    assert!(sig.is_valid());
    match sig.verify_and_resume() {
        RuntimeHostVm::Finished(Ok(success)) => {
            assert_eq!(success.virtual_machine.value(), &vec![1]);
        }
        _ => panic!("expected the run to finish"),
    }
}

/// Cancelling the run hands the prototype back.
#[test]
fn into_prototype_cancels() {
    let vm = run_entry(vec![
        VmStep::NextKey { main_trie: true, key: vec![1] },
        VmStep::Finished { value: vec![] },
    ]);
    let p = vm.into_prototype();
    assert_eq!(p.exported_functions, vec![b"entry".to_vec()]);
}

/// Compilation is retried once with unresolved imports allowed, and only on
/// an unresolved-import failure; the retry is flagged so that a warning is
/// logged.
#[test]
fn compile_retry_on_unresolved_import() {
    let code = Some(vec![0, 97, 115, 109]);
    let first: Result<CoreVersion, CompileError> = Err(CompileError::UnresolvedFunctionImport {
        function: b"foo".to_vec(),
        module: b"env".to_vec(),
    });
    let relaxed: Result<CoreVersion, CompileError> = Ok(CoreVersion { spec_version: 1000 });
    match runtime_from_compile_outcomes(&code, &first, &relaxed) {
        Ok((version, warned)) => {
            assert_eq!(version.spec_version, 1000);
            assert!(warned);
        }
        _ => panic!("expected the relaxed attempt to succeed"),
    }

    // A first attempt that succeeds is never retried.
    let direct = runtime_from_compile_outcomes(
        &code,
        &Ok(CoreVersion { spec_version: 9 }),
        &Err(CompileError::Invalid),
    );
    assert!(matches!(direct, Ok((CoreVersion { spec_version: 9 }, false))));

    // Missing code fails before any compilation.
    let missing = runtime_from_compile_outcomes(&None, &first, &relaxed);
    assert!(matches!(missing, Err(RuntimeError::CodeNotFound)));

    // Any other failure is not retried.
    let invalid = runtime_from_compile_outcomes(&code, &Err(CompileError::Invalid), &relaxed);
    assert!(matches!(invalid, Err(RuntimeError::Build)));
}

fn runtime(code: u8, heap: u8) -> Runtime {
    Runtime {
        code: Some(vec![code]),
        heap_pages: Some(vec![heap]),
        code_merkle_value: None,
        compiled: Ok(CoreVersion { spec_version: 1 }),
    }
}

/// Two blocks with identical `(code, heap_pages)` share one runtime entry.
#[test]
fn runtime_deduplication() {
    let mut svc = RuntimeService::new();
    let (a, reused_a) = svc.insert_runtime(runtime(1, 2));
    assert!(!reused_a);
    let (b, reused_b) = svc.insert_runtime(runtime(1, 2));
    assert!(reused_b);
    assert_eq!(a, b);
    let (c, reused_c) = svc.insert_runtime(runtime(1, 3));
    assert!(!reused_c);
    assert_ne!(a, c);
}

/// Pins minus unpins equals the pinned count, under pins, unpins, and
/// double-pin refusals.
#[test]
fn pin_accounting() {
    let mut svc = RuntimeService::new();
    let (rt, _) = svc.insert_runtime(runtime(1, 2));
    let sub = svc.subscribe(16);
    assert!(svc.pin_block(sub, [1; 32], rt, [0; 32], 1));
    assert!(svc.pin_block(sub, [2; 32], rt, [0; 32], 2));
    // A double pin is refused.
    assert!(!svc.pin_block(sub, [1; 32], rt, [0; 32], 1));
    assert_eq!(svc.pinned_count(sub), Some(2));
    svc.unpin_block(sub, &[1; 32]);
    assert_eq!(svc.pinned_count(sub), Some(1));
    svc.unpin_block(sub, &[2; 32]);
    assert_eq!(svc.pinned_count(sub), Some(0));
}

/// Finalization cap: a subscription with `max_pinned = 3` survives two
/// single-block finalizations, and is closed once a finalization with two
/// pruned blocks exceeds the remaining budget.
#[test]
fn finalization_cap() {
    let mut svc = RuntimeService::new();
    let (rt, _) = svc.insert_runtime(runtime(1, 2));
    let sub = svc.subscribe(3);
    for (i, h) in [[1u8; 32], [2; 32], [3; 32], [4; 32], [5; 32], [6; 32]].iter().enumerate() {
        assert!(svc.pin_block(sub, *h, rt, [0; 32], i as u64));
    }
    // Finalize twice with nothing pruned: remaining goes 2 -> 1 -> 0.
    assert!(svc.finalize_for_subscription(sub, &[1; 32], &vec![]));
    assert!(svc.finalize_for_subscription(sub, &[2; 32], &vec![]));
    // A finalization that prunes two blocks cannot be afforded: the
    // subscription is closed and everything unpinned.
    assert!(!svc.finalize_for_subscription(sub, &[5; 32], &vec![[3; 32], [4; 32]]));
    assert_eq!(svc.pinned_count(sub), None);
}

/// A finalized pin stops ignoring the cap; explicitly unpinning it refunds
/// the budget, which affords one more finalization.
#[test]
fn finalized_unpin_refunds_budget() {
    let mut svc = RuntimeService::new();
    let (rt, _) = svc.insert_runtime(runtime(1, 2));
    let sub = svc.subscribe(2);
    assert!(svc.pin_block(sub, [1; 32], rt, [0; 32], 1));
    // Budget 1 -> 0; the pin of block one stops ignoring the cap.
    assert!(svc.finalize_for_subscription(sub, &[1; 32], &vec![]));
    // Unpinning the finalized block refunds the budget: 0 -> 1.
    svc.unpin_block(sub, &[1; 32]);
    // The refund affords one more finalization.
    assert!(svc.finalize_for_subscription(sub, &[2; 32], &vec![]));
    // Without a refund, a third one cannot be afforded.
    assert!(!svc.finalize_for_subscription(sub, &[3; 32], &vec![]));
    assert_eq!(svc.pinned_count(sub), None);
}

/// Proof isolation: a covered key answers from the proof, a key the proof
/// does not cover is a missing-proof-entry error, with no other source.
#[test]
fn proof_isolation() {
    let call = RuntimeCall {
        call_proof: DecodedCallProof {
            entries: vec![
                ProofEntry { key: b":code".to_vec(), value: Some(vec![1, 2, 3]) },
                ProofEntry { key: b":heappages".to_vec(), value: None },
            ],
            merkle_values: vec![(b":code".to_vec(), Some(vec![9, 9]))],
        },
        block_state_root_hash: [0; 32],
    };
    assert_eq!(call.storage_entry(b":code").unwrap(), Some(vec![1, 2, 3]));
    // Covered but absent: the proof answers "no value".
    assert_eq!(call.storage_entry(b":heappages").unwrap(), None);
    // Not covered: a missing-proof-entry error, never another source.
    assert_eq!(call.storage_entry(b":other"), Err(RuntimeCallError::MissingProofEntry));
    assert_eq!(call.next_key(b":a").unwrap(), b":code".to_vec());
    assert_eq!(call.closest_descendant_merkle_value(b":code").unwrap(), Some(vec![9, 9]));
    assert_eq!(
        call.closest_descendant_merkle_value(b":none"),
        Err(RuntimeCallError::MissingProofEntry)
    );
}

/// Output ordering: a block leaves the tree only once its runtime is known
/// and its parent has left before it.
#[test]
fn tree_output_ordering() {
    let mut tree = AsyncTree {
        finalized_hash: [0; 32],
        best_hash: None,
        blocks: vec![
            TreeBlock {
                hash: [2; 32],
                parent_hash: [1; 32],
                runtime_index: Some(0),
                fetch: FetchState::Done,
                reported: false,
            },
            TreeBlock {
                hash: [1; 32],
                parent_hash: [0; 32],
                runtime_index: None,
                fetch: FetchState::NotStarted,
                reported: false,
            },
        ],
    };
    // The child cannot leave before its parent, and the parent's runtime is
    // still unknown: nothing advances.
    assert!(tree.try_advance_output().is_none());
    tree.blocks[1].runtime_index = Some(0);
    // Now the parent leaves first, then the child.
    assert_eq!(tree.try_advance_output(), Some(1));
    assert_eq!(tree.try_advance_output(), Some(0));
    assert!(tree.try_advance_output().is_none());
}

/// Output finalization prunes only previously reported competing blocks and
/// returns their hashes so that callers can unpin them.
#[test]
fn tree_finalize_prunes_reported_siblings() {
    let mut tree = AsyncTree {
        finalized_hash: [0; 32],
        best_hash: None,
        blocks: vec![
            tree_block([1; 32], [0; 32], Some(0)),
            tree_block([2; 32], [0; 32], Some(0)),
            tree_block([3; 32], [1; 32], Some(0)),
        ],
    };
    // Report the two competing children of the finalized block, then the
    // grandchild.
    assert_eq!(tree.try_advance_output(), Some(0));
    assert_eq!(tree.try_advance_output(), Some(1));
    assert_eq!(tree.try_advance_output(), Some(2));
    // Finalizing the first child prunes its reported sibling, and only it.
    let pruned = tree.finalize_output(&[1; 32]);
    assert_eq!(pruned, vec![[2; 32]]);
    assert_eq!(tree.finalized_hash, [1; 32]);
    // The grandchild stays in the tree.
    assert_eq!(tree.blocks.len(), 1);
    assert_eq!(tree.blocks[0].hash, [3; 32]);
}

/// The child-trie root is read from `:child_storage:default:<name>` in the
/// main trie; a root that is not thirty-two bytes is refused.
#[test]
fn child_trie_root_lookup() {
    let mut key = b":child_storage:default:".to_vec();
    key.extend_from_slice(b"assets");
    let mut bad_key = b":child_storage:default:".to_vec();
    bad_key.extend_from_slice(b"broken");
    let call = RuntimeCall {
        call_proof: DecodedCallProof {
            entries: vec![
                ProofEntry { key, value: Some(vec![7; 32]) },
                ProofEntry { key: bad_key, value: Some(vec![7; 31]) },
            ],
            merkle_values: vec![],
        },
        block_state_root_hash: [0; 32],
    };
    assert_eq!(call.child_trie_root(b"assets").unwrap(), Some([7; 32]));
    assert_eq!(
        call.child_trie_root(b"broken"),
        Err(RuntimeCallError::InvalidChildTrieRoot)
    );
    assert_eq!(
        call.child_trie_root(b"absent"),
        Err(RuntimeCallError::MissingProofEntry)
    );
}

/// The downloaded `:code` storage and Merkle values of a runtime stay
/// readable.
#[test]
fn runtime_storage_merkle_values() {
    let mut svc = RuntimeService::new();
    let (idx, _) = svc.insert_runtime(Runtime {
        code: Some(vec![1, 2]),
        heap_pages: None,
        code_merkle_value: Some(vec![9]),
        compiled: Ok(CoreVersion { spec_version: 1 }),
    });
    let (code, merkle) = svc.runtime_storage_merkle_values(idx).unwrap();
    assert_eq!(code, &Some(vec![1, 2]));
    assert_eq!(merkle, &Some(vec![9]));
    assert!(svc.runtime_storage_merkle_values(idx + 1).is_none());
}


fn tree_block(hash: [u8; 32], parent_hash: [u8; 32], runtime_index: Option<usize>) -> TreeBlock {
    TreeBlock {
        hash,
        parent_hash,
        runtime_index,
        fetch: if runtime_index.is_some() { FetchState::Done } else { FetchState::NotStarted },
        reported: false,
    }
}

/// `next_key` answers with the least covered key above the bound, from the
/// proof alone.
#[test]
fn next_key_is_least_covered() {
    let call = RuntimeCall {
        call_proof: DecodedCallProof {
            entries: vec![
                ProofEntry { key: vec![9], value: None },
                ProofEntry { key: vec![3], value: Some(vec![1]) },
                ProofEntry { key: vec![5], value: None },
            ],
            merkle_values: vec![],
        },
        block_state_root_hash: [0; 32],
    };
    assert_eq!(call.next_key(&[2]).unwrap(), vec![3]);
    assert_eq!(call.next_key(&[3]).unwrap(), vec![5]);
    assert_eq!(call.next_key(&[9]), None);
}

/// The runtime-download scheduler picks the oldest needed block, respects
/// the cool-down of failed downloads, and never runs more than two at once.
#[test]
fn download_scheduler() {
    let mut tree = AsyncTree {
        finalized_hash: [0; 32],
        best_hash: None,
        blocks: vec![
            tree_block([1; 32], [0; 32], Some(0)),
            tree_block([2; 32], [1; 32], None),
            tree_block([3; 32], [2; 32], None),
        ],
    };
    // At most two downloads run at a time.
    assert_eq!(tree.next_necessary_download(100, 10_000, 2), None);
    // The oldest needed block is picked first.
    assert_eq!(tree.next_necessary_download(100, 10_000, 0), Some(1));
    tree.download_started(1);
    assert_eq!(tree.next_necessary_download(100, 10_000, 1), Some(2));
    tree.download_started(2);
    // A failed download cools down before the next attempt.
    tree.download_failed(1, 200);
    assert_eq!(tree.next_necessary_download(5_000, 10_000, 1), None);
    assert_eq!(tree.next_necessary_download(10_200, 10_000, 1), Some(1));
    // A finished download leaves the queue.
    tree.download_finished(1, 0);
    tree.download_finished(2, 0);
    assert_eq!(tree.next_necessary_download(20_000, 10_000, 0), None);
}

/// The subscription snapshot lists the reported blocks with parents
/// strictly before their children.
#[test]
fn snapshot_ancestry_order() {
    let mut tree = AsyncTree {
        finalized_hash: [0; 32],
        best_hash: None,
        blocks: vec![
            tree_block([2; 32], [1; 32], Some(0)),
            tree_block([1; 32], [0; 32], Some(0)),
        ],
    };
    assert_eq!(tree.try_advance_output(), Some(1));
    assert_eq!(tree.try_advance_output(), Some(0));
    tree.input_set_best_block(Some([2; 32]));
    let snapshot = tree.subscription_snapshot();
    assert_eq!(snapshot.len(), 2);
    assert_eq!(snapshot[0].hash, [1; 32]);
    assert_eq!(snapshot[0].parent_hash, [0; 32]);
    assert!(!snapshot[0].is_new_best);
    assert_eq!(snapshot[1].hash, [2; 32]);
    assert_eq!(snapshot[1].parent_hash, [1; 32]);
    // Exactly the signalled best block is marked.
    assert!(snapshot[1].is_new_best);
}
