//! Runtime-aware tree on top of the sync service.
//!
//! Every reported non-finalized block has an associated runtime; the service
//! downloads and compiles runtimes on demand, deduplicates equal ones, and
//! pins each block's runtime for the lifetime of every subscription that saw
//! it. Pinned blocks expose runtime calls whose storage queries are answered
//! from a Merkle call proof and from nothing else.

use vstd::prelude::*;

use crate::bytes::{bytes_eq, clone_bytes, hash_eq, opt_bytes_eq, push_bytes};

verus! {

/// The specification of a compiled runtime, as extracted from the module.
#[derive(Debug, Copy, Clone, PartialEq, Eq, Structural)]
pub struct CoreVersion {
    pub spec_version: u32,
}

/// Error produced by one compilation attempt of the virtual machine.
#[derive(Debug, Clone)]
pub enum CompileError {
    /// A host function imported by the module could not be resolved.
    UnresolvedFunctionImport { function: Vec<u8>, module: Vec<u8> },
    /// Any other compilation failure.
    Invalid,
}

/// Error when analyzing the runtime of a block.
#[derive(Debug, Clone)]
pub enum RuntimeError {
    /// The `:code` key of the storage is empty.
    CodeNotFound,
    /// The `:heappages` storage value is invalid.
    InvalidHeapPages,
    /// Error while compiling the runtime.
    Build,
}

/// What one compilation attempt of the virtual machine produced. The
/// compilation itself is performed by the virtual machine, outside this
/// crate; this type carries its outcome.
pub type CompileOutcome = Result<CoreVersion, CompileError>;

/// Decides the runtime of a block from the downloaded storage and from the
/// outcome of up to two compilation attempts: the first with unresolved
/// imports forbidden and, if that failed only because of an unresolved host
/// function, a second one with unresolved imports allowed.
///
/// Returns the specification, together with `true` if the second, relaxed
/// attempt was the one that succeeded (callers log a warning in that case).
pub fn runtime_from_compile_outcomes(
    code: &Option<Vec<u8>>,
    first: &CompileOutcome,
    relaxed: &CompileOutcome,
) -> (r: Result<(CoreVersion, bool), RuntimeError>)
    ensures
        code is None ==> r matches Err(RuntimeError::CodeNotFound),
        code is Some ==> match first {
            Ok(v) => r matches Ok(p) && p.0 == v && p.1 == false,
            Err(CompileError::UnresolvedFunctionImport { .. }) => match relaxed {
                Ok(v2) => r matches Ok(p) && p.0 == v2 && p.1 == true,
                Err(_) => r matches Err(RuntimeError::Build),
            },
            Err(CompileError::Invalid) => r matches Err(RuntimeError::Build),
        },
{
    if code.is_none() {
        return Err(RuntimeError::CodeNotFound);
    }
    match first {
        Ok(v) => Ok((*v, false)),
        Err(CompileError::UnresolvedFunctionImport { .. }) => match relaxed {
            Ok(v2) => Ok((*v2, true)),
            Err(_) => Err(RuntimeError::Build),
        },
        Err(CompileError::Invalid) => Err(RuntimeError::Build),
    }
}

/// A runtime held by the service: the storage that identifies it and the
/// result of its compilation.
pub struct Runtime {
    /// Storage value of the `:code` key.
    pub code: Option<Vec<u8>>,
    /// Storage value of the `:heappages` key.
    pub heap_pages: Option<Vec<u8>>,
    /// Merkle value of the `:code` trie node.
    pub code_merkle_value: Option<Vec<u8>>,
    /// Compiled specification, or the error that compilation produced.
    pub compiled: Result<CoreVersion, RuntimeError>,
}

/// A block pinned by a subscription.
pub struct PinnedBlock {
    /// Hash of the pinned block.
    pub hash: [u8; 32],
    /// Index into the runtimes list of the service.
    pub runtime_index: usize,
    /// State trie root hash of the block.
    pub state_trie_root_hash: [u8; 32],
    /// Height of the block.
    pub block_number: u64,
    /// True for non-finalized canonical blocks, which do not count against
    /// the subscription cap until they become finalized or pruned.
    pub ignores_limit: bool,
}

/// One subscription to the runtime service.
pub struct Subscription {
    /// Identifier of the subscription.
    pub id: u64,
    /// False once the subscription has been destroyed.
    pub alive: bool,
    /// Number of finalized or pruned blocks the subscription can still
    /// afford to keep pinned.
    pub finalized_pinned_remaining: u64,
    /// Blocks pinned on behalf of this subscription.
    pub pinned: Vec<PinnedBlock>,
    /// Number of pins issued over the lifetime of the subscription.
    pub pins_issued: u64,
    /// Number of unpins issued over the lifetime of the subscription.
    pub unpins_issued: u64,
}

/// True if the pinned list of `sub` holds the hash `h`.
pub open spec fn pinned_contains(pins: Seq<PinnedBlock>, h: Seq<u8>) -> bool {
    exists|i: int| 0 <= i < pins.len() && pins[i].hash@ == h
}

/// The pin with the hash `h`; meaningful when the list holds it (the state
/// invariant makes it unique).
pub open spec fn pin_at(pins: Seq<PinnedBlock>, h: Seq<u8>) -> PinnedBlock {
    pins[choose|i: int| 0 <= i < pins.len() && pins[i].hash@ == h]
}

/// True if a live subscription with the given identifier exists and can
/// accept a pin of the hash `h`: the hash is not pinned yet and the pin
/// counter has room.
pub open spec fn can_pin(subs: Seq<Subscription>, id: u64, h: Seq<u8>) -> bool {
    exists|k: int|
        0 <= k < subs.len() && subs[k].id == id && subs[k].alive && !pinned_contains(
            subs[k].pinned@,
            h,
        ) && subs[k].pins_issued < u64::MAX
}

/// True if the hash is the finalized block's or one of the pruned blocks'.
pub open spec fn hash_in_finalize_set(h: Seq<u8>, finalized: Seq<u8>, pruned: Seq<[u8; 32]>) -> bool {
    ||| h == finalized
    ||| exists|w: int| 0 <= w < pruned.len() && pruned[w]@ == h
}

/// The pin after a finalization: a pin of the finalized or a pruned block
/// stops ignoring the cap, every other pin is unchanged.
pub open spec fn finalize_pin(p: PinnedBlock, finalized: Seq<u8>, pruned: Seq<[u8; 32]>) -> PinnedBlock {
    PinnedBlock {
        ignores_limit: p.ignores_limit && !hash_in_finalize_set(p.hash@, finalized, pruned),
        ..p
    }
}

/// True if a live subscription with the given identifier exists.
pub open spec fn live_sub_in(subs: Seq<Subscription>, id: u64) -> bool {
    exists|k: int| 0 <= k < subs.len() && subs[k].id == id && subs[k].alive
}

impl Subscription {
    /// Pin accounting: the number of pinned entries always equals the pins
    /// issued minus the unpins issued.
    pub open spec fn wf(&self) -> bool {
        &&& self.pins_issued >= self.unpins_issued
        &&& self.pinned@.len() == self.pins_issued - self.unpins_issued
        &&& forall|i: int, j: int|
            0 <= i < j < self.pinned@.len() ==> self.pinned@[i].hash@ != self.pinned@[j].hash@
    }
}

/// Under arbitrary sequences of pins and unpins, the number of pinned entries
/// of a subscription equals the pins issued minus the unpins issued.
pub proof fn lemma_pin_accounting(sub: &Subscription)
    requires
        sub.wf(),
    ensures
        sub.pinned@.len() == sub.pins_issued - sub.unpins_issued,
{
}

/// The runtime registry with deduplication by `(code, heap_pages)`.
pub struct RuntimeService {
    /// The runtimes alive in the service. No two entries share the same
    /// `(code, heap_pages)` pair.
    runtimes: Vec<Runtime>,
    /// The subscriptions.
    subscriptions: Vec<Subscription>,
    /// Identifier for the next subscription.
    next_subscription_id: u64,
}

/// The pair of a runtime entry matches the given code and heap pages.
pub open spec fn runtime_pair_is(
    rt: Runtime,
    code: Option<Seq<u8>>,
    heap_pages: Option<Seq<u8>>,
) -> bool {
    &&& (match (rt.code, code) {
        (Some(a), Some(b)) => a@ == b,
        (None, None) => true,
        _ => false,
    })
    &&& (match (rt.heap_pages, heap_pages) {
        (Some(a), Some(b)) => a@ == b,
        (None, None) => true,
    _ => false,
    })
}

/// The mathematical value of an optional byte vector.
pub open spec fn opt_view(v: Option<Vec<u8>>) -> Option<Seq<u8>> {
    match v {
        Some(x) => Some(x@),
        None => None,
    }
}

impl RuntimeService {
    /// The runtimes alive in the service.
    pub closed spec fn runtimes_spec(&self) -> Seq<Runtime> {
        self.runtimes@
    }

    /// The subscriptions of the service.
    pub closed spec fn subscriptions_spec(&self) -> Seq<Subscription> {
        self.subscriptions@
    }

    /// No two runtimes share the same `(code, heap_pages)` pair, every
    /// subscription keeps its pin accounting, and every pinned block points
    /// into the runtimes list.
    pub open spec fn wf(&self) -> bool {
        &&& forall|i: int, j: int|
            0 <= i < j < self.runtimes_spec().len() ==> !runtime_pair_is(
                self.runtimes_spec()[i],
                opt_view(self.runtimes_spec()[j].code),
                opt_view(self.runtimes_spec()[j].heap_pages),
            )
        &&& forall|k: int|
            0 <= k < self.subscriptions_spec().len() ==> (
            #[trigger] self.subscriptions_spec()[k]).wf()
        &&& forall|k: int, i: int|
            0 <= k < self.subscriptions_spec().len() && 0 <= i
                < self.subscriptions_spec()[k].pinned@.len()
                ==> self.subscriptions_spec()[k].pinned@[i].runtime_index
                < self.runtimes_spec().len()
        &&& forall|k: int, l: int|
            0 <= k < l < self.subscriptions_spec().len() ==> self.subscriptions_spec()[k].id
                != self.subscriptions_spec()[l].id
        &&& forall|k: int|
            0 <= k < self.subscriptions_spec().len() ==> (
            #[trigger] self.subscriptions_spec()[k].id) < self.next_subscription_id_spec()
    }

    /// A fresh service with no runtime and no subscription.
    pub fn new() -> (r: RuntimeService)
        ensures
            r.wf(),
            r.runtimes_spec().len() == 0,
            r.subscriptions_spec().len() == 0,
    {
        RuntimeService { runtimes: Vec::new(), subscriptions: Vec::new(), next_subscription_id: 0 }
    }

    /// Inserts a downloaded runtime, reusing an existing entry when one with
    /// the same `(code, heap_pages)` pair is already alive.
    ///
    /// Returns the index of the runtime and `true` if an existing entry was
    /// reused.
    #[verifier::loop_isolation(false)]
    pub fn insert_runtime(&mut self, runtime: Runtime) -> (r: (usize, bool))
        requires
            old(self).wf(),
        ensures
            final(self).wf(),
            final(self).subscriptions_spec() == old(self).subscriptions_spec(),
            r.0 < final(self).runtimes_spec().len(),
            runtime_pair_is(
                final(self).runtimes_spec()[r.0 as int],
                opt_view(runtime.code),
                opt_view(runtime.heap_pages),
            ),
            r.1 == exists|i: int|
                0 <= i < old(self).runtimes_spec().len() && runtime_pair_is(
                    #[trigger] old(self).runtimes_spec()[i],
                    opt_view(runtime.code),
                    opt_view(runtime.heap_pages),
                ),
            r.1 ==> final(self).runtimes_spec() == old(self).runtimes_spec() && r.0
                < old(self).runtimes_spec().len(),
            !r.1 ==> final(self).runtimes_spec() == old(self).runtimes_spec().push(runtime)
                && r.0 == old(self).runtimes_spec().len(),
    {
        let mut i: usize = 0;
        while i < self.runtimes.len()
            invariant
                i <= self.runtimes@.len(),
                forall|j: int|
                    0 <= j < i ==> !runtime_pair_is(
                        #[trigger] self.runtimes@[j],
                        opt_view(runtime.code),
                        opt_view(runtime.heap_pages),
                    ),
            decreases self.runtimes@.len() - i,
        {
            let same = opt_bytes_eq(&self.runtimes[i].code, &runtime.code) && opt_bytes_eq(
                &self.runtimes[i].heap_pages,
                &runtime.heap_pages,
            );
            if same {
                return (i, true);
            }
            i += 1;
        }
        let ghost pre = self.runtimes@;
        self.runtimes.push(runtime);
        proof {
            assert forall|a: int, b: int| 0 <= a < b < self.runtimes@.len() implies
                !runtime_pair_is(
                self.runtimes@[a],
                opt_view(self.runtimes@[b].code),
                opt_view(self.runtimes@[b].heap_pages),
            ) by {
                if b < self.runtimes@.len() - 1 {
                    assert(self.runtimes@[a] == pre[a]);
                    assert(self.runtimes@[b] == pre[b]);
                } else {
                    assert(self.runtimes@[a] == pre[a]);
                }
            }
            assert forall|k: int| 0 <= k < self.subscriptions@.len() implies (
            #[trigger] self.subscriptions@[k]).wf() by {
                assert(old(self).subscriptions_spec()[k].wf());
            }
            assert forall|k: int, i2: int|
                0 <= k < self.subscriptions@.len() && 0 <= i2
                    < self.subscriptions@[k].pinned@.len() implies
                self.subscriptions@[k].pinned@[i2].runtime_index < self.runtimes@.len() by {
                assert(old(self).subscriptions_spec()[k].pinned@[i2].runtime_index < old(self).runtimes_spec().len());
            }
            assert forall|k: int, l: int| 0 <= k < l < self.subscriptions@.len() implies
                self.subscriptions@[k].id != self.subscriptions@[l].id by {
                assert(old(self).subscriptions_spec()[k].id != old(self).subscriptions_spec()[l].id);
            }
            assert forall|k: int| 0 <= k < self.subscriptions@.len() implies (
            #[trigger] self.subscriptions@[k].id) < self.next_subscription_id by {
                assert(old(self).subscriptions_spec()[k].id < old(self).next_subscription_id_spec());
            }
        }
        (self.runtimes.len() - 1, false)
    }

    /// Opens a new subscription with the given cap on finalized pinned
    /// blocks.
    #[verifier::loop_isolation(false)]
    pub fn subscribe(&mut self, max_pinned_blocks: u64) -> (r: u64)
        requires
            old(self).wf(),
            max_pinned_blocks >= 1,
            old(self).next_subscription_id_spec() < u64::MAX,
        ensures
            final(self).wf(),
            final(self).runtimes_spec() == old(self).runtimes_spec(),
            final(self).subscriptions_spec().len() == old(self).subscriptions_spec().len() + 1,
            final(self).subscriptions_spec().last() matches Subscription {
                id,
                alive,
                finalized_pinned_remaining,
                ..
            } && id == r && alive == true && finalized_pinned_remaining == max_pinned_blocks - 1,
            forall|k: int|
                0 <= k < old(self).subscriptions_spec().len() ==> final(self).subscriptions_spec().index(k) == old(self).subscriptions_spec().index(k),
    {
        let id = self.next_subscription_id;
        self.next_subscription_id = self.next_subscription_id + 1;
        let ghost pre = self.subscriptions@;
        self.subscriptions.push(
            Subscription {
                id,
                alive: true,
                finalized_pinned_remaining: max_pinned_blocks - 1,
                pinned: Vec::new(),
                pins_issued: 0,
                unpins_issued: 0,
            },
        );
        proof {
            assert forall|k: int, l: int| 0 <= k < l < self.subscriptions@.len() implies
                self.subscriptions@[k].id != self.subscriptions@[l].id by {
                if l == self.subscriptions@.len() - 1 {
                    assert(self.subscriptions@[k] == pre[k]);
                    assert(old(self).subscriptions_spec()[k].id < old(self).next_subscription_id_spec());
                } else {
                    assert(self.subscriptions@[k] == pre[k]);
                    assert(self.subscriptions@[l] == pre[l]);
                }
            }
            assert forall|k: int|
                0 <= k < self.subscriptions@.len() implies (
            #[trigger] self.subscriptions@[k].id) < self.next_subscription_id by {
                if k < self.subscriptions@.len() - 1 {
                    assert(self.subscriptions@[k] == pre[k]);
                    assert(old(self).subscriptions_spec()[k].id < old(self).next_subscription_id_spec());
                }
            }
        }
        id
    }

    /// The identifier for the next subscription.
    pub closed spec fn next_subscription_id_spec(&self) -> u64 {
        self.next_subscription_id
    }
}


impl RuntimeService {
    /// Finds an alive subscription by identifier.
    #[verifier::loop_isolation(false)]
    fn find_subscription(&self, id: u64) -> (r: Option<usize>)
        ensures
            match r {
                Some(k) => k < self.subscriptions_spec().len()
                    && self.subscriptions_spec()[k as int].id == id
                    && self.subscriptions_spec()[k as int].alive,
                None => forall|j: int|
                    0 <= j < self.subscriptions_spec().len() ==> !(
                    (#[trigger] self.subscriptions_spec()[j].id) == id
                        && self.subscriptions_spec()[j].alive),
            },
    {
        let mut i: usize = 0;
        while i < self.subscriptions.len()
            invariant
                i <= self.subscriptions@.len(),
                forall|j: int|
                    0 <= j < i ==> !((#[trigger] self.subscriptions@[j].id) == id
                        && self.subscriptions@[j].alive),
            decreases self.subscriptions@.len() - i,
        {
            if self.subscriptions[i].id == id && self.subscriptions[i].alive {
                return Some(i);
            }
            i += 1;
        }
        None
    }

    /// Pins a block on behalf of a subscription, as done when a block is
    /// reported to it. Non-finalized canonical blocks ignore the cap until
    /// they become finalized or pruned.
    ///
    /// Has no effect if the subscription is not alive or the block is
    /// already pinned.
    #[verifier::loop_isolation(false)]
    #[verifier::rlimit(60)]
    pub fn pin_block(
        &mut self,
        subscription_id: u64,
        hash: [u8; 32],
        runtime_index: usize,
        state_trie_root_hash: [u8; 32],
        block_number: u64,
    ) -> (r: bool)
        requires
            old(self).wf(),
            runtime_index < old(self).runtimes_spec().len(),
        ensures
            final(self).wf(),
            final(self).runtimes_spec() == old(self).runtimes_spec(),
            r == can_pin(old(self).subscriptions_spec(), subscription_id, hash@),
            r ==> exists|k: int|
                {
                    &&& 0 <= k < final(self).subscriptions_spec().len()
                    &&& (#[trigger] final(self).subscriptions_spec()[k]).id == subscription_id
                    &&& final(self).subscriptions_spec()[k].pinned@.len() == old(self).subscriptions_spec()[k].pinned@.len() + 1
                    &&& final(self).subscriptions_spec()[k].pins_issued == old(self).subscriptions_spec()[k].pins_issued + 1
                    &&& final(self).subscriptions_spec()[k].pinned@.last() matches PinnedBlock {
                        hash: h,
                        runtime_index: ri,
                        ignores_limit,
                        ..
                    } && h@ == hash@ && ri == runtime_index && ignores_limit == true
                },
            !r ==> *final(self) == *old(self),
    {
        let k = match self.find_subscription(subscription_id) {
            Some(k) => k,
            None => {
                proof {
                    assert(!can_pin(self.subscriptions@, subscription_id, hash@)) by {
                        if can_pin(self.subscriptions@, subscription_id, hash@) {
                            let w = choose|w: int|
                                0 <= w < self.subscriptions@.len() && self.subscriptions@[w].id
                                    == subscription_id && self.subscriptions@[w].alive
                                    && !pinned_contains(self.subscriptions@[w].pinned@, hash@)
                                    && self.subscriptions@[w].pins_issued < u64::MAX;
                            assert(!(self.subscriptions_spec()[w].id == subscription_id
                                && self.subscriptions_spec()[w].alive));
                        }
                    }
                }
                return false;
            },
        };
        // Refuse a double pin.
        let mut i: usize = 0;
        let mut already = false;
        while i < self.subscriptions[k].pinned.len()
            invariant
                k < self.subscriptions@.len(),
                i <= self.subscriptions@[k as int].pinned@.len(),
                already == exists|j: int|
                    0 <= j < i && self.subscriptions@[k as int].pinned@[j].hash@ == hash@,
            decreases self.subscriptions@[k as int].pinned@.len() - i,
        {
            if hash_eq(&self.subscriptions[k].pinned[i].hash, &hash) {
                already = true;
            }
            i += 1;
        }
        if already || self.subscriptions[k].pins_issued == u64::MAX {
            proof {
                assert(!can_pin(self.subscriptions@, subscription_id, hash@)) by {
                    if can_pin(self.subscriptions@, subscription_id, hash@) {
                        let w = choose|w: int|
                            0 <= w < self.subscriptions@.len() && self.subscriptions@[w].id
                                == subscription_id && self.subscriptions@[w].alive
                                && !pinned_contains(self.subscriptions@[w].pinned@, hash@)
                                && self.subscriptions@[w].pins_issued < u64::MAX;
                        if w != k {
                            assert(self.subscriptions_spec()[if w < k {
                                w
                            } else {
                                k as int
                            }].id != self.subscriptions_spec()[if w < k {
                                k as int
                            } else {
                                w
                            }].id);
                        }
                    }
                }
            }
            return false;
        }
        let ghost pre = self.subscriptions@;
        let mut sub = self.subscriptions.remove(k);
        let ghost pre_pins = sub.pinned@;
        sub.pinned.push(
            PinnedBlock {
                hash,
                runtime_index,
                state_trie_root_hash,
                block_number,
                ignores_limit: true,
            },
        );
        sub.pins_issued = sub.pins_issued + 1;
        let ghost gsub = sub;
        self.subscriptions.insert(k, sub);
        proof {
            assert(self.subscriptions@ =~= pre.update(k as int, gsub));
            assert(gsub.wf()) by {
                assert(pre[k as int].wf());
                assert forall|a: int, b: int| 0 <= a < b < gsub.pinned@.len() implies
                    gsub.pinned@[a].hash@ != gsub.pinned@[b].hash@ by {
                    if b == gsub.pinned@.len() - 1 {
                        assert(gsub.pinned@[a] == pre_pins[a]);
                        assert(!exists|j: int|
                            0 <= j < pre_pins.len() && pre_pins[j].hash@ == hash@);
                    } else {
                        assert(gsub.pinned@[a] == pre_pins[a]);
                        assert(gsub.pinned@[b] == pre_pins[b]);
                    }
                }
            }
            assert forall|k2: int| 0 <= k2 < self.subscriptions@.len() implies (
            #[trigger] self.subscriptions@[k2]).wf() by {
                if k2 != k {
                    assert(self.subscriptions@[k2] == pre[k2]);
                    assert(old(self).subscriptions_spec()[k2].wf());
                }
            }
            assert forall|k2: int, i2: int|
                0 <= k2 < self.subscriptions@.len() && 0 <= i2
                    < self.subscriptions@[k2].pinned@.len() implies
                self.subscriptions@[k2].pinned@[i2].runtime_index < self.runtimes@.len() by {
                if k2 != k {
                    assert(self.subscriptions@[k2] == pre[k2]);
                    assert(old(self).subscriptions_spec()[k2].pinned@[i2].runtime_index < old(self).runtimes_spec().len());
                } else {
                    if i2 < self.subscriptions@[k2].pinned@.len() - 1 {
                        assert(self.subscriptions@[k2].pinned@[i2] == pre_pins[i2]);
                        assert(old(self).subscriptions_spec()[k as int].pinned@[i2].runtime_index
                            < old(self).runtimes_spec().len());
                    }
                }
            }
            assert forall|k2: int, l: int| 0 <= k2 < l < self.subscriptions@.len() implies
                self.subscriptions@[k2].id != self.subscriptions@[l].id by {
                assert(old(self).subscriptions_spec()[k2].id != old(self).subscriptions_spec()[l].id);
            }
            assert forall|k2: int| 0 <= k2 < self.subscriptions@.len() implies (
            #[trigger] self.subscriptions@[k2].id) < self.next_subscription_id by {
                assert(old(self).subscriptions_spec()[k2].id < old(self).next_subscription_id_spec());
            }
            assert(can_pin(old(self).subscriptions_spec(), subscription_id, hash@)) by {
                assert(old(self).subscriptions_spec()[k as int].id == subscription_id
                    && old(self).subscriptions_spec()[k as int].alive && !pinned_contains(
                    old(self).subscriptions_spec()[k as int].pinned@,
                    hash@,
                ) && old(self).subscriptions_spec()[k as int].pins_issued < u64::MAX);
            }
            assert({
                &&& 0 <= k < self.subscriptions_spec().len()
                &&& self.subscriptions_spec()[k as int].id == subscription_id
                &&& self.subscriptions_spec()[k as int].pinned@.len() == old(self).subscriptions_spec()[k as int].pinned@.len() + 1
                &&& self.subscriptions_spec()[k as int].pins_issued == old(self).subscriptions_spec()[k as int].pins_issued + 1
                &&& self.subscriptions_spec()[k as int].pinned@.last() matches PinnedBlock {
                    hash: h,
                    runtime_index: ri,
                    ignores_limit,
                    ..
                } && h@ == hash@ && ri == runtime_index && ignores_limit == true
            });
        }
        true
    }

    /// Unpins a block after it has been reported by a subscription.
    ///
    /// Has no effect if the subscription is not or no longer alive. The block
    /// must be pinned: unpinning twice is a programmer error.
    #[verifier::loop_isolation(false)]
    #[verifier::rlimit(60)]
    pub fn unpin_block(&mut self, subscription_id: u64, hash: &[u8; 32])
        requires
            old(self).wf(),
            forall|k: int|
                0 <= k < old(self).subscriptions_spec().len() && (
                #[trigger] old(self).subscriptions_spec()[k].id) == subscription_id && old(self).subscriptions_spec()[k].alive ==> pinned_contains(
                    old(self).subscriptions_spec()[k].pinned@,
                    hash@,
                ),
        ensures
            final(self).wf(),
            final(self).runtimes_spec() == old(self).runtimes_spec(),
            !live_sub_in(old(self).subscriptions_spec(), subscription_id) ==> *final(self) == *old(self),
            forall|k: int|
                0 <= k < old(self).subscriptions_spec().len() && (
                #[trigger] old(self).subscriptions_spec()[k].id) == subscription_id && old(self).subscriptions_spec()[k].alive ==> ({
                    let before = old(self).subscriptions_spec()[k];
                    let after = final(self).subscriptions_spec()[k];
                    let removed = pin_at(before.pinned@, hash@);
                    &&& final(self).subscriptions_spec().len() == old(self).subscriptions_spec().len()
                    &&& after.id == before.id
                    &&& after.alive
                    &&& after.pinned@.len() == before.pinned@.len() - 1
                    &&& after.pins_issued == before.pins_issued
                    &&& after.unpins_issued == before.unpins_issued + 1
                    &&& !pinned_contains(after.pinned@, hash@)
                    &&& forall|h2: Seq<u8>|
                        h2 != hash@ ==> (#[trigger] pinned_contains(after.pinned@, h2)
                            == pinned_contains(before.pinned@, h2))
                    &&& after.finalized_pinned_remaining == (if removed.ignores_limit
                        || before.finalized_pinned_remaining == u64::MAX {
                        before.finalized_pinned_remaining
                    } else {
                        (before.finalized_pinned_remaining + 1) as u64
                    })
                    &&& forall|k2: int|
                        0 <= k2 < final(self).subscriptions_spec().len() && k2 != k ==> final(self).subscriptions_spec().index(k2) == old(self).subscriptions_spec().index(k2)
                }),
    {
        let k = match self.find_subscription(subscription_id) {
            Some(k) => k,
            None => {
                proof {
                    assert forall|k2: int|
                        0 <= k2 < self.subscriptions@.len() && (
                    #[trigger] self.subscriptions@[k2].id) == subscription_id
                        && self.subscriptions@[k2].alive implies !pinned_contains(
                        self.subscriptions@[k2].pinned@,
                        hash@,
                    ) by {
                        assert(!((self.subscriptions_spec()[k2].id) == subscription_id
                            && self.subscriptions_spec()[k2].alive));
                    }
                }
                return ;
            },
        };
        // Find the pinned entry.
        let mut i: usize = 0;
        let mut found: Option<usize> = None;
        while i < self.subscriptions[k].pinned.len()
            invariant
                k < self.subscriptions@.len(),
                i <= self.subscriptions@[k as int].pinned@.len(),
                match found {
                    Some(j) => j < i && self.subscriptions@[k as int].pinned@[j as int].hash@
                        == hash@,
                    None => forall|j: int|
                        0 <= j < i ==> self.subscriptions@[k as int].pinned@[j].hash@ != hash@,
                },
            decreases self.subscriptions@[k as int].pinned@.len() - i,
        {
            if found.is_none() && hash_eq(&self.subscriptions[k].pinned[i].hash, hash) {
                found = Some(i);
            }
            i += 1;
        }
        let j = match found {
            Some(j) => j,
            None => vstd::pervasive::unreached(),
        };
        let ghost pre = self.subscriptions@;
        let mut sub = self.subscriptions.remove(k);
        let ghost pre_pins = sub.pinned@;
        let removed = sub.pinned.remove(j);
        let refund: bool = !removed.ignores_limit;
        if refund && sub.finalized_pinned_remaining < u64::MAX {
            sub.finalized_pinned_remaining = sub.finalized_pinned_remaining + 1;
        }
        sub.unpins_issued = sub.unpins_issued + 1;
        let ghost gsub = sub;
        self.subscriptions.insert(k, sub);
        proof {
            assert(self.subscriptions@ =~= pre.update(k as int, gsub));
            assert(pre[k as int].wf());
            assert(gsub.wf()) by {
                assert forall|a: int, b: int| 0 <= a < b < gsub.pinned@.len() implies
                    gsub.pinned@[a].hash@ != gsub.pinned@[b].hash@ by {
                    let oa = if a < j { a } else { a + 1 };
                    let ob = if b < j { b } else { b + 1 };
                    assert(gsub.pinned@[a] == pre_pins[oa]);
                    assert(gsub.pinned@[b] == pre_pins[ob]);
                }
            }
            assert forall|k2: int| 0 <= k2 < self.subscriptions@.len() implies (
            #[trigger] self.subscriptions@[k2]).wf() by {
                if k2 != k {
                    assert(self.subscriptions@[k2] == pre[k2]);
                    assert(old(self).subscriptions_spec()[k2].wf());
                }
            }
            assert forall|k2: int, i2: int|
                0 <= k2 < self.subscriptions@.len() && 0 <= i2
                    < self.subscriptions@[k2].pinned@.len() implies
                self.subscriptions@[k2].pinned@[i2].runtime_index < self.runtimes@.len() by {
                if k2 != k {
                    assert(self.subscriptions@[k2] == pre[k2]);
                    assert(old(self).subscriptions_spec()[k2].pinned@[i2].runtime_index < old(self).runtimes_spec().len());
                } else {
                    let oi = if i2 < j { i2 } else { i2 + 1 };
                    assert(gsub.pinned@[i2] == pre_pins[oi]);
                    assert(old(self).subscriptions_spec()[k as int].pinned@[oi].runtime_index
                        < old(self).runtimes_spec().len());
                }
            }
            assert forall|k2: int, l: int| 0 <= k2 < l < self.subscriptions@.len() implies
                self.subscriptions@[k2].id != self.subscriptions@[l].id by {
                assert(old(self).subscriptions_spec()[k2].id != old(self).subscriptions_spec()[l].id);
            }
            assert forall|k2: int| 0 <= k2 < self.subscriptions@.len() implies (
            #[trigger] self.subscriptions@[k2].id) < self.next_subscription_id by {
                assert(old(self).subscriptions_spec()[k2].id < old(self).next_subscription_id_spec());
            }
            assert forall|k2: int|
                0 <= k2 < self.subscriptions@.len() && (#[trigger] self.subscriptions@[k2].id)
                    == subscription_id && self.subscriptions@[k2].alive implies !pinned_contains(
                self.subscriptions@[k2].pinned@,
                hash@,
            ) by {
                assert(k2 == k);
                if pinned_contains(gsub.pinned@, hash@) {
                    let a = choose|a: int|
                        0 <= a < gsub.pinned@.len() && gsub.pinned@[a].hash@ == hash@;
                    let oa = if a < j { a } else { a + 1 };
                    assert(gsub.pinned@[a] == pre_pins[oa]);
                    assert(oa != j);
                    assert(pre_pins[oa].hash@ == pre_pins[j as int].hash@);
                }
            }
            assert forall|h2: Seq<u8>| h2 != hash@ implies (#[trigger] pinned_contains(
                gsub.pinned@,
                h2,
            ) == pinned_contains(pre_pins, h2)) by {
                if pinned_contains(gsub.pinned@, h2) {
                    let a = choose|a: int|
                        0 <= a < gsub.pinned@.len() && gsub.pinned@[a].hash@ == h2;
                    let oa = if a < j { a } else { a + 1 };
                    assert(gsub.pinned@[a] == pre_pins[oa]);
                }
                if pinned_contains(pre_pins, h2) {
                    let a = choose|a: int| 0 <= a < pre_pins.len() && pre_pins[a].hash@ == h2;
                    assert(a != j);
                    let na = if a < j { a } else { a - 1 };
                    assert(gsub.pinned@[na] == pre_pins[a]);
                }
            }
            assert(pin_at(pre_pins, hash@) == pre_pins[j as int]) by {
                let c = choose|i: int| 0 <= i < pre_pins.len() && pre_pins[i].hash@ == hash@;
                if c != j {
                    assert(pre_pins[if c < j {
                        c
                    } else {
                        j as int
                    }].hash@ != pre_pins[if c < j {
                        j as int
                    } else {
                        c
                    }].hash@);
                }
            }
        }
    }

    /// Debits a subscription for a finalization: the finalized block and the
    /// pruned blocks stop ignoring the cap, and the budget is debited by one
    /// plus the number of pruned blocks. If the remaining budget cannot
    /// cover them, the subscription is destroyed and everything it pinned is
    /// released.
    ///
    /// Returns `true` if the subscription survives.
    #[verifier::loop_isolation(false)]
    #[verifier::rlimit(100)]
    pub fn finalize_for_subscription(
        &mut self,
        subscription_id: u64,
        finalized_hash: &[u8; 32],
        pruned: &Vec<[u8; 32]>,
    ) -> (r: bool)
        requires
            old(self).wf(),
            pruned@.len() < u64::MAX,
        ensures
            final(self).wf(),
            final(self).runtimes_spec() == old(self).runtimes_spec(),
            !live_sub_in(old(self).subscriptions_spec(), subscription_id) ==> *final(self) == *old(self) && !r,
            forall|k: int|
                0 <= k < old(self).subscriptions_spec().len() && (
                #[trigger] old(self).subscriptions_spec()[k].id) == subscription_id && old(self).subscriptions_spec()[k].alive ==> ({
                    let before = old(self).subscriptions_spec()[k];
                    let after = final(self).subscriptions_spec()[k];
                    &&& final(self).subscriptions_spec().len() == old(self).subscriptions_spec().len()
                    &&& forall|k2: int|
                        0 <= k2 < final(self).subscriptions_spec().len() && k2 != k ==> final(self).subscriptions_spec().index(k2) == old(self).subscriptions_spec().index(k2)
                    &&& (if before.finalized_pinned_remaining >= pruned@.len() + 1 {
                        &&& r
                        &&& after.alive
                        &&& after.id == before.id
                        &&& after.finalized_pinned_remaining == before.finalized_pinned_remaining
                            - (pruned@.len() + 1)
                        &&& after.pins_issued == before.pins_issued
                        &&& after.unpins_issued == before.unpins_issued
                        &&& after.pinned@.len() == before.pinned@.len()
                        &&& forall|i: int|
                            0 <= i < after.pinned@.len() ==> (#[trigger] after.pinned@.index(i))
                                == finalize_pin(
                                before.pinned@[i],
                                finalized_hash@,
                                pruned@,
                            )
                    } else {
                        &&& !r
                        &&& !after.alive
                        &&& after.pinned@.len() == 0
                    })
                }),
    {
        let k = match self.find_subscription(subscription_id) {
            Some(k) => k,
            None => {
                return false;
            },
        };
        let count_limit = (pruned.len() as u64) + 1;
        let ghost pre = self.subscriptions@;
        let mut sub = self.subscriptions.remove(k);
        let ghost pre_pins = sub.pinned@;
        let survives: bool = sub.finalized_pinned_remaining >= count_limit;
        if survives {
            sub.finalized_pinned_remaining = sub.finalized_pinned_remaining - count_limit;
            // The finalized and pruned blocks stop ignoring the cap.
            let mut updated: Vec<PinnedBlock> = Vec::new();
            let mut i: usize = 0;
            let total: usize = sub.pinned.len();
            while sub.pinned.len() > 0
                invariant
                    i <= total,
                    pre_pins.len() == total,
                    sub.pinned@ == pre_pins.skip(i as int),
                    updated@.len() == i,
                    sub.id == pre[k as int].id,
                    sub.alive == pre[k as int].alive,
                    sub.pins_issued == pre[k as int].pins_issued,
                    sub.unpins_issued == pre[k as int].unpins_issued,
                    sub.finalized_pinned_remaining == pre[k as int].finalized_pinned_remaining
                        - count_limit,
                    forall|m: int|
                        0 <= m < i ==> (#[trigger] updated@.index(m)) == finalize_pin(
                            pre_pins[m],
                            finalized_hash@,
                            pruned@,
                        ),
                decreases sub.pinned@.len(),
            {
                proof {
                    assert(pre_pins.skip(i as int)[0] == pre_pins[i as int]);
                }
                let mut pin = sub.pinned.remove(0);
                proof {
                    assert(sub.pinned@ =~= pre_pins.skip(i + 1));
                }
                let mut in_set = hash_eq(&pin.hash, finalized_hash);
                let mut m: usize = 0;
                while m < pruned.len()
                    invariant
                        m <= pruned@.len(),
                        pin == pre_pins[i as int],
                        in_set == ({
                            ||| pin.hash@ == finalized_hash@
                            ||| exists|w: int| 0 <= w < m && pruned@[w]@ == pin.hash@
                        }),
                    decreases pruned@.len() - m,
                {
                    if hash_eq(&pruned[m], &pin.hash) {
                        in_set = true;
                    }
                    m += 1;
                }
                if in_set {
                    pin.ignores_limit = false;
                }
                updated.push(pin);
                i += 1;
            }
            sub.pinned = updated;
        } else {
            // Destroy the subscription: release every pin.
            sub.alive = false;
            while sub.pinned.len() > 0
                invariant
                    sub.pins_issued >= sub.unpins_issued,
                    sub.pinned@.len() == sub.pins_issued - sub.unpins_issued,
                    sub.id == pre[k as int].id,
                    sub.alive == false,
                    sub.finalized_pinned_remaining == pre[k as int].finalized_pinned_remaining,
                    forall|a: int, b: int|
                        0 <= a < b < sub.pinned@.len() ==> sub.pinned@[a].hash@
                            != sub.pinned@[b].hash@,
                    forall|a: int|
                        0 <= a < sub.pinned@.len() ==> (#[trigger] sub.pinned@[a].runtime_index)
                            == pre[k as int].pinned@[a].runtime_index,
                decreases sub.pinned@.len(),
            {
                sub.pinned.pop();
                sub.unpins_issued = sub.unpins_issued + 1;
            }
        }
        let ghost gsub = sub;
        self.subscriptions.insert(k, sub);
        proof {
            assert(self.subscriptions@ =~= pre.update(k as int, gsub));
            assert(pre[k as int].wf());
            assert(gsub.wf()) by {
                if survives {
                    assert forall|a: int, b: int| 0 <= a < b < gsub.pinned@.len() implies
                        gsub.pinned@[a].hash@ != gsub.pinned@[b].hash@ by {
                        assert(gsub.pinned@[a] == finalize_pin(
                            pre_pins[a],
                            finalized_hash@,
                            pruned@,
                        ));
                        assert(gsub.pinned@[b] == finalize_pin(
                            pre_pins[b],
                            finalized_hash@,
                            pruned@,
                        ));
                        assert(pre_pins[a].hash@ != pre_pins[b].hash@);
                    }
                }
            }
            assert forall|k2: int| 0 <= k2 < self.subscriptions@.len() implies (
            #[trigger] self.subscriptions@[k2]).wf() by {
                if k2 != k {
                    assert(self.subscriptions@[k2] == pre[k2]);
                    assert(old(self).subscriptions_spec()[k2].wf());
                }
            }
            assert forall|k2: int, i2: int|
                0 <= k2 < self.subscriptions@.len() && 0 <= i2
                    < self.subscriptions@[k2].pinned@.len() implies
                self.subscriptions@[k2].pinned@[i2].runtime_index < self.runtimes@.len() by {
                if k2 != k {
                    assert(self.subscriptions@[k2] == pre[k2]);
                    assert(old(self).subscriptions_spec()[k2].pinned@[i2].runtime_index < old(self).runtimes_spec().len());
                } else {
                    if survives {
                        assert(gsub.pinned@[i2] == finalize_pin(
                            pre_pins[i2],
                            finalized_hash@,
                            pruned@,
                        ));
                    }
                    assert(old(self).subscriptions_spec()[k as int].pinned@[i2].runtime_index
                        < old(self).runtimes_spec().len());
                }
            }
            assert forall|k2: int, l: int| 0 <= k2 < l < self.subscriptions@.len() implies
                self.subscriptions@[k2].id != self.subscriptions@[l].id by {
                assert(old(self).subscriptions_spec()[k2].id != old(self).subscriptions_spec()[l].id);
            }
            assert forall|k2: int| 0 <= k2 < self.subscriptions@.len() implies (
            #[trigger] self.subscriptions@[k2].id) < self.next_subscription_id by {
                assert(old(self).subscriptions_spec()[k2].id < old(self).next_subscription_id_spec());
            }
            assert forall|k2: int|
                0 <= k2 < old(self).subscriptions_spec().len() && (
            #[trigger] old(self).subscriptions_spec()[k2].id) == subscription_id && old(self).subscriptions_spec()[k2].alive implies k2 == k by {
                if k2 != k {
                    assert(old(self).subscriptions_spec()[if k2 < k {
                        k2
                    } else {
                        k as int
                    }].id != old(self).subscriptions_spec()[if k2 < k {
                        k as int
                    } else {
                        k2
                    }].id);
                }
            }
        }
        survives
    }

    /// Returns the number of blocks pinned by the subscription, or `None`
    /// if the subscription is not alive.
    pub fn pinned_count(&self, subscription_id: u64) -> (r: Option<usize>)
        ensures
            match r {
                Some(n) => exists|k: int|
                    0 <= k < self.subscriptions_spec().len() && (
                    #[trigger] self.subscriptions_spec()[k].id) == subscription_id
                        && self.subscriptions_spec()[k].alive
                        && self.subscriptions_spec()[k].pinned@.len() == n,
                None => forall|j: int|
                    0 <= j < self.subscriptions_spec().len() ==> !(
                    (#[trigger] self.subscriptions_spec()[j].id) == subscription_id
                        && self.subscriptions_spec()[j].alive),
            },
    {
        match self.find_subscription(subscription_id) {
            Some(k) => Some(self.subscriptions[k].pinned.len()),
            None => None,
        }
    }

    /// Returns the runtime index pinned for the given block of the
    /// subscription, if any.
    #[verifier::loop_isolation(false)]
    pub fn pinned_runtime_index(&self, subscription_id: u64, hash: &[u8; 32]) -> (r: Option<usize>)
        requires
            self.wf(),
        ensures
            match r {
                Some(ri) => ri < self.runtimes_spec().len() && exists|k: int|
                    0 <= k < self.subscriptions_spec().len() && (
                    #[trigger] self.subscriptions_spec()[k].id) == subscription_id
                        && self.subscriptions_spec()[k].alive && pinned_contains(
                        self.subscriptions_spec()[k].pinned@,
                        hash@,
                    ) && pin_at(self.subscriptions_spec()[k].pinned@, hash@).runtime_index == ri,
                None => forall|k: int|
                    0 <= k < self.subscriptions_spec().len() && (
                    #[trigger] self.subscriptions_spec()[k].id) == subscription_id
                        && self.subscriptions_spec()[k].alive ==> !pinned_contains(
                        self.subscriptions_spec()[k].pinned@,
                        hash@,
                    ),
            },
    {
        let k = match self.find_subscription(subscription_id) {
            Some(k) => k,
            None => {
                proof {
                    assert forall|k2: int|
                        0 <= k2 < self.subscriptions@.len() && (
                    #[trigger] self.subscriptions@[k2].id) == subscription_id
                        && self.subscriptions@[k2].alive implies !pinned_contains(
                        self.subscriptions@[k2].pinned@,
                        hash@,
                    ) by {
                        assert(!((self.subscriptions_spec()[k2].id) == subscription_id
                            && self.subscriptions_spec()[k2].alive));
                    }
                }
                return None;
            },
        };
        let mut i: usize = 0;
        while i < self.subscriptions[k].pinned.len()
            invariant
                k < self.subscriptions@.len(),
                i <= self.subscriptions@[k as int].pinned@.len(),
                forall|j: int|
                    0 <= j < i ==> self.subscriptions@[k as int].pinned@[j].hash@ != hash@,
            decreases self.subscriptions@[k as int].pinned@.len() - i,
        {
            if hash_eq(&self.subscriptions[k].pinned[i].hash, hash) {
                let ri = self.subscriptions[k].pinned[i].runtime_index;
                proof {
                    let pins = self.subscriptions_spec()[k as int].pinned@;
                    assert(pinned_contains(pins, hash@));
                    let c = choose|c: int| 0 <= c < pins.len() && pins[c].hash@ == hash@;
                    if c != i {
                        assert(pins[if c < i {
                            c
                        } else {
                            i as int
                        }].hash@ != pins[if c < i {
                            i as int
                        } else {
                            c
                        }].hash@);
                    }
                    assert(pin_at(pins, hash@).runtime_index == ri);
                    assert(self.subscriptions@[k as int].pinned@[i as int].runtime_index
                        < self.runtimes@.len());
                }
                return Some(ri);
            }
            i += 1;
        }
        proof {
            assert forall|k2: int|
                0 <= k2 < self.subscriptions@.len() && (#[trigger] self.subscriptions@[k2].id)
                    == subscription_id && self.subscriptions@[k2].alive implies !pinned_contains(
                self.subscriptions@[k2].pinned@,
                hash@,
            ) by {
                if k2 != k {
                    assert(self.subscriptions_spec()[if k2 < k {
                        k2
                    } else {
                        k as int
                    }].id != self.subscriptions_spec()[if k2 < k {
                        k as int
                    } else {
                        k2
                    }].id);
                }
            }
        }
        None
    }
}

/// Runtime deduplication: two pinned blocks whose runtimes were inserted with
/// identical `(code, heap_pages)` pairs reference the same runtime entry.
pub proof fn lemma_runtime_deduplication(
    s: &RuntimeService,
    i: int,
    j: int,
)
    requires
        s.wf(),
        0 <= i < s.runtimes_spec().len(),
        0 <= j < s.runtimes_spec().len(),
        runtime_pair_is(
            s.runtimes_spec()[i],
            opt_view(s.runtimes_spec()[j].code),
            opt_view(s.runtimes_spec()[j].heap_pages),
        ),
    ensures
        i == j,
{
    if i < j {
        assert(!runtime_pair_is(
            s.runtimes_spec()[i],
            opt_view(s.runtimes_spec()[j].code),
            opt_view(s.runtimes_spec()[j].heap_pages),
        ));
    } else if j < i {
        assert(!runtime_pair_is(
            s.runtimes_spec()[j],
            opt_view(s.runtimes_spec()[i].code),
            opt_view(s.runtimes_spec()[i].heap_pages),
        ));
    }
}



/// One entry of a decoded call proof: a key the proof covers, and its
/// storage value if it has one.
pub struct ProofEntry {
    pub key: Vec<u8>,
    pub value: Option<Vec<u8>>,
}

/// A decoded and verified Merkle call proof. Verifying the proof against the
/// state root is the trie verifier's work, outside this crate; what remains
/// here is the list of keys the proof covers.
pub struct DecodedCallProof {
    /// The covered keys of the main trie, with their values.
    pub entries: Vec<ProofEntry>,
    /// The Merkle values the proof gives, keyed by the requested key.
    pub merkle_values: Vec<(Vec<u8>, Option<Vec<u8>>)>,
}

impl DecodedCallProof {
    /// The proof covers each key at most once, and gives at most one Merkle
    /// value per requested key.
    pub open spec fn wf(&self) -> bool {
        &&& forall|i: int, j: int|
            0 <= i < j < self.entries@.len() ==> self.entries@[i].key@ != self.entries@[j].key@
        &&& forall|i: int, j: int|
            0 <= i < j < self.merkle_values@.len() ==> self.merkle_values@[i].0@
                != self.merkle_values@[j].0@
    }
}

/// True if the proof gives a Merkle value for the key.
pub open spec fn merkle_covered(values: Seq<(Vec<u8>, Option<Vec<u8>>)>, key: Seq<u8>) -> bool {
    exists|i: int| 0 <= i < values.len() && values[i].0@ == key
}

/// The Merkle value the proof gives for a covered key.
pub open spec fn merkle_value_at(values: Seq<(Vec<u8>, Option<Vec<u8>>)>, key: Seq<u8>) -> Option<
    Seq<u8>,
> {
    let i = choose|i: int| 0 <= i < values.len() && values[i].0@ == key;
    opt_view(values[i].1)
}

/// The main-trie key under which the root of a child trie is stored:
/// `:child_storage:default:` followed by the name of the child trie.
pub open spec fn child_trie_key(child_trie: Seq<u8>) -> Seq<u8> {
    seq![
        0x3au8, 0x63u8, 0x68u8, 0x69u8, 0x6cu8, 0x64u8, 0x5fu8, 0x73u8, 0x74u8, 0x6fu8, 0x72u8,
        0x61u8, 0x67u8, 0x65u8, 0x3au8, 0x64u8, 0x65u8, 0x66u8, 0x61u8, 0x75u8, 0x6cu8, 0x74u8,
        0x3au8,
    ] + child_trie
}

/// True if the proof covers the key.
pub open spec fn proof_covers(entries: Seq<ProofEntry>, key: Seq<u8>) -> bool {
    exists|i: int| 0 <= i < entries.len() && entries[i].key@ == key
}

/// The value the proof gives for a covered key.
pub open spec fn proof_value_at(entries: Seq<ProofEntry>, key: Seq<u8>) -> Option<Seq<u8>> {
    let i = choose|i: int| 0 <= i < entries.len() && entries[i].key@ == key;
    opt_view(entries[i].value)
}

/// Error that can happen when calling a runtime function.
#[derive(Debug, Copy, Clone, PartialEq, Eq, Structural)]
pub enum RuntimeCallError {
    /// The runtime of the block is not valid.
    InvalidRuntime,
    /// One or more entries are missing from the call proof.
    MissingProofEntry,
    /// The call proof contains a reference to a child trie whose root hash
    /// is not thirty-two bytes.
    InvalidChildTrieRoot,
    /// The call proof could not be retrieved from the network.
    CallProof,
}

impl RuntimeCallError {
    /// Returns `true` if this is caused by networking issues, as opposed to
    /// a consensus-related issue.
    pub fn is_network_problem(&self) -> (r: bool)
        ensures
            r == (self matches RuntimeCallError::CallProof),
    {
        match self {
            RuntimeCallError::CallProof => true,
            _ => false,
        }
    }
}

/// Access to a pinned block's runtime for the duration of one call: queries
/// are answered from the call proof, and from nothing else.
pub struct RuntimeCall {
    /// The decoded call proof.
    pub call_proof: DecodedCallProof,
    /// State trie root hash of the block the call is made against.
    pub block_state_root_hash: [u8; 32],
}

impl RuntimeCall {
    /// Finds the given key in the call proof and returns the associated
    /// storage value. A key the proof does not cover is an error: no other
    /// source is consulted.
    #[verifier::loop_isolation(false)]
    pub fn storage_entry(&self, requested_key: &[u8]) -> (r: Result<
        Option<Vec<u8>>,
        RuntimeCallError,
    >)
        requires
            self.call_proof.wf(),
        ensures
            match r {
                Ok(v) => proof_covers(self.call_proof.entries@, requested_key@) && opt_view(v)
                    == proof_value_at(self.call_proof.entries@, requested_key@),
                Err(e) => e == RuntimeCallError::MissingProofEntry && !proof_covers(
                    self.call_proof.entries@,
                    requested_key@,
                ),
            },
    {
        let mut i: usize = 0;
        while i < self.call_proof.entries.len()
            invariant
                i <= self.call_proof.entries@.len(),
                forall|j: int| 0 <= j < i ==> self.call_proof.entries@[j].key@ != requested_key@,
            decreases self.call_proof.entries@.len() - i,
        {
            if bytes_eq(&self.call_proof.entries[i].key, &crate::bytes::copy_bytes(requested_key)) {
                let v: Option<Vec<u8>> = match &self.call_proof.entries[i].value {
                    Some(x) => Some(clone_bytes(x)),
                    None => None,
                };
                proof {
                    assert(proof_covers(self.call_proof.entries@, requested_key@));
                    let w = choose|w: int|
                        0 <= w < self.call_proof.entries@.len()
                            && self.call_proof.entries@[w].key@ == requested_key@;
                    assert(w == i) by {
                        if w != i {
                            assert(self.call_proof.entries@[if w < i { w } else { i as int }].key@
                                != self.call_proof.entries@[if w < i { i as int } else { w }].key@);
                        }
                    }
                }
                return Ok(v);
            }
            i += 1;
        }
        Err(RuntimeCallError::MissingProofEntry)
    }

    /// Finds in the proof the covered key that follows `key_before` in
    /// lexicographic order. The proof is the only source: the result is the
    /// least covered key above the bound, and `None` comes back exactly when
    /// no covered key is above it.
    #[verifier::loop_isolation(false)]
    pub fn next_key(&self, key_before: &[u8]) -> (r: Option<Vec<u8>>)
        ensures
            match r {
                Some(k) => {
                    &&& proof_covers(self.call_proof.entries@, k@)
                    &&& crate::bytes::bytes_lt(key_before@, k@)
                    &&& forall|j: int|
                        0 <= j < self.call_proof.entries@.len() && crate::bytes::bytes_lt(
                            key_before@,
                            (#[trigger] self.call_proof.entries@[j]).key@,
                        ) ==> !crate::bytes::bytes_lt(self.call_proof.entries@[j].key@, k@)
                },
                None => forall|j: int|
                    0 <= j < self.call_proof.entries@.len() ==> !crate::bytes::bytes_lt(
                        key_before@,
                        (#[trigger] self.call_proof.entries@[j]).key@,
                    ),
            },
    {
        let mut best: Option<Vec<u8>> = None;
        let mut i: usize = 0;
        while i < self.call_proof.entries.len()
            invariant
                i <= self.call_proof.entries@.len(),
                match best {
                    Some(b) => {
                        &&& proof_covers(self.call_proof.entries@, b@)
                        &&& crate::bytes::bytes_lt(key_before@, b@)
                        &&& forall|j: int|
                            0 <= j < i && crate::bytes::bytes_lt(
                                key_before@,
                                (#[trigger] self.call_proof.entries@[j]).key@,
                            ) ==> !crate::bytes::bytes_lt(self.call_proof.entries@[j].key@, b@)
                    },
                    None => forall|j: int|
                        0 <= j < i ==> !crate::bytes::bytes_lt(
                            key_before@,
                            (#[trigger] self.call_proof.entries@[j]).key@,
                        ),
                },
            decreases self.call_proof.entries@.len() - i,
        {
            let key = &self.call_proof.entries[i].key;
            if lt_exec(key_before, key.as_slice()) {
                let take: bool = match &best {
                    Some(b) => lt_exec(key.as_slice(), b.as_slice()),
                    None => true,
                };
                if take {
                    let ghost old_best = best;
                    proof {
                        assert(self.call_proof.entries@[i as int].key@ == key@);
                    }
                    best = Some(clone_bytes(key));
                    proof {
                        let nb = best->Some_0@;
                        assert(nb == key@);
                        assert forall|j: int|
                            0 <= j < i + 1 && crate::bytes::bytes_lt(
                                key_before@,
                                (#[trigger] self.call_proof.entries@[j]).key@,
                            ) implies !crate::bytes::bytes_lt(
                            self.call_proof.entries@[j].key@,
                            nb,
                        ) by {
                            if j < i {
                                if old_best is Some {
                                    let ob = old_best->Some_0;
                                    let c = self.call_proof.entries@[j].key@;
                                    assert(!crate::bytes::bytes_lt(c, ob@));
                                    if crate::bytes::bytes_lt(c, nb) {
                                        crate::bytes::lemma_bytes_lt_trans(c, nb, ob@);
                                    }
                                }
                            } else {
                                crate::bytes::lemma_bytes_lt_irrefl(nb);
                            }
                        }
                    }
                } else {
                    proof {
                        let b = best->Some_0@;
                        assert(!crate::bytes::bytes_lt(self.call_proof.entries@[i as int].key@, b));
                    }
                }
            }
            i += 1;
        }
        best
    }

    /// Finds in the proof the Merkle value given for the requested key.
    /// A key the proof gives no Merkle value for is an error: no other
    /// source is consulted.
    #[verifier::loop_isolation(false)]
    pub fn closest_descendant_merkle_value(&self, key: &[u8]) -> (r: Result<
        Option<Vec<u8>>,
        RuntimeCallError,
    >)
        requires
            self.call_proof.wf(),
        ensures
            match r {
                Ok(v) => merkle_covered(self.call_proof.merkle_values@, key@) && opt_view(v)
                    == merkle_value_at(self.call_proof.merkle_values@, key@),
                Err(e) => e == RuntimeCallError::MissingProofEntry && !merkle_covered(
                    self.call_proof.merkle_values@,
                    key@,
                ),
            },
    {
        let mut i: usize = 0;
        while i < self.call_proof.merkle_values.len()
            invariant
                i <= self.call_proof.merkle_values@.len(),
                forall|j: int|
                    0 <= j < i ==> (#[trigger] self.call_proof.merkle_values@[j].0)@ != key@,
            decreases self.call_proof.merkle_values@.len() - i,
        {
            if bytes_eq(&self.call_proof.merkle_values[i].0, &crate::bytes::copy_bytes(key)) {
                let v: Option<Vec<u8>> = match &self.call_proof.merkle_values[i].1 {
                    Some(x) => Some(clone_bytes(x)),
                    None => None,
                };
                proof {
                    assert(merkle_covered(self.call_proof.merkle_values@, key@));
                    let c = choose|c: int|
                        0 <= c < self.call_proof.merkle_values@.len()
                            && self.call_proof.merkle_values@[c].0@ == key@;
                    if c != i {
                        assert(self.call_proof.merkle_values@[if c < i {
                            c
                        } else {
                            i as int
                        }].0@ != self.call_proof.merkle_values@[if c < i {
                            i as int
                        } else {
                            c
                        }].0@);
                    }
                }
                return Ok(v);
            }
            i += 1;
        }
        Err(RuntimeCallError::MissingProofEntry)
    }

    /// Looks up the root of a child trie: the storage value of
    /// `:child_storage:default:<child>` in the main trie, which must be a
    /// thirty-two byte hash. `Ok(None)` means the child trie is known not to
    /// exist.
    pub fn child_trie_root(&self, child_trie: &[u8]) -> (r: Result<
        Option<[u8; 32]>,
        RuntimeCallError,
    >)
        requires
            self.call_proof.wf(),
        ensures
            ({
                let key = child_trie_key(child_trie@);
                match r {
                    Ok(Some(h)) => proof_covers(self.call_proof.entries@, key) && proof_value_at(
                        self.call_proof.entries@,
                        key,
                    ) == Some(h@),
                    Ok(None) => proof_covers(self.call_proof.entries@, key) && proof_value_at(
                        self.call_proof.entries@,
                        key,
                    ) is None,
                    Err(RuntimeCallError::MissingProofEntry) => !proof_covers(
                        self.call_proof.entries@,
                        key,
                    ),
                    Err(RuntimeCallError::InvalidChildTrieRoot) => proof_covers(
                        self.call_proof.entries@,
                        key,
                    ) && (proof_value_at(self.call_proof.entries@, key) matches Some(v) && v.len()
                        != 32),
                    Err(_) => false,
                }
            }),
    {
        let mut key: Vec<u8> = Vec::new();
        let prefix: &[u8] = &[
            0x3a, 0x63, 0x68, 0x69, 0x6c, 0x64, 0x5f, 0x73, 0x74, 0x6f, 0x72, 0x61, 0x67, 0x65,
            0x3a, 0x64, 0x65, 0x66, 0x61, 0x75, 0x6c, 0x74, 0x3a,
        ];
        push_bytes(&mut key, prefix);
        push_bytes(&mut key, child_trie);
        proof {
            assert(key@ =~= child_trie_key(child_trie@));
        }
        match self.storage_entry(key.as_slice()) {
            Err(e) => Err(e),
            Ok(None) => Ok(None),
            Ok(Some(value)) => {
                if value.len() != 32 {
                    return Err(RuntimeCallError::InvalidChildTrieRoot);
                }
                let mut root: [u8; 32] = [0; 32];
                let mut i: usize = 0;
                while i < 32
                    invariant
                        i <= 32,
                        value@.len() == 32,
                        forall|j: int| 0 <= j < i ==> root@[j] == value@[j],
                    decreases 32 - i,
                {
                    root[i] = value[i];
                    i += 1;
                }
                proof {
                    assert(root@ =~= value@);
                }
                Ok(Some(root))
            },
        }
    }
}

/// Executable lexicographic comparison.
pub fn lt_exec(a: &[u8], b: &[u8]) -> (r: bool)
    ensures
        r == crate::bytes::bytes_lt(a@, b@),
{
    proof {
        assert(a@.skip(0) =~= a@);
        assert(b@.skip(0) =~= b@);
    }
    let mut i: usize = 0;
    loop
        invariant
            i <= a@.len(),
            i <= b@.len(),
            crate::bytes::bytes_lt(a@, b@) == crate::bytes::bytes_lt(a@.skip(i as int), b@.skip(i as int)),
            forall|j: int| 0 <= j < i ==> a@[j] == b@[j],
        decreases a@.len() - i,
    {
        if i >= b.len() {
            proof {
                assert(b@.skip(i as int).len() == 0);
            }
            return false;
        }
        if i >= a.len() {
            proof {
                assert(a@.skip(i as int).len() == 0);
                assert(b@.skip(i as int).len() > 0);
            }
            return true;
        }
        let x = a[i];
        let y = b[i];
        proof {
            assert(a@.skip(i as int)[0] == a@[i as int]);
            assert(b@.skip(i as int)[0] == b@[i as int]);
            assert(a@.skip(i as int).skip(1) =~= a@.skip(i + 1));
            assert(b@.skip(i as int).skip(1) =~= b@.skip(i + 1));
        }
        if x < y {
            return true;
        }
        if x > y {
            return false;
        }
        i += 1;
    }
}

/// A block tracked by the runtime-aware tree.
pub struct TreeBlock {
    /// Hash of the block.
    pub hash: [u8; 32],
    /// Hash of the parent of the block.
    pub parent_hash: [u8; 32],
    /// Index of the block's runtime, once its download has finished.
    pub runtime_index: Option<usize>,
    /// State of the runtime download of the block.
    pub fetch: crate::parachain::FetchState,
    /// True once the block was reported on the output side.
    pub reported: bool,
}

/// The runtime-aware tree: blocks enter on the input side, and leave on the
/// output side only once their runtime is known and their parent has left
/// before them.
pub struct AsyncTree {
    /// Hash of the output-finalized block.
    pub finalized_hash: [u8; 32],
    /// Hash of the best block, if one was signalled; `None` means the
    /// finalized block is the best.
    pub best_hash: Option<[u8; 32]>,
    /// The non-finalized blocks.
    pub blocks: Vec<TreeBlock>,
}

/// True if some reported block of the tree has the given hash.
pub open spec fn reported_with_hash(blocks: Seq<TreeBlock>, h: Seq<u8>) -> bool {
    exists|i: int| 0 <= i < blocks.len() && blocks[i].reported && blocks[i].hash@ == h
}

/// True if the block at position `i` can leave on the output side: it was
/// not reported yet, its runtime is known, and its parent already left (or
/// is the finalized block).
pub open spec fn output_eligible(blocks: Seq<TreeBlock>, finalized: Seq<u8>, i: int) -> bool {
    &&& 0 <= i < blocks.len()
    &&& !blocks[i].reported
    &&& blocks[i].runtime_index is Some
    &&& (blocks[i].parent_hash@ == finalized || reported_with_hash(
        blocks,
        blocks[i].parent_hash@,
    ))
}

/// The parent hash of the reported block with the given hash; meaningful
/// when the tree holds one (the tree invariant makes it unique).
pub open spec fn reported_parent_of(blocks: Seq<TreeBlock>, h: Seq<u8>) -> Seq<u8> {
    blocks[choose|i: int|
        0 <= i < blocks.len() && blocks[i].reported && blocks[i].hash@ == h].parent_hash@
}

/// True if a block survives the finalization of the block `h` whose parent
/// is `parent`: the finalized block itself leaves, and so do its reported
/// competitors — the other reported children of the previous finalized
/// block.
pub open spec fn keep_on_finalize(b: TreeBlock, h: Seq<u8>, parent: Seq<u8>) -> bool {
    &&& b.hash@ != h
    &&& !(b.reported && b.parent_hash@ == parent)
}

/// The blocks surviving the finalization, in order.
pub open spec fn finalize_filtered(blocks: Seq<TreeBlock>, h: Seq<u8>, parent: Seq<u8>) -> Seq<
    TreeBlock,
>
    decreases blocks.len(),
{
    if blocks.len() == 0 {
        Seq::empty()
    } else {
        let rest = finalize_filtered(blocks.drop_last(), h, parent);
        if keep_on_finalize(blocks.last(), h, parent) {
            rest.push(blocks.last())
        } else {
            rest
        }
    }
}

/// The hashes of the reported blocks pruned by the finalization, in order.
pub open spec fn finalize_pruned(blocks: Seq<TreeBlock>, h: Seq<u8>, parent: Seq<u8>) -> Seq<
    [u8; 32],
>
    decreases blocks.len(),
{
    if blocks.len() == 0 {
        Seq::empty()
    } else {
        let rest = finalize_pruned(blocks.drop_last(), h, parent);
        if blocks.last().hash@ != h && blocks.last().reported && blocks.last().parent_hash@
            == parent {
            rest.push(blocks.last().hash)
        } else {
            rest
        }
    }
}

impl AsyncTree {
    /// The hashes of the blocks are pairwise distinct.
    pub open spec fn wf(&self) -> bool {
        forall|a: int, b: int|
            0 <= a < b < self.blocks@.len() ==> self.blocks@[a].hash@ != self.blocks@[b].hash@
    }

    /// Advances the output side: reports the first block whose runtime is
    /// known and whose parent was already reported (or is the finalized
    /// block), and returns nothing exactly when no block is eligible. The
    /// parent hash of every reported block therefore refers to a previously
    /// reported block or to the finalized block.
    #[verifier::loop_isolation(false)]
    pub fn try_advance_output(&mut self) -> (r: Option<usize>)
        ensures
            match r {
                Some(k) => {
                    &&& k < final(self).blocks@.len()
                    &&& final(self).blocks@[k as int].reported
                    &&& output_eligible(old(self).blocks@, old(self).finalized_hash@, k as int)
                    &&& final(self).blocks@.len() == old(self).blocks@.len()
                    &&& forall|j: int|
                        0 <= j < final(self).blocks@.len() && j != k ==> final(self).blocks@.index(
                            j,
                        ) == old(self).blocks@.index(j)
                    &&& final(self).finalized_hash == old(self).finalized_hash
                },
                None => *final(self) == *old(self) && forall|i: int|
                    !output_eligible(old(self).blocks@, old(self).finalized_hash@, i),
            },
    {
        let mut i: usize = 0;
        while i < self.blocks.len()
            invariant
                i <= self.blocks@.len(),
                *self == *old(self),
                forall|m: int| 0 <= m < i ==> !output_eligible(
                    self.blocks@,
                    self.finalized_hash@,
                    m,
                ),
            decreases self.blocks@.len() - i,
        {
            let candidate: bool = !self.blocks[i].reported && self.blocks[i].runtime_index.is_some();
            if candidate {
                let parent_ok: bool = if hash_eq(&self.blocks[i].parent_hash, &self.finalized_hash) {
                    true
                } else {
                    let mut found = false;
                    let mut j: usize = 0;
                    while j < self.blocks.len()
                        invariant
                            i < self.blocks@.len(),
                            j <= self.blocks@.len(),
                            *self == *old(self),
                            found == exists|m: int|
                                0 <= m < j && self.blocks@[m].reported && self.blocks@[m].hash@
                                    == self.blocks@[i as int].parent_hash@,
                        decreases self.blocks@.len() - j,
                    {
                        if self.blocks[j].reported && hash_eq(
                            &self.blocks[j].hash,
                            &self.blocks[i].parent_hash,
                        ) {
                            found = true;
                        }
                        j += 1;
                    }
                    found
                };
                if parent_ok {
                    let ghost pre = self.blocks@;
                    let mut b = self.blocks.remove(i);
                    b.reported = true;
                    let ghost gb = b;
                    self.blocks.insert(i, b);
                    proof {
                        assert(self.blocks@ =~= pre.update(i as int, gb));
                        assert(output_eligible(pre, self.finalized_hash@, i as int));
                    }
                    return Some(i);
                }
            }
            i += 1;
        }
        proof {
            assert forall|m: int| !output_eligible(
                self.blocks@,
                self.finalized_hash@,
                m,
            ) by {
                if 0 <= m < self.blocks@.len() {
                    assert(!output_eligible(self.blocks@, self.finalized_hash@, m));
                }
            }
        }
        None
    }

    /// Advances the output finalization to the given reported block: the
    /// finalized block leaves the tree, its reported competitors — the other
    /// reported children of the previous finalized block — are pruned with
    /// it, and every other block is kept. Every pruned hash was previously
    /// reported, so callers can unpin everything pinned against them.
    #[verifier::loop_isolation(false)]
    #[verifier::rlimit(60)]
    pub fn finalize_output(&mut self, hash: &[u8; 32]) -> (r: Vec<[u8; 32]>)
        requires
            old(self).wf(),
            reported_with_hash(old(self).blocks@, hash@),
        ensures
            final(self).wf(),
            final(self).finalized_hash@ == hash@,
            ({
                let parent = reported_parent_of(old(self).blocks@, hash@);
                &&& final(self).blocks@ == finalize_filtered(old(self).blocks@, hash@, parent)
                &&& r@ == finalize_pruned(old(self).blocks@, hash@, parent)
            }),
            forall|k: int|
                0 <= k < r@.len() ==> reported_with_hash(old(self).blocks@, #[trigger] r@[k]@)
                    && r@[k]@ != hash@,
    {
        let mut parent: [u8; 32] = [0; 32];
        let mut i: usize = 0;
        let mut found = false;
        while i < self.blocks.len()
            invariant
                i <= self.blocks@.len(),
                *self == *old(self),
                found ==> exists|m: int|
                    0 <= m < self.blocks@.len() && self.blocks@[m].reported
                        && self.blocks@[m].hash@ == hash@ && self.blocks@[m].parent_hash@
                        == parent@,
                !found ==> forall|m: int|
                    0 <= m < i ==> !(self.blocks@[m].reported && self.blocks@[m].hash@ == hash@),
            decreases self.blocks@.len() - i,
        {
            if !found && self.blocks[i].reported && hash_eq(&self.blocks[i].hash, hash) {
                parent = self.blocks[i].parent_hash;
                found = true;
            }
            i += 1;
        }
        proof {
            assert(found);
            let w = choose|m: int|
                0 <= m < self.blocks@.len() && self.blocks@[m].reported && self.blocks@[m].hash@
                    == hash@ && self.blocks@[m].parent_hash@ == parent@;
            let c = choose|m: int|
                0 <= m < self.blocks@.len() && self.blocks@[m].reported && self.blocks@[m].hash@
                    == hash@;
            if w != c {
                assert(self.blocks@[if w < c {
                    w
                } else {
                    c
                }].hash@ != self.blocks@[if w < c {
                    c
                } else {
                    w
                }].hash@);
            }
            assert(reported_parent_of(self.blocks@, hash@) == parent@);
        }

        // Split the tree: the finalized block and its reported competitors
        // leave, everything else is kept.
        let mut pruned: Vec<[u8; 32]> = Vec::new();
        let ghost pre = self.blocks@;
        let mut kept: Vec<TreeBlock> = Vec::new();
        let mut j: usize = 0;
        let total: usize = self.blocks.len();
        while self.blocks.len() > 0
            invariant
                j <= total,
                pre.len() == total,
                self.blocks@ == pre.skip(j as int),
                self.finalized_hash == old(self).finalized_hash,
                pre == old(self).blocks@,
                found,
                parent@ == reported_parent_of(pre, hash@),
                kept@ == finalize_filtered(pre.take(j as int), hash@, parent@),
                pruned@ == finalize_pruned(pre.take(j as int), hash@, parent@),
                forall|k: int|
                    0 <= k < pruned@.len() ==> reported_with_hash(pre, #[trigger] pruned@[k]@)
                        && pruned@[k]@ != hash@,
            decreases self.blocks@.len(),
        {
            proof {
                assert(pre.take(j + 1).drop_last() =~= pre.take(j as int));
                assert(pre.take(j + 1).last() == pre[j as int]);
                assert(pre.skip(j as int)[0] == pre[j as int]);
            }
            let b = self.blocks.remove(0);
            proof {
                assert(self.blocks@ =~= pre.skip(j + 1));
            }
            let is_finalized = hash_eq(&b.hash, hash);
            let is_pruned_competitor = !is_finalized && b.reported && hash_eq(
                &b.parent_hash,
                &parent,
            );
            if is_finalized {
                // The finalized block leaves the tree.
            } else if is_pruned_competitor {
                proof {
                    assert(pre[j as int].reported && pre[j as int].hash@ == b.hash@);
                }
                pruned.push(b.hash);
            } else {
                kept.push(b);
            }
            j += 1;
        }
        proof {
            assert(pre.take(pre.len() as int) =~= pre);
            lemma_finalize_filtered_from(pre, hash@, parent@);
            lemma_finalize_filtered_distinct(pre, hash@, parent@);
        }
        self.blocks = kept;
        self.finalized_hash = *hash;
        pruned
    }
}

/// Every block surviving a finalization comes from the original list.
pub proof fn lemma_finalize_filtered_from(blocks: Seq<TreeBlock>, h: Seq<u8>, parent: Seq<u8>)
    ensures
        forall|k: int|
            0 <= k < finalize_filtered(blocks, h, parent).len() ==> exists|j: int|
                0 <= j < blocks.len() && (#[trigger] finalize_filtered(blocks, h, parent)[k])
                    == blocks[j],
    decreases blocks.len(),
{
    if blocks.len() > 0 {
        let prefix = blocks.drop_last();
        lemma_finalize_filtered_from(prefix, h, parent);
        let rest = finalize_filtered(prefix, h, parent);
        let whole = finalize_filtered(blocks, h, parent);
        assert forall|k: int| 0 <= k < whole.len() implies exists|j: int|
            0 <= j < blocks.len() && (#[trigger] whole[k]) == #[trigger] blocks[j] by {
            if k < rest.len() {
                let j = choose|j: int| 0 <= j < prefix.len() && rest[k] == #[trigger] prefix[j];
                assert(whole[k] == blocks[j]);
            } else {
                assert(whole[k] == blocks[blocks.len() - 1]);
            }
        }
    }
}

/// Hash distinctness carries over to the blocks surviving a finalization.
pub proof fn lemma_finalize_filtered_distinct(blocks: Seq<TreeBlock>, h: Seq<u8>, parent: Seq<u8>)
    requires
        forall|x: int, y: int| 0 <= x < y < blocks.len() ==> blocks[x].hash@ != blocks[y].hash@,
    ensures
        forall|a: int, b: int|
            0 <= a < b < finalize_filtered(blocks, h, parent).len() ==> finalize_filtered(
                blocks,
                h,
                parent,
            )[a].hash@ != finalize_filtered(blocks, h, parent)[b].hash@,
    decreases blocks.len(),
{
    if blocks.len() > 0 {
        let prefix = blocks.drop_last();
        assert forall|x: int, y: int| 0 <= x < y < prefix.len() implies prefix[x].hash@
            != prefix[y].hash@ by {
            assert(blocks[x].hash@ != blocks[y].hash@);
        }
        lemma_finalize_filtered_distinct(prefix, h, parent);
        lemma_finalize_filtered_from(prefix, h, parent);
        let rest = finalize_filtered(prefix, h, parent);
        let whole = finalize_filtered(blocks, h, parent);
        assert forall|a: int, b: int| 0 <= a < b < whole.len() implies whole[a].hash@
            != whole[b].hash@ by {
            if b == whole.len() - 1 && whole.len() > rest.len() {
                assert(whole[a] == rest[a]);
                let j = choose|j: int| 0 <= j < prefix.len() && rest[a] == #[trigger] prefix[j];
                assert(blocks[j].hash@ != blocks[blocks.len() - 1].hash@);
            } else {
                assert(whole[a] == rest[a]);
                assert(whole[b] == rest[b]);
            }
        }
    }
}

impl AsyncTree {
    /// Picks the oldest block whose runtime download must start now: the
    /// first block without a runtime whose download is not in progress and
    /// not cooling down. At most two downloads run at a time.
    #[verifier::loop_isolation(false)]
    pub fn next_necessary_download(
        &self,
        now_ms: u64,
        retry_after_ms: u64,
        in_flight: usize,
    ) -> (r: Option<usize>)
        ensures
            match r {
                Some(k) => {
                    &&& in_flight < 2
                    &&& k < self.blocks@.len()
                    &&& self.blocks@[k as int].runtime_index is None
                    &&& download_ready(self.blocks@[k as int], now_ms, retry_after_ms)
                    &&& forall|m: int|
                        0 <= m < k ==> !((#[trigger] self.blocks@[m].runtime_index) is None
                            && download_ready(self.blocks@[m], now_ms, retry_after_ms))
                },
                None => in_flight >= 2 || forall|m: int|
                    0 <= m < self.blocks@.len() ==> !((#[trigger] self.blocks@[m].runtime_index)
                        is None && download_ready(self.blocks@[m], now_ms, retry_after_ms)),
            },
    {
        if in_flight >= 2 {
            return None;
        }
        let mut i: usize = 0;
        while i < self.blocks.len()
            invariant
                i <= self.blocks@.len(),
                forall|m: int|
                    0 <= m < i ==> !((#[trigger] self.blocks@[m].runtime_index) is None
                        && download_ready(self.blocks@[m], now_ms, retry_after_ms)),
            decreases self.blocks@.len() - i,
        {
            if self.blocks[i].runtime_index.is_none() && crate::parachain::fetch_ready(
                self.blocks[i].fetch,
                now_ms,
                retry_after_ms,
            ) {
                return Some(i);
            }
            i += 1;
        }
        None
    }

    /// Records that the download of the block at position `k` has started.
    pub fn download_started(&mut self, k: usize)
        requires
            k < old(self).blocks@.len(),
        ensures
            final(self).blocks@ == old(self).blocks@.update(
                k as int,
                TreeBlock { fetch: crate::parachain::FetchState::InProgress, ..old(self).blocks@[k as int] },
            ),
            final(self).finalized_hash == old(self).finalized_hash,
    {
        let ghost pre = self.blocks@;
        let mut b = self.blocks.remove(k);
        b.fetch = crate::parachain::FetchState::InProgress;
        let ghost gb = b;
        self.blocks.insert(k, b);
        proof {
            assert(self.blocks@ =~= pre.update(k as int, gb));
        }
    }

    /// Records that the download of the block at position `k` failed at the
    /// given instant; the block cools down before a retry.
    pub fn download_failed(&mut self, k: usize, now_ms: u64)
        requires
            k < old(self).blocks@.len(),
        ensures
            final(self).blocks@ == old(self).blocks@.update(
                k as int,
                TreeBlock {
                    fetch: crate::parachain::FetchState::Failed { when_ms: now_ms },
                    ..old(self).blocks@[k as int]
                },
            ),
            final(self).finalized_hash == old(self).finalized_hash,
    {
        let ghost pre = self.blocks@;
        let mut b = self.blocks.remove(k);
        b.fetch = crate::parachain::FetchState::Failed { when_ms: now_ms };
        let ghost gb = b;
        self.blocks.insert(k, b);
        proof {
            assert(self.blocks@ =~= pre.update(k as int, gb));
        }
    }

    /// Records that the download of the block at position `k` finished with
    /// the given runtime.
    pub fn download_finished(&mut self, k: usize, runtime_index: usize)
        requires
            k < old(self).blocks@.len(),
        ensures
            final(self).blocks@ == old(self).blocks@.update(
                k as int,
                TreeBlock {
                    fetch: crate::parachain::FetchState::Done,
                    runtime_index: Some(runtime_index),
                    ..old(self).blocks@[k as int]
                },
            ),
            final(self).finalized_hash == old(self).finalized_hash,
    {
        let ghost pre = self.blocks@;
        let mut b = self.blocks.remove(k);
        b.fetch = crate::parachain::FetchState::Done;
        b.runtime_index = Some(runtime_index);
        let ghost gb = b;
        self.blocks.insert(k, b);
        proof {
            assert(self.blocks@ =~= pre.update(k as int, gb));
        }
    }
}

/// True if a download for a block in this fetch state must start now.
pub open spec fn download_ready(b: TreeBlock, now_ms: u64, retry_after_ms: u64) -> bool {
    match b.fetch {
        crate::parachain::FetchState::NotStarted => true,
        crate::parachain::FetchState::InProgress => false,
        crate::parachain::FetchState::Failed { when_ms } => now_ms >= when_ms + retry_after_ms,
        crate::parachain::FetchState::Done => false,
    }
}




impl RuntimeService {
    /// Returns the storage value and Merkle value of the `:code` key of the
    /// given runtime, as they were downloaded.
    pub fn runtime_storage_merkle_values(&self, runtime_index: usize) -> (r: Option<(
        &Option<Vec<u8>>,
        &Option<Vec<u8>>,
    )>)
        ensures
            match r {
                Some(p) => runtime_index < self.runtimes_spec().len() && p.0
                    == &self.runtimes_spec()[runtime_index as int].code && p.1
                    == &self.runtimes_spec()[runtime_index as int].code_merkle_value,
                None => runtime_index >= self.runtimes_spec().len(),
            },
    {
        if runtime_index >= self.runtimes.len() {
            return None;
        }
        Some(
            (
                &self.runtimes[runtime_index].code,
                &self.runtimes[runtime_index].code_merkle_value,
            ),
        )
    }
}



/// One entry of a subscription snapshot: a reported block and its parent.
#[derive(Debug)]
pub struct TreeSnapshotEntry {
    /// Hash of the block.
    pub hash: [u8; 32],
    /// Hash of the parent of the block.
    pub parent_hash: [u8; 32],
    /// True if this block is the best block of the chain.
    pub is_new_best: bool,
}

impl AsyncTree {
    /// Signals the new best block: either a block of the tree, or `None` for
    /// the finalized block.
    pub fn input_set_best_block(&mut self, best_hash: Option<[u8; 32]>)
        ensures
            final(self).best_hash == best_hash,
            final(self).blocks == old(self).blocks,
            final(self).finalized_hash == old(self).finalized_hash,
    {
        self.best_hash = best_hash;
    }
}

/// True if the snapshot holds an entry with the given hash.
pub open spec fn snapshot_contains(entries: Seq<TreeSnapshotEntry>, h: Seq<u8>) -> bool {
    exists|i: int| 0 <= i < entries.len() && entries[i].hash@ == h
}

impl AsyncTree {
    /// Returns whether the snapshot being built holds the hash.
    #[verifier::loop_isolation(false)]
    fn snapshot_contains_exec(entries: &Vec<TreeSnapshotEntry>, h: &[u8; 32]) -> (r: bool)
        ensures
            r == snapshot_contains(entries@, h@),
    {
        let mut i: usize = 0;
        while i < entries.len()
            invariant
                i <= entries@.len(),
                forall|j: int| 0 <= j < i ==> (#[trigger] entries@[j]).hash@ != h@,
            decreases entries@.len() - i,
        {
            if hash_eq(&entries[i].hash, h) {
                return true;
            }
            i += 1;
        }
        false
    }

    /// The snapshot handed to a fresh subscription: the reported blocks in
    /// ancestry order, parents strictly before their children, each block
    /// once. This is what answers a subscription request.
    #[verifier::loop_isolation(false)]
    pub fn subscription_snapshot(&self) -> (r: Vec<TreeSnapshotEntry>)
        ensures
            forall|i: int|
                0 <= i < r@.len() ==> ((#[trigger] r@[i]).parent_hash@ == self.finalized_hash@
                    || exists|j: int| 0 <= j < i && (#[trigger] r@[j].hash@) == r@[i].parent_hash@),
            forall|i: int|
                0 <= i < r@.len() ==> reported_with_hash(self.blocks@, (#[trigger] r@[i]).hash@),
            forall|i: int, j: int| 0 <= i < j < r@.len() ==> r@[i].hash@ != r@[j].hash@,
            forall|i: int|
                0 <= i < r@.len() ==> ((#[trigger] r@[i]).is_new_best == (self.best_hash matches
                    Some(b) && b@ == r@[i].hash@)),
            forall|i: int, j: int|
                0 <= i < j < r@.len() ==> !(r@[i].is_new_best && r@[j].is_new_best),
    {
        let mut out: Vec<TreeSnapshotEntry> = Vec::new();
        let mut pass: usize = 0;
        while pass < self.blocks.len()
            invariant
                forall|i: int|
                    0 <= i < out@.len() ==> ((#[trigger] out@[i]).parent_hash@
                        == self.finalized_hash@ || exists|j: int|
                        0 <= j < i && (#[trigger] out@[j].hash@) == out@[i].parent_hash@),
                forall|i: int|
                    0 <= i < out@.len() ==> reported_with_hash(
                        self.blocks@,
                        (#[trigger] out@[i]).hash@,
                    ),
                forall|i: int, j: int| 0 <= i < j < out@.len() ==> out@[i].hash@ != out@[j].hash@,
                forall|i: int|
                    0 <= i < out@.len() ==> ((#[trigger] out@[i]).is_new_best == (self.best_hash
                        matches Some(b2) && b2@ == out@[i].hash@)),
            decreases self.blocks@.len() - pass,
        {
            let mut b: usize = 0;
            while b < self.blocks.len()
                invariant
                    b <= self.blocks@.len(),
                    forall|i: int|
                        0 <= i < out@.len() ==> ((#[trigger] out@[i]).parent_hash@
                            == self.finalized_hash@ || exists|j: int|
                            0 <= j < i && (#[trigger] out@[j].hash@) == out@[i].parent_hash@),
                    forall|i: int|
                        0 <= i < out@.len() ==> reported_with_hash(
                            self.blocks@,
                            (#[trigger] out@[i]).hash@,
                        ),
                    forall|i: int, j: int|
                        0 <= i < j < out@.len() ==> out@[i].hash@ != out@[j].hash@,
                    forall|i: int|
                        0 <= i < out@.len() ==> ((#[trigger] out@[i]).is_new_best == (
                        self.best_hash matches Some(b2) && b2@ == out@[i].hash@)),
                decreases self.blocks@.len() - b,
            {
                let eligible: bool = self.blocks[b].reported && !Self::snapshot_contains_exec(
                    &out,
                    &self.blocks[b].hash,
                ) && (hash_eq(&self.blocks[b].parent_hash, &self.finalized_hash)
                    || Self::snapshot_contains_exec(&out, &self.blocks[b].parent_hash));
                if eligible {
                    let ghost pre_out = out@;
                    let is_new_best = match &self.best_hash {
                        Some(best) => hash_eq(best, &self.blocks[b].hash),
                        None => false,
                    };
                    out.push(
                        TreeSnapshotEntry {
                            hash: self.blocks[b].hash,
                            parent_hash: self.blocks[b].parent_hash,
                            is_new_best,
                        },
                    );
                    proof {
                        let n = out@.len() - 1;
                        assert(out@[n].hash@ == self.blocks@[b as int].hash@);
                        assert(reported_with_hash(self.blocks@, out@[n].hash@));
                        assert forall|i: int|
                            0 <= i < out@.len() implies ((#[trigger] out@[i]).parent_hash@
                            == self.finalized_hash@ || exists|j: int|
                            0 <= j < i && (#[trigger] out@[j].hash@) == out@[i].parent_hash@) by {
                            if i < n {
                                assert(out@[i] == pre_out[i]);
                                if pre_out[i].parent_hash@ != self.finalized_hash@ {
                                    let j = choose|j: int|
                                        0 <= j < i && (#[trigger] pre_out[j].hash@)
                                            == pre_out[i].parent_hash@;
                                    assert(out@[j].hash@ == out@[i].parent_hash@);
                                }
                            } else {
                                if out@[n].parent_hash@ != self.finalized_hash@ {
                                    let j = choose|j: int|
                                        0 <= j < pre_out.len() && pre_out[j].hash@
                                            == out@[n].parent_hash@;
                                    assert(out@[j].hash@ == out@[n].parent_hash@);
                                }
                            }
                        }
                        assert forall|i: int, j: int| 0 <= i < j < out@.len() implies out@[i].hash@
                            != out@[j].hash@ by {
                            if j == n {
                                assert(!snapshot_contains(pre_out, out@[n].hash@));
                                assert(out@[i] == pre_out[i]);
                            } else {
                                assert(out@[i] == pre_out[i]);
                                assert(out@[j] == pre_out[j]);
                            }
                        }
                    }
                }
                b += 1;
            }
            pass += 1;
        }
        out
    }
}


} // verus!
