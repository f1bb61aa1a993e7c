//! Background syncing service: subscription snapshots, peer bookkeeping, and
//! the storage query state machine.
//!
//! The network requests themselves are performed by the surrounding task;
//! the state machine here decides which peer to query, which keys to ask
//! for, how to shrink the request when a response is refused for size, and
//! when to give up.

use vstd::prelude::*;

use crate::bytes::hash_eq;
use crate::hashing::{blake2b_256, blake2b_256_of};
use crate::protocol::Role;

verus! {

/// One peer used to synchronize blocks, with its announced best block.
pub struct SyncPeer {
    pub peer_id: crate::service::PeerId,
    pub role: Role,
    pub best_number: u64,
    pub best_hash: [u8; 32],
    /// Hashes of the blocks the peer has announced.
    pub known_blocks: Vec<[u8; 32]>,
}

/// True if the peer can be assumed to know the block: it has announced it,
/// or the block is at or below the height of the peer's best block.
pub open spec fn peer_knows(p: &SyncPeer, block_number: int, block_hash: Seq<u8>) -> bool {
    ||| exists|i: int| 0 <= i < p.known_blocks@.len() && p.known_blocks@[i]@ == block_hash
    ||| p.best_number >= block_number
}

/// Returns the indices of the peers that are expected to be aware of the
/// given block.
#[verifier::loop_isolation(false)]
pub fn peers_assumed_know_blocks(peers: &Vec<SyncPeer>, block_number: u64, block_hash: &[u8; 32])
    -> (r: Vec<usize>)
    ensures
        forall|k: int|
            0 <= k < r@.len() ==> (#[trigger] r@[k]) < peers@.len() && peer_knows(
                &peers@[r@[k] as int],
                block_number as int,
                block_hash@,
            ),
        forall|j: int|
            0 <= j < peers@.len() && peer_knows(&peers@[j], block_number as int, block_hash@)
                ==> exists|k: int| 0 <= k < r@.len() && r@[k] == j,
{
    let mut out: Vec<usize> = Vec::new();
    let mut i: usize = 0;
    while i < peers.len()
        invariant
            i <= peers@.len(),
            forall|k: int|
                0 <= k < out@.len() ==> (#[trigger] out@[k]) < peers@.len() && peer_knows(
                    &peers@[out@[k] as int],
                    block_number as int,
                    block_hash@,
                ),
            forall|j: int|
                0 <= j < i && peer_knows(&peers@[j], block_number as int, block_hash@) ==> exists|k: int|
                    0 <= k < out@.len() && out@[k] == j,
        decreases peers@.len() - i,
    {
        let ghost pre = out@;
        let mut knows = peers[i].best_number >= block_number;
        let mut j: usize = 0;
        while j < peers[i].known_blocks.len()
            invariant
                i < peers@.len(),
                j <= peers@[i as int].known_blocks@.len(),
                knows == ({
                    ||| exists|m: int|
                        0 <= m < j && peers@[i as int].known_blocks@[m]@ == block_hash@
                    ||| peers@[i as int].best_number >= block_number
                }),
            decreases peers@[i as int].known_blocks@.len() - j,
        {
            if hash_eq(&peers[i].known_blocks[j], block_hash) {
                knows = true;
            }
            j += 1;
        }
        if knows {
            out.push(i);
        }
        proof {
            assert forall|j2: int|
                0 <= j2 < i + 1 && peer_knows(
                    &peers@[j2],
                    block_number as int,
                    block_hash@,
                ) implies exists|k: int| 0 <= k < out@.len() && out@[k] == j2 by {
                if j2 < i {
                    let k = choose|k: int| 0 <= k < pre.len() && pre[k] == j2;
                    assert(out@[k] == j2);
                } else {
                    assert(out@[out@.len() - 1] == j2);
                }
            }
        }
        i += 1;
    }
    out
}

/// An item requested with a storage query.
#[derive(Debug)]
pub struct StorageRequestItem {
    /// Key to request.
    pub key: Vec<u8>,
    /// Detail about what is being requested.
    pub ty: StorageRequestItemTy,
}

/// See [`StorageRequestItem::ty`].
#[derive(Debug, Copy, Clone, PartialEq, Eq, Structural)]
pub enum StorageRequestItemTy {
    /// The storage value associated to the key.
    Value,
    /// The hash of the storage value associated to the key.
    Hash,
    /// The descendants of the key that have a storage value.
    DescendantsValues,
    /// The hashes of the values of the descendants of the key.
    DescendantsHashes,
    /// The Merkle value of the closest descendant of the key.
    ClosestDescendantMerkleValue,
}

/// An item returned by a storage query.
#[derive(Debug)]
pub enum StorageResultItem {
    Value { key: Vec<u8>, value: Option<Vec<u8>> },
    Hash { key: Vec<u8>, hash: Option<[u8; 32]> },
    DescendantValue { requested_key: Vec<u8>, key: Vec<u8>, value: Vec<u8> },
    DescendantHash { requested_key: Vec<u8>, key: Vec<u8>, hash: [u8; 32] },
    ClosestDescendantMerkleValue {
        requested_key: Vec<u8>,
        closest_descendant_merkle_value: Option<Vec<u8>>,
    },
}

/// One error accumulated by a storage query.
#[derive(Debug, Copy, Clone, PartialEq, Eq, Structural)]
pub enum StorageQueryErrorDetail {
    /// Error during the network request, before the protocol level.
    Network,
    /// The response could not be decoded.
    Decode,
    /// The request was refused because it was too large.
    RequestTooLarge,
    /// The proof could not be verified.
    ProofVerification,
    /// The proof is missing one or more desired storage items.
    MissingProofEntry,
}

/// Error that can happen during a storage query.
#[derive(Debug)]
pub struct StorageQueryError {
    /// One error per attempt. If this list is empty, no peer knows the
    /// block.
    pub errors: Vec<StorageQueryErrorDetail>,
}

impl StorageQueryError {
    /// Returns `true` if the query failed for networking reasons alone, as
    /// opposed to a consensus-related issue.
    #[verifier::loop_isolation(false)]
    pub fn is_network_problem(&self) -> (r: bool)
        ensures
            r == forall|i: int|
                0 <= i < self.errors@.len() ==> (#[trigger] self.errors@[i])
                    == StorageQueryErrorDetail::Network,
    {
        let mut i: usize = 0;
        while i < self.errors.len()
            invariant
                i <= self.errors@.len(),
                forall|j: int|
                    0 <= j < i ==> (#[trigger] self.errors@[j])
                        == StorageQueryErrorDetail::Network,
            decreases self.errors@.len() - i,
    {
            if self.errors[i] != StorageQueryErrorDetail::Network {
                return false;
            }
            i += 1;
        }
        true
    }
}

/// Error that can happen during a call-proof query.
#[derive(Debug)]
pub struct CallProofQueryError {
    /// One error per peer contacted; `true` marks a network-caused error.
    pub errors: Vec<bool>,
}

impl CallProofQueryError {
    /// Returns `true` if the query failed for networking reasons alone, as
    /// opposed to a consensus-related issue.
    #[verifier::loop_isolation(false)]
    pub fn is_network_problem(&self) -> (r: bool)
        ensures
            r == forall|i: int| 0 <= i < self.errors@.len() ==> #[trigger] self.errors@[i],
    {
        let mut i: usize = 0;
        while i < self.errors.len()
            invariant
                i <= self.errors@.len(),
                forall|j: int| 0 <= j < i ==> #[trigger] self.errors@[j],
            decreases self.errors@.len() - i,
        {
            if !self.errors[i] {
                return false;
            }
            i += 1;
        }
        true
    }
}

/// The initial cap on the number of trie nodes per storage response: a gross
/// estimate of how many fit in a sixteen-mebibyte response.
pub const INITIAL_RESPONSE_NODES_CAP: usize = (16 * 1024 * 1024) / 164;

/// What the surrounding task must do next to advance a storage query.
pub enum StorageQueryAction {
    /// All the requested items were obtained.
    Finished,
    /// The attempts are exhausted, or no peer knows the block.
    Failed,
    /// Send a storage proof request to the peer with the given index among
    /// the peers that know the block, then report the outcome.
    QueryPeer { peer_index: usize },
}

/// What the network returned for one storage proof request.
pub enum StorageQueryOutcome {
    /// The proof arrived and every remaining item was answered from it.
    Answered,
    /// The proof arrived and advanced the query, but some items remain.
    AdvancedPartially,
    /// The proof arrived but contained none of the missing items.
    MissingProofEntry,
    /// The request was refused because it was too large.
    RequestTooLarge,
    /// The request failed on the network level.
    NetworkError,
    /// The proof could not be verified.
    BadProof,
}

/// The retry loop of a storage query: peers are rotated, the node-count cap
/// shrinks when a request is refused for size, and the query fails once the
/// attempts are exhausted.
pub struct StorageQuery {
    /// Errors accumulated so far, one per failed attempt.
    errors: Vec<StorageQueryErrorDetail>,
    /// Number of attempts after which the query gives up.
    total_attempts: usize,
    /// Cap on the number of trie nodes requested at once.
    response_nodes_cap: usize,
    /// True once every requested item was obtained.
    complete: bool,
}

impl StorageQuery {
    /// Errors accumulated so far.
    pub closed spec fn errors_spec(&self) -> Seq<StorageQueryErrorDetail> {
        self.errors@
    }

    /// The attempt budget.
    pub closed spec fn total_attempts_spec(&self) -> usize {
        self.total_attempts
    }

    /// The current cap on requested trie nodes.
    pub closed spec fn cap_spec(&self) -> usize {
        self.response_nodes_cap
    }

    /// Whether every requested item was obtained.
    pub closed spec fn complete_spec(&self) -> bool {
        self.complete
    }

    /// The cap never reaches zero.
    pub open spec fn wf(&self) -> bool {
        self.cap_spec() >= 1
    }

    /// A fresh query with the given attempt budget.
    pub fn new(total_attempts: usize) -> (r: StorageQuery)
        ensures
            r.wf(),
            r.errors_spec().len() == 0,
            r.total_attempts_spec() == total_attempts,
            r.cap_spec() == INITIAL_RESPONSE_NODES_CAP,
            !r.complete_spec(),
    {
        StorageQuery {
            errors: Vec::new(),
            total_attempts,
            response_nodes_cap: INITIAL_RESPONSE_NODES_CAP,
            complete: false,
        }
    }

    /// Decides what to do next: finish once complete, fail once the attempt
    /// budget is exhausted or no peer knows the block, and otherwise query a
    /// peer picked at random among those that know the block.
    pub fn next_action(
        &self,
        rng: &mut rand_chacha::ChaCha20Rng,
        candidate_peers: usize,
    ) -> (r: StorageQueryAction)
        requires
            self.wf(),
        ensures
            self.complete_spec() ==> r is Finished,
            !self.complete_spec() && self.errors_spec().len() >= self.total_attempts_spec() ==> r
                is Failed,
            !self.complete_spec() && self.errors_spec().len() < self.total_attempts_spec()
                && candidate_peers == 0 ==> r is Failed,
            !self.complete_spec() && self.errors_spec().len() < self.total_attempts_spec()
                && candidate_peers > 0 ==> (r matches StorageQueryAction::QueryPeer { peer_index }
                && peer_index < candidate_peers),
    {
        if self.complete {
            return StorageQueryAction::Finished;
        }
        if self.errors.len() >= self.total_attempts {
            return StorageQueryAction::Failed;
        }
        if candidate_peers == 0 {
            return StorageQueryAction::Failed;
        }
        let peer_index = crate::randomness::rng_below(rng, candidate_peers);
        StorageQueryAction::QueryPeer { peer_index }
    }

    /// Injects the outcome of one storage proof request.
    ///
    /// A request refused for size halves the node-count cap (never below
    /// one) and is only counted as an error once the cap cannot shrink any
    /// further; every other failure is counted against the attempt budget.
    pub fn inject_outcome(&mut self, outcome: StorageQueryOutcome)
        requires
            old(self).wf(),
        ensures
            final(self).wf(),
            final(self).total_attempts_spec() == old(self).total_attempts_spec(),
            match outcome {
                StorageQueryOutcome::Answered => {
                    &&& final(self).complete_spec()
                    &&& final(self).errors_spec() == old(self).errors_spec()
                    &&& final(self).cap_spec() == old(self).cap_spec()
                },
                StorageQueryOutcome::AdvancedPartially => *final(self) == *old(self),
                StorageQueryOutcome::MissingProofEntry => {
                    &&& final(self).errors_spec() == old(self).errors_spec().push(
                        StorageQueryErrorDetail::MissingProofEntry,
                    )
                    &&& final(self).cap_spec() == old(self).cap_spec()
                    &&& final(self).complete_spec() == old(self).complete_spec()
                },
                StorageQueryOutcome::RequestTooLarge => {
                    &&& final(self).cap_spec() == (if old(self).cap_spec() / 2 >= 1 {
                        old(self).cap_spec() / 2
                    } else {
                        1usize
                    })
                    &&& (if old(self).cap_spec() == 1 {
                        final(self).errors_spec() == old(self).errors_spec().push(
                            StorageQueryErrorDetail::RequestTooLarge,
                        )
                    } else {
                        final(self).errors_spec() == old(self).errors_spec()
                    })
                },
                StorageQueryOutcome::NetworkError => {
                    &&& final(self).errors_spec() == old(self).errors_spec().push(
                        StorageQueryErrorDetail::Network,
                    )
                    &&& final(self).cap_spec() == (if old(self).cap_spec() / 2 >= 1 {
                        old(self).cap_spec() / 2
                    } else {
                        1usize
                    })
                },
                StorageQueryOutcome::BadProof => {
                    &&& final(self).errors_spec() == old(self).errors_spec().push(
                        StorageQueryErrorDetail::ProofVerification,
                    )
                    &&& final(self).cap_spec() == old(self).cap_spec()
                },
            },
    {
        match outcome {
            StorageQueryOutcome::Answered => {
                self.complete = true;
            },
            StorageQueryOutcome::AdvancedPartially => {},
            StorageQueryOutcome::MissingProofEntry => {
                self.errors.push(StorageQueryErrorDetail::MissingProofEntry);
            },
            StorageQueryOutcome::RequestTooLarge => {
                if self.response_nodes_cap == 1 {
                    self.errors.push(StorageQueryErrorDetail::RequestTooLarge);
                }
                let halved = self.response_nodes_cap / 2;
                self.response_nodes_cap = if halved >= 1 {
                    halved
                } else {
                    1
                };
            },
            StorageQueryOutcome::NetworkError => {
                self.errors.push(StorageQueryErrorDetail::Network);
                let halved = self.response_nodes_cap / 2;
                self.response_nodes_cap = if halved >= 1 {
                    halved
                } else {
                    1
                };
            },
            StorageQueryOutcome::BadProof => {
                self.errors.push(StorageQueryErrorDetail::ProofVerification);
            },
        }
    }

    /// Turns the accumulated errors into the error of the whole query.
    pub fn into_error(self) -> (r: StorageQueryError)
        ensures
            r.errors@ == self.errors_spec(),
    {
        StorageQueryError { errors: self.errors }
    }

    /// Whether every requested item was obtained.
    pub fn is_complete(&self) -> (r: bool)
        ensures
            r == self.complete_spec(),
    {
        self.complete
    }
}

/// The hash reported for a storage value: its 32-byte BLAKE2b digest.
pub fn hash_storage_value(value: &[u8]) -> (r: Vec<u8>)
    ensures
        r@ == blake2b_256_of(value@),
        r@.len() == 32,
{
    blake2b_256(value)
}

/// Notification about a new block or a newly finalized block.
#[derive(Debug)]
pub enum Notification {
    /// A non-finalized block has been finalized.
    Finalized {
        /// Hash of the block that has been finalized.
        hash: [u8; 32],
        /// Hash of the best block after the finalization.
        best_block_hash: [u8; 32],
    },
    /// A new block has been added to the list of unfinalized blocks.
    Block(BlockNotification),
    /// The best block has changed to a different one.
    BestBlockChanged {
        /// Hash of the new best block.
        hash: [u8; 32],
    },
}

/// Notification about a new block.
#[derive(Debug)]
pub struct BlockNotification {
    /// True if this block is considered as the best block of the chain.
    pub is_new_best: bool,
    /// SCALE-encoded header of the block.
    pub scale_encoded_header: Vec<u8>,
    /// Hash of the parent of the block. Guaranteed to refer to a block
    /// previously reported over the same subscription, or to the initial
    /// finalized block.
    pub parent_hash: [u8; 32],
}

/// Return value of a subscription to the chain: the snapshot taken at
/// subscription time.
#[derive(Debug)]
pub struct SubscribeAll {
    /// SCALE-encoded header of the finalized block at the time of the
    /// subscription.
    pub finalized_block_scale_encoded_header: Vec<u8>,
    /// List of all known non-finalized blocks, with parents strictly before
    /// their children.
    pub non_finalized_blocks_ancestry_order: Vec<BlockNotification>,
}


/// What the surrounding task must do next to advance a call-proof query.
pub enum CallProofQueryAction {
    /// A non-empty proof was obtained.
    Finished,
    /// Every candidate peer was tried without success.
    Failed,
    /// Send the call-proof request to the peer with the given index among
    /// the peers that know the block, then report the outcome.
    QueryPeer { peer_index: usize },
}

/// The retry loop of a call-proof query: the candidate peers are tried in
/// turn, an empty proof counts as a failure of the peer, and the query fails
/// once the attempts are exhausted.
pub struct CallProofQuery {
    /// One entry per peer contacted; `true` marks a network-caused error.
    errors: Vec<bool>,
    /// Number of attempts after which the query gives up.
    total_attempts: usize,
    /// True once a non-empty proof was obtained.
    complete: bool,
}

impl CallProofQuery {
    /// The errors accumulated so far.
    pub closed spec fn errors_spec(&self) -> Seq<bool> {
        self.errors@
    }

    /// The attempt budget.
    pub closed spec fn total_attempts_spec(&self) -> usize {
        self.total_attempts
    }

    /// Whether a non-empty proof was obtained.
    pub closed spec fn complete_spec(&self) -> bool {
        self.complete
    }

    /// A fresh query with the given attempt budget.
    pub fn new(total_attempts: usize) -> (r: CallProofQuery)
        ensures
            r.errors_spec().len() == 0,
            r.total_attempts_spec() == total_attempts,
            !r.complete_spec(),
    {
        CallProofQuery { errors: Vec::new(), total_attempts, complete: false }
    }

    /// Decides what to do next: peers are tried in turn until one answers
    /// with a non-empty proof or the attempts are exhausted.
    pub fn next_action(&self, candidate_peers: usize) -> (r: CallProofQueryAction)
        ensures
            self.complete_spec() ==> r is Finished,
            !self.complete_spec() && (self.errors_spec().len() >= self.total_attempts_spec()
                || self.errors_spec().len() >= candidate_peers) ==> r is Failed,
            !self.complete_spec() && self.errors_spec().len() < self.total_attempts_spec()
                && self.errors_spec().len() < candidate_peers ==> (r matches
            CallProofQueryAction::QueryPeer { peer_index } && peer_index
                == self.errors_spec().len()),
    {
        if self.complete {
            return CallProofQueryAction::Finished;
        }
        if self.errors.len() >= self.total_attempts || self.errors.len() >= candidate_peers {
            return CallProofQueryAction::Failed;
        }
        CallProofQueryAction::QueryPeer { peer_index: self.errors.len() }
    }

    /// Injects the outcome of one call-proof request. A proof that arrived
    /// but is empty counts against the peer, because a node answers requests
    /// about blocks it does not know with an empty proof.
    pub fn inject_outcome(&mut self, proof_len: Option<usize>, network_caused: bool)
        ensures
            final(self).total_attempts_spec() == old(self).total_attempts_spec(),
            match proof_len {
                Some(n) => if n > 0 {
                    final(self).complete_spec() && final(self).errors_spec() == old(self).errors_spec()
                } else {
                    &&& !final(self).complete_spec() || old(self).complete_spec()
                    &&& final(self).errors_spec() == old(self).errors_spec().push(false)
                },
                None => {
                    &&& !final(self).complete_spec() || old(self).complete_spec()
                    &&& final(self).errors_spec() == old(self).errors_spec().push(network_caused)
                },
            },
    {
        match proof_len {
            Some(n) => {
                if n > 0 {
                    self.complete = true;
                } else {
                    self.errors.push(false);
                }
            },
            None => {
                self.errors.push(network_caused);
            },
        }
    }

    /// Turns the accumulated errors into the error of the whole query.
    pub fn into_error(self) -> (r: CallProofQueryError)
        ensures
            r.errors@ == self.errors_spec(),
    {
        CallProofQueryError { errors: self.errors }
    }
}


} // verus!
