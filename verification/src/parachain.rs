//! Parachain head fetching over the relay chain.
//!
//! For each relay-chain block, the runtime call
//! `ParachainHost_persisted_validation_data` with the timed-out core
//! assumption recovers the parachain head. The call itself runs through the
//! runtime host; the decisions around its outcome live here.

use vstd::prelude::*;

use crate::hashing::{blake2b_256, blake2b_256_of};

verus! {

/// Error while fetching a parachain head.
#[derive(Debug, Clone)]
pub enum ParaheadError {
    /// The relay chain subscription is obsolete; the whole subscription must
    /// be rebuilt.
    ObsoleteSubscription,
    /// The parachain has no core on the relay chain: the validation data
    /// call returned nothing.
    NoCore,
    /// The call proof could not be fetched or verified.
    Call,
    /// The runtime call could not be started.
    StartError,
    /// The runtime trapped during the call.
    Runtime,
}

impl ParaheadError {
    /// Returns `true` if this is caused by networking issues, as opposed to
    /// a consensus-related issue.
    pub fn is_network_problem(&self) -> (r: bool)
        ensures
            r == (self matches ParaheadError::Call),
    {
        match self {
            ParaheadError::Call => true,
            _ => false,
        }
    }
}

/// Turns the output of the validation-data runtime call into a parachain
/// head. The runtime returns nothing when the parachain has no core on the
/// relay chain, which is reported as [`ParaheadError::NoCore`].
pub fn parahead_from_validation_data(output: Option<Vec<u8>>) -> (r: Result<Vec<u8>, ParaheadError>)
    ensures
        match output {
            Some(head) => r matches Ok(h) && h@ == head@,
            None => r matches Err(ParaheadError::NoCore),
        },
{
    match output {
        Some(head) => Ok(head),
        None => Err(ParaheadError::NoCore),
    }
}

/// State of the asynchronous fetch of one relay-chain block's parachain
/// head.
#[derive(Debug, Copy, Clone, PartialEq, Eq, Structural)]
pub enum FetchState {
    /// No fetch was started yet.
    NotStarted,
    /// A fetch is in progress.
    InProgress,
    /// The last fetch failed at the given instant; a new one may start after
    /// the cool-down.
    Failed { when_ms: u64 },
    /// The head was fetched.
    Done,
}

/// Whether a new fetch for a slot in this state must be started now: a slot
/// that never started is always ready, and a failed slot becomes ready again
/// once its cool-down has elapsed. This is how a failed head fetch is
/// re-scheduled without emitting any block.
pub fn fetch_ready(state: FetchState, now_ms: u64, retry_after_ms: u64) -> (r: bool)
    ensures
        r == match state {
            FetchState::NotStarted => true,
            FetchState::InProgress => false,
            FetchState::Failed { when_ms } => now_ms >= when_ms + retry_after_ms,
            FetchState::Done => false,
        },
{
    match state {
        FetchState::NotStarted => true,
        FetchState::InProgress => false,
        FetchState::Failed { when_ms } => {
            if when_ms > u64::MAX - retry_after_ms {
                false
            } else {
                now_ms >= when_ms + retry_after_ms
            }
        },
        FetchState::Done => false,
    }
}

/// Records the failure of a fetch at the given instant; the slot cools down.
pub fn fetch_failed(state: FetchState, now_ms: u64) -> (r: FetchState)
    ensures
        r == (FetchState::Failed { when_ms: now_ms }),
{
    let _ = state;
    FetchState::Failed { when_ms: now_ms }
}

/// Whether a freshly fetched parachain head must be reported: identical
/// heads across sibling relay blocks are deduplicated by comparing the hash
/// of the head with the one last reported.
pub fn parahead_needs_report(parahead: &[u8], last_reported_hash: &Option<Vec<u8>>) -> (r: bool)
    ensures
        r == match last_reported_hash {
            Some(h) => h@ != blake2b_256_of(parahead@),
            None => true,
        },
{
    let hash = blake2b_256(parahead);
    match last_reported_hash {
        Some(h) => !crate::bytes::bytes_eq(h, &hash),
        None => true,
    }
}

} // verus!
