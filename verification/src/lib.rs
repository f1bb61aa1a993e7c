//! Chain-aware light-client engines: a multi-chain networking coordinator,
//! a sync subscription fan-out, and a runtime download-and-pin service.

pub mod bytes;
pub mod codec;
pub mod driver;
pub mod hashing;
pub mod parachain;
pub mod protocol;
pub mod randomness;
pub mod runtime_host;
pub mod runtime_service;
pub mod service;
pub mod sync_service;

use vstd::prelude::*;

verus! {

/// Kind of gossip link. Only one kind currently exists.
#[derive(Debug, Copy, Clone, PartialEq, Eq, Structural)]
pub enum GossipKind {
    /// Consensus messages and transactions.
    ConsensusTransactions,
}

} // verus!
