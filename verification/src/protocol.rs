//! Per-chain networking protocols and their on-the-wire names.
//!
//! A per-chain protocol name is `/<hex(genesis_hash)>[/<fork_id>]/<suffix>`
//! where the suffix identifies the protocol; `identify` and `ping` are
//! unqualified.

use vstd::prelude::*;

use crate::bytes::push_bytes;

verus! {

/// Role a node reports playing on the network.
#[derive(Debug, Copy, Clone, PartialEq, Eq, Structural)]
pub enum Role {
    /// Authors blocks.
    Authority,
    /// Full node.
    Full,
    /// Light node.
    Light,
}

/// State of the local node with regards to GrandPa rounds.
#[derive(Debug, Copy, Clone, PartialEq, Eq, Structural)]
pub struct GrandpaState {
    pub round_number: u64,
    pub set_id: u64,
    pub commit_finalized_height: u32,
}

/// A protocol, either unqualified or tied to one chain.
#[derive(Debug, Copy, Clone, PartialEq, Eq, Structural)]
pub enum Protocol {
    Identify,
    Ping,
    BlockAnnounces { chain_index: usize },
    Transactions { chain_index: usize },
    Grandpa { chain_index: usize },
    Sync { chain_index: usize },
    LightUnknown { chain_index: usize },
    LightStorage { chain_index: usize },
    LightCall { chain_index: usize },
    Kad { chain_index: usize },
    SyncWarp { chain_index: usize },
    State { chain_index: usize },
}


impl Protocol {
    /// The index of the chain a per-chain protocol belongs to.
    pub open spec fn chain_index_of(self) -> Option<usize> {
        match self {
            Protocol::Identify => None,
            Protocol::Ping => None,
            Protocol::BlockAnnounces { chain_index } => Some(chain_index),
            Protocol::Transactions { chain_index } => Some(chain_index),
            Protocol::Grandpa { chain_index } => Some(chain_index),
            Protocol::Sync { chain_index } => Some(chain_index),
            Protocol::LightUnknown { chain_index } => Some(chain_index),
            Protocol::LightStorage { chain_index } => Some(chain_index),
            Protocol::LightCall { chain_index } => Some(chain_index),
            Protocol::Kad { chain_index } => Some(chain_index),
            Protocol::SyncWarp { chain_index } => Some(chain_index),
            Protocol::State { chain_index } => Some(chain_index),
        }
    }
}

/// The protocols that use persistent notification substreams.
#[derive(Debug, Copy, Clone, PartialEq, Eq, Structural)]
pub enum NotificationsProtocol {
    BlockAnnounces { chain_index: usize },
    Transactions { chain_index: usize },
    Grandpa { chain_index: usize },
}

impl NotificationsProtocol {
    /// The smallest value of the ordering the coordinator indexes by.
    pub fn min_value() -> (r: NotificationsProtocol)
        ensures
            r == (NotificationsProtocol::BlockAnnounces { chain_index: 0usize }),
    {
        NotificationsProtocol::BlockAnnounces { chain_index: 0 }
    }

    /// The greatest value of the ordering the coordinator indexes by.
    pub fn max_value() -> (r: NotificationsProtocol)
        ensures
            r == (NotificationsProtocol::Grandpa { chain_index: usize::MAX }),
    {
        NotificationsProtocol::Grandpa { chain_index: usize::MAX }
    }

    /// The index of the chain the protocol belongs to.
    pub fn chain_index(&self) -> (r: usize)
        ensures
            r == self.chain_index_spec(),
    {
        match self {
            NotificationsProtocol::BlockAnnounces { chain_index } => *chain_index,
            NotificationsProtocol::Transactions { chain_index } => *chain_index,
            NotificationsProtocol::Grandpa { chain_index } => *chain_index,
        }
    }

    /// The index of the chain the protocol belongs to.
    pub open spec fn chain_index_spec(&self) -> usize {
        match *self {
            NotificationsProtocol::BlockAnnounces { chain_index } => chain_index,
            NotificationsProtocol::Transactions { chain_index } => chain_index,
            NotificationsProtocol::Grandpa { chain_index } => chain_index,
        }
    }
}

/// Turns a [`Protocol`] into a [`NotificationsProtocol`], for the protocols
/// that use notification substreams.
pub fn notifications_protocol_of(p: Protocol) -> (r: Result<NotificationsProtocol, ()>)
    ensures
        r == notifications_protocol_of_spec(p),
{
    match p {
        Protocol::BlockAnnounces { chain_index } => Ok(
            NotificationsProtocol::BlockAnnounces { chain_index },
        ),
        Protocol::Transactions { chain_index } => Ok(
            NotificationsProtocol::Transactions { chain_index },
        ),
        Protocol::Grandpa { chain_index } => Ok(NotificationsProtocol::Grandpa { chain_index }),
        _ => Err(()),
    }
}

/// See [`notifications_protocol_of`].
pub open spec fn notifications_protocol_of_spec(p: Protocol) -> Result<NotificationsProtocol, ()> {
    match p {
        Protocol::BlockAnnounces { chain_index } => Ok(
            NotificationsProtocol::BlockAnnounces { chain_index },
        ),
        Protocol::Transactions { chain_index } => Ok(
            NotificationsProtocol::Transactions { chain_index },
        ),
        Protocol::Grandpa { chain_index } => Ok(NotificationsProtocol::Grandpa { chain_index }),
        _ => Err(()),
    }
}

/// The lower hex digit of a nibble.
pub open spec fn hex_digit(n: int) -> u8 {
    if n < 10 {
        (0x30 + n) as u8
    } else {
        (0x61 + n - 10) as u8
    }
}

/// The lowercase hex encoding of a byte string: two digits per byte.
pub open spec fn hex_of(s: Seq<u8>) -> Seq<u8> {
    Seq::new(
        s.len() * 2,
        |i: int|
            if i % 2 == 0 {
                hex_digit(s[i / 2] as int / 16)
            } else {
                hex_digit(s[i / 2] as int % 16)
            },
    )
}

/// Appends the lowercase hex encoding of `src` to `dst`.
pub fn push_hex(dst: &mut Vec<u8>, src: &[u8])
    ensures
        final(dst)@ == old(dst)@ + hex_of(src@),
{
    let mut i: usize = 0;
    while i < src.len()
        invariant
            i <= src@.len(),
            dst@ == old(dst)@ + hex_of(src@.take(i as int)),
        decreases src@.len() - i,
    {
        let b = src[i];
        let hi: u8 = b / 16;
        let lo: u8 = b % 16;
        let hi_c: u8 = if hi < 10 {
            0x30 + hi
        } else {
            0x61 + (hi - 10)
        };
        let lo_c: u8 = if lo < 10 {
            0x30 + lo
        } else {
            0x61 + (lo - 10)
        };
        dst.push(hi_c);
        dst.push(lo_c);
        proof {
            assert(dst@ =~= old(dst)@ + hex_of(src@.take(i + 1)));
        }
        i += 1;
    }
    proof {
        assert(src@.take(src@.len() as int) =~= src@);
    }
}

/// The bytes of `block-announces/1`.
pub open spec fn block_announces_bytes() -> Seq<u8> {
    seq![98u8, 108u8, 111u8, 99u8, 107u8, 45u8, 97u8, 110u8, 110u8, 111u8, 117u8, 110u8, 99u8, 101u8, 115u8, 47u8, 49u8]
}

/// The bytes of `transactions/1`.
pub open spec fn transactions_suffix_bytes() -> Seq<u8> {
    seq![116u8, 114u8, 97u8, 110u8, 115u8, 97u8, 99u8, 116u8, 105u8, 111u8, 110u8, 115u8, 47u8, 49u8]
}

/// The bytes of `grandpa/1`.
pub open spec fn grandpa_suffix_bytes() -> Seq<u8> {
    seq![103u8, 114u8, 97u8, 110u8, 100u8, 112u8, 97u8, 47u8, 49u8]
}

/// The bytes of `sync/2`.
pub open spec fn sync_suffix_bytes() -> Seq<u8> {
    seq![115u8, 121u8, 110u8, 99u8, 47u8, 50u8]
}

/// The bytes of `light/2`.
pub open spec fn light_suffix_bytes() -> Seq<u8> {
    seq![108u8, 105u8, 103u8, 104u8, 116u8, 47u8, 50u8]
}

/// The bytes of `kad`.
pub open spec fn kad_suffix_bytes() -> Seq<u8> {
    seq![107u8, 97u8, 100u8]
}

/// The bytes of `sync/warp`.
pub open spec fn sync_warp_suffix_bytes() -> Seq<u8> {
    seq![115u8, 121u8, 110u8, 99u8, 47u8, 119u8, 97u8, 114u8, 112u8]
}

/// The bytes of `state/2`.
pub open spec fn state_suffix_bytes() -> Seq<u8> {
    seq![115u8, 116u8, 97u8, 116u8, 101u8, 47u8, 50u8]
}

/// The bytes of `ipfs/id/1.0.0`.
pub open spec fn identify_name_bytes() -> Seq<u8> {
    seq![105u8, 112u8, 102u8, 115u8, 47u8, 105u8, 100u8, 47u8, 49u8, 46u8, 48u8, 46u8, 48u8]
}

/// The bytes of `ipfs/ping/1.0.0`.
pub open spec fn ping_name_bytes() -> Seq<u8> {
    seq![105u8, 112u8, 102u8, 115u8, 47u8, 112u8, 105u8, 110u8, 103u8, 47u8, 49u8, 46u8, 48u8, 46u8, 48u8]
}

/// The suffix of a per-chain protocol name, without its leading slash.
pub open spec fn suffix_of(p: Protocol) -> Seq<u8> {
    match p {
        Protocol::BlockAnnounces { .. } => block_announces_bytes(),
        Protocol::Transactions { .. } => transactions_suffix_bytes(),
        Protocol::Grandpa { .. } => grandpa_suffix_bytes(),
        Protocol::Sync { .. } => sync_suffix_bytes(),
        Protocol::LightUnknown { .. } => light_suffix_bytes(),
        Protocol::LightStorage { .. } => light_suffix_bytes(),
        Protocol::LightCall { .. } => light_suffix_bytes(),
        Protocol::Kad { .. } => kad_suffix_bytes(),
        Protocol::SyncWarp { .. } => sync_warp_suffix_bytes(),
        Protocol::State { .. } => state_suffix_bytes(),
        Protocol::Identify => identify_name_bytes(),
        Protocol::Ping => ping_name_bytes(),
    }
}

/// The full name of a per-chain protocol:
/// `/<hex(genesis_hash)>[/<fork_id>]/<suffix>`.
pub open spec fn chain_protocol_name_spec(
    genesis_hash: Seq<u8>,
    fork_id: Option<Seq<u8>>,
    suffix: Seq<u8>,
) -> Seq<u8> {
    let slash = seq![0x2fu8];
    match fork_id {
        Some(f) => slash + hex_of(genesis_hash) + slash + f + slash + suffix,
        None => slash + hex_of(genesis_hash) + slash + suffix,
    }
}

/// Builds the name of a per-chain protocol.
pub fn encode_chain_protocol_name(
    genesis_hash: &[u8; 32],
    fork_id: &Option<Vec<u8>>,
    suffix: &[u8],
) -> (r: Vec<u8>)
    ensures
        r@ == chain_protocol_name_spec(
            genesis_hash@,
            match fork_id {
                Some(f) => Some(f@),
                None => None,
            },
            suffix@,
        ),
{
    let mut out: Vec<u8> = Vec::new();
    out.push(0x2f);
    proof {
        assert(out@ =~= seq![0x2fu8]);
    }
    push_hex(&mut out, genesis_hash.as_slice());
    if let Some(f) = fork_id {
        out.push(0x2f);
        push_bytes(&mut out, f.as_slice());
    }
    out.push(0x2f);
    push_bytes(&mut out, suffix);
    proof {
        assert(out@ =~= chain_protocol_name_spec(
            genesis_hash@,
            match fork_id {
                Some(f) => Some(f@),
                None => None,
            },
            suffix@,
        ));
    }
    out
}

/// The byte constant of a known suffix, for building names at run time.
pub fn suffix_bytes(p: Protocol) -> (r: Vec<u8>)
    ensures
        r@ == suffix_of(p),
{
    let mut out: Vec<u8> = Vec::new();
    match p {
        Protocol::BlockAnnounces { .. } => {
            out.push(98);
            out.push(108);
            out.push(111);
            out.push(99);
            out.push(107);
            out.push(45);
            out.push(97);
            out.push(110);
            out.push(110);
            out.push(111);
            out.push(117);
            out.push(110);
            out.push(99);
            out.push(101);
            out.push(115);
            out.push(47);
            out.push(49);
        },
        Protocol::Transactions { .. } => {
            out.push(116);
            out.push(114);
            out.push(97);
            out.push(110);
            out.push(115);
            out.push(97);
            out.push(99);
            out.push(116);
            out.push(105);
            out.push(111);
            out.push(110);
            out.push(115);
            out.push(47);
            out.push(49);
        },
        Protocol::Grandpa { .. } => {
            out.push(103);
            out.push(114);
            out.push(97);
            out.push(110);
            out.push(100);
            out.push(112);
            out.push(97);
            out.push(47);
            out.push(49);
        },
        Protocol::Sync { .. } => {
            out.push(115);
            out.push(121);
            out.push(110);
            out.push(99);
            out.push(47);
            out.push(50);
        },
        Protocol::LightUnknown { .. } => {
            out.push(108);
            out.push(105);
            out.push(103);
            out.push(104);
            out.push(116);
            out.push(47);
            out.push(50);
        },
        Protocol::LightStorage { .. } => {
            out.push(108);
            out.push(105);
            out.push(103);
            out.push(104);
            out.push(116);
            out.push(47);
            out.push(50);
        },
        Protocol::LightCall { .. } => {
            out.push(108);
            out.push(105);
            out.push(103);
            out.push(104);
            out.push(116);
            out.push(47);
            out.push(50);
        },
        Protocol::Kad { .. } => {
            out.push(107);
            out.push(97);
            out.push(100);
        },
        Protocol::SyncWarp { .. } => {
            out.push(115);
            out.push(121);
            out.push(110);
            out.push(99);
            out.push(47);
            out.push(119);
            out.push(97);
            out.push(114);
            out.push(112);
        },
        Protocol::State { .. } => {
            out.push(115);
            out.push(116);
            out.push(97);
            out.push(116);
            out.push(101);
            out.push(47);
            out.push(50);
        },
        Protocol::Identify => {
            out.push(105);
            out.push(112);
            out.push(102);
            out.push(115);
            out.push(47);
            out.push(105);
            out.push(100);
            out.push(47);
            out.push(49);
            out.push(46);
            out.push(48);
            out.push(46);
            out.push(48);
        },
        Protocol::Ping => {
            out.push(105);
            out.push(112);
            out.push(102);
            out.push(115);
            out.push(47);
            out.push(112);
            out.push(105);
            out.push(110);
            out.push(103);
            out.push(47);
            out.push(49);
            out.push(46);
            out.push(48);
            out.push(46);
            out.push(48);
        },
    }
    proof {
        assert(out@ =~= suffix_of(p));
    }
    out
}

} // verus!
