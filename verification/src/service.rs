//! State machine of all networking connections.
//!
//! The [`ChainNetwork`] struct holds a list of chains, a list of connections,
//! the notification and request substreams opened over them, and the set of
//! "desired" `(chain, peer, kind)` gossip links. Three derived sets are kept
//! exactly in step with that state after every operation:
//!
//! - [`ChainNetwork::unconnected_desired`]: peers desired on some chain with
//!   no healthy connection;
//! - [`ChainNetwork::connected_unopened_gossip_desired`]: desired links with a
//!   healthy connection but no outbound block-announces substream yet;
//! - [`ChainNetwork::opened_gossip_undesired`]: links with an outbound
//!   block-announces substream that are no longer desired.

use vstd::prelude::*;

use crate::GossipKind;
use crate::bytes::{bytes_eq, hash_eq, opt_bytes_eq, clone_bytes};
use crate::protocol::{
    GrandpaState, NotificationsProtocol, Protocol, Role,
};

verus! {

/// Identity of a remote node.
#[derive(Debug)]
pub struct PeerId {
    /// The raw multihash bytes of the identity.
    pub bytes: Vec<u8>,
}

impl PeerId {
    /// The identity as a byte string.
    pub open spec fn id(&self) -> Seq<u8> {
        self.bytes@
    }

    /// Builds an identity from its raw bytes.
    #[verifier::loop_isolation(false)]
    pub fn from_bytes(bytes: Vec<u8>) -> (r: PeerId)
        ensures
            r.id() == bytes@,
    {
        PeerId { bytes }
    }

    /// Returns a copy of this identity.
    #[verifier::loop_isolation(false)]
    pub fn duplicate(&self) -> (r: PeerId)
        ensures
            r.id() == self.id(),
    {
        PeerId { bytes: clone_bytes(&self.bytes) }
    }

    /// Compares two identities.
    #[verifier::loop_isolation(false)]
    pub fn same_as(&self, other: &PeerId) -> (r: bool)
        ensures
            r == (self.id() == other.id()),
    {
        bytes_eq(&self.bytes, &other.bytes)
    }
}

/// Identifier of a chain added through [`ChainNetwork::add_chain`].
#[derive(Debug, Copy, Clone, PartialEq, Eq, Structural)]
pub struct ChainId(pub usize);

/// Identifier of a connection added to the [`ChainNetwork`].
#[derive(Debug, Copy, Clone, PartialEq, Eq, Structural)]
pub struct ConnectionId(pub usize);

/// Identifier of a substream within the [`ChainNetwork`].
#[derive(Debug, Copy, Clone, PartialEq, Eq, Structural)]
pub struct SubstreamId(pub u64);

/// Direction of a notifications substream.
#[derive(Debug, Copy, Clone, PartialEq, Eq, Structural)]
pub enum SubstreamDirection {
    In,
    Out,
}

/// State of a notifications substream.
#[derive(Debug, Copy, Clone, PartialEq, Eq, Structural)]
pub enum NotificationsSubstreamState {
    Pending,
    Open,
}

impl NotificationsSubstreamState {
    /// The smallest state of the ordering the coordinator indexes by.
    #[verifier::loop_isolation(false)]
    pub fn min_value() -> (r: NotificationsSubstreamState)
        ensures
            r == NotificationsSubstreamState::Pending,
    {
        NotificationsSubstreamState::Pending
    }

    /// The greatest state of the ordering the coordinator indexes by.
    #[verifier::loop_isolation(false)]
    pub fn max_value() -> (r: NotificationsSubstreamState)
        ensures
            r == NotificationsSubstreamState::Open,
    {
        NotificationsSubstreamState::Open
    }
}

/// Configuration for a [`ChainNetwork`].
pub struct Config {
    /// Capacity to initially reserve to the list of connections.
    pub connections_capacity: usize,
    /// Capacity to reserve for the list of chains.
    pub chains_capacity: usize,
    /// Seed for the randomness within the networking state machine.
    pub randomness_seed: [u8; 32],
    /// Noise static key of the local node, kept for the handshake layer.
    pub noise_key: Vec<u8>,
    /// Number of milliseconds after which a handshake is considered to have
    /// taken too long and must be aborted.
    pub handshake_timeout_ms: u64,
}

/// Configuration for a specific overlay network.
///
/// See [`ChainNetwork::add_chain`].
pub struct ChainConfig {
    /// Hash of the genesis block according to the local node.
    pub genesis_hash: [u8; 32],
    /// Optional identifier inserted into the networking protocol names, to
    /// differentiate between chains with the same genesis hash.
    pub fork_id: Option<Vec<u8>>,
    /// Number of bytes of the block number in the networking protocol.
    pub block_number_bytes: usize,
    /// If `Some`, the chain uses the GrandPa networking protocol.
    pub grandpa_protocol_config: Option<GrandpaState>,
    /// `true` if incoming block requests are allowed.
    pub allow_inbound_block_requests: bool,
    /// Hash of the best block according to the local node.
    pub best_hash: [u8; 32],
    /// Height of the best block according to the local node.
    pub best_number: u64,
    /// Role of the local node.
    pub role: Role,
}

/// A chain registered in the [`ChainNetwork`].
pub struct Chain {
    pub genesis_hash: [u8; 32],
    pub fork_id: Option<Vec<u8>>,
    pub block_number_bytes: usize,
    pub grandpa_protocol_config: Option<GrandpaState>,
    pub allow_inbound_block_requests: bool,
    pub best_hash: [u8; 32],
    pub best_number: u64,
    pub role: Role,
}

/// One connection of the [`ChainNetwork`].
pub struct Connection {
    /// Opaque remote address.
    pub address: Vec<u8>,
    /// `None` while handshaking with no expected identity; `Some(expected)`
    /// during the handshake; `Some(actual)` after the handshake has finished.
    pub peer: Option<PeerId>,
    /// True once the handshake has finished.
    pub established: bool,
    /// True once the connection has started shutting down.
    pub shutting_down: bool,
    /// False once the connection has fully shut down and been removed.
    pub alive: bool,
}

/// One notifications substream.
pub struct NotifSubstream {
    pub id: u64,
    pub connection: usize,
    pub peer: PeerId,
    pub protocol: NotificationsProtocol,
    pub direction: SubstreamDirection,
    pub state: NotificationsSubstreamState,
}

/// One request substream, either outgoing or incoming.
pub struct ReqSubstream {
    pub id: u64,
    pub connection: usize,
    pub peer: PeerId,
    pub protocol: Protocol,
    pub inbound: bool,
}

/// A desired or undesired `(chain, peer, kind)` gossip link.
pub struct DesiredEntry {
    pub chain_index: usize,
    pub peer: PeerId,
    pub kind: GossipKind,
}

impl DesiredEntry {
    /// Returns a copy of this entry.
    #[verifier::loop_isolation(false)]
    pub fn duplicate(&self) -> (r: DesiredEntry)
        ensures
            r.chain_index == self.chain_index,
            r.peer.id() == self.peer.id(),
            r.kind == self.kind,
    {
        DesiredEntry {
            chain_index: self.chain_index,
            peer: self.peer.duplicate(),
            kind: self.kind,
        }
    }
}

/// Error returned by [`ChainNetwork::add_chain`].
#[derive(Debug, Copy, Clone, PartialEq, Eq, Structural)]
pub enum AddChainError {
    /// A chain with the same genesis hash and fork identifier already exists.
    Duplicate { existing_identical: ChainId },
}

/// A message from the coordinator that must be delivered to a connection.
pub enum CoordinatorToConnection {
    /// Open an outbound notifications substream.
    OpenOutNotifications { substream_id: u64, protocol_name: Vec<u8>, handshake: Vec<u8> },
    /// Close an outbound notifications substream.
    CloseOutNotifications { substream_id: u64 },
    /// Accept an inbound notifications substream.
    AcceptInNotifications { substream_id: u64, handshake: Vec<u8> },
    /// Reject an inbound notifications substream.
    RejectInNotifications { substream_id: u64 },
    /// Queue a notification on an open outbound substream.
    QueueNotification { substream_id: u64, notification: Vec<u8> },
    /// Start an outgoing request, with a per-call timeout and a cap on the
    /// size of the response.
    StartRequest {
        substream_id: u64,
        protocol_name: Vec<u8>,
        payload: Vec<u8>,
        timeout_ms: u64,
        response_max_size: u64,
    },
    /// Answer an inbound request.
    RespondRequest { substream_id: u64, response: Option<Vec<u8>> },
    /// Accept an inbound substream as a request substream.
    AcceptInRequest { substream_id: u64 },
    /// Reject an inbound substream.
    RejectInbound { substream_id: u64 },
}

/// A message from a connection that must be delivered to the coordinator.
pub enum ConnectionToCoordinator {
    /// The handshake of the connection has finished.
    HandshakeFinished { peer_id: PeerId },
    /// The connection has started shutting down.
    StartShutdown,
    /// The connection has fully shut down.
    Shutdown,
    /// An inbound substream was negotiated with the given protocol name.
    InboundNegotiated { substream_id: u64, protocol_name: Vec<u8> },
    /// A previously negotiated inbound substream was abandoned by the remote.
    InboundNegotiatedCancel { substream_id: u64 },
    /// A request arrived on an accepted inbound request substream.
    RequestIn { substream_id: u64, payload: Vec<u8> },
    /// The remote is no longer interested in the response to an inbound
    /// request.
    RequestInCancel { substream_id: u64 },
    /// An outgoing request has finished.
    Response { substream_id: u64, response: Result<Vec<u8>, RequestError> },
    /// An outgoing notifications substream has finished opening.
    NotificationsOutResult { substream_id: u64, result: Result<Vec<u8>, ()> },
    /// The remote demands that an outbound notifications substream be closed.
    NotificationsOutCloseDemanded { substream_id: u64 },
    /// An outbound notifications substream was reset.
    NotificationsOutReset { substream_id: u64 },
    /// The remote opened an inbound notifications substream.
    NotificationsInOpen { substream_id: u64, protocol_name: Vec<u8>, handshake: Vec<u8> },
    /// The remote abandoned its inbound notifications substream before it was
    /// accepted or rejected.
    NotificationsInOpenCancel { substream_id: u64 },
    /// A notification arrived on an open inbound notifications substream.
    NotificationsIn { substream_id: u64, notification: Vec<u8> },
    /// An inbound notifications substream was closed.
    NotificationsInClose { substream_id: u64 },
    /// An outgoing ping has succeeded.
    PingOutSuccess,
    /// An outgoing ping has failed.
    PingOutFailed,
}

/// Error while performing an outgoing request.
#[derive(Debug, Copy, Clone, PartialEq, Eq, Structural)]
pub enum RequestError {
    /// The substream was closed or reset before the response arrived.
    Substream,
    /// The request timed out.
    Timeout,
    /// The response could not be decoded.
    Decode,
    /// The response was larger than the allowed maximum.
    TooLarge,
}

/// Error potentially returned when starting a request that might be too
/// large.
#[derive(Debug, Copy, Clone, PartialEq, Eq, Structural)]
pub enum StartRequestMaybeTooLargeError {
    /// There is no valid connection to the given peer on which the request
    /// can be started.
    NoConnection,
    /// Size of the request is over the maximum allowed by the protocol.
    RequestTooLarge,
}

impl StartRequestMaybeTooLargeError {
    /// Widens a [`StartRequestError`].
    pub fn of_start_request_error(err: StartRequestError) -> (r: StartRequestMaybeTooLargeError)
        ensures
            r == StartRequestMaybeTooLargeError::NoConnection,
    {
        match err {
            StartRequestError::NoConnection => StartRequestMaybeTooLargeError::NoConnection,
        }
    }
}

/// What kind of handshake to perform on a newly-added single-stream
/// connection.
pub enum SingleStreamHandshakeKind {
    /// Multistream-select + Noise + Yamux.
    MultistreamSelectNoiseYamux { is_initiator: bool },
}

/// What kind of handshake to perform on a newly-added multi-stream connection.
pub enum MultiStreamHandshakeKind {
    /// WebRTC with DTLS certificate multihashes.
    WebRtc {
        is_initiator: bool,
        local_tls_certificate_multihash: Vec<u8>,
        remote_tls_certificate_multihash: Vec<u8>,
    },
}

/// Data structure containing the list of all connections and their latest
/// known state.
pub struct ChainNetwork {
    /// List of all chains; a `None` slot is free for reuse.
    chains: Vec<Option<Chain>>,
    /// List of all connections, append-only; dead slots keep `alive == false`.
    connections: Vec<Connection>,
    /// All the notifications substreams.
    notif_substreams: Vec<NotifSubstream>,
    /// All the request substreams.
    request_substreams: Vec<ReqSubstream>,
    /// Identifier to assign to the next substream; identifiers are never
    /// reused.
    next_substream_id: u64,
    /// The `(chain, peer, kind)` tuples marked as desired.
    desired: Vec<DesiredEntry>,
    /// Desired peers with no healthy connection.
    unconnected_desired_entries: Vec<PeerId>,
    /// Desired links with a healthy connection and no outbound
    /// block-announces substream.
    connected_unopened_entries: Vec<DesiredEntry>,
    /// Links with an outbound block-announces substream that are not desired.
    opened_undesired_entries: Vec<DesiredEntry>,
    /// Messages to connections, in order.
    messages: Vec<(usize, CoordinatorToConnection)>,
    /// Messages from connections that have not been processed yet.
    events_in: Vec<(usize, ConnectionToCoordinator)>,
    /// Noise key of the local node.
    noise_key: Vec<u8>,
}

// --- Derivation predicates over the core state ---

/// True if some connection of `conns` is alive, not shutting down, and bound
/// to the peer `p` (expected or actual identity).
pub open spec fn healthy_in(conns: Seq<Connection>, p: Seq<u8>) -> bool {
    exists|i: int|
        {
            &&& 0 <= i < conns.len()
            &&& conns[i].alive
            &&& !conns[i].shutting_down
            &&& conns[i].peer matches Some(q) && q.id() == p
        }
}

/// True if a substream is an outbound block-announces substream.
pub open spec fn sub_is_out_ba(s: NotifSubstream) -> bool {
    s.direction == SubstreamDirection::Out && s.protocol matches
        NotificationsProtocol::BlockAnnounces { .. }
}

/// True if `subs` holds an outbound block-announces substream (pending or
/// open) for `(chain, peer)`.
pub open spec fn out_ba_in(subs: Seq<NotifSubstream>, chain: int, p: Seq<u8>) -> bool {
    exists|i: int|
        0 <= i < subs.len() && sub_is_out_ba(subs[i]) && subs[i].protocol.chain_index_spec()
            == chain && subs[i].peer.id() == p
}

/// True if `desired` holds an entry for `(chain, peer)`.
pub open spec fn desired_in(desired: Seq<DesiredEntry>, chain: int, p: Seq<u8>) -> bool {
    exists|i: int|
        0 <= i < desired.len() && desired[i].chain_index == chain && desired[i].peer.id() == p
}

/// True if `desired` holds an entry for the peer `p` on any chain.
pub open spec fn desired_any_in(desired: Seq<DesiredEntry>, p: Seq<u8>) -> bool {
    exists|i: int| 0 <= i < desired.len() && desired[i].peer.id() == p
}

/// True if the peer list `v` holds `p`.
pub open spec fn peers_contain(v: Seq<PeerId>, p: Seq<u8>) -> bool {
    exists|i: int| 0 <= i < v.len() && v[i].id() == p
}

/// True if the entry list `v` holds `(chain, peer)`.
pub open spec fn entries_contain(v: Seq<DesiredEntry>, chain: int, p: Seq<u8>) -> bool {
    exists|i: int| 0 <= i < v.len() && v[i].chain_index == chain && v[i].peer.id() == p
}

/// The mathematical value of an optional fork identifier.
pub open spec fn fork_view(f: Option<Vec<u8>>) -> Option<Seq<u8>> {
    match f {
        Some(v) => Some(v@),
        None => None,
    }
}

/// True if the chain slot holds a chain with the given protocol information.
pub open spec fn chain_pair_at(
    chains: Seq<Option<Chain>>,
    i: int,
    genesis: Seq<u8>,
    fork: Option<Seq<u8>>,
) -> bool {
    &&& 0 <= i < chains.len()
    &&& chains[i] matches Some(c) && c.genesis_hash@ == genesis && fork_view(c.fork_id) == fork
}

/// The slot `add_chain` allocates: the lowest free slot, or a fresh one at
/// the end.
pub open spec fn first_free_slot(chains: Seq<Option<Chain>>) -> int
    decreases chains.len(),
{
    if chains.len() == 0 {
        0
    } else if chains[0] is None {
        0
    } else {
        1 + first_free_slot(chains.skip(1))
    }
}

/// A position with every earlier slot occupied and itself free (or at the
/// end) is the first free slot.
pub proof fn lemma_first_free_slot(chains: Seq<Option<Chain>>, s: int)
    requires
        0 <= s <= chains.len(),
        forall|j: int| 0 <= j < s ==> chains[j] is Some,
        s < chains.len() ==> chains[s] is None,
    ensures
        first_free_slot(chains) == s,
    decreases chains.len(),
{
    if chains.len() == 0 {
    } else if s == 0 {
        if chains.len() > 0 && chains[0] is Some {
            assert(s < chains.len());
        }
    } else {
        assert(chains[0] is Some);
        let tail = chains.skip(1);
        assert forall|j: int| 0 <= j < s - 1 implies tail[j] is Some by {
            assert(chains[j + 1] is Some);
        }
        if s - 1 < tail.len() {
            assert(tail[s - 1] == chains[s]);
        }
        lemma_first_free_slot(tail, s - 1);
    }
}

/// True if some chain with the given protocol information is registered.
pub open spec fn chain_pair_exists(
    chains: Seq<Option<Chain>>,
    genesis: Seq<u8>,
    fork: Option<Seq<u8>>,
) -> bool {
    exists|i: int| chain_pair_at(chains, i, genesis, fork)
}

impl ChainNetwork {
    // --- Views of the core state ---

    /// The list of chain slots.
    pub closed spec fn chains_spec(&self) -> Seq<Option<Chain>> {
        self.chains@
    }

    /// The list of connections.
    pub closed spec fn connections_spec(&self) -> Seq<Connection> {
        self.connections@
    }

    /// The list of notifications substreams.
    pub closed spec fn notif_substreams_spec(&self) -> Seq<NotifSubstream> {
        self.notif_substreams@
    }

    /// The list of request substreams.
    pub closed spec fn request_substreams_spec(&self) -> Seq<ReqSubstream> {
        self.request_substreams@
    }

    /// The desired set.
    pub closed spec fn desired_spec(&self) -> Seq<DesiredEntry> {
        self.desired@
    }

    /// The derived set of desired peers without a healthy connection.
    pub closed spec fn unconnected_desired_spec(&self) -> Seq<PeerId> {
        self.unconnected_desired_entries@
    }

    /// The derived set of desired links with a healthy connection and no
    /// outbound block-announces substream.
    pub closed spec fn connected_unopened_spec(&self) -> Seq<DesiredEntry> {
        self.connected_unopened_entries@
    }

    /// The derived set of undesired links with an outbound block-announces
    /// substream.
    pub closed spec fn opened_undesired_spec(&self) -> Seq<DesiredEntry> {
        self.opened_undesired_entries@
    }

    /// The queue of messages to connections that have not been pulled yet.
    pub closed spec fn pending_messages_spec(&self) -> Seq<(usize, CoordinatorToConnection)> {
        self.messages@
    }

    /// The queue of messages from connections that have not been processed
    /// yet.
    pub closed spec fn pending_events_spec(&self) -> Seq<(usize, ConnectionToCoordinator)> {
        self.events_in@
    }

    // --- Abbreviations ---

    /// The chain slot `c` holds a chain.
    pub open spec fn chain_ok(&self, c: int) -> bool {
        0 <= c < self.chains_spec().len() && self.chains_spec()[c] is Some
    }

    /// The peer `p` is desired on chain `c`.
    pub open spec fn is_desired(&self, c: int, p: Seq<u8>) -> bool {
        desired_in(self.desired_spec(), c, p)
    }

    /// The peer `p` has a healthy connection.
    pub open spec fn is_healthy(&self, p: Seq<u8>) -> bool {
        healthy_in(self.connections_spec(), p)
    }

    /// An outbound block-announces substream exists for `(c, p)`.
    pub open spec fn has_out_ba(&self, c: int, p: Seq<u8>) -> bool {
        out_ba_in(self.notif_substreams_spec(), c, p)
    }

    // --- Well-formedness ---

    /// The desired set holds no duplicate `(chain, peer)` entries, and every
    /// entry names a registered chain.
    pub open spec fn desired_wf(&self) -> bool {
        &&& forall|i: int, j: int|
            0 <= i < j < self.desired_spec().len() ==> !(self.desired_spec()[i].chain_index
                == self.desired_spec()[j].chain_index && self.desired_spec()[i].peer.id()
                == self.desired_spec()[j].peer.id())
        &&& forall|i: int|
            0 <= i < self.desired_spec().len() ==> self.chain_ok(
                #[trigger] self.desired_spec()[i].chain_index as int,
            )
    }

    /// At most one outbound block-announces substream exists per
    /// `(chain, peer)`, and substream identifiers are unique and below the
    /// allocation counter.
    pub open spec fn substreams_wf(&self) -> bool {
        &&& forall|i: int, j: int|
            0 <= i < j < self.notif_substreams_spec().len() ==> !(sub_is_out_ba(
                self.notif_substreams_spec()[i],
            ) && sub_is_out_ba(self.notif_substreams_spec()[j])
                && self.notif_substreams_spec()[i].protocol
                == self.notif_substreams_spec()[j].protocol
                && self.notif_substreams_spec()[i].peer.id()
                == self.notif_substreams_spec()[j].peer.id())
        &&& forall|i: int, j: int|
            0 <= i < j < self.notif_substreams_spec().len() ==> self.notif_substreams_spec()[i].id
                != self.notif_substreams_spec()[j].id
        &&& forall|i: int|
            0 <= i < self.notif_substreams_spec().len() ==> (#[trigger] self.notif_substreams_spec()[i].id)
                < self.next_substream_id_spec()
        &&& forall|i: int, j: int|
            0 <= i < j < self.request_substreams_spec().len()
                ==> self.request_substreams_spec()[i].id != self.request_substreams_spec()[j].id
        &&& forall|i: int|
            0 <= i < self.request_substreams_spec().len() ==> (
            #[trigger] self.request_substreams_spec()[i].id) < self.next_substream_id_spec()
        &&& forall|i: int, j: int|
            0 <= i < self.notif_substreams_spec().len() && 0 <= j
                < self.request_substreams_spec().len() ==> self.notif_substreams_spec()[i].id
                != self.request_substreams_spec()[j].id
        &&& forall|i: int|
            0 <= i < self.notif_substreams_spec().len() ==> (
            #[trigger] self.notif_substreams_spec()[i].connection)
                < self.connections_spec().len()
        &&& forall|i: int|
            0 <= i < self.request_substreams_spec().len() ==> (
            #[trigger] self.request_substreams_spec()[i].connection)
                < self.connections_spec().len()
    }

    /// The allocation counter of substream identifiers.
    pub closed spec fn next_substream_id_spec(&self) -> u64 {
        self.next_substream_id
    }

    /// The three derived sets are exactly their derivations from the core
    /// state, without duplicates.
    pub open spec fn sets_exact(&self) -> bool {
        &&& forall|p: Seq<u8>|
            #[trigger] peers_contain(self.unconnected_desired_spec(), p) <==> (desired_any_in(
                self.desired_spec(),
                p,
            ) && !healthy_in(self.connections_spec(), p))
        &&& forall|i: int, j: int|
            0 <= i < j < self.unconnected_desired_spec().len()
                ==> self.unconnected_desired_spec()[i].id()
                != self.unconnected_desired_spec()[j].id()
        &&& forall|c: int, p: Seq<u8>|
            #[trigger] entries_contain(self.connected_unopened_spec(), c, p) <==> (desired_in(
                self.desired_spec(),
                c,
                p,
            ) && healthy_in(self.connections_spec(), p) && !out_ba_in(
                self.notif_substreams_spec(),
                c,
                p,
            ))
        &&& forall|i: int, j: int|
            0 <= i < j < self.connected_unopened_spec().len() ==> !(
            self.connected_unopened_spec()[i].chain_index
                == self.connected_unopened_spec()[j].chain_index
                && self.connected_unopened_spec()[i].peer.id()
                == self.connected_unopened_spec()[j].peer.id())
        &&& forall|c: int, p: Seq<u8>|
            #[trigger] entries_contain(self.opened_undesired_spec(), c, p) <==> (out_ba_in(
                self.notif_substreams_spec(),
                c,
                p,
            ) && !desired_in(self.desired_spec(), c, p))
        &&& forall|i: int, j: int|
            0 <= i < j < self.opened_undesired_spec().len() ==> !(
            self.opened_undesired_spec()[i].chain_index
                == self.opened_undesired_spec()[j].chain_index
                && self.opened_undesired_spec()[i].peer.id()
                == self.opened_undesired_spec()[j].peer.id())
    }

    /// No two registered chains share the same genesis hash and fork
    /// identifier.
    pub open spec fn chains_wf(&self) -> bool {
        forall|i: int, j: int|
            0 <= i < j < self.chains_spec().len() ==> !(chain_pair_at(
                self.chains_spec(),
                i,
                self.chains_spec()[j]->Some_0.genesis_hash@,
                fork_view(self.chains_spec()[j]->Some_0.fork_id),
            ) && self.chains_spec()[j] is Some)
    }

    /// The full well-formedness of the state machine.
    pub open spec fn wf(&self) -> bool {
        &&& self.chains_wf()
        &&& self.desired_wf()
        &&& self.substreams_wf()
        &&& self.sets_exact()
    }


    /// Chain and desired-set well-formedness stays put when the chains and the
    /// desired set do not change.
    proof fn lemma_chains_desired_wf_carries(&self, other: &ChainNetwork)
        requires
            self.chains_wf(),
            self.desired_wf(),
            other.chains_spec() == self.chains_spec(),
            other.desired_spec() == self.desired_spec(),
        ensures
            other.chains_wf(),
            other.desired_wf(),
    {
        assert forall|i: int, j: int| 0 <= i < j < other.chains_spec().len() implies !(
        chain_pair_at(
            other.chains_spec(),
            i,
            other.chains_spec()[j]->Some_0.genesis_hash@,
            fork_view(other.chains_spec()[j]->Some_0.fork_id),
        ) && other.chains_spec()[j] is Some) by {
            assert(!(chain_pair_at(
                self.chains_spec(),
                i,
                self.chains_spec()[j]->Some_0.genesis_hash@,
                fork_view(self.chains_spec()[j]->Some_0.fork_id),
            ) && self.chains_spec()[j] is Some));
        }
        assert forall|i: int, j: int| 0 <= i < j < other.desired_spec().len() implies !(
        other.desired_spec()[i].chain_index == other.desired_spec()[j].chain_index
            && other.desired_spec()[i].peer.id() == other.desired_spec()[j].peer.id()) by {
            assert(!(self.desired_spec()[i].chain_index == self.desired_spec()[j].chain_index
                && self.desired_spec()[i].peer.id() == self.desired_spec()[j].peer.id()));
        }
        assert forall|i: int|
            0 <= i < other.desired_spec().len() implies other.chain_ok(
            #[trigger] other.desired_spec()[i].chain_index as int,
        ) by {
            assert(self.chain_ok(self.desired_spec()[i].chain_index as int));
        }
    }


    /// Full well-formedness carries over to a state with the same chains,
    /// connections, substreams, desired set, and derived sets.
    proof fn lemma_wf_carries(&self, other: &ChainNetwork)
        requires
            self.wf(),
            other.chains_spec() == self.chains_spec(),
            other.connections_spec() == self.connections_spec(),
            other.notif_substreams_spec() == self.notif_substreams_spec(),
            other.request_substreams_spec() == self.request_substreams_spec(),
            other.desired_spec() == self.desired_spec(),
            other.next_substream_id_spec() == self.next_substream_id_spec(),
            other.unconnected_desired_spec() == self.unconnected_desired_spec(),
            other.connected_unopened_spec() == self.connected_unopened_spec(),
            other.opened_undesired_spec() == self.opened_undesired_spec(),
        ensures
            other.wf(),
    {
        self.lemma_chains_desired_wf_carries(other);
        self.lemma_sets_exact_carries(other);
        assert forall|a: int, b: int|
            0 <= a < b < other.notif_substreams_spec().len() implies !(sub_is_out_ba(
            other.notif_substreams_spec()[a],
        ) && sub_is_out_ba(other.notif_substreams_spec()[b]) && other.notif_substreams_spec()[a].protocol
            == other.notif_substreams_spec()[b].protocol
            && other.notif_substreams_spec()[a].peer.id()
            == other.notif_substreams_spec()[b].peer.id())
            && other.notif_substreams_spec()[a].id != other.notif_substreams_spec()[b].id by {
            assert(!(sub_is_out_ba(self.notif_substreams_spec()[a]) && sub_is_out_ba(
                self.notif_substreams_spec()[b],
            ) && self.notif_substreams_spec()[a].protocol == self.notif_substreams_spec()[b].protocol
                && self.notif_substreams_spec()[a].peer.id()
                == self.notif_substreams_spec()[b].peer.id()));
            assert(self.notif_substreams_spec()[a].id != self.notif_substreams_spec()[b].id);
        }
        assert forall|a: int|
            0 <= a < other.notif_substreams_spec().len() implies (
        #[trigger] other.notif_substreams_spec()[a].id) < other.next_substream_id_spec()
            && other.notif_substreams_spec()[a].connection < other.connections_spec().len() by {
            assert(self.notif_substreams_spec()[a].id < self.next_substream_id_spec());
            assert(self.notif_substreams_spec()[a].connection < self.connections_spec().len());
        }
        assert forall|a: int, b: int|
            0 <= a < b < other.request_substreams_spec().len() implies
            other.request_substreams_spec()[a].id != other.request_substreams_spec()[b].id by {
            assert(self.request_substreams_spec()[a].id != self.request_substreams_spec()[b].id);
        }
        assert forall|a: int|
            0 <= a < other.request_substreams_spec().len() implies (
        #[trigger] other.request_substreams_spec()[a].id) < other.next_substream_id_spec()
            && other.request_substreams_spec()[a].connection < other.connections_spec().len() by {
            assert(self.request_substreams_spec()[a].id < self.next_substream_id_spec());
            assert(self.request_substreams_spec()[a].connection < self.connections_spec().len());
        }
        assert forall|a: int, b: int|
            0 <= a < other.notif_substreams_spec().len() && 0 <= b
                < other.request_substreams_spec().len() implies other.notif_substreams_spec()[a].id
            != other.request_substreams_spec()[b].id by {
            assert(self.notif_substreams_spec()[a].id != self.request_substreams_spec()[b].id);
        }
    }

    /// The derived sets stay exact when none of the state they derive from
    /// changes.
    proof fn lemma_sets_exact_carries(&self, other: &ChainNetwork)
        requires
            self.sets_exact(),
            other.desired_spec() == self.desired_spec(),
            other.connections_spec() == self.connections_spec(),
            other.notif_substreams_spec() == self.notif_substreams_spec(),
            other.unconnected_desired_spec() == self.unconnected_desired_spec(),
            other.connected_unopened_spec() == self.connected_unopened_spec(),
            other.opened_undesired_spec() == self.opened_undesired_spec(),
        ensures
            other.sets_exact(),
    {
        assert forall|p: Seq<u8>| #[trigger] peers_contain(other.unconnected_desired_spec(), p)
            <==> (desired_any_in(other.desired_spec(), p) && !healthy_in(
            other.connections_spec(),
            p,
        )) by {
            assert(peers_contain(self.unconnected_desired_spec(), p) <==> (desired_any_in(
                self.desired_spec(),
                p,
            ) && !healthy_in(self.connections_spec(), p)));
        }
        assert forall|c: int, p: Seq<u8>| #[trigger] entries_contain(
            other.connected_unopened_spec(),
            c,
            p,
        ) <==> (desired_in(other.desired_spec(), c, p) && healthy_in(other.connections_spec(), p)
            && !out_ba_in(other.notif_substreams_spec(), c, p)) by {
            assert(entries_contain(self.connected_unopened_spec(), c, p) <==> (desired_in(
                self.desired_spec(),
                c,
                p,
            ) && healthy_in(self.connections_spec(), p) && !out_ba_in(
                self.notif_substreams_spec(),
                c,
                p,
            )));
        }
        assert forall|c: int, p: Seq<u8>| #[trigger] entries_contain(
            other.opened_undesired_spec(),
            c,
            p,
        ) <==> (out_ba_in(other.notif_substreams_spec(), c, p) && !desired_in(
            other.desired_spec(),
            c,
            p,
        )) by {
            assert(entries_contain(self.opened_undesired_spec(), c, p) <==> (out_ba_in(
                self.notif_substreams_spec(),
                c,
                p,
            ) && !desired_in(self.desired_spec(), c, p)));
        }
    }
}



// --- Small lemmas about the set predicates ---

/// Pushing a peer onto a peer list adds exactly that peer.
pub proof fn lemma_peers_contain_push(v: Seq<PeerId>, x: PeerId, p: Seq<u8>)
    ensures
        peers_contain(v.push(x), p) <==> (peers_contain(v, p) || x.id() == p),
{
    if peers_contain(v, p) {
        let i = choose|i: int| 0 <= i < v.len() && v[i].id() == p;
        assert(v.push(x)[i].id() == p);
    }
    if x.id() == p {
        assert(v.push(x)[v.len() as int].id() == p);
    }
    if peers_contain(v.push(x), p) {
        let i = choose|i: int| 0 <= i < v.push(x).len() && v.push(x)[i].id() == p;
        if i < v.len() {
            assert(v[i].id() == p);
        }
    }
}

/// Pushing an entry onto an entry list adds exactly that link.
pub proof fn lemma_entries_contain_push(v: Seq<DesiredEntry>, x: DesiredEntry, c: int, p: Seq<u8>)
    ensures
        entries_contain(v.push(x), c, p) <==> (entries_contain(v, c, p) || (x.chain_index == c
            && x.peer.id() == p)),
{
    if entries_contain(v, c, p) {
        let i = choose|i: int| 0 <= i < v.len() && v[i].chain_index == c && v[i].peer.id() == p;
        assert(v.push(x)[i].chain_index == c && v.push(x)[i].peer.id() == p);
    }
    if x.chain_index == c && x.peer.id() == p {
        assert(v.push(x)[v.len() as int].chain_index == c);
    }
    if entries_contain(v.push(x), c, p) {
        let i = choose|i: int|
            0 <= i < v.push(x).len() && v.push(x)[i].chain_index == c && v.push(x)[i].peer.id()
                == p;
        if i < v.len() {
            assert(v[i].chain_index == c && v[i].peer.id() == p);
        }
    }
}

// --- Executable counterparts of the derivation predicates ---

/// Returns whether some connection makes the peer healthy.
#[verifier::loop_isolation(false)]
pub fn healthy_in_exec(conns: &Vec<Connection>, peer: &PeerId) -> (r: bool)
    ensures
        r == healthy_in(conns@, peer.id()),
{
    let mut i: usize = 0;
    while i < conns.len()
        invariant
            i <= conns@.len(),
            forall|j: int|
                0 <= j < i ==> !({
                    &&& conns@[j].alive
                    &&& !conns@[j].shutting_down
                    &&& conns@[j].peer matches Some(q) && q.id() == peer.id()
                }),
        decreases conns@.len() - i,
    {
        let c = &conns[i];
        if c.alive && !c.shutting_down {
            if let Some(p) = &c.peer {
                if p.same_as(peer) {
                    return true;
                }
            }
        }
        i += 1;
    }
    false
}

/// Returns whether an outbound block-announces substream exists for
/// `(chain, peer)`.
#[verifier::loop_isolation(false)]
pub fn out_ba_in_exec(subs: &Vec<NotifSubstream>, chain: usize, peer: &PeerId) -> (r: bool)
    ensures
        r == out_ba_in(subs@, chain as int, peer.id()),
{
    let mut i: usize = 0;
    while i < subs.len()
        invariant
            i <= subs@.len(),
            forall|j: int|
                0 <= j < i ==> !(sub_is_out_ba(subs@[j]) && subs@[j].protocol.chain_index_spec()
                    == chain && subs@[j].peer.id() == peer.id()),
        decreases subs@.len() - i,
    {
        let sub = &subs[i];
        let is_ba: bool = sub.direction == SubstreamDirection::Out && matches!(
            sub.protocol,
            NotificationsProtocol::BlockAnnounces { .. },
        );
        if is_ba && sub.protocol.chain_index() == chain && sub.peer.same_as(peer) {
            return true;
        }
        i += 1;
    }
    false
}

/// Returns whether `(chain, peer)` is in the desired set.
#[verifier::loop_isolation(false)]
pub fn desired_in_exec(desired: &Vec<DesiredEntry>, chain: usize, peer: &PeerId) -> (r: bool)
    ensures
        r == desired_in(desired@, chain as int, peer.id()),
{
    let mut i: usize = 0;
    while i < desired.len()
        invariant
            i <= desired@.len(),
            forall|j: int|
                0 <= j < i ==> !(desired@[j].chain_index == chain && desired@[j].peer.id()
                    == peer.id()),
        decreases desired@.len() - i,
    {
        let e = &desired[i];
        if e.chain_index == chain && e.peer.same_as(peer) {
            return true;
        }
        i += 1;
    }
    false
}

/// Returns whether the peer is in the desired set for any chain.
#[verifier::loop_isolation(false)]
pub fn desired_any_in_exec(desired: &Vec<DesiredEntry>, peer: &PeerId) -> (r: bool)
    ensures
        r == desired_any_in(desired@, peer.id()),
{
    let mut i: usize = 0;
    while i < desired.len()
        invariant
            i <= desired@.len(),
            forall|j: int| 0 <= j < i ==> desired@[j].peer.id() != peer.id(),
        decreases desired@.len() - i,
    {
        if desired[i].peer.same_as(peer) {
            return true;
        }
        i += 1;
    }
    false
}

/// Returns whether the peer list holds the peer.
#[verifier::loop_isolation(false)]
pub fn peers_contain_exec(v: &Vec<PeerId>, peer: &PeerId) -> (r: bool)
    ensures
        r == peers_contain(v@, peer.id()),
{
    let mut i: usize = 0;
    while i < v.len()
        invariant
            i <= v@.len(),
            forall|j: int| 0 <= j < i ==> v@[j].id() != peer.id(),
        decreases v@.len() - i,
    {
        if v[i].same_as(peer) {
            return true;
        }
        i += 1;
    }
    false
}

impl ChainNetwork {
    /// Recomputes the three derived sets from the core state.
    #[verifier::loop_isolation(false)]
    fn refresh_desired_sets(&mut self)
        requires
            old(self).chains_wf(),
            old(self).desired_wf(),
            old(self).substreams_wf(),
        ensures
            final(self).chains_spec() == old(self).chains_spec(),
            final(self).connections_spec() == old(self).connections_spec(),
            final(self).notif_substreams_spec() == old(self).notif_substreams_spec(),
            final(self).request_substreams_spec() == old(self).request_substreams_spec(),
            final(self).desired_spec() == old(self).desired_spec(),
            final(self).pending_messages_spec() == old(self).pending_messages_spec(),
            final(self).pending_events_spec() == old(self).pending_events_spec(),
            final(self).next_substream_id_spec() == old(self).next_substream_id_spec(),
            final(self).wf(),
    {
        // Desired peers without a healthy connection.
        let mut unconnected: Vec<PeerId> = Vec::new();
        let mut i: usize = 0;
        while i < self.desired.len()
            invariant
                i <= self.desired@.len(),
                forall|p: Seq<u8>|
                    #[trigger] peers_contain(unconnected@, p) <==> ((exists|j: int|
                        0 <= j < i && self.desired@[j].peer.id() == p) && !healthy_in(
                        self.connections@,
                        p,
                    )),
                forall|k: int, l: int|
                    0 <= k < l < unconnected@.len() ==> unconnected@[k].id()
                        != unconnected@[l].id(),
            decreases self.desired@.len() - i,
        {
            let ghost pre = unconnected@;
            let entry_peer = self.desired[i].peer.duplicate();
            let is_healthy = healthy_in_exec(&self.connections, &entry_peer);
            let already = peers_contain_exec(&unconnected, &entry_peer);
            if !is_healthy && !already {
                unconnected.push(entry_peer);
            }
            proof {
                assert forall|p: Seq<u8>| #[trigger] peers_contain(unconnected@, p) implies ((
                exists|j: int| 0 <= j < i + 1 && self.desired@[j].peer.id() == p) && !healthy_in(
                    self.connections@,
                    p,
                )) by {
                    if unconnected@ != pre {
                        lemma_peers_contain_push(pre, unconnected@.last(), p);
                    }
                    if peers_contain(pre, p) {
                        let j = choose|j: int|
                            0 <= j < i && self.desired@[j].peer.id() == p && !healthy_in(
                                self.connections@,
                                p,
                            );
                    }
                }
                assert forall|p: Seq<u8>| ((exists|j: int|
                    0 <= j < i + 1 && self.desired@[j].peer.id() == p) && !healthy_in(
                    self.connections@,
                    p,
                )) implies #[trigger] peers_contain(unconnected@, p) by {
                    let j = choose|j: int| 0 <= j < i + 1 && self.desired@[j].peer.id() == p;
                    if unconnected@ != pre {
                        lemma_peers_contain_push(pre, unconnected@.last(), p);
                    }
                }
                if unconnected@ != pre {
                    assert forall|k: int, l: int| 0 <= k < l < unconnected@.len() implies
                        unconnected@[k].id() != unconnected@[l].id() by {
                        if l == unconnected@.len() - 1 {
                            assert(peers_contain(pre, unconnected@[k].id()));
                        }
                    }
                }
            }
            i += 1;
        }

        // Desired links with a healthy connection and no outbound
        // block-announces substream.
        let mut connected_unopened: Vec<DesiredEntry> = Vec::new();
        let mut i2: usize = 0;
        while i2 < self.desired.len()
            invariant
                i2 <= self.desired@.len(),
                forall|c: int, p: Seq<u8>|
                    #[trigger] entries_contain(connected_unopened@, c, p) <==> ((exists|j: int|
                        0 <= j < i2 && self.desired@[j].chain_index == c
                            && self.desired@[j].peer.id() == p) && healthy_in(self.connections@, p)
                        && !out_ba_in(self.notif_substreams@, c, p)),
                forall|k: int, l: int|
                    0 <= k < l < connected_unopened@.len() ==> !(connected_unopened@[k].chain_index
                        == connected_unopened@[l].chain_index && connected_unopened@[k].peer.id()
                        == connected_unopened@[l].peer.id()),
            decreases self.desired@.len() - i2,
        {
            let ghost pre = connected_unopened@;
            let entry = self.desired[i2].duplicate();
            let is_healthy = healthy_in_exec(&self.connections, &entry.peer);
            let has_ba = out_ba_in_exec(&self.notif_substreams, entry.chain_index, &entry.peer);
            if is_healthy && !has_ba {
                connected_unopened.push(entry);
            }
            proof {
                assert forall|c: int, p: Seq<u8>| #[trigger] entries_contain(
                    connected_unopened@,
                    c,
                    p,
                ) implies ((exists|j: int|
                    0 <= j < i2 + 1 && self.desired@[j].chain_index == c
                        && self.desired@[j].peer.id() == p) && healthy_in(self.connections@, p)
                    && !out_ba_in(self.notif_substreams@, c, p)) by {
                    if connected_unopened@ != pre {
                        lemma_entries_contain_push(pre, connected_unopened@.last(), c, p);
                    }
                }
                assert forall|c: int, p: Seq<u8>| ((exists|j: int|
                    0 <= j < i2 + 1 && self.desired@[j].chain_index == c
                        && self.desired@[j].peer.id() == p) && healthy_in(self.connections@, p)
                    && !out_ba_in(self.notif_substreams@, c, p)) implies #[trigger] entries_contain(
                    connected_unopened@,
                    c,
                    p,
                ) by {
                    let j = choose|j: int|
                        0 <= j < i2 + 1 && self.desired@[j].chain_index == c
                            && self.desired@[j].peer.id() == p;
                    if connected_unopened@ != pre {
                        lemma_entries_contain_push(pre, connected_unopened@.last(), c, p);
                    }
                }
                if connected_unopened@ != pre {
                    assert forall|k: int, l: int| 0 <= k < l < connected_unopened@.len() implies !(
                    connected_unopened@[k].chain_index == connected_unopened@[l].chain_index
                        && connected_unopened@[k].peer.id()
                        == connected_unopened@[l].peer.id()) by {
                        if l == connected_unopened@.len() - 1 {
                            assert(entries_contain(
                                pre,
                                connected_unopened@[k].chain_index as int,
                                connected_unopened@[k].peer.id(),
                            ));
                        }
                    }
                }
            }
            i2 += 1;
        }

        // Undesired links with an outbound block-announces substream.
        let mut opened_undesired: Vec<DesiredEntry> = Vec::new();
        let mut i3: usize = 0;
        while i3 < self.notif_substreams.len()
            invariant
                i3 <= self.notif_substreams@.len(),
                forall|c: int, p: Seq<u8>|
                    #[trigger] entries_contain(opened_undesired@, c, p) <==> ((exists|j: int|
                        0 <= j < i3 && sub_is_out_ba(self.notif_substreams@[j])
                            && self.notif_substreams@[j].protocol.chain_index_spec() == c
                            && self.notif_substreams@[j].peer.id() == p) && !desired_in(
                        self.desired@,
                        c,
                        p,
                    )),
                forall|k: int, l: int|
                    0 <= k < l < opened_undesired@.len() ==> !(opened_undesired@[k].chain_index
                        == opened_undesired@[l].chain_index && opened_undesired@[k].peer.id()
                        == opened_undesired@[l].peer.id()),
            decreases self.notif_substreams@.len() - i3,
        {
            let ghost pre = opened_undesired@;
            let is_ba: bool = self.notif_substreams[i3].direction == SubstreamDirection::Out
                && matches!(
                self.notif_substreams[i3].protocol,
                NotificationsProtocol::BlockAnnounces { .. },
            );
            if is_ba {
                let chain = self.notif_substreams[i3].protocol.chain_index();
                let peer = self.notif_substreams[i3].peer.duplicate();
                if !desired_in_exec(&self.desired, chain, &peer) {
                    opened_undesired.push(
                        DesiredEntry {
                            chain_index: chain,
                            peer,
                            kind: GossipKind::ConsensusTransactions,
                        },
                    );
                }
            }
            proof {
                assert forall|c: int, p: Seq<u8>| #[trigger] entries_contain(
                    opened_undesired@,
                    c,
                    p,
                ) implies ((exists|j: int|
                    0 <= j < i3 + 1 && sub_is_out_ba(self.notif_substreams@[j])
                        && self.notif_substreams@[j].protocol.chain_index_spec() == c
                        && self.notif_substreams@[j].peer.id() == p) && !desired_in(
                    self.desired@,
                    c,
                    p,
                )) by {
                    if opened_undesired@ != pre {
                        lemma_entries_contain_push(pre, opened_undesired@.last(), c, p);
                    }
                }
                assert forall|c: int, p: Seq<u8>| ((exists|j: int|
                    0 <= j < i3 + 1 && sub_is_out_ba(self.notif_substreams@[j])
                        && self.notif_substreams@[j].protocol.chain_index_spec() == c
                        && self.notif_substreams@[j].peer.id() == p) && !desired_in(
                    self.desired@,
                    c,
                    p,
                )) implies #[trigger] entries_contain(opened_undesired@, c, p) by {
                    let j = choose|j: int|
                        0 <= j < i3 + 1 && sub_is_out_ba(self.notif_substreams@[j])
                            && self.notif_substreams@[j].protocol.chain_index_spec() == c
                            && self.notif_substreams@[j].peer.id() == p;
                    if opened_undesired@ != pre {
                        lemma_entries_contain_push(pre, opened_undesired@.last(), c, p);
                    }
                }
                if opened_undesired@ != pre {
                    assert forall|k: int, l: int| 0 <= k < l < opened_undesired@.len() implies !(
                    opened_undesired@[k].chain_index == opened_undesired@[l].chain_index
                        && opened_undesired@[k].peer.id() == opened_undesired@[l].peer.id()) by {
                        if l == opened_undesired@.len() - 1 {
                            assert(entries_contain(
                                pre,
                                opened_undesired@[k].chain_index as int,
                                opened_undesired@[k].peer.id(),
                            ));
                        }
                    }
                }
            }
            i3 += 1;
        }

        self.unconnected_desired_entries = unconnected;
        self.connected_unopened_entries = connected_unopened;
        self.opened_undesired_entries = opened_undesired;
    }
}



impl ChainNetwork {
    /// Initializes a new [`ChainNetwork`].
    #[verifier::loop_isolation(false)]
    pub fn new(config: Config) -> (r: ChainNetwork)
        ensures
            r.wf(),
            r.chains_spec().len() == 0,
            r.connections_spec().len() == 0,
            r.notif_substreams_spec().len() == 0,
            r.request_substreams_spec().len() == 0,
            r.desired_spec().len() == 0,
            r.unconnected_desired_spec().len() == 0,
            r.connected_unopened_spec().len() == 0,
            r.opened_undesired_spec().len() == 0,
            r.pending_messages_spec().len() == 0,
            r.pending_events_spec().len() == 0,
            r.noise_key_spec() == config.noise_key@,
    {
        let r = ChainNetwork {
            chains: Vec::new(),
            connections: Vec::new(),
            notif_substreams: Vec::new(),
            request_substreams: Vec::new(),
            next_substream_id: 0,
            desired: Vec::new(),
            unconnected_desired_entries: Vec::new(),
            connected_unopened_entries: Vec::new(),
            opened_undesired_entries: Vec::new(),
            messages: Vec::new(),
            events_in: Vec::new(),
            noise_key: config.noise_key,
        };
        r
    }

    /// The Noise key originally passed as [`Config::noise_key`].
    pub closed spec fn noise_key_spec(&self) -> Seq<u8> {
        self.noise_key@
    }

    /// Returns the Noise key originally passed as [`Config::noise_key`].
    #[verifier::loop_isolation(false)]
    pub fn noise_key(&self) -> (r: &Vec<u8>)
        ensures
            r@ == self.noise_key_spec(),
    {
        &self.noise_key
    }

    /// Adds a chain to the list of chains that is handled by the
    /// [`ChainNetwork`].
    ///
    /// It is not possible to add a chain if its protocol names would conflict
    /// with an existing chain.
    #[verifier::loop_isolation(false)]
    pub fn add_chain(&mut self, config: ChainConfig) -> (r: Result<ChainId, AddChainError>)
        requires
            old(self).wf(),
        ensures
            final(self).wf(),
            final(self).pending_events_spec() == old(self).pending_events_spec(),
            final(self).connections_spec() == old(self).connections_spec(),
            final(self).notif_substreams_spec() == old(self).notif_substreams_spec(),
            final(self).request_substreams_spec() == old(self).request_substreams_spec(),
            final(self).desired_spec() == old(self).desired_spec(),
            final(self).pending_messages_spec() == old(self).pending_messages_spec(),
            final(self).unconnected_desired_spec() == old(self).unconnected_desired_spec(),
            final(self).connected_unopened_spec() == old(self).connected_unopened_spec(),
            final(self).opened_undesired_spec() == old(self).opened_undesired_spec(),
            match r {
                Ok(id) => {
                    &&& !chain_pair_exists(
                        old(self).chains_spec(),
                        config.genesis_hash@,
                        fork_view(config.fork_id),
                    )
                    &&& chain_pair_at(
                        final(self).chains_spec(),
                        id.0 as int,
                        config.genesis_hash@,
                        fork_view(config.fork_id),
                    )
                    &&& !old(self).chain_ok(id.0 as int)
                    &&& id.0 == first_free_slot(old(self).chains_spec())
                    &&& forall|k: int|
                        0 <= k < final(self).chains_spec().len() && k != id.0 ==> final(self).chains_spec()[k] == old(self).chains_spec().index(k)
                    &&& final(self).chains_spec().len() >= old(self).chains_spec().len()
                },
                Err(AddChainError::Duplicate { existing_identical }) => {
                    &&& *final(self) == *old(self)
                    &&& chain_pair_at(
                        old(self).chains_spec(),
                        existing_identical.0 as int,
                        config.genesis_hash@,
                        fork_view(config.fork_id),
                    )
                },
            },
    {
        // Check for an existing chain with the same protocol information.
        let mut i: usize = 0;
        while i < self.chains.len()
            invariant
                i <= self.chains@.len(),
                forall|j: int|
                    0 <= j < i ==> !chain_pair_at(
                        self.chains@,
                        j,
                        config.genesis_hash@,
                        fork_view(config.fork_id),
                    ),
            decreases self.chains@.len() - i,
        {
            let matches_here: bool = match &self.chains[i] {
                Some(c) => hash_eq(&c.genesis_hash, &config.genesis_hash) && opt_bytes_eq(
                    &c.fork_id,
                    &config.fork_id,
                ),
                None => false,
            };
            if matches_here {
                return Err(AddChainError::Duplicate { existing_identical: ChainId(i) });
            }
            i += 1;
        }

        // Find a free slot, or append one.
        let mut slot: usize = 0;
        while slot < self.chains.len() && self.chains[slot].is_some()
            invariant
                slot <= self.chains@.len(),
                forall|j: int| 0 <= j < slot ==> self.chains@[j] is Some,
            decreases self.chains@.len() - slot,
        {
            slot += 1;
        }

        let chain = Chain {
            genesis_hash: config.genesis_hash,
            fork_id: config.fork_id,
            block_number_bytes: config.block_number_bytes,
            grandpa_protocol_config: config.grandpa_protocol_config,
            allow_inbound_block_requests: config.allow_inbound_block_requests,
            best_hash: config.best_hash,
            best_number: config.best_number,
            role: config.role,
        };

        let new_entry = Some(chain);
        let ghost gnew = new_entry;
        let ghost pre = self.chains@;
        proof {
            lemma_first_free_slot(pre, slot as int);
        }
        proof {
            assert(forall|j: int|
                0 <= j < pre.len() ==> !chain_pair_at(
                    pre,
                    j,
                    config.genesis_hash@,
                    fork_view(config.fork_id),
                ));
        }
        if slot == self.chains.len() {
            self.chains.push(new_entry);
        } else {
            self.chains.remove(slot);
            self.chains.insert(slot, new_entry);
            proof {
                assert(self.chains@ =~= pre.update(slot as int, gnew));
            }
        }
        proof {
            assert(self.chains@[slot as int] == gnew);
            assert(forall|k: int|
                0 <= k < self.chains@.len() && k != slot ==> self.chains@[k] == pre.index(k));
            assert(chain_pair_at(
                self.chains@,
                slot as int,
                config.genesis_hash@,
                fork_view(config.fork_id),
            ));
            assert forall|a: int, b: int| 0 <= a < b < self.chains@.len() implies !(chain_pair_at(
                self.chains@,
                a,
                self.chains@[b]->Some_0.genesis_hash@,
                fork_view(self.chains@[b]->Some_0.fork_id),
            ) && self.chains@[b] is Some) by {
                let gb = self.chains@[b]->Some_0.genesis_hash@;
                let fb = fork_view(self.chains@[b]->Some_0.fork_id);
                if chain_pair_at(self.chains@, a, gb, fb) && self.chains@[b] is Some {
                    if a != slot && b != slot {
                        assert(chain_pair_at(pre, a, gb, fb));
                        assert(!(chain_pair_at(
                            pre,
                            a,
                            pre[b]->Some_0.genesis_hash@,
                            fork_view(pre[b]->Some_0.fork_id),
                        ) && pre[b] is Some));
                        assert(false);
                    } else if a == slot {
                        assert(gb == config.genesis_hash@ && fb == fork_view(config.fork_id));
                        assert(chain_pair_at(pre, b, config.genesis_hash@, fork_view(
                            config.fork_id,
                        )));
                        assert(false);
                    } else {
                        assert(gb == config.genesis_hash@ && fb == fork_view(config.fork_id));
                        assert(chain_pair_at(pre, a, config.genesis_hash@, fork_view(
                            config.fork_id,
                        )));
                        assert(false);
                    }
                }
            }
            assert forall|k: int|
                0 <= k < self.desired@.len() implies self.chain_ok(
                #[trigger] self.desired@[k].chain_index as int,
            ) by {
                assert(old(self).chain_ok(self.desired@[k].chain_index as int));
            }
            old(self).lemma_sets_exact_carries(self);
        }
        Ok(ChainId(slot))
    }

    /// Modifies the best block of the local node for the given chain.
    ///
    /// This information is sent to remotes whenever a block announces
    /// substream is opened.
    #[verifier::loop_isolation(false)]
    pub fn set_chain_local_best_block(
        &mut self,
        chain_id: ChainId,
        best_hash: [u8; 32],
        best_number: u64,
    )
        requires
            old(self).wf(),
            old(self).chain_ok(chain_id.0 as int),
        ensures
            final(self).wf(),
            final(self).pending_events_spec() == old(self).pending_events_spec(),
            final(self).chains_spec().len() == old(self).chains_spec().len(),
            final(self).chains_spec()[chain_id.0 as int] matches Some(c) && c.best_hash@
                == best_hash@ && c.best_number == best_number,
            forall|k: int|
                0 <= k < final(self).chains_spec().len() && k != chain_id.0 ==> final(self).chains_spec()[k] == old(self).chains_spec().index(k),
            final(self).chains_spec()[chain_id.0 as int]->Some_0.genesis_hash == old(self).chains_spec()[chain_id.0 as int]->Some_0.genesis_hash,
            final(self).chains_spec()[chain_id.0 as int]->Some_0.fork_id == old(self).chains_spec()[chain_id.0 as int]->Some_0.fork_id,
            final(self).connections_spec() == old(self).connections_spec(),
            final(self).notif_substreams_spec() == old(self).notif_substreams_spec(),
            final(self).request_substreams_spec() == old(self).request_substreams_spec(),
            final(self).desired_spec() == old(self).desired_spec(),
            final(self).pending_messages_spec() == old(self).pending_messages_spec(),
            final(self).unconnected_desired_spec() == old(self).unconnected_desired_spec(),
            final(self).connected_unopened_spec() == old(self).connected_unopened_spec(),
            final(self).opened_undesired_spec() == old(self).opened_undesired_spec(),
    {
        let ghost pre = self.chains@;
        let mut entry = self.chains.remove(chain_id.0);
        if let Some(c) = &mut entry {
            c.best_hash = best_hash;
            c.best_number = best_number;
        }
        let ghost gentry = entry;
        self.chains.insert(chain_id.0, entry);
        proof {
            assert(self.chains@ =~= pre.update(chain_id.0 as int, gentry));
            assert(gentry is Some);
            assert(gentry->Some_0.genesis_hash == pre[chain_id.0 as int]->Some_0.genesis_hash);
            assert(gentry->Some_0.fork_id == pre[chain_id.0 as int]->Some_0.fork_id);
            assert forall|a: int, b: int| 0 <= a < b < self.chains@.len() implies !(chain_pair_at(
                self.chains@,
                a,
                self.chains@[b]->Some_0.genesis_hash@,
                fork_view(self.chains@[b]->Some_0.fork_id),
            ) && self.chains@[b] is Some) by {
                let gb = self.chains@[b]->Some_0.genesis_hash@;
                let fb = fork_view(self.chains@[b]->Some_0.fork_id);
                if chain_pair_at(self.chains@, a, gb, fb) && self.chains@[b] is Some {
                    assert(gb == pre[b]->Some_0.genesis_hash@);
                    assert(fb == fork_view(pre[b]->Some_0.fork_id));
                    assert(pre[b] is Some);
                    assert(chain_pair_at(pre, a, gb, fb));
                    assert(false);
                }
            }
            assert forall|k: int|
                0 <= k < self.desired@.len() implies self.chain_ok(
                #[trigger] self.desired@[k].chain_index as int,
            ) by {
                assert(old(self).chain_ok(self.desired@[k].chain_index as int));
            }
            old(self).lemma_sets_exact_carries(self);
        }
    }

    /// Returns the list of all the chains that have been added.
    #[verifier::loop_isolation(false)]
    pub fn chains(&self) -> (r: Vec<ChainId>)
        ensures
            forall|k: int|
                0 <= k < r@.len() ==> self.chain_ok(#[trigger] r@[k].0 as int),
            forall|c: int|
                0 <= c < self.chains_spec().len() && self.chains_spec()[c] is Some ==> exists|k: int|
                    0 <= k < r@.len() && r@[k].0 == c,
    {
        let mut out: Vec<ChainId> = Vec::new();
        let mut i: usize = 0;
        while i < self.chains.len()
            invariant
                i <= self.chains@.len(),
                forall|k: int|
                    0 <= k < out@.len() ==> self.chain_ok(#[trigger] out@[k].0 as int),
                forall|c: int|
                    0 <= c < i && self.chains@[c] is Some ==> exists|k: int|
                        0 <= k < out@.len() && out@[k].0 == c,
            decreases self.chains@.len() - i,
        {
            let ghost pre_out = out@;
            if self.chains[i].is_some() {
                out.push(ChainId(i));
            }
            proof {
                assert forall|c: int| 0 <= c < i + 1 && self.chains@[c] is Some implies exists|k: int|
                    0 <= k < out@.len() && out@[k].0 == c by {
                    if c < i {
                        let k = choose|k: int| 0 <= k < pre_out.len() && pre_out[k].0 == c;
                        assert(out@[k].0 == c);
                    } else {
                        assert(out@[out@.len() - 1].0 == c);
                    }
                }
            }
            i += 1;
        }
        out
    }

    /// Returns the value passed as [`ChainConfig::block_number_bytes`] for the
    /// given chain.
    #[verifier::loop_isolation(false)]
    pub fn block_number_bytes(&self, chain_id: ChainId) -> (r: usize)
        requires
            self.chain_ok(chain_id.0 as int),
        ensures
            r == self.chains_spec()[chain_id.0 as int]->Some_0.block_number_bytes,
    {
        match &self.chains[chain_id.0] {
            Some(c) => c.block_number_bytes,
            None => vstd::pervasive::unreached(),
        }
    }

    /// Marks the given chain-peer combination as "desired".
    ///
    /// Has no effect if it was already marked as desired.
    ///
    /// Returns `true` if the peer has been marked as desired, and `false` if
    /// it was already marked as desired.
    #[verifier::loop_isolation(false)]
    pub fn gossip_insert_desired(&mut self, chain_id: ChainId, peer_id: PeerId, kind: GossipKind)
        -> (r: bool)
        requires
            old(self).wf(),
            old(self).chain_ok(chain_id.0 as int),
        ensures
            final(self).wf(),
            final(self).pending_events_spec() == old(self).pending_events_spec(),
            r == !old(self).is_desired(chain_id.0 as int, peer_id.id()),
            !r ==> *final(self) == *old(self),
            final(self).is_desired(chain_id.0 as int, peer_id.id()),
            forall|c: int, p: Seq<u8>|
                #[trigger] desired_in(final(self).desired_spec(), c, p) <==> (desired_in(
                    old(self).desired_spec(),
                    c,
                    p,
                ) || (c == chain_id.0 && p == peer_id.id())),
            final(self).chains_spec() == old(self).chains_spec(),
            final(self).connections_spec() == old(self).connections_spec(),
            final(self).notif_substreams_spec() == old(self).notif_substreams_spec(),
            final(self).request_substreams_spec() == old(self).request_substreams_spec(),
            final(self).pending_messages_spec() == old(self).pending_messages_spec(),
    {
        let ghost pre = self.desired@;
        if desired_in_exec(&self.desired, chain_id.0, &peer_id) {
            proof {
                assert(desired_in(self.desired@, chain_id.0 as int, peer_id.id()));
            }
            return false;
        }
        self.desired.push(
            DesiredEntry { chain_index: chain_id.0, peer: peer_id, kind },
        );
        proof {
            let last = self.desired@.last();
            assert(self.desired@[pre.len() as int].chain_index == chain_id.0);
            assert forall|c: int, p: Seq<u8>| #[trigger] desired_in(self.desired@, c, p) implies (
            desired_in(pre, c, p) || (c == chain_id.0 && p == last.peer.id())) by {
                let i = choose|i: int|
                    0 <= i < self.desired@.len() && self.desired@[i].chain_index == c
                        && self.desired@[i].peer.id() == p;
                if i < pre.len() {
                    assert(pre[i].chain_index == c && pre[i].peer.id() == p);
                }
            }
            assert forall|c: int, p: Seq<u8>| (desired_in(pre, c, p) || (c == chain_id.0 && p
                == last.peer.id())) implies #[trigger] desired_in(self.desired@, c, p) by {
                if desired_in(pre, c, p) {
                    let i = choose|i: int|
                        0 <= i < pre.len() && pre[i].chain_index == c && pre[i].peer.id() == p;
                    assert(self.desired@[i].chain_index == c && self.desired@[i].peer.id() == p);
                } else {
                    assert(self.desired@[pre.len() as int].chain_index == c);
                }
            }
            assert forall|a: int, b: int| 0 <= a < b < self.desired@.len() implies !(
            self.desired@[a].chain_index == self.desired@[b].chain_index
                && self.desired@[a].peer.id() == self.desired@[b].peer.id()) by {
                if b == self.desired@.len() - 1 {
                    assert(self.desired@[a] == pre[a]);
                    if self.desired@[a].chain_index == chain_id.0 && self.desired@[a].peer.id()
                        == last.peer.id() {
                        assert(desired_in(pre, chain_id.0 as int, last.peer.id()));
                    }
                } else {
                    assert(self.desired@[a] == pre[a]);
                    assert(self.desired@[b] == pre[b]);
                }
            }
        }
        self.refresh_desired_sets();
        true
    }

    /// Removes the given chain-peer combination from the list of desired
    /// chain-peers.
    ///
    /// Has no effect if it was not marked as desired.
    ///
    /// Returns `true` if the peer was desired on this chain.
    #[verifier::loop_isolation(false)]
    pub fn gossip_remove_desired(&mut self, chain_id: ChainId, peer_id: &PeerId, kind: GossipKind)
        -> (r: bool)
        requires
            old(self).wf(),
            old(self).chain_ok(chain_id.0 as int),
        ensures
            final(self).wf(),
            final(self).pending_events_spec() == old(self).pending_events_spec(),
            r == old(self).is_desired(chain_id.0 as int, peer_id.id()),
            !r ==> *final(self) == *old(self),
            !final(self).is_desired(chain_id.0 as int, peer_id.id()),
            forall|c: int, p: Seq<u8>|
                #[trigger] desired_in(final(self).desired_spec(), c, p) <==> (desired_in(
                    old(self).desired_spec(),
                    c,
                    p,
                ) && !(c == chain_id.0 && p == peer_id.id())),
            final(self).chains_spec() == old(self).chains_spec(),
            final(self).connections_spec() == old(self).connections_spec(),
            final(self).notif_substreams_spec() == old(self).notif_substreams_spec(),
            final(self).request_substreams_spec() == old(self).request_substreams_spec(),
            final(self).pending_messages_spec() == old(self).pending_messages_spec(),
    {
        let _ = kind;
        let ghost pre = self.desired@;
        let mut found: Option<usize> = None;
        let mut i: usize = 0;
        while i < self.desired.len()
            invariant
                i <= self.desired@.len(),
                match found {
                    Some(k) => k < i && self.desired@[k as int].chain_index == chain_id.0
                        && self.desired@[k as int].peer.id() == peer_id.id(),
                    None => forall|j: int|
                        0 <= j < i ==> !(self.desired@[j].chain_index == chain_id.0
                            && self.desired@[j].peer.id() == peer_id.id()),
                },
                self.desired@ == pre,
            decreases self.desired@.len() - i,
        {
            if found.is_none() && self.desired[i].chain_index == chain_id.0
                && self.desired[i].peer.same_as(peer_id) {
                found = Some(i);
            }
            i += 1;
        }
        match found {
            None => {
                proof {
                    assert(!desired_in(pre, chain_id.0 as int, peer_id.id()));
                    assert forall|c: int, p: Seq<u8>| #[trigger] desired_in(
                        self.desired@,
                        c,
                        p,
                    ) implies (desired_in(pre, c, p) && !(c == chain_id.0 && p
                        == peer_id.id())) by {
                        let k = choose|k: int|
                            0 <= k < self.desired@.len() && self.desired@[k].chain_index == c
                                && self.desired@[k].peer.id() == p;
                    }
                }
                false
            },
            Some(k) => {
                self.desired.remove(k);
                proof {
                    assert forall|c: int, p: Seq<u8>| #[trigger] desired_in(
                        self.desired@,
                        c,
                        p,
                    ) implies (desired_in(pre, c, p) && !(c == chain_id.0 && p
                        == peer_id.id())) by {
                        let m = choose|m: int|
                            0 <= m < self.desired@.len() && self.desired@[m].chain_index == c
                                && self.desired@[m].peer.id() == p;
                        if m < k {
                            assert(pre[m].chain_index == c && pre[m].peer.id() == p);
                        } else {
                            assert(pre[m + 1].chain_index == c && pre[m + 1].peer.id() == p);
                        }
                    }
                    assert forall|c: int, p: Seq<u8>|
                        (desired_in(pre, c, p) && !(c == chain_id.0 && p
                            == peer_id.id())) implies #[trigger] desired_in(
                        self.desired@,
                        c,
                        p,
                    ) by {
                        let m = choose|m: int|
                            0 <= m < pre.len() && pre[m].chain_index == c && pre[m].peer.id() == p;
                        if m < k {
                            assert(self.desired@[m].chain_index == c);
                        } else {
                            assert(m != k);
                            assert(self.desired@[m - 1].chain_index == c);
                        }
                    }
                    assert forall|i2: int, j2: int|
                        0 <= i2 < j2 < self.desired@.len() implies !(
                    self.desired@[i2].chain_index == self.desired@[j2].chain_index
                        && self.desired@[i2].peer.id() == self.desired@[j2].peer.id()) by {
                        let oi = if i2 < k { i2 } else { i2 + 1 };
                        let oj = if j2 < k { j2 } else { j2 + 1 };
                        assert(pre[oi] == self.desired@[i2]);
                        assert(pre[oj] == self.desired@[j2]);
                    }
                }
                self.refresh_desired_sets();
                true
            },
        }
    }
}



impl ChainNetwork {
    /// Removes the given peer from the list of desired chain-peers of all the
    /// chains that exist.
    ///
    /// Has no effect if it was not marked as desired.
    #[verifier::loop_isolation(false)]
    pub fn gossip_remove_desired_all(&mut self, peer_id: &PeerId, kind: GossipKind)
        requires
            old(self).wf(),
        ensures
            final(self).wf(),
            final(self).pending_events_spec() == old(self).pending_events_spec(),
            forall|c: int, p: Seq<u8>|
                #[trigger] desired_in(final(self).desired_spec(), c, p) <==> (desired_in(
                    old(self).desired_spec(),
                    c,
                    p,
                ) && p != peer_id.id()),
            final(self).chains_spec() == old(self).chains_spec(),
            final(self).connections_spec() == old(self).connections_spec(),
            final(self).notif_substreams_spec() == old(self).notif_substreams_spec(),
            final(self).request_substreams_spec() == old(self).request_substreams_spec(),
            final(self).pending_messages_spec() == old(self).pending_messages_spec(),
    {
        let _ = kind;
        let ghost pre = self.desired@;
        let mut kept: Vec<DesiredEntry> = Vec::new();
        let mut i: usize = 0;
        while i < self.desired.len()
            invariant
                i <= self.desired@.len(),
                self.desired@ == pre,
                forall|c: int, p: Seq<u8>|
                    #[trigger] entries_contain(kept@, c, p) <==> ((exists|j: int|
                        0 <= j < i && pre[j].chain_index == c && pre[j].peer.id() == p) && p
                        != peer_id.id()),
                forall|k: int, l: int|
                    0 <= k < l < kept@.len() ==> !(kept@[k].chain_index == kept@[l].chain_index
                        && kept@[k].peer.id() == kept@[l].peer.id()),
                forall|k: int|
                    0 <= k < kept@.len() ==> old(self).chain_ok(
                        #[trigger] kept@[k].chain_index as int,
                    ),
            decreases self.desired@.len() - i,
        {
            let ghost pre_kept = kept@;
            if !self.desired[i].peer.same_as(peer_id) {
                kept.push(self.desired[i].duplicate());
            }
            proof {
                assert forall|c: int, p: Seq<u8>| #[trigger] entries_contain(
                    kept@,
                    c,
                    p,
                ) implies ((exists|j: int|
                    0 <= j < i + 1 && pre[j].chain_index == c && pre[j].peer.id() == p) && p
                    != peer_id.id()) by {
                    if kept@ != pre_kept {
                        lemma_entries_contain_push(pre_kept, kept@.last(), c, p);
                    }
                }
                assert forall|c: int, p: Seq<u8>| ((exists|j: int|
                    0 <= j < i + 1 && pre[j].chain_index == c && pre[j].peer.id() == p) && p
                    != peer_id.id()) implies #[trigger] entries_contain(kept@, c, p) by {
                    let j = choose|j: int|
                        0 <= j < i + 1 && pre[j].chain_index == c && pre[j].peer.id() == p;
                    if kept@ != pre_kept {
                        lemma_entries_contain_push(pre_kept, kept@.last(), c, p);
                    }
                }
                if kept@ != pre_kept {
                    assert forall|k: int, l: int| 0 <= k < l < kept@.len() implies !(
                    kept@[k].chain_index == kept@[l].chain_index && kept@[k].peer.id()
                        == kept@[l].peer.id()) by {
                        if l == kept@.len() - 1 {
                            if kept@[k].chain_index == kept@[l].chain_index && kept@[k].peer.id()
                                == kept@[l].peer.id() {
                                assert(entries_contain(
                                    pre_kept,
                                    kept@[l].chain_index as int,
                                    kept@[l].peer.id(),
                                ));
                                let j = choose|j: int|
                                    0 <= j < i && pre[j].chain_index == kept@[l].chain_index
                                        && pre[j].peer.id() == kept@[l].peer.id();
                                assert(!(pre[j].chain_index == pre[i as int].chain_index
                                    && pre[j].peer.id() == pre[i as int].peer.id()));
                            }
                        }
                    }
                }
            }
            i += 1;
        }
        self.desired = kept;
        proof {
            assert forall|c: int, p: Seq<u8>| #[trigger] desired_in(self.desired@, c, p) implies (
            desired_in(pre, c, p) && p != peer_id.id()) by {
                let m = choose|m: int|
                    0 <= m < self.desired@.len() && self.desired@[m].chain_index == c
                        && self.desired@[m].peer.id() == p;
                assert(entries_contain(self.desired@, c, p));
                let j = choose|j: int|
                    0 <= j < pre.len() && pre[j].chain_index == c && pre[j].peer.id() == p;
            }
            assert forall|c: int, p: Seq<u8>| (desired_in(pre, c, p) && p
                != peer_id.id()) implies #[trigger] desired_in(self.desired@, c, p) by {
                let j = choose|j: int|
                    0 <= j < pre.len() && pre[j].chain_index == c && pre[j].peer.id() == p;
                assert(entries_contain(self.desired@, c, p));
                let m = choose|m: int|
                    0 <= m < self.desired@.len() && self.desired@[m].chain_index == c
                        && self.desired@[m].peer.id() == p;
            }
        }
        self.refresh_desired_sets();
    }

    /// Returns the number of gossip-desired peers for the given chain.
    #[verifier::loop_isolation(false)]
    pub fn gossip_desired_num(&self, chain_id: ChainId, kind: GossipKind) -> (r: usize)
        requires
            self.chain_ok(chain_id.0 as int),
        ensures
            r == count_desired_on_chain(self.desired_spec(), chain_id.0 as int),
    {
        let _ = kind;
        let mut count: usize = 0;
        let mut i: usize = 0;
        while i < self.desired.len()
            invariant
                i <= self.desired@.len(),
                count == count_desired_on_chain(self.desired@.take(i as int), chain_id.0 as int),
                count <= i,
            decreases self.desired@.len() - i,
        {
            proof {
                assert(self.desired@.take(i + 1).drop_last() =~= self.desired@.take(i as int));
                assert(self.desired@.take(i + 1).last() == self.desired@[i as int]);
            }
            if self.desired[i].chain_index == chain_id.0 {
                count += 1;
            }
            i += 1;
        }
        proof {
            assert(self.desired@.take(self.desired@.len() as int) =~= self.desired@);
        }
        count
    }

    /// Returns the list of peers that are desired (for any chain) but for
    /// which no healthy connection exists.
    pub fn unconnected_desired(&self) -> (r: &Vec<PeerId>)
        ensures
            r@ == self.unconnected_desired_spec(),
    {
        &self.unconnected_desired_entries
    }

    /// Returns the list of `(peer, chain, kind)` tuples that are marked as
    /// desired, have a healthy connection, and no outbound block-announces
    /// substream yet.
    pub fn connected_unopened_gossip_desired(&self) -> (r: &Vec<DesiredEntry>)
        ensures
            r@ == self.connected_unopened_spec(),
    {
        &self.connected_unopened_entries
    }

    /// Returns the list of `(chain, peer, kind)` tuples for which an outbound
    /// block-announces substream exists but that are not marked as desired.
    pub fn opened_gossip_undesired(&self) -> (r: &Vec<DesiredEntry>)
        ensures
            r@ == self.opened_undesired_spec(),
    {
        &self.opened_undesired_entries
    }

    /// Returns the undesired opened links of one chain.
    #[verifier::loop_isolation(false)]
    pub fn opened_gossip_undesired_by_chain(&self, chain_id: ChainId) -> (r: Vec<DesiredEntry>)
        ensures
            forall|k: int|
                0 <= k < r@.len() ==> (#[trigger] r@[k].chain_index) == chain_id.0,
            forall|p: Seq<u8>|
                #[trigger] entries_contain(r@, chain_id.0 as int, p) <==> entries_contain(
                    self.opened_undesired_spec(),
                    chain_id.0 as int,
                    p,
                ),
    {
        let mut out: Vec<DesiredEntry> = Vec::new();
        let mut i: usize = 0;
        while i < self.opened_undesired_entries.len()
            invariant
                i <= self.opened_undesired_entries@.len(),
                forall|k: int|
                    0 <= k < out@.len() ==> (#[trigger] out@[k].chain_index) == chain_id.0,
                forall|p: Seq<u8>|
                    #[trigger] entries_contain(out@, chain_id.0 as int, p) <==> (exists|j: int|
                        0 <= j < i && self.opened_undesired_entries@[j].chain_index == chain_id.0
                            && self.opened_undesired_entries@[j].peer.id() == p),
            decreases self.opened_undesired_entries@.len() - i,
        {
            let ghost pre_out = out@;
            if self.opened_undesired_entries[i].chain_index == chain_id.0 {
                out.push(self.opened_undesired_entries[i].duplicate());
            }
            proof {
                assert forall|p: Seq<u8>| #[trigger] entries_contain(
                    out@,
                    chain_id.0 as int,
                    p,
                ) implies (exists|j: int|
                    0 <= j < i + 1 && self.opened_undesired_entries@[j].chain_index == chain_id.0
                        && self.opened_undesired_entries@[j].peer.id() == p) by {
                    if out@ != pre_out {
                        lemma_entries_contain_push(pre_out, out@.last(), chain_id.0 as int, p);
                    }
                }
                assert forall|p: Seq<u8>| (exists|j: int|
                    0 <= j < i + 1 && self.opened_undesired_entries@[j].chain_index == chain_id.0
                        && self.opened_undesired_entries@[j].peer.id()
                        == p) implies #[trigger] entries_contain(out@, chain_id.0 as int, p) by {
                    let j = choose|j: int|
                        0 <= j < i + 1 && self.opened_undesired_entries@[j].chain_index
                            == chain_id.0 && self.opened_undesired_entries@[j].peer.id() == p;
                    if out@ != pre_out {
                        lemma_entries_contain_push(pre_out, out@.last(), chain_id.0 as int, p);
                    }
                }
            }
            i += 1;
        }
        proof {
            assert forall|p: Seq<u8>| #[trigger] entries_contain(
                self.opened_undesired_spec(),
                chain_id.0 as int,
                p,
            ) implies entries_contain(out@, chain_id.0 as int, p) by {
                let j = choose|j: int|
                    0 <= j < self.opened_undesired_entries@.len()
                        && self.opened_undesired_entries@[j].chain_index == chain_id.0
                        && self.opened_undesired_entries@[j].peer.id() == p;
            }
        }
        out
    }

    /// Adds a single-stream connection to the state machine.
    ///
    /// The connection hasn't finished handshaking; if `expected_peer_id` is
    /// `Some`, the connection is expected to reach the given peer.
    ///
    /// Returns the identifier of the connection and the state machine that the
    /// connection task must drive.
    pub fn add_single_stream_connection(
        &mut self,
        when_connection_start_ms: u64,
        handshake_kind: SingleStreamHandshakeKind,
        remote_addr: Vec<u8>,
        expected_peer_id: Option<PeerId>,
    ) -> (r: (
        ConnectionId,
        crate::driver::SingleStreamConnectionTask<ConnectionToCoordinator, CoordinatorToConnection>,
    ))
        requires
            old(self).wf(),
        ensures
            final(self).wf(),
            final(self).pending_events_spec() == old(self).pending_events_spec(),
            r.0.0 == old(self).connections_spec().len(),
            final(self).connections_spec().len() == old(self).connections_spec().len() + 1,
            final(self).connections_spec().last() matches Connection {
                address,
                peer,
                established,
                shutting_down,
                alive,
            } && address@ == remote_addr@ && established == false && shutting_down == false
                && alive == true && (match (peer, expected_peer_id) {
                (Some(a), Some(b)) => a.id() == b.id(),
                (None, None) => true,
                _ => false,
            }),
            forall|k: int|
                0 <= k < old(self).connections_spec().len() ==> final(self).connections_spec().index(k) == old(self).connections_spec().index(k),
            final(self).chains_spec() == old(self).chains_spec(),
            final(self).notif_substreams_spec() == old(self).notif_substreams_spec(),
            final(self).request_substreams_spec() == old(self).request_substreams_spec(),
            final(self).desired_spec() == old(self).desired_spec(),
            final(self).pending_messages_spec() == old(self).pending_messages_spec(),
    {
        let _ = when_connection_start_ms;
        let _ = handshake_kind;
        let id = ConnectionId(self.connections.len());
        self.connections.push(
            Connection {
                address: remote_addr,
                peer: expected_peer_id,
                established: false,
                shutting_down: false,
                alive: true,
            },
        );
        self.refresh_desired_sets();
        (id, crate::driver::SingleStreamConnectionTask::new())
    }

    /// Adds a multi-stream connection to the state machine.
    ///
    /// The connection hasn't finished handshaking; if `expected_peer_id` is
    /// `Some`, the connection is expected to reach the given peer.
    pub fn add_multi_stream_connection(
        &mut self,
        when_connection_start_ms: u64,
        handshake_kind: MultiStreamHandshakeKind,
        remote_addr: Vec<u8>,
        expected_peer_id: Option<PeerId>,
    ) -> (r: (
        ConnectionId,
        crate::driver::SingleStreamConnectionTask<ConnectionToCoordinator, CoordinatorToConnection>,
    ))
        requires
            old(self).wf(),
        ensures
            final(self).wf(),
            final(self).pending_events_spec() == old(self).pending_events_spec(),
            r.0.0 == old(self).connections_spec().len(),
            final(self).connections_spec().len() == old(self).connections_spec().len() + 1,
            final(self).connections_spec().last() matches Connection {
                address,
                peer,
                established,
                shutting_down,
                alive,
            } && address@ == remote_addr@ && established == false && shutting_down == false
                && alive == true && (match (peer, expected_peer_id) {
                (Some(a), Some(b)) => a.id() == b.id(),
                (None, None) => true,
                _ => false,
            }),
            forall|k: int|
                0 <= k < old(self).connections_spec().len() ==> final(self).connections_spec().index(k) == old(self).connections_spec().index(k),
            final(self).chains_spec() == old(self).chains_spec(),
            final(self).notif_substreams_spec() == old(self).notif_substreams_spec(),
            final(self).request_substreams_spec() == old(self).request_substreams_spec(),
            final(self).desired_spec() == old(self).desired_spec(),
            final(self).pending_messages_spec() == old(self).pending_messages_spec(),
    {
        let _ = when_connection_start_ms;
        let _ = handshake_kind;
        let id = ConnectionId(self.connections.len());
        self.connections.push(
            Connection {
                address: remote_addr,
                peer: expected_peer_id,
                established: false,
                shutting_down: false,
                alive: true,
            },
        );
        self.refresh_desired_sets();
        (id, crate::driver::SingleStreamConnectionTask::new())
    }

    /// Returns the number of connections, both handshaking or established.
    #[verifier::loop_isolation(false)]
    pub fn num_connections(&self) -> (r: usize)
        ensures
            r == count_alive(self.connections_spec()),
    {
        let mut count: usize = 0;
        let mut i: usize = 0;
        while i < self.connections.len()
            invariant
                i <= self.connections@.len(),
                count == count_alive(self.connections@.take(i as int)),
                count <= i,
            decreases self.connections@.len() - i,
        {
            proof {
                assert(self.connections@.take(i + 1).drop_last() =~= self.connections@.take(
                    i as int,
                ));
                assert(self.connections@.take(i + 1).last() == self.connections@[i as int]);
            }
            if self.connections[i].alive {
                count += 1;
            }
            i += 1;
        }
        proof {
            assert(self.connections@.take(self.connections@.len() as int) =~= self.connections@);
        }
        count
    }

    /// Returns the remote address that was passed when the given connection
    /// was added.
    pub fn connection_remote_addr(&self, id: ConnectionId) -> (r: &Vec<u8>)
        requires
            id.0 < self.connections_spec().len(),
            self.connections_spec()[id.0 as int].alive,
        ensures
            r@ == self.connections_spec()[id.0 as int].address@,
    {
        &self.connections[id.0].address
    }

    /// Pulls a message that must be sent to a connection.
    pub fn pull_message_to_connection(&mut self) -> (r: Option<(
        ConnectionId,
        CoordinatorToConnection,
    )>)
        requires
            old(self).wf(),
        ensures
            final(self).wf(),
            match r {
                None => old(self).pending_messages_spec().len() == 0 && *final(self)
                    == *old(self),
                Some((cid, m)) => {
                    &&& old(self).pending_messages_spec().len() > 0
                    &&& cid.0 == old(self).pending_messages_spec()[0].0
                    &&& m == old(self).pending_messages_spec()[0].1
                    &&& final(self).pending_messages_spec() == old(self).pending_messages_spec().skip(1)
                },
            },
            final(self).chains_spec() == old(self).chains_spec(),
            final(self).connections_spec() == old(self).connections_spec(),
            final(self).notif_substreams_spec() == old(self).notif_substreams_spec(),
            final(self).request_substreams_spec() == old(self).request_substreams_spec(),
            final(self).desired_spec() == old(self).desired_spec(),
            final(self).unconnected_desired_spec() == old(self).unconnected_desired_spec(),
            final(self).connected_unopened_spec() == old(self).connected_unopened_spec(),
            final(self).opened_undesired_spec() == old(self).opened_undesired_spec(),
            final(self).pending_events_spec() == old(self).pending_events_spec(),
    {
        if self.messages.len() == 0 {
            return None;
        }
        let (c, m) = self.messages.remove(0);
        proof {
            old(self).lemma_sets_exact_carries(self);
        }
        Some((ConnectionId(c), m))
    }

    /// Injects into the state machine a message generated by a connection.
    pub fn inject_connection_message(
        &mut self,
        connection_id: ConnectionId,
        message: ConnectionToCoordinator,
    )
        requires
            old(self).wf(),
            connection_id.0 < old(self).connections_spec().len(),
        ensures
            final(self).wf(),
            final(self).pending_events_spec() == old(self).pending_events_spec().push(
                (connection_id.0, message),
            ),
            final(self).chains_spec() == old(self).chains_spec(),
            final(self).connections_spec() == old(self).connections_spec(),
            final(self).notif_substreams_spec() == old(self).notif_substreams_spec(),
            final(self).request_substreams_spec() == old(self).request_substreams_spec(),
            final(self).desired_spec() == old(self).desired_spec(),
            final(self).unconnected_desired_spec() == old(self).unconnected_desired_spec(),
            final(self).connected_unopened_spec() == old(self).connected_unopened_spec(),
            final(self).opened_undesired_spec() == old(self).opened_undesired_spec(),
            final(self).pending_messages_spec() == old(self).pending_messages_spec(),
    {
        self.events_in.push((connection_id.0, message));
        proof {
            old(self).lemma_sets_exact_carries(self);
        }
    }
}

/// The number of `(chain, peer, kind)` tuples of `desired` on the chain
/// `chain`.
pub open spec fn count_desired_on_chain(desired: Seq<DesiredEntry>, chain: int) -> nat
    decreases desired.len(),
{
    if desired.len() == 0 {
        0
    } else {
        count_desired_on_chain(desired.drop_last(), chain) + if desired.last().chain_index
            == chain {
            1nat
        } else {
            0nat
        }
    }
}

/// The number of alive connections.
pub open spec fn count_alive(conns: Seq<Connection>) -> nat
    decreases conns.len(),
{
    if conns.len() == 0 {
        0
    } else {
        count_alive(conns.drop_last()) + if conns.last().alive {
            1nat
        } else {
            0nat
        }
    }
}



/// True if some connection of `conns` is alive, established, not shutting
/// down, and bound to the peer `p`.
pub open spec fn established_in(conns: Seq<Connection>, p: Seq<u8>) -> bool {
    exists|i: int|
        {
            &&& 0 <= i < conns.len()
            &&& conns[i].alive
            &&& conns[i].established
            &&& !conns[i].shutting_down
            &&& conns[i].peer matches Some(q) && q.id() == p
        }
}

/// True if `subs` holds an open outbound substream of the given protocol for
/// the peer `p`.
pub open spec fn open_out_in(subs: Seq<NotifSubstream>, proto: NotificationsProtocol, p: Seq<u8>) -> bool {
    exists|i: int|
        0 <= i < subs.len() && subs[i].direction == SubstreamDirection::Out && subs[i].state
            == NotificationsSubstreamState::Open && subs[i].protocol == proto && subs[i].peer.id()
            == p
}

/// True if a substream survives `gossip_close` for `(chain, peer)`: outbound
/// substreams of that chain and the pending inbound block-announces substream
/// are torn down.
pub open spec fn keep_on_close(s: NotifSubstream, chain: int, p: Seq<u8>) -> bool {
    ||| s.peer.id() != p
    ||| s.protocol.chain_index_spec() != chain
    ||| (s.direction == SubstreamDirection::In && !(s.protocol matches
        NotificationsProtocol::BlockAnnounces { .. } && s.state
        == NotificationsSubstreamState::Pending))
}

/// The notifications substreams that survive `gossip_close` for
/// `(chain, peer)`, in order.
pub open spec fn close_filtered(subs: Seq<NotifSubstream>, chain: int, p: Seq<u8>) -> Seq<
    NotifSubstream,
>
    decreases subs.len(),
{
    if subs.len() == 0 {
        Seq::empty()
    } else {
        let rest = close_filtered(subs.drop_last(), chain, p);
        if keep_on_close(subs.last(), chain, p) {
            rest.push(subs.last())
        } else {
            rest
        }
    }
}

/// Every substream surviving `gossip_close` comes from the original list and
/// survives the filter.
pub proof fn lemma_close_filtered_from(subs: Seq<NotifSubstream>, chain: int, p: Seq<u8>)
    ensures
        forall|k: int|
            0 <= k < close_filtered(subs, chain, p).len() ==> keep_on_close(
                #[trigger] close_filtered(subs, chain, p)[k],
                chain,
                p,
            ) && exists|j: int| 0 <= j < subs.len() && close_filtered(subs, chain, p)[k] == subs[j],
        forall|j: int|
            0 <= j < subs.len() && keep_on_close(#[trigger] subs[j], chain, p) ==> exists|k: int|
                0 <= k < close_filtered(subs, chain, p).len() && close_filtered(subs, chain, p)[k]
                    == subs[j],
    decreases subs.len(),
{
    if subs.len() > 0 {
        lemma_close_filtered_from(subs.drop_last(), chain, p);
        let rest = close_filtered(subs.drop_last(), chain, p);
        let whole = close_filtered(subs, chain, p);
        assert forall|k: int|
            0 <= k < whole.len() implies keep_on_close(#[trigger] whole[k], chain, p) && exists|j: int|
            0 <= j < subs.len() && whole[k] == subs[j] by {
            if k < rest.len() {
                assert(keep_on_close(rest[k], chain, p));
                let j = choose|j: int|
                    0 <= j < subs.drop_last().len() && rest[k] == subs.drop_last()[j];
                assert(whole[k] == subs[j]);
            } else {
                assert(whole[k] == subs.last());
                assert(whole[k] == subs[subs.len() - 1]);
            }
        }
        assert forall|j: int|
            0 <= j < subs.len() && keep_on_close(#[trigger] subs[j], chain, p) implies exists|k: int|
            0 <= k < whole.len() && whole[k] == subs[j] by {
            if j < subs.len() - 1 {
                assert(subs.drop_last()[j] == subs[j]);
                let k = choose|k: int| 0 <= k < rest.len() && rest[k] == subs.drop_last()[j];
                assert(whole[k] == subs[j]);
            } else {
                assert(whole[whole.len() - 1] == subs[j]);
            }
        }
    }
}

impl ChainNetwork {
    /// Opens a gossip link to the given peer on the given chain.
    ///
    /// Requires an established connection to the peer, and fails if an
    /// outbound block-announces substream (pending or open) already exists for
    /// this chain and peer. On success an outbound notifications substream
    /// carrying the locally encoded block-announces handshake is allocated and
    /// inserted as pending.
    #[verifier::loop_isolation(false)]
    pub fn gossip_open(&mut self, chain_id: ChainId, target: &PeerId, kind: GossipKind) -> (r:
        Result<(), ()>)
        requires
            old(self).wf(),
            old(self).chain_ok(chain_id.0 as int),
            old(self).next_substream_id_spec() < u64::MAX,
        ensures
            final(self).wf(),
            final(self).pending_events_spec() == old(self).pending_events_spec(),
            final(self).chains_spec() == old(self).chains_spec(),
            final(self).connections_spec() == old(self).connections_spec(),
            final(self).desired_spec() == old(self).desired_spec(),
            match r {
                Err(()) => {
                    &&& *final(self) == *old(self)
                    &&& (old(self).has_out_ba(chain_id.0 as int, target.id()) || !established_in(
                        old(self).connections_spec(),
                        target.id(),
                    ))
                },
                Ok(()) => {
                    &&& !old(self).has_out_ba(chain_id.0 as int, target.id())
                    &&& established_in(old(self).connections_spec(), target.id())
                    &&& final(self).has_out_ba(chain_id.0 as int, target.id())
                    &&& final(self).notif_substreams_spec().len() == old(self).notif_substreams_spec().len() + 1
                    &&& final(self).notif_substreams_spec().last() matches NotifSubstream {
                        id,
                        connection,
                        peer,
                        protocol,
                        direction,
                        state,
                    } && id == old(self).next_substream_id_spec() && peer.id() == target.id()
                        && protocol == (NotificationsProtocol::BlockAnnounces {
                        chain_index: chain_id.0,
                    }) && direction == SubstreamDirection::Out && state
                        == NotificationsSubstreamState::Pending
                    &&& forall|k: int|
                        0 <= k < old(self).notif_substreams_spec().len() ==> final(self).notif_substreams_spec().index(k) == old(self).notif_substreams_spec().index(k)
                    &&& final(self).pending_messages_spec().len() == old(self).pending_messages_spec().len() + 1
                    &&& final(self).pending_messages_spec().last().1 matches
                        CoordinatorToConnection::OpenOutNotifications {
                        substream_id,
                        protocol_name,
                        handshake,
                    } && substream_id == old(self).next_substream_id_spec() && protocol_name@
                        == crate::protocol::chain_protocol_name_spec(
                        old(self).chains_spec()[chain_id.0 as int]->Some_0.genesis_hash@,
                        fork_view(old(self).chains_spec()[chain_id.0 as int]->Some_0.fork_id),
                        crate::protocol::block_announces_bytes(),
                    ) && handshake@ == crate::codec::handshake_bytes(
                        old(self).chains_spec()[chain_id.0 as int]->Some_0.role,
                        old(self).chains_spec()[chain_id.0 as int]->Some_0.best_number,
                        old(self).chains_spec()[chain_id.0 as int]->Some_0.best_hash@,
                        old(self).chains_spec()[chain_id.0 as int]->Some_0.genesis_hash@,
                        old(self).chains_spec()[chain_id.0 as int]->Some_0.block_number_bytes as int,
                    )
                    &&& forall|k: int|
                        0 <= k < old(self).pending_messages_spec().len() ==> final(self).pending_messages_spec().index(k) == old(self).pending_messages_spec().index(k)
                },
            },
    {
        let _ = kind;
        if out_ba_in_exec(&self.notif_substreams, chain_id.0, target) {
            return Err(());
        }
        // Find an established connection to the target.
        let mut conn: Option<usize> = None;
        let mut i: usize = 0;
        while i < self.connections.len()
            invariant
                i <= self.connections@.len(),
                match conn {
                    Some(c) => {
                        &&& c < i
                        &&& self.connections@[c as int].alive
                        &&& self.connections@[c as int].established
                        &&& !self.connections@[c as int].shutting_down
                        &&& self.connections@[c as int].peer matches Some(q) && q.id()
                            == target.id()
                    },
                    None => forall|j: int|
                        0 <= j < i ==> !({
                            &&& self.connections@[j].alive
                            &&& self.connections@[j].established
                            &&& !self.connections@[j].shutting_down
                            &&& self.connections@[j].peer matches Some(q) && q.id() == target.id()
                        }),
                },
            decreases self.connections@.len() - i,
        {
            if conn.is_none() {
                let c = &self.connections[i];
                if c.alive && c.established && !c.shutting_down {
                    if let Some(q) = &c.peer {
                        if q.same_as(target) {
                            conn = Some(i);
                        }
                    }
                }
            }
            i += 1;
        }
        let connection = match conn {
            Some(c) => c,
            None => {
                return Err(());
            },
        };

        let (genesis_hash, fork_id, role, best_number, best_hash, block_number_bytes) = match &self.chains[chain_id.0] {
            Some(c) => (
                c.genesis_hash,
                match &c.fork_id {
                    Some(f) => Some(clone_bytes(f)),
                    None => None,
                },
                c.role,
                c.best_number,
                c.best_hash,
                c.block_number_bytes,
            ),
            None => vstd::pervasive::unreached(),
        };

        let suffix = crate::protocol::suffix_bytes(
            crate::protocol::Protocol::BlockAnnounces { chain_index: chain_id.0 },
        );
        let protocol_name = crate::protocol::encode_chain_protocol_name(
            &genesis_hash,
            &fork_id,
            suffix.as_slice(),
        );
        let handshake = crate::codec::encode_block_announces_handshake(
            role,
            best_number,
            &best_hash,
            &genesis_hash,
            block_number_bytes,
        );

        let substream_id = self.next_substream_id;
        self.next_substream_id = self.next_substream_id + 1;
        let ghost pre_subs = self.notif_substreams@;
        self.notif_substreams.push(
            NotifSubstream {
                id: substream_id,
                connection,
                peer: target.duplicate(),
                protocol: NotificationsProtocol::BlockAnnounces { chain_index: chain_id.0 },
                direction: SubstreamDirection::Out,
                state: NotificationsSubstreamState::Pending,
            },
        );
        self.messages.push(
            (
                connection,
                CoordinatorToConnection::OpenOutNotifications {
                    substream_id,
                    protocol_name,
                    handshake,
                },
            ),
        );
        proof {
            let ns = self.notif_substreams@;
            assert forall|a: int, b: int| 0 <= a < b < ns.len() implies !(sub_is_out_ba(ns[a])
                && sub_is_out_ba(ns[b]) && ns[a].protocol == ns[b].protocol && ns[a].peer.id()
                == ns[b].peer.id()) by {
                if b == ns.len() - 1 {
                    assert(ns[a] == pre_subs[a]);
                    if sub_is_out_ba(ns[a]) && ns[a].protocol == ns[b].protocol && ns[a].peer.id()
                        == ns[b].peer.id() {
                        assert(out_ba_in(pre_subs, chain_id.0 as int, target.id()));
                    }
                } else {
                    assert(ns[a] == pre_subs[a]);
                    assert(ns[b] == pre_subs[b]);
                }
            }
            assert(self.notif_substreams@.last().id == substream_id);
            assert(sub_is_out_ba(self.notif_substreams@.last()));
        }
        self.refresh_desired_sets();
        Ok(())
    }

    /// Switches the gossip link to the given peer to the "closed" state.
    ///
    /// Rejects any pending inbound block-announces substream, and closes the
    /// outbound block-announces, transactions, and GrandPa substreams for
    /// `(chain, peer)` regardless of their state.
    #[verifier::loop_isolation(false)]
    #[verifier::rlimit(60)]
    pub fn gossip_close(&mut self, chain_id: ChainId, peer_id: &PeerId, kind: GossipKind) -> (r:
        Result<(), ()>)
        requires
            old(self).wf(),
            old(self).chain_ok(chain_id.0 as int),
        ensures
            final(self).wf(),
            final(self).pending_events_spec() == old(self).pending_events_spec(),
            r is Ok,
            final(self).notif_substreams_spec() == close_filtered(
                old(self).notif_substreams_spec(),
                chain_id.0 as int,
                peer_id.id(),
            ),
            !final(self).has_out_ba(chain_id.0 as int, peer_id.id()),
            final(self).chains_spec() == old(self).chains_spec(),
            final(self).connections_spec() == old(self).connections_spec(),
            final(self).desired_spec() == old(self).desired_spec(),
            final(self).request_substreams_spec() == old(self).request_substreams_spec(),
            forall|k: int|
                0 <= k < old(self).pending_messages_spec().len() ==> final(self).pending_messages_spec().index(k) == old(self).pending_messages_spec().index(k),
            forall|k: int|
                old(self).pending_messages_spec().len() <= k < final(self).pending_messages_spec().len() ==> ((#[trigger] final(self).pending_messages_spec().index(k)).1 matches
                    CoordinatorToConnection::CloseOutNotifications { .. } || final(self).pending_messages_spec().index(k).1 matches
                    CoordinatorToConnection::RejectInNotifications { .. }),
            final(self).pending_messages_spec().len() >= old(self).pending_messages_spec().len(),
    {
        let _ = kind;
        let ghost pre = self.notif_substreams@;
        let ghost pre_msgs = self.messages@;
        let total: usize = self.notif_substreams.len();
        let mut kept: Vec<NotifSubstream> = Vec::new();
        let mut i: usize = 0;
        while self.notif_substreams.len() > 0
            invariant
                i <= total,
                pre.len() == total,
                self.notif_substreams@ == pre.skip(i as int),
                kept@ == close_filtered(pre.take(i as int), chain_id.0 as int, peer_id.id()),
                self.chains == old(self).chains,
                self.connections == old(self).connections,
                self.request_substreams == old(self).request_substreams,
                self.desired == old(self).desired,
                self.next_substream_id == old(self).next_substream_id,
                self.unconnected_desired_entries == old(self).unconnected_desired_entries,
                self.connected_unopened_entries == old(self).connected_unopened_entries,
                self.opened_undesired_entries == old(self).opened_undesired_entries,
                self.noise_key == old(self).noise_key,
                self.events_in == old(self).events_in,
                self.messages@.len() >= pre_msgs.len(),
                forall|k: int|
                    0 <= k < pre_msgs.len() ==> self.messages@.index(k) == pre_msgs.index(k),
                forall|k: int|
                    pre_msgs.len() <= k < self.messages@.len() ==> ((
                    #[trigger] self.messages@.index(k)).1 matches
                        CoordinatorToConnection::CloseOutNotifications { .. }
                        || self.messages@.index(k).1 matches
                        CoordinatorToConnection::RejectInNotifications { .. }),
            decreases self.notif_substreams@.len(),
        {
            proof {
                assert(pre.take(i + 1).drop_last() =~= pre.take(i as int));
                assert(pre.take(i + 1).last() == pre[i as int]);
                assert(pre.skip(i as int)[0] == pre[i as int]);
            }
            let sub = self.notif_substreams.remove(0);
            proof {
                assert(self.notif_substreams@ =~= pre.skip(i + 1));
            }
            let is_kept: bool = {
                let peer_match = sub.peer.same_as(peer_id);
                let chain_match = sub.protocol.chain_index() == chain_id.0;
                let is_in_pending_ba = sub.direction == SubstreamDirection::In && matches!(
                    sub.protocol,
                    NotificationsProtocol::BlockAnnounces { .. },
                ) && sub.state == NotificationsSubstreamState::Pending;
                !peer_match || !chain_match || (sub.direction == SubstreamDirection::In
                    && !is_in_pending_ba)
            };
            proof {
                assert(is_kept == keep_on_close(pre[i as int], chain_id.0 as int, peer_id.id()));
            }
            if is_kept {
                kept.push(sub);
                proof {
                    assert(kept@ =~= close_filtered(
                        pre.take(i + 1),
                        chain_id.0 as int,
                        peer_id.id(),
                    ));
                }
            } else {
                let message = if sub.direction == SubstreamDirection::Out {
                    CoordinatorToConnection::CloseOutNotifications { substream_id: sub.id }
                } else {
                    CoordinatorToConnection::RejectInNotifications { substream_id: sub.id }
                };
                self.messages.push((sub.connection, message));
            }
            i += 1;
        }
        proof {
            assert(i == pre.len());
            assert(pre.take(pre.len() as int) =~= pre);
        }
        self.notif_substreams = kept;
        proof {
            old(self).lemma_chains_desired_wf_carries(self);
            assert forall|a: int, b: int| 0 <= a < b < pre.len() implies pre[a].id
                != pre[b].id by {
                assert(old(self).notif_substreams_spec()[a].id != old(self).notif_substreams_spec()[b].id);
            }
            assert forall|a: int, b: int| 0 <= a < b < pre.len() implies !(sub_is_out_ba(pre[a])
                && sub_is_out_ba(pre[b]) && pre[a].protocol == pre[b].protocol && pre[a].peer.id()
                == pre[b].peer.id()) by {
                assert(!(sub_is_out_ba(old(self).notif_substreams_spec()[a]) && sub_is_out_ba(
                    old(self).notif_substreams_spec()[b],
                ) && old(self).notif_substreams_spec()[a].protocol == old(self).notif_substreams_spec()[b].protocol && old(self).notif_substreams_spec()[a].peer.id()
                    == old(self).notif_substreams_spec()[b].peer.id()));
            }
            assert forall|a: int, b: int|
                0 <= a < pre.len() && 0 <= b < self.request_substreams@.len() implies pre[a].id
                != self.request_substreams@[b].id by {
                assert(old(self).notif_substreams_spec()[a].id != old(self).request_substreams_spec()[b].id);
            }
            lemma_close_filtered_from(pre, chain_id.0 as int, peer_id.id());
            lemma_close_filtered_unique(
                pre,
                chain_id.0 as int,
                peer_id.id(),
                self.request_substreams@,
            );
            let ns = self.notif_substreams@;
            assert forall|a: int| 0 <= a < ns.len() implies (#[trigger] ns[a].id)
                < self.next_substream_id && ns[a].connection < self.connections@.len() by {
                let ja = choose|j: int| 0 <= j < pre.len() && ns[a] == pre[j];
            }
            assert(!out_ba_in(ns, chain_id.0 as int, peer_id.id())) by {
                if out_ba_in(ns, chain_id.0 as int, peer_id.id()) {
                    let k = choose|k: int|
                        0 <= k < ns.len() && sub_is_out_ba(ns[k])
                            && ns[k].protocol.chain_index_spec() == chain_id.0 as int
                            && ns[k].peer.id() == peer_id.id();
                    assert(keep_on_close(ns[k], chain_id.0 as int, peer_id.id()));
                }
            }
        }
        self.refresh_desired_sets();
        Ok(())
    }
}

/// The filtered substream list keeps pairwise-distinct identifiers, the
/// at-most-one outbound block-announces rule, and distinctness from the
/// request substream identifiers.
pub proof fn lemma_close_filtered_unique(
    subs: Seq<NotifSubstream>,
    chain: int,
    p: Seq<u8>,
    reqs: Seq<ReqSubstream>,
)
    requires
        forall|a: int, b: int| 0 <= a < b < subs.len() ==> subs[a].id != subs[b].id,
        forall|a: int, b: int|
            0 <= a < b < subs.len() ==> !(sub_is_out_ba(subs[a]) && sub_is_out_ba(subs[b])
                && subs[a].protocol == subs[b].protocol && subs[a].peer.id() == subs[b].peer.id()),
        forall|a: int, b: int|
            0 <= a < subs.len() && 0 <= b < reqs.len() ==> subs[a].id != reqs[b].id,
    ensures
        forall|a: int, b: int|
            0 <= a < b < close_filtered(subs, chain, p).len() ==> close_filtered(
                subs,
                chain,
                p,
            )[a].id != close_filtered(subs, chain, p)[b].id,
        forall|a: int, b: int|
            0 <= a < b < close_filtered(subs, chain, p).len() ==> !(sub_is_out_ba(
                close_filtered(subs, chain, p)[a],
            ) && sub_is_out_ba(close_filtered(subs, chain, p)[b]) && close_filtered(
                subs,
                chain,
                p,
            )[a].protocol == close_filtered(subs, chain, p)[b].protocol && close_filtered(
                subs,
                chain,
                p,
            )[a].peer.id() == close_filtered(subs, chain, p)[b].peer.id()),
        forall|a: int, b: int|
            0 <= a < close_filtered(subs, chain, p).len() && 0 <= b < reqs.len()
                ==> close_filtered(subs, chain, p)[a].id != reqs[b].id,
    decreases subs.len(),
{
    if subs.len() > 0 {
        let prefix = subs.drop_last();
        assert forall|a: int, b: int| 0 <= a < b < prefix.len() implies prefix[a].id
            != prefix[b].id by {
            assert(subs[a].id != subs[b].id);
        }
        assert forall|a: int, b: int| 0 <= a < b < prefix.len() implies !(sub_is_out_ba(prefix[a])
            && sub_is_out_ba(prefix[b]) && prefix[a].protocol == prefix[b].protocol
            && prefix[a].peer.id() == prefix[b].peer.id()) by {
            assert(!(sub_is_out_ba(subs[a]) && sub_is_out_ba(subs[b]) && subs[a].protocol
                == subs[b].protocol && subs[a].peer.id() == subs[b].peer.id()));
        }
        assert forall|a: int, b: int|
            0 <= a < prefix.len() && 0 <= b < reqs.len() implies prefix[a].id != reqs[b].id by {
            assert(subs[a].id != reqs[b].id);
        }
        lemma_close_filtered_unique(prefix, chain, p, reqs);
        lemma_close_filtered_from(prefix, chain, p);
        let rest = close_filtered(prefix, chain, p);
        let whole = close_filtered(subs, chain, p);
        if keep_on_close(subs.last(), chain, p) {
            assert forall|a: int, b: int| 0 <= a < b < whole.len() implies whole[a].id
                != whole[b].id by {
                if b == whole.len() - 1 {
                    assert(whole[a] == rest[a]);
                    let j = choose|j: int| 0 <= j < prefix.len() && rest[a] == prefix[j];
                    assert(subs[j].id != subs[subs.len() - 1].id);
                }
            }
            assert forall|a: int, b: int| 0 <= a < b < whole.len() implies !(sub_is_out_ba(
                whole[a],
            ) && sub_is_out_ba(whole[b]) && whole[a].protocol == whole[b].protocol
                && whole[a].peer.id() == whole[b].peer.id()) by {
                if b == whole.len() - 1 {
                    assert(whole[a] == rest[a]);
                    let j = choose|j: int| 0 <= j < prefix.len() && rest[a] == prefix[j];
                    assert(!(sub_is_out_ba(subs[j]) && sub_is_out_ba(subs[subs.len() - 1])
                        && subs[j].protocol == subs[subs.len() - 1].protocol && subs[j].peer.id()
                        == subs[subs.len() - 1].peer.id()));
                }
            }
            assert forall|a: int, b: int|
                0 <= a < whole.len() && 0 <= b < reqs.len() implies whole[a].id != reqs[b].id by {
                if a == whole.len() - 1 {
                    assert(subs[subs.len() - 1].id != reqs[b].id);
                }
            }
        }
    }
}




/// Error returned by the notification-sending functions.
#[derive(Debug, Copy, Clone, PartialEq, Eq, Structural)]
pub enum QueueNotificationError {
    /// No open block-announces substream exists with this peer.
    NoConnection,
    /// The queue of notifications towards this peer is full.
    QueueFull,
}

/// Error returned when starting a request.
#[derive(Debug, Copy, Clone, PartialEq, Eq, Structural)]
pub enum StartRequestError {
    /// There is no valid connection to the given peer on which the request
    /// can be started.
    NoConnection,
}

impl ChainNetwork {
    /// Finds an established, not-shutting-down connection to the target.
    #[verifier::loop_isolation(false)]
    fn find_established(&self, target: &PeerId) -> (r: Option<usize>)
        ensures
            match r {
                Some(c) => {
                    &&& c < self.connections_spec().len()
                    &&& self.connections_spec()[c as int].alive
                    &&& self.connections_spec()[c as int].established
                    &&& !self.connections_spec()[c as int].shutting_down
                    &&& self.connections_spec()[c as int].peer matches Some(q) && q.id()
                        == target.id()
                },
                None => !established_in(self.connections_spec(), target.id()),
            },
    {
        let mut i: usize = 0;
        while i < self.connections.len()
            invariant
                i <= self.connections@.len(),
                forall|j: int|
                    0 <= j < i ==> !({
                        &&& self.connections@[j].alive
                        &&& self.connections@[j].established
                        &&& !self.connections@[j].shutting_down
                        &&& self.connections@[j].peer matches Some(q) && q.id() == target.id()
                    }),
            decreases self.connections@.len() - i,
        {
            let c = &self.connections[i];
            if c.alive && c.established && !c.shutting_down {
                if let Some(q) = &c.peer {
                    if q.same_as(target) {
                        return Some(i);
                    }
                }
            }
            i += 1;
        }
        None
    }

    /// Finds an open outbound notifications substream of the given protocol
    /// towards the target.
    #[verifier::loop_isolation(false)]
    fn find_open_out(&self, proto: NotificationsProtocol, target: &PeerId) -> (r: Option<usize>)
        ensures
            match r {
                Some(k) => {
                    &&& k < self.notif_substreams_spec().len()
                    &&& self.notif_substreams_spec()[k as int].direction == SubstreamDirection::Out
                    &&& self.notif_substreams_spec()[k as int].state
                        == NotificationsSubstreamState::Open
                    &&& self.notif_substreams_spec()[k as int].protocol == proto
                    &&& self.notif_substreams_spec()[k as int].peer.id() == target.id()
                },
                None => !open_out_in(self.notif_substreams_spec(), proto, target.id()),
            },
    {
        let mut i: usize = 0;
        while i < self.notif_substreams.len()
            invariant
                i <= self.notif_substreams@.len(),
                forall|j: int|
                    0 <= j < i ==> !(self.notif_substreams@[j].direction == SubstreamDirection::Out
                        && self.notif_substreams@[j].state == NotificationsSubstreamState::Open
                        && self.notif_substreams@[j].protocol == proto
                        && self.notif_substreams@[j].peer.id() == target.id()),
            decreases self.notif_substreams@.len() - i,
        {
            let sub = &self.notif_substreams[i];
            if sub.direction == SubstreamDirection::Out && sub.state
                == NotificationsSubstreamState::Open && sub.protocol == proto && sub.peer.same_as(
                target,
            ) {
                return Some(i);
            }
            i += 1;
        }
        None
    }

    /// Inner implementation for all the notification sends: a notification
    /// can only be sent while an open outbound block-announces substream
    /// exists; for the other protocols a missing substream silently drops the
    /// notification.
    fn queue_notification(
        &mut self,
        target: &PeerId,
        protocol: NotificationsProtocol,
        notification: Vec<u8>,
    ) -> (r: Result<(), QueueNotificationError>)
        requires
            old(self).wf(),
            old(self).chain_ok(protocol.chain_index_spec() as int),
        ensures
            final(self).wf(),
            final(self).pending_events_spec() == old(self).pending_events_spec(),
            final(self).chains_spec() == old(self).chains_spec(),
            final(self).connections_spec() == old(self).connections_spec(),
            final(self).notif_substreams_spec() == old(self).notif_substreams_spec(),
            final(self).request_substreams_spec() == old(self).request_substreams_spec(),
            final(self).desired_spec() == old(self).desired_spec(),
            match r {
                Err(e) => {
                    &&& e == QueueNotificationError::NoConnection
                    &&& !open_out_in(
                        old(self).notif_substreams_spec(),
                        NotificationsProtocol::BlockAnnounces {
                            chain_index: protocol.chain_index_spec(),
                        },
                        target.id(),
                    )
                    &&& final(self).pending_messages_spec() == old(self).pending_messages_spec()
                },
                Ok(()) => {
                    &&& open_out_in(
                        old(self).notif_substreams_spec(),
                        NotificationsProtocol::BlockAnnounces {
                            chain_index: protocol.chain_index_spec(),
                        },
                        target.id(),
                    )
                    &&& if open_out_in(
                        old(self).notif_substreams_spec(),
                        protocol,
                        target.id(),
                    ) {
                        final(self).pending_messages_spec().len() == old(self).pending_messages_spec().len() + 1 && (final(self).pending_messages_spec().last().1
                            matches CoordinatorToConnection::QueueNotification {
                            substream_id,
                            notification: sent,
                        } && sent@ == notification@)
                    } else {
                        final(self).pending_messages_spec() == old(self).pending_messages_spec()
                    }
                },
            },
    {
        let chain_index = protocol.chain_index();
        let ba_proto = NotificationsProtocol::BlockAnnounces { chain_index };
        let ba = match self.find_open_out(ba_proto, target) {
            Some(k) => k,
            None => {
                return Err(QueueNotificationError::NoConnection);
            },
        };
        let is_ba: bool = matches!(protocol, NotificationsProtocol::BlockAnnounces { .. });
        let target_sub: Option<usize> = if is_ba {
            proof {
                assert(protocol == ba_proto);
            }
            Some(ba)
        } else {
            self.find_open_out(protocol, target)
        };
        match target_sub {
            Some(k) => {
                let sid = self.notif_substreams[k].id;
                let conn = self.notif_substreams[k].connection;
                self.messages.push(
                    (
                        conn,
                        CoordinatorToConnection::QueueNotification {
                            substream_id: sid,
                            notification,
                        },
                    ),
                );
                proof {
                    old(self).lemma_chains_desired_wf_carries(self);
                    old(self).lemma_sets_exact_carries(self);
                }
                Ok(())
            },
            None => {
                proof {
                    old(self).lemma_chains_desired_wf_carries(self);
                    old(self).lemma_sets_exact_carries(self);
                }
                Ok(())
            },
        }
    }

    /// Sends a block announce gossip message to the given peer.
    ///
    /// Fails with [`QueueNotificationError::NoConnection`] unless an open
    /// outbound block-announces substream exists for this chain and peer.
    pub fn gossip_send_block_announce(
        &mut self,
        target: &PeerId,
        chain_id: ChainId,
        scale_encoded_header: &[u8],
        is_best: bool,
    ) -> (r: Result<(), QueueNotificationError>)
        requires
            old(self).wf(),
            old(self).chain_ok(chain_id.0 as int),
        ensures
            final(self).wf(),
            final(self).pending_events_spec() == old(self).pending_events_spec(),
            final(self).chains_spec() == old(self).chains_spec(),
            final(self).connections_spec() == old(self).connections_spec(),
            final(self).notif_substreams_spec() == old(self).notif_substreams_spec(),
            final(self).request_substreams_spec() == old(self).request_substreams_spec(),
            final(self).desired_spec() == old(self).desired_spec(),
            r is Err <==> !open_out_in(
                old(self).notif_substreams_spec(),
                NotificationsProtocol::BlockAnnounces { chain_index: chain_id.0 },
                target.id(),
            ),
            r is Ok ==> final(self).pending_messages_spec().len() == old(self).pending_messages_spec().len() + 1 && (final(self).pending_messages_spec().last().1
                matches CoordinatorToConnection::QueueNotification { substream_id, notification }
                && notification@ == crate::codec::block_announce_bytes(
                scale_encoded_header@,
                is_best,
            )),
    {
        let notification = crate::codec::encode_block_announce(scale_encoded_header, is_best);
        self.queue_notification(
            target,
            NotificationsProtocol::BlockAnnounces { chain_index: chain_id.0 },
            notification,
        )
    }

    /// Sends a transaction gossip message to the given peer.
    ///
    /// Must be passed the SCALE-encoded transaction. If the transactions
    /// substream is not open, the transaction is silently dropped.
    pub fn gossip_send_transaction(
        &mut self,
        target: &PeerId,
        chain_id: ChainId,
        extrinsic: &[u8],
    ) -> (r: Result<(), QueueNotificationError>)
        requires
            old(self).wf(),
            old(self).chain_ok(chain_id.0 as int),
        ensures
            final(self).wf(),
            final(self).pending_events_spec() == old(self).pending_events_spec(),
            final(self).chains_spec() == old(self).chains_spec(),
            final(self).connections_spec() == old(self).connections_spec(),
            final(self).notif_substreams_spec() == old(self).notif_substreams_spec(),
            final(self).request_substreams_spec() == old(self).request_substreams_spec(),
            final(self).desired_spec() == old(self).desired_spec(),
            r is Err <==> !open_out_in(
                old(self).notif_substreams_spec(),
                NotificationsProtocol::BlockAnnounces { chain_index: chain_id.0 },
                target.id(),
            ),
            r is Ok ==> (if open_out_in(
                old(self).notif_substreams_spec(),
                NotificationsProtocol::Transactions { chain_index: chain_id.0 },
                target.id(),
            ) {
                final(self).pending_messages_spec().len() == old(self).pending_messages_spec().len() + 1 && (final(self).pending_messages_spec().last().1 matches
                    CoordinatorToConnection::QueueNotification { substream_id, notification }
                    && notification@ == crate::codec::single_transaction_bytes(extrinsic@))
            } else {
                final(self).pending_messages_spec() == old(self).pending_messages_spec()
            }),
    {
        let notification = crate::codec::encode_single_transaction(extrinsic);
        self.queue_notification(
            target,
            NotificationsProtocol::Transactions { chain_index: chain_id.0 },
            notification,
        )
    }

    /// Sends a neighbor packet with the given GrandPa state on all the open
    /// GrandPa substreams of the chain, and stores the state so that it is
    /// sent to peers whose GrandPa substream opens later.
    #[verifier::loop_isolation(false)]
    pub fn gossip_broadcast_grandpa_state_and_update(
        &mut self,
        chain_id: ChainId,
        grandpa_state: GrandpaState,
    )
        requires
            old(self).wf(),
            old(self).chain_ok(chain_id.0 as int),
            old(self).chains_spec()[chain_id.0 as int]->Some_0.grandpa_protocol_config is Some,
        ensures
            final(self).wf(),
            final(self).pending_events_spec() == old(self).pending_events_spec(),
            final(self).chains_spec()[chain_id.0 as int] matches Some(c)
                && c.grandpa_protocol_config == Some(grandpa_state),
            final(self).chains_spec().len() == old(self).chains_spec().len(),
            forall|k: int|
                0 <= k < final(self).chains_spec().len() && k != chain_id.0 ==> final(self).chains_spec().index(k) == old(self).chains_spec().index(k),
            final(self).connections_spec() == old(self).connections_spec(),
            final(self).notif_substreams_spec() == old(self).notif_substreams_spec(),
            final(self).request_substreams_spec() == old(self).request_substreams_spec(),
            final(self).desired_spec() == old(self).desired_spec(),
            forall|k: int|
                old(self).pending_messages_spec().len() <= k < final(self).pending_messages_spec().len() ==> ((#[trigger] final(self).pending_messages_spec().index(
                    k,
                )).1 matches CoordinatorToConnection::QueueNotification {
                    substream_id,
                    notification,
                } && notification@ == crate::codec::neighbor_packet_bytes(grandpa_state)),
            forall|k: int|
                0 <= k < old(self).pending_messages_spec().len() ==> final(self).pending_messages_spec().index(k) == old(self).pending_messages_spec().index(k),
            // Every open outbound GrandPa substream of the chain gets the
            // packet.
            forall|j: int|
                0 <= j < old(self).notif_substreams_spec().len() && (
                #[trigger] old(self).notif_substreams_spec()[j]).direction
                    == SubstreamDirection::Out && old(self).notif_substreams_spec()[j].state
                    == NotificationsSubstreamState::Open && old(self).notif_substreams_spec()[j].protocol
                    == (NotificationsProtocol::Grandpa { chain_index: chain_id.0 }) ==> exists|k: int|
                    old(self).pending_messages_spec().len() <= k < final(self).pending_messages_spec().len() && (#[trigger] final(self).pending_messages_spec().index(
                        k,
                    )).0 == old(self).notif_substreams_spec()[j].connection && (final(self).pending_messages_spec().index(k).1 matches
                        CoordinatorToConnection::QueueNotification { substream_id, notification }
                        && substream_id == old(self).notif_substreams_spec()[j].id),
    {
        let packet = crate::codec::encode_neighbor_packet(&grandpa_state);
        let ghost pre_msgs = self.messages@;
        let mut i: usize = 0;
        while i < self.notif_substreams.len()
            invariant
                i <= self.notif_substreams@.len(),
                self.notif_substreams == old(self).notif_substreams,
                self.chains == old(self).chains,
                self.connections == old(self).connections,
                self.request_substreams == old(self).request_substreams,
                self.desired == old(self).desired,
                self.next_substream_id == old(self).next_substream_id,
                self.unconnected_desired_entries == old(self).unconnected_desired_entries,
                self.connected_unopened_entries == old(self).connected_unopened_entries,
                self.opened_undesired_entries == old(self).opened_undesired_entries,
                self.noise_key == old(self).noise_key,
                self.events_in == old(self).events_in,
                packet@ == crate::codec::neighbor_packet_bytes(grandpa_state),
                self.messages@.len() >= pre_msgs.len(),
                forall|k: int|
                    0 <= k < pre_msgs.len() ==> self.messages@.index(k) == pre_msgs.index(k),
                forall|k: int|
                    pre_msgs.len() <= k < self.messages@.len() ==> ((#[trigger] self.messages@.index(
                        k,
                    )).1 matches CoordinatorToConnection::QueueNotification {
                        substream_id,
                        notification,
                    } && notification@ == crate::codec::neighbor_packet_bytes(grandpa_state)),
                forall|j: int|
                    0 <= j < i && (#[trigger] self.notif_substreams@[j]).direction
                        == SubstreamDirection::Out && self.notif_substreams@[j].state
                        == NotificationsSubstreamState::Open && self.notif_substreams@[j].protocol
                        == (NotificationsProtocol::Grandpa { chain_index: chain_id.0 })
                        ==> exists|k: int|
                        pre_msgs.len() <= k < self.messages@.len() && (
                        #[trigger] self.messages@.index(k)).0
                            == self.notif_substreams@[j].connection && (self.messages@.index(
                            k,
                        ).1 matches CoordinatorToConnection::QueueNotification {
                            substream_id,
                            notification,
                        } && substream_id == self.notif_substreams@[j].id),
            decreases self.notif_substreams@.len() - i,
        {
            let is_grandpa_out_open: bool = self.notif_substreams[i].direction
                == SubstreamDirection::Out && self.notif_substreams[i].state
                == NotificationsSubstreamState::Open && matches!(
                self.notif_substreams[i].protocol,
                NotificationsProtocol::Grandpa { .. },
            ) && self.notif_substreams[i].protocol.chain_index() == chain_id.0;
            let ghost msgs_before = self.messages@;
            if is_grandpa_out_open {
                let sid = self.notif_substreams[i].id;
                let conn = self.notif_substreams[i].connection;
                self.messages.push(
                    (
                        conn,
                        CoordinatorToConnection::QueueNotification {
                            substream_id: sid,
                            notification: clone_bytes(&packet),
                        },
                    ),
                );
            }
            proof {
                assert forall|j: int|
                    0 <= j < i + 1 && (#[trigger] self.notif_substreams@[j]).direction
                        == SubstreamDirection::Out && self.notif_substreams@[j].state
                        == NotificationsSubstreamState::Open && self.notif_substreams@[j].protocol
                        == (NotificationsProtocol::Grandpa {
                        chain_index: chain_id.0,
                    }) implies exists|k: int|
                    pre_msgs.len() <= k < self.messages@.len() && (
                    #[trigger] self.messages@.index(k)).0 == self.notif_substreams@[j].connection
                        && (self.messages@.index(k).1 matches
                        CoordinatorToConnection::QueueNotification {
                        substream_id,
                        notification,
                    } && substream_id == self.notif_substreams@[j].id) by {
                    if j < i {
                        let k = choose|k: int|
                            pre_msgs.len() <= k < msgs_before.len() && (
                            #[trigger] msgs_before.index(k)).0
                                == self.notif_substreams@[j].connection && (msgs_before.index(
                                k,
                            ).1 matches CoordinatorToConnection::QueueNotification {
                                substream_id,
                                notification,
                            } && substream_id == self.notif_substreams@[j].id);
                        assert(self.messages@.index(k) == msgs_before.index(k));
                    } else {
                        assert(self.messages@.index(self.messages@.len() - 1).0
                            == self.notif_substreams@[j].connection);
                    }
                }
            }
            i += 1;
        }
        // Store the new local GrandPa state.
        let ghost pre_chains = self.chains@;
        let mut entry = self.chains.remove(chain_id.0);
        if let Some(c) = &mut entry {
            c.grandpa_protocol_config = Some(grandpa_state);
        }
        let ghost gentry = entry;
        self.chains.insert(chain_id.0, entry);
        proof {
            assert(self.chains@ =~= pre_chains.update(chain_id.0 as int, gentry));
            assert forall|a: int, b: int| 0 <= a < b < self.chains@.len() implies !(chain_pair_at(
                self.chains@,
                a,
                self.chains@[b]->Some_0.genesis_hash@,
                fork_view(self.chains@[b]->Some_0.fork_id),
            ) && self.chains@[b] is Some) by {
                let gb = self.chains@[b]->Some_0.genesis_hash@;
                let fb = fork_view(self.chains@[b]->Some_0.fork_id);
                if chain_pair_at(self.chains@, a, gb, fb) && self.chains@[b] is Some {
                    assert(gb == pre_chains[b]->Some_0.genesis_hash@);
                    assert(fb == fork_view(pre_chains[b]->Some_0.fork_id));
                    assert(pre_chains[b] is Some);
                    assert(chain_pair_at(pre_chains, a, gb, fb));
                    assert(false);
                }
            }
            assert forall|k: int|
                0 <= k < self.desired@.len() implies self.chain_ok(
                #[trigger] self.desired@[k].chain_index as int,
            ) by {
                assert(old(self).chain_ok(self.desired@[k].chain_index as int));
            }
            old(self).lemma_sets_exact_carries(self);
        }
    }

    /// Returns the list of peers with which a gossip link is open on the
    /// given chain.
    #[verifier::loop_isolation(false)]
    pub fn gossip_connected_peers(&self, chain_id: ChainId, kind: GossipKind) -> (r: Vec<PeerId>)
        ensures
            forall|k: int|
                0 <= k < r@.len() ==> open_out_in(
                    self.notif_substreams_spec(),
                    NotificationsProtocol::BlockAnnounces { chain_index: chain_id.0 },
                    #[trigger] r@[k].id(),
                ),
            forall|j: int|
                0 <= j < self.notif_substreams_spec().len() && self.notif_substreams_spec()[j].direction
                    == SubstreamDirection::Out && self.notif_substreams_spec()[j].state
                    == NotificationsSubstreamState::Open && self.notif_substreams_spec()[j].protocol
                    == (NotificationsProtocol::BlockAnnounces { chain_index: chain_id.0 })
                    ==> peers_contain(r@, #[trigger] self.notif_substreams_spec()[j].peer.id()),
    {
        let _ = kind;
        let mut out: Vec<PeerId> = Vec::new();
        let mut i: usize = 0;
        while i < self.notif_substreams.len()
            invariant
                i <= self.notif_substreams@.len(),
                forall|k: int|
                    0 <= k < out@.len() ==> open_out_in(
                        self.notif_substreams@,
                        NotificationsProtocol::BlockAnnounces { chain_index: chain_id.0 },
                        #[trigger] out@[k].id(),
                    ),
                forall|j: int|
                    0 <= j < i && self.notif_substreams@[j].direction == SubstreamDirection::Out
                        && self.notif_substreams@[j].state == NotificationsSubstreamState::Open
                        && self.notif_substreams@[j].protocol == (
                    NotificationsProtocol::BlockAnnounces { chain_index: chain_id.0 })
                        ==> peers_contain(out@, #[trigger] self.notif_substreams@[j].peer.id()),
            decreases self.notif_substreams@.len() - i,
        {
            let ghost pre_out = out@;
            let sub = &self.notif_substreams[i];
            if sub.direction == SubstreamDirection::Out && sub.state
                == NotificationsSubstreamState::Open && sub.protocol == (
            NotificationsProtocol::BlockAnnounces { chain_index: chain_id.0 }) {
                out.push(sub.peer.duplicate());
            }
            proof {
                assert forall|j: int|
                    0 <= j < i + 1 && self.notif_substreams@[j].direction
                        == SubstreamDirection::Out && self.notif_substreams@[j].state
                        == NotificationsSubstreamState::Open && self.notif_substreams@[j].protocol
                        == (NotificationsProtocol::BlockAnnounces {
                        chain_index: chain_id.0,
                    }) implies peers_contain(
                    out@,
                    #[trigger] self.notif_substreams@[j].peer.id(),
                ) by {
                    if j < i {
                        let k = choose|k: int|
                            0 <= k < pre_out.len() && pre_out[k].id()
                                == self.notif_substreams@[j].peer.id();
                        assert(out@[k].id() == self.notif_substreams@[j].peer.id());
                    } else {
                        assert(out@[out@.len() - 1].id() == self.notif_substreams@[j].peer.id());
                    }
                }
            }
            i += 1;
        }
        out
    }
}




/// The payload of a blocks request: the start hash, the desired count over
/// four little-endian bytes, the direction flag, and the field-selection
/// bits (header, body, justifications).
pub open spec fn blocks_request_bytes(config: BlocksRequestConfig) -> Seq<u8> {
    config.start_hash@ + crate::codec::le_bytes(config.desired_count as u64, 4) + seq![
        if config.ascending {
            1u8
        } else {
            0u8
        },
    ] + seq![
        ((if config.fields_header {
            1u8
        } else {
            0u8
        }) | (if config.fields_body {
            2u8
        } else {
            0u8
        }) | (if config.fields_justifications {
            4u8
        } else {
            0u8
        })),
    ]
}

/// The payload of a state request: the block hash followed by the key to
/// start at.
pub open spec fn state_request_bytes(block_hash: Seq<u8>, start_key: Seq<u8>) -> Seq<u8> {
    block_hash + start_key
}

/// The payload of a call-proof request: the block hash, the length of the
/// method name over four little-endian bytes, the method name, and the
/// parameter.
pub open spec fn call_proof_request_bytes(
    block_hash: Seq<u8>,
    method: Seq<u8>,
    parameter: Seq<u8>,
) -> Seq<u8> {
    block_hash + crate::codec::le_bytes(method.len() as u64, 4) + method + parameter
}

/// The keys of a storage proof request, each prefixed by its length over
/// four little-endian bytes.
pub open spec fn storage_keys_bytes(keys: Seq<Vec<u8>>) -> Seq<u8>
    decreases keys.len(),
{
    if keys.len() == 0 {
        Seq::empty()
    } else {
        storage_keys_bytes(keys.drop_last()) + crate::codec::le_bytes(
            keys.last()@.len() as u64,
            4,
        ) + keys.last()@
    }
}

/// The payload of a storage proof request: the block hash followed by the
/// length-prefixed keys.
pub open spec fn storage_proof_request_bytes(block_hash: Seq<u8>, keys: Seq<Vec<u8>>) -> Seq<u8> {
    block_hash + storage_keys_bytes(keys)
}

/// Configuration of a blocks request.
#[derive(Debug, Copy, Clone)]
pub struct BlocksRequestConfig {
    /// Hash of the block to start the enumeration at.
    pub start_hash: [u8; 32],
    /// Number of blocks requested.
    pub desired_count: u32,
    /// True to walk from the start block towards its descendants.
    pub ascending: bool,
    /// True to request the headers.
    pub fields_header: bool,
    /// True to request the bodies.
    pub fields_body: bool,
    /// True to request the justifications.
    pub fields_justifications: bool,
}

impl ChainNetwork {
    /// Allocates a request substream towards the target and queues the
    /// request message, with the protocol name derived from the chain.
    fn start_request(
        &mut self,
        target: &PeerId,
        chain_id: ChainId,
        protocol: Protocol,
        payload: Vec<u8>,
        timeout_ms: u64,
        response_max_size: u64,
    ) -> (r: Result<SubstreamId, StartRequestError>)
        requires
            old(self).wf(),
            old(self).chain_ok(chain_id.0 as int),
            old(self).next_substream_id_spec() < u64::MAX,
            protocol.chain_index_of() == Some(chain_id.0),
        ensures
            final(self).wf(),
            final(self).pending_events_spec() == old(self).pending_events_spec(),
            final(self).chains_spec() == old(self).chains_spec(),
            final(self).connections_spec() == old(self).connections_spec(),
            final(self).notif_substreams_spec() == old(self).notif_substreams_spec(),
            final(self).desired_spec() == old(self).desired_spec(),
            match r {
                Err(e) => {
                    &&& e == StartRequestError::NoConnection
                    &&& !established_in(old(self).connections_spec(), target.id())
                    &&& *final(self) == *old(self)
                },
                Ok(sid) => {
                    &&& established_in(old(self).connections_spec(), target.id())
                    &&& sid.0 == old(self).next_substream_id_spec()
                    &&& final(self).request_substreams_spec().len() == old(self).request_substreams_spec().len() + 1
                    &&& final(self).request_substreams_spec().last() matches ReqSubstream {
                        id,
                        connection,
                        peer,
                        protocol: proto2,
                        inbound,
                    } && id == sid.0 && peer.id() == target.id() && proto2 == protocol && inbound
                        == false
                    &&& forall|k: int|
                        0 <= k < old(self).request_substreams_spec().len() ==> final(self).request_substreams_spec().index(k) == old(self).request_substreams_spec().index(
                            k,
                        )
                    &&& final(self).pending_messages_spec().len() == old(self).pending_messages_spec().len() + 1
                    &&& final(self).pending_messages_spec().last().1 matches
                        CoordinatorToConnection::StartRequest {
                        substream_id,
                        protocol_name,
                        payload: sent,
                        timeout_ms: t,
                        response_max_size: cap,
                    } && substream_id == sid.0 && protocol_name@
                        == crate::protocol::chain_protocol_name_spec(
                        old(self).chains_spec()[chain_id.0 as int]->Some_0.genesis_hash@,
                        fork_view(old(self).chains_spec()[chain_id.0 as int]->Some_0.fork_id),
                        crate::protocol::suffix_of(protocol),
                    ) && sent@ == payload@ && t == timeout_ms && cap == response_max_size
                    &&& forall|k: int|
                        0 <= k < old(self).pending_messages_spec().len() ==> final(self).pending_messages_spec().index(k) == old(self).pending_messages_spec().index(k)
                },
            },
    {
        let connection = match self.find_established(target) {
            Some(c) => c,
            None => {
                return Err(StartRequestError::NoConnection);
            },
        };
        let (genesis_hash, fork_id) = match &self.chains[chain_id.0] {
            Some(c) => (
                c.genesis_hash,
                match &c.fork_id {
                    Some(f) => Some(clone_bytes(f)),
                    None => None,
                },
            ),
            None => vstd::pervasive::unreached(),
        };
        let suffix = crate::protocol::suffix_bytes(protocol);
        let protocol_name = crate::protocol::encode_chain_protocol_name(
            &genesis_hash,
            &fork_id,
            suffix.as_slice(),
        );
        let substream_id = self.next_substream_id;
        self.next_substream_id = self.next_substream_id + 1;
        let ghost pre_reqs = self.request_substreams@;
        self.request_substreams.push(
            ReqSubstream {
                id: substream_id,
                connection,
                peer: target.duplicate(),
                protocol,
                inbound: false,
            },
        );
        self.messages.push(
            (
                connection,
                CoordinatorToConnection::StartRequest {
                    substream_id,
                    protocol_name,
                    payload,
                    timeout_ms,
                    response_max_size,
                },
            ),
        );
        proof {
            old(self).lemma_chains_desired_wf_carries(self);
            old(self).lemma_sets_exact_carries(self);
            let rs = self.request_substreams@;
            assert forall|a: int, b: int| 0 <= a < b < rs.len() implies rs[a].id != rs[b].id by {
                if b == rs.len() - 1 {
                    assert(rs[a] == pre_reqs[a]);
                } else {
                    assert(rs[a] == pre_reqs[a]);
                    assert(rs[b] == pre_reqs[b]);
                }
            }
        }
        Ok(SubstreamId(substream_id))
    }

    /// Starts a blocks request towards the given peer.
    pub fn start_blocks_request(
        &mut self,
        target: &PeerId,
        chain_id: ChainId,
        config: BlocksRequestConfig,
        timeout_ms: u64,
    ) -> (r: Result<SubstreamId, StartRequestError>)
        requires
            old(self).wf(),
            old(self).chain_ok(chain_id.0 as int),
            old(self).next_substream_id_spec() < u64::MAX,
        ensures
            final(self).wf(),
            final(self).pending_events_spec() == old(self).pending_events_spec(),
            r is Err ==> !established_in(old(self).connections_spec(), target.id()) && *final(self)
                == *old(self),
            r matches Ok(sid) ==> ({
                &&& established_in(old(self).connections_spec(), target.id())
                &&& sid.0 == old(self).next_substream_id_spec()
                &&& final(self).request_substreams_spec().len() == old(self).request_substreams_spec().len() + 1
                &&& final(self).request_substreams_spec().last() matches ReqSubstream {
                    id,
                    peer,
                    protocol: proto2,
                    inbound,
                    ..
                } && id == sid.0 && peer.id() == target.id() && proto2 == (Protocol::Sync { chain_index: chain_id.0 }) && inbound
                    == false
                &&& forall|k: int|
                    0 <= k < old(self).request_substreams_spec().len() ==> final(self).request_substreams_spec().index(k) == old(self).request_substreams_spec().index(k)
                &&& final(self).pending_messages_spec().len() == old(self).pending_messages_spec().len() + 1
                &&& final(self).pending_messages_spec().last().1 matches
                    CoordinatorToConnection::StartRequest {
                    substream_id,
                    protocol_name,
                    payload: sent,
                    timeout_ms: sent_timeout,
                    response_max_size: sent_cap,
                } && substream_id == sid.0 && sent_timeout == timeout_ms && protocol_name@
                    == crate::protocol::chain_protocol_name_spec(
                    old(self).chains_spec()[chain_id.0 as int]->Some_0.genesis_hash@,
                    fork_view(old(self).chains_spec()[chain_id.0 as int]->Some_0.fork_id),
                    crate::protocol::suffix_of(Protocol::Sync { chain_index: chain_id.0 }),
                ) && sent@ == blocks_request_bytes(config) && sent_cap == 16 * 1024 * 1024
                &&& forall|k: int|
                    0 <= k < old(self).pending_messages_spec().len() ==> final(self).pending_messages_spec().index(k) == old(self).pending_messages_spec().index(k)
            }),
    {
        let mut payload: Vec<u8> = Vec::new();
        crate::bytes::push_bytes(&mut payload, config.start_hash.as_slice());
        crate::codec::push_le_bytes(&mut payload, config.desired_count as u64, 4);
        payload.push(if config.ascending { 1 } else { 0 });
        payload.push(
            (if config.fields_header { 1u8 } else { 0u8 }) | (if config.fields_body { 2u8 } else { 0u8 })
                | (if config.fields_justifications { 4u8 } else { 0u8 }),
        );
        self.start_request(target, chain_id, Protocol::Sync { chain_index: chain_id.0 }, payload, timeout_ms, 16 * 1024 * 1024)
    }

    /// Starts a GrandPa warp sync request towards the given peer.
    pub fn start_grandpa_warp_sync_request(
        &mut self,
        target: &PeerId,
        chain_id: ChainId,
        begin_hash: &[u8; 32],
        timeout_ms: u64,
    ) -> (r: Result<SubstreamId, StartRequestError>)
        requires
            old(self).wf(),
            old(self).chain_ok(chain_id.0 as int),
            old(self).next_substream_id_spec() < u64::MAX,
        ensures
            final(self).wf(),
            final(self).pending_events_spec() == old(self).pending_events_spec(),
            r is Err ==> !established_in(old(self).connections_spec(), target.id()) && *final(self)
                == *old(self),
            r matches Ok(sid) ==> ({
                &&& established_in(old(self).connections_spec(), target.id())
                &&& sid.0 == old(self).next_substream_id_spec()
                &&& final(self).request_substreams_spec().len() == old(self).request_substreams_spec().len() + 1
                &&& final(self).request_substreams_spec().last() matches ReqSubstream {
                    id,
                    peer,
                    protocol: proto2,
                    inbound,
                    ..
                } && id == sid.0 && peer.id() == target.id() && proto2 == (Protocol::SyncWarp { chain_index: chain_id.0 }) && inbound
                    == false
                &&& forall|k: int|
                    0 <= k < old(self).request_substreams_spec().len() ==> final(self).request_substreams_spec().index(k) == old(self).request_substreams_spec().index(k)
                &&& final(self).pending_messages_spec().len() == old(self).pending_messages_spec().len() + 1
                &&& final(self).pending_messages_spec().last().1 matches
                    CoordinatorToConnection::StartRequest {
                    substream_id,
                    protocol_name,
                    payload: sent,
                    timeout_ms: sent_timeout,
                    response_max_size: sent_cap,
                } && substream_id == sid.0 && sent_timeout == timeout_ms && protocol_name@
                    == crate::protocol::chain_protocol_name_spec(
                    old(self).chains_spec()[chain_id.0 as int]->Some_0.genesis_hash@,
                    fork_view(old(self).chains_spec()[chain_id.0 as int]->Some_0.fork_id),
                    crate::protocol::suffix_of(Protocol::SyncWarp { chain_index: chain_id.0 }),
                ) && sent@ == begin_hash@ && sent_cap == 16 * 1024 * 1024
                &&& forall|k: int|
                    0 <= k < old(self).pending_messages_spec().len() ==> final(self).pending_messages_spec().index(k) == old(self).pending_messages_spec().index(k)
            }),
    {
        let payload = crate::bytes::copy_bytes(begin_hash.as_slice());
        self.start_request(
            target,
            chain_id,
            Protocol::SyncWarp { chain_index: chain_id.0 },
            payload,
            timeout_ms,
            16 * 1024 * 1024,
        )
    }

    /// Starts a state request towards the given peer.
    pub fn start_state_request(
        &mut self,
        target: &PeerId,
        chain_id: ChainId,
        block_hash: &[u8; 32],
        start_key: &[u8],
        timeout_ms: u64,
    ) -> (r: Result<SubstreamId, StartRequestError>)
        requires
            old(self).wf(),
            old(self).chain_ok(chain_id.0 as int),
            old(self).next_substream_id_spec() < u64::MAX,
        ensures
            final(self).wf(),
            final(self).pending_events_spec() == old(self).pending_events_spec(),
            r is Err ==> !established_in(old(self).connections_spec(), target.id()) && *final(self)
                == *old(self),
            r matches Ok(sid) ==> ({
                &&& established_in(old(self).connections_spec(), target.id())
                &&& sid.0 == old(self).next_substream_id_spec()
                &&& final(self).request_substreams_spec().len() == old(self).request_substreams_spec().len() + 1
                &&& final(self).request_substreams_spec().last() matches ReqSubstream {
                    id,
                    peer,
                    protocol: proto2,
                    inbound,
                    ..
                } && id == sid.0 && peer.id() == target.id() && proto2 == (Protocol::State { chain_index: chain_id.0 }) && inbound
                    == false
                &&& forall|k: int|
                    0 <= k < old(self).request_substreams_spec().len() ==> final(self).request_substreams_spec().index(k) == old(self).request_substreams_spec().index(k)
                &&& final(self).pending_messages_spec().len() == old(self).pending_messages_spec().len() + 1
                &&& final(self).pending_messages_spec().last().1 matches
                    CoordinatorToConnection::StartRequest {
                    substream_id,
                    protocol_name,
                    payload: sent,
                    timeout_ms: sent_timeout,
                    response_max_size: sent_cap,
                } && substream_id == sid.0 && sent_timeout == timeout_ms && protocol_name@
                    == crate::protocol::chain_protocol_name_spec(
                    old(self).chains_spec()[chain_id.0 as int]->Some_0.genesis_hash@,
                    fork_view(old(self).chains_spec()[chain_id.0 as int]->Some_0.fork_id),
                    crate::protocol::suffix_of(Protocol::State { chain_index: chain_id.0 }),
                ) && sent@ == state_request_bytes(block_hash@, start_key@) && sent_cap == 16 * 1024 * 1024
                &&& forall|k: int|
                    0 <= k < old(self).pending_messages_spec().len() ==> final(self).pending_messages_spec().index(k) == old(self).pending_messages_spec().index(k)
            }),
    {
        let mut payload = crate::bytes::copy_bytes(block_hash.as_slice());
        crate::bytes::push_bytes(&mut payload, start_key);
        self.start_request(target, chain_id, Protocol::State { chain_index: chain_id.0 }, payload, timeout_ms, 16 * 1024 * 1024)
    }

    /// Starts a storage proof request towards the given peer.
    pub fn start_storage_proof_request(
        &mut self,
        target: &PeerId,
        chain_id: ChainId,
        block_hash: &[u8; 32],
        keys: &Vec<Vec<u8>>,
        timeout_ms: u64,
    ) -> (r: Result<SubstreamId, StartRequestError>)
        requires
            old(self).wf(),
            old(self).chain_ok(chain_id.0 as int),
            old(self).next_substream_id_spec() < u64::MAX,
        ensures
            final(self).wf(),
            final(self).pending_events_spec() == old(self).pending_events_spec(),
            r is Err ==> !established_in(old(self).connections_spec(), target.id()) && *final(self)
                == *old(self),
            r matches Ok(sid) ==> ({
                &&& established_in(old(self).connections_spec(), target.id())
                &&& sid.0 == old(self).next_substream_id_spec()
                &&& final(self).request_substreams_spec().len() == old(self).request_substreams_spec().len() + 1
                &&& final(self).request_substreams_spec().last() matches ReqSubstream {
                    id,
                    peer,
                    protocol: proto2,
                    inbound,
                    ..
                } && id == sid.0 && peer.id() == target.id() && proto2 == (Protocol::LightStorage { chain_index: chain_id.0 }) && inbound
                    == false
                &&& forall|k: int|
                    0 <= k < old(self).request_substreams_spec().len() ==> final(self).request_substreams_spec().index(k) == old(self).request_substreams_spec().index(k)
                &&& final(self).pending_messages_spec().len() == old(self).pending_messages_spec().len() + 1
                &&& final(self).pending_messages_spec().last().1 matches
                    CoordinatorToConnection::StartRequest {
                    substream_id,
                    protocol_name,
                    payload: sent,
                    timeout_ms: sent_timeout,
                    response_max_size: sent_cap,
                } && substream_id == sid.0 && sent_timeout == timeout_ms && protocol_name@
                    == crate::protocol::chain_protocol_name_spec(
                    old(self).chains_spec()[chain_id.0 as int]->Some_0.genesis_hash@,
                    fork_view(old(self).chains_spec()[chain_id.0 as int]->Some_0.fork_id),
                    crate::protocol::suffix_of(Protocol::LightStorage { chain_index: chain_id.0 }),
                ) && sent@ == storage_proof_request_bytes(block_hash@, keys@) && sent_cap == 16 * 1024 * 1024
                &&& forall|k: int|
                    0 <= k < old(self).pending_messages_spec().len() ==> final(self).pending_messages_spec().index(k) == old(self).pending_messages_spec().index(k)
            }),
    {
        let mut payload = crate::bytes::copy_bytes(block_hash.as_slice());
        let mut i: usize = 0;
        while i < keys.len()
            invariant
                i <= keys@.len(),
                payload@ == block_hash@ + storage_keys_bytes(keys@.take(i as int)),
            decreases keys@.len() - i,
        {
            proof {
                assert(keys@.take(i + 1).drop_last() =~= keys@.take(i as int));
                assert(keys@.take(i + 1).last() == keys@[i as int]);
            }
            crate::codec::push_le_bytes(&mut payload, keys[i].len() as u64, 4);
            crate::bytes::push_bytes(&mut payload, keys[i].as_slice());
            proof {
                assert(payload@ =~= block_hash@ + storage_keys_bytes(keys@.take(i + 1)));
            }
            i += 1;
        }
        proof {
            assert(keys@.take(keys@.len() as int) =~= keys@);
        }
        self.start_request(
            target,
            chain_id,
            Protocol::LightStorage { chain_index: chain_id.0 },
            payload,
            timeout_ms,
            16 * 1024 * 1024,
        )
    }

    /// Starts a call proof request towards the given peer.
    pub fn start_call_proof_request(
        &mut self,
        target: &PeerId,
        chain_id: ChainId,
        block_hash: &[u8; 32],
        method: &[u8],
        parameter: &[u8],
        timeout_ms: u64,
    ) -> (r: Result<SubstreamId, StartRequestError>)
        requires
            old(self).wf(),
            old(self).chain_ok(chain_id.0 as int),
            old(self).next_substream_id_spec() < u64::MAX,
        ensures
            final(self).wf(),
            final(self).pending_events_spec() == old(self).pending_events_spec(),
            r is Err ==> !established_in(old(self).connections_spec(), target.id()) && *final(self)
                == *old(self),
            r matches Ok(sid) ==> ({
                &&& established_in(old(self).connections_spec(), target.id())
                &&& sid.0 == old(self).next_substream_id_spec()
                &&& final(self).request_substreams_spec().len() == old(self).request_substreams_spec().len() + 1
                &&& final(self).request_substreams_spec().last() matches ReqSubstream {
                    id,
                    peer,
                    protocol: proto2,
                    inbound,
                    ..
                } && id == sid.0 && peer.id() == target.id() && proto2 == (Protocol::LightCall { chain_index: chain_id.0 }) && inbound
                    == false
                &&& forall|k: int|
                    0 <= k < old(self).request_substreams_spec().len() ==> final(self).request_substreams_spec().index(k) == old(self).request_substreams_spec().index(k)
                &&& final(self).pending_messages_spec().len() == old(self).pending_messages_spec().len() + 1
                &&& final(self).pending_messages_spec().last().1 matches
                    CoordinatorToConnection::StartRequest {
                    substream_id,
                    protocol_name,
                    payload: sent,
                    timeout_ms: sent_timeout,
                    response_max_size: sent_cap,
                } && substream_id == sid.0 && sent_timeout == timeout_ms && protocol_name@
                    == crate::protocol::chain_protocol_name_spec(
                    old(self).chains_spec()[chain_id.0 as int]->Some_0.genesis_hash@,
                    fork_view(old(self).chains_spec()[chain_id.0 as int]->Some_0.fork_id),
                    crate::protocol::suffix_of(Protocol::LightCall { chain_index: chain_id.0 }),
                ) && sent@ == call_proof_request_bytes(block_hash@, method@, parameter@) && sent_cap == 16 * 1024 * 1024
                &&& forall|k: int|
                    0 <= k < old(self).pending_messages_spec().len() ==> final(self).pending_messages_spec().index(k) == old(self).pending_messages_spec().index(k)
            }),
    {
        let mut payload = crate::bytes::copy_bytes(block_hash.as_slice());
        crate::codec::push_le_bytes(&mut payload, method.len() as u64, 4);
        crate::bytes::push_bytes(&mut payload, method);
        crate::bytes::push_bytes(&mut payload, parameter);
        self.start_request(
            target,
            chain_id,
            Protocol::LightCall { chain_index: chain_id.0 },
            payload,
            timeout_ms,
            16 * 1024 * 1024,
        )
    }

    /// Starts a Kademlia find-node request towards the given peer.
    pub fn start_kademlia_find_node_request(
        &mut self,
        target: &PeerId,
        chain_id: ChainId,
        peer_of_interest: &[u8],
        timeout_ms: u64,
    ) -> (r: Result<SubstreamId, StartRequestError>)
        requires
            old(self).wf(),
            old(self).chain_ok(chain_id.0 as int),
            old(self).next_substream_id_spec() < u64::MAX,
        ensures
            final(self).wf(),
            final(self).pending_events_spec() == old(self).pending_events_spec(),
            r is Err ==> !established_in(old(self).connections_spec(), target.id()) && *final(self)
                == *old(self),
            r matches Ok(sid) ==> ({
                &&& established_in(old(self).connections_spec(), target.id())
                &&& sid.0 == old(self).next_substream_id_spec()
                &&& final(self).request_substreams_spec().len() == old(self).request_substreams_spec().len() + 1
                &&& final(self).request_substreams_spec().last() matches ReqSubstream {
                    id,
                    peer,
                    protocol: proto2,
                    inbound,
                    ..
                } && id == sid.0 && peer.id() == target.id() && proto2 == (Protocol::Kad { chain_index: chain_id.0 }) && inbound
                    == false
                &&& forall|k: int|
                    0 <= k < old(self).request_substreams_spec().len() ==> final(self).request_substreams_spec().index(k) == old(self).request_substreams_spec().index(k)
                &&& final(self).pending_messages_spec().len() == old(self).pending_messages_spec().len() + 1
                &&& final(self).pending_messages_spec().last().1 matches
                    CoordinatorToConnection::StartRequest {
                    substream_id,
                    protocol_name,
                    payload: sent,
                    timeout_ms: sent_timeout,
                    response_max_size: sent_cap,
                } && substream_id == sid.0 && sent_timeout == timeout_ms && protocol_name@
                    == crate::protocol::chain_protocol_name_spec(
                    old(self).chains_spec()[chain_id.0 as int]->Some_0.genesis_hash@,
                    fork_view(old(self).chains_spec()[chain_id.0 as int]->Some_0.fork_id),
                    crate::protocol::suffix_of(Protocol::Kad { chain_index: chain_id.0 }),
                ) && sent@ == peer_of_interest@ && sent_cap == 1024 * 1024
                &&& forall|k: int|
                    0 <= k < old(self).pending_messages_spec().len() ==> final(self).pending_messages_spec().index(k) == old(self).pending_messages_spec().index(k)
            }),
    {
        let payload = crate::bytes::copy_bytes(peer_of_interest);
        self.start_request(target, chain_id, Protocol::Kad { chain_index: chain_id.0 }, payload, timeout_ms, 1024 * 1024)
    }

    /// Finds an inbound request substream by its identifier.
    #[verifier::loop_isolation(false)]
    fn find_inbound_request(&self, substream_id: u64) -> (r: Option<usize>)
        ensures
            match r {
                Some(k) => {
                    &&& k < self.request_substreams_spec().len()
                    &&& self.request_substreams_spec()[k as int].id == substream_id
                    &&& self.request_substreams_spec()[k as int].inbound
                },
                None => forall|j: int|
                    0 <= j < self.request_substreams_spec().len() ==> !(
                    self.request_substreams_spec()[j].id == substream_id
                        && self.request_substreams_spec()[j].inbound),
            },
    {
        let mut i: usize = 0;
        while i < self.request_substreams.len()
            invariant
                i <= self.request_substreams@.len(),
                forall|j: int|
                    0 <= j < i ==> !(self.request_substreams@[j].id == substream_id
                        && self.request_substreams@[j].inbound),
            decreases self.request_substreams@.len() - i,
        {
            if self.request_substreams[i].id == substream_id && self.request_substreams[i].inbound {
                return Some(i);
            }
            i += 1;
        }
        None
    }

    /// Completes an inbound identify request with the given agent version.
    ///
    /// The substream must still be an inbound request substream: answering a
    /// cancelled request is a programmer error.
    pub fn respond_identify(&mut self, substream_id: SubstreamId, agent_version: &[u8])
        requires
            old(self).wf(),
            exists|j: int|
                0 <= j < old(self).request_substreams_spec().len() && (
                #[trigger] old(self).request_substreams_spec()[j].id) == substream_id.0 && old(self).request_substreams_spec()[j].inbound
                    && old(self).request_substreams_spec()[j].protocol matches Protocol::Identify,
        ensures
            final(self).wf(),
            final(self).pending_events_spec() == old(self).pending_events_spec(),
            final(self).pending_messages_spec().len() == old(self).pending_messages_spec().len()
                + 1,
            forall|k: int|
                0 <= k < old(self).pending_messages_spec().len() ==> final(self).pending_messages_spec().index(k) == old(self).pending_messages_spec().index(k),
            final(self).pending_messages_spec().last().1 matches
                CoordinatorToConnection::RespondRequest { substream_id: sid, response } && sid
                == substream_id.0 && (response matches Some(data) && data@ == agent_version@),
            final(self).request_substreams_spec().len() == old(self).request_substreams_spec().len() - 1,
            forall|k: int|
                0 <= k < final(self).request_substreams_spec().len() ==> (
                #[trigger] final(self).request_substreams_spec()[k].id) != substream_id.0,
            forall|k: int|
                0 <= k < old(self).request_substreams_spec().len() && old(self).request_substreams_spec()[k].id != substream_id.0 ==> exists|m: int|
                    0 <= m < final(self).request_substreams_spec().len() && final(self).request_substreams_spec()[m] == (#[trigger] old(self).request_substreams_spec()[k]),
            final(self).chains_spec() == old(self).chains_spec(),
            final(self).connections_spec() == old(self).connections_spec(),
            final(self).notif_substreams_spec() == old(self).notif_substreams_spec(),
            final(self).desired_spec() == old(self).desired_spec(),
    {
        let k = match self.find_inbound_request(substream_id.0) {
            Some(k) => k,
            None => vstd::pervasive::unreached(),
        };
        let ghost pre = self.request_substreams@;
        let sub = self.request_substreams.remove(k);
        self.messages.push(
            (
                sub.connection,
                CoordinatorToConnection::RespondRequest {
                    substream_id: sub.id,
                    response: Some(crate::bytes::copy_bytes(agent_version)),
                },
            ),
        );
        proof {
            old(self).lemma_chains_desired_wf_carries(self);
            old(self).lemma_sets_exact_carries(self);
            let rs = self.request_substreams@;
            assert forall|a: int, b: int| 0 <= a < b < rs.len() implies rs[a].id != rs[b].id by {
                let oa = if a < k { a } else { a + 1 };
                let ob = if b < k { b } else { b + 1 };
                assert(rs[a] == pre[oa]);
                assert(rs[b] == pre[ob]);
            }
            assert forall|a: int| 0 <= a < rs.len() implies (#[trigger] rs[a].id)
                < self.next_substream_id && rs[a].connection < self.connections@.len() by {
                let oa = if a < k { a } else { a + 1 };
                assert(rs[a] == pre[oa]);
            }
            assert forall|a: int, b: int|
                0 <= a < self.notif_substreams@.len() && 0 <= b < rs.len() implies
                self.notif_substreams@[a].id != rs[b].id by {
                let ob = if b < k { b } else { b + 1 };
                assert(rs[b] == pre[ob]);
            }
            assert forall|k2: int|
                0 <= k2 < pre.len() && pre[k2].id != substream_id.0 implies exists|m: int|
                0 <= m < rs.len() && rs[m] == #[trigger] pre[k2] by {
                let m = if k2 < k { k2 } else { k2 - 1 };
                assert(rs[m] == pre[k2]);
            }
            assert forall|m: int| 0 <= m < rs.len() implies (#[trigger] rs[m].id)
                != substream_id.0 by {
                let om = if m < k { m } else { m + 1 };
                assert(rs[m] == pre[om]);
                if om != k {
                    assert(pre[if om < k {
                        om
                    } else {
                        k as int
                    }].id != pre[if om < k {
                        k as int
                    } else {
                        om
                    }].id);
                }
            }
        }
    }

    /// Completes an inbound blocks request. `None` denies the request.
    ///
    /// The substream must still be an inbound request substream: answering a
    /// cancelled request is a programmer error.
    pub fn respond_blocks(&mut self, substream_id: SubstreamId, response: Option<Vec<u8>>)
        requires
            old(self).wf(),
            exists|j: int|
                0 <= j < old(self).request_substreams_spec().len() && (
                #[trigger] old(self).request_substreams_spec()[j].id) == substream_id.0 && old(self).request_substreams_spec()[j].inbound
                    && old(self).request_substreams_spec()[j].protocol matches Protocol::Sync { .. },
        ensures
            final(self).wf(),
            final(self).pending_events_spec() == old(self).pending_events_spec(),
            final(self).pending_messages_spec().len() == old(self).pending_messages_spec().len()
                + 1,
            forall|k: int|
                0 <= k < old(self).pending_messages_spec().len() ==> final(self).pending_messages_spec().index(k) == old(self).pending_messages_spec().index(k),
            final(self).pending_messages_spec().last().1 matches
                CoordinatorToConnection::RespondRequest { substream_id: sid, response: sent }
                && sid == substream_id.0 && (match (sent, response) {
                (Some(a), Some(b)) => a@ == b@,
                (None, None) => true,
                _ => false,
            }),
            final(self).request_substreams_spec().len() == old(self).request_substreams_spec().len() - 1,
            forall|k: int|
                0 <= k < final(self).request_substreams_spec().len() ==> (
                #[trigger] final(self).request_substreams_spec()[k].id) != substream_id.0,
            forall|k: int|
                0 <= k < old(self).request_substreams_spec().len() && old(self).request_substreams_spec()[k].id != substream_id.0 ==> exists|m: int|
                    0 <= m < final(self).request_substreams_spec().len() && final(self).request_substreams_spec()[m] == (#[trigger] old(self).request_substreams_spec()[k]),
            final(self).chains_spec() == old(self).chains_spec(),
            final(self).connections_spec() == old(self).connections_spec(),
            final(self).notif_substreams_spec() == old(self).notif_substreams_spec(),
            final(self).desired_spec() == old(self).desired_spec(),
    {
        let k = match self.find_inbound_request(substream_id.0) {
            Some(k) => k,
            None => vstd::pervasive::unreached(),
        };
        let ghost pre = self.request_substreams@;
        let sub = self.request_substreams.remove(k);
        self.messages.push(
            (
                sub.connection,
                CoordinatorToConnection::RespondRequest { substream_id: sub.id, response },
            ),
        );
        proof {
            old(self).lemma_chains_desired_wf_carries(self);
            old(self).lemma_sets_exact_carries(self);
            let rs = self.request_substreams@;
            assert forall|a: int, b: int| 0 <= a < b < rs.len() implies rs[a].id != rs[b].id by {
                let oa = if a < k { a } else { a + 1 };
                let ob = if b < k { b } else { b + 1 };
                assert(rs[a] == pre[oa]);
                assert(rs[b] == pre[ob]);
            }
            assert forall|a: int| 0 <= a < rs.len() implies (#[trigger] rs[a].id)
                < self.next_substream_id && rs[a].connection < self.connections@.len() by {
                let oa = if a < k { a } else { a + 1 };
                assert(rs[a] == pre[oa]);
            }
            assert forall|a: int, b: int|
                0 <= a < self.notif_substreams@.len() && 0 <= b < rs.len() implies
                self.notif_substreams@[a].id != rs[b].id by {
                let ob = if b < k { b } else { b + 1 };
                assert(rs[b] == pre[ob]);
            }
            assert forall|k2: int|
                0 <= k2 < pre.len() && pre[k2].id != substream_id.0 implies exists|m: int|
                0 <= m < rs.len() && rs[m] == #[trigger] pre[k2] by {
                let m = if k2 < k { k2 } else { k2 - 1 };
                assert(rs[m] == pre[k2]);
            }
            assert forall|m: int| 0 <= m < rs.len() implies (#[trigger] rs[m].id)
                != substream_id.0 by {
                let om = if m < k { m } else { m + 1 };
                assert(rs[m] == pre[om]);
                if om != k {
                    assert(pre[if om < k {
                        om
                    } else {
                        k as int
                    }].id != pre[if om < k {
                        k as int
                    } else {
                        om
                    }].id);
                }
            }
        }
    }
}



/// Error that can happen when opening a gossip link.
#[derive(Debug)]
pub enum GossipConnectError {
    /// The genesis hash sent by the remote does not match the local one.
    GenesisMismatch { local_genesis: [u8; 32], remote_genesis: [u8; 32] },
    /// The handshake sent by the remote could not be decoded.
    HandshakeDecode,
    /// The substream was closed or reset before the handshake arrived.
    Substream,
}

/// Diagnostic error in the protocol of an otherwise healthy connection.
#[derive(Debug)]
pub enum ProtocolError {
    /// A received block announce could not be decoded.
    BadBlockAnnounce,
    /// A received GrandPa notification could not be decoded.
    BadGrandpaNotification,
}

/// A block announce payload, as received; `decode` parses it.
#[derive(Debug)]
pub struct EncodedBlockAnnounce {
    /// The raw bytes of the announce.
    pub bytes: Vec<u8>,
}

impl EncodedBlockAnnounce {
    /// Decodes the announce.
    pub fn decode(&self) -> (r: Result<crate::codec::BlockAnnounceRef, ()>)
        ensures
            match r {
                Ok(a) => self.bytes@.len() >= 1 && self.bytes@
                    == crate::codec::block_announce_bytes(a.scale_encoded_header@, a.is_best),
                Err(()) => self.bytes@.len() == 0 || (self.bytes@.last() != 0
                    && self.bytes@.last() != 1),
            },
    {
        crate::codec::decode_block_announce(self.bytes.as_slice())
    }
}

/// A Merkle proof, undecoded.
#[derive(Debug)]
pub struct EncodedMerkleProof {
    /// The raw bytes of the proof.
    pub bytes: Vec<u8>,
}

impl EncodedMerkleProof {
    /// Returns the SCALE-encoded Merkle proof.
    pub fn decode(&self) -> (r: &Vec<u8>)
        ensures
            r@ == self.bytes@,
    {
        &self.bytes
    }
}

/// A GrandPa warp sync response, undecoded.
#[derive(Debug)]
pub struct EncodedGrandpaWarpSyncResponse {
    /// The raw bytes of the response.
    pub bytes: Vec<u8>,
}

impl EncodedGrandpaWarpSyncResponse {
    /// Returns the encoded response.
    pub fn as_encoded(&self) -> (r: &Vec<u8>)
        ensures
            r@ == self.bytes@,
    {
        &self.bytes
    }

    /// Returns the encoded response body. Parsing the warp sync fragments
    /// out of it is the SCALE codec's work, outside this crate.
    pub fn decode(&self) -> (r: &Vec<u8>)
        ensures
            r@ == self.bytes@,
    {
        &self.bytes
    }
}

/// A state response, undecoded.
#[derive(Debug)]
pub struct EncodedStateResponse {
    /// The raw bytes of the response.
    pub bytes: Vec<u8>,
}

impl EncodedStateResponse {
    /// Returns the encoded response.
    pub fn as_encoded(&self) -> (r: &Vec<u8>)
        ensures
            r@ == self.bytes@,
    {
        &self.bytes
    }

    /// Returns the list of key-value pairs of the response, undecoded.
    pub fn decode(&self) -> (r: &Vec<u8>)
        ensures
            r@ == self.bytes@,
    {
        &self.bytes
    }
}

/// The block-announces handshake sent by a remote, as received.
#[derive(Debug)]
pub struct EncodedBlockAnnounceHandshake {
    /// The raw bytes of the handshake.
    pub bytes: Vec<u8>,
    /// Width of the block number for the chain the handshake belongs to.
    pub block_number_bytes: usize,
}

impl EncodedBlockAnnounceHandshake {
    /// Decodes the handshake.
    pub fn decode(&self) -> (r: Result<crate::codec::BlockAnnouncesHandshake, ()>)
        requires
            self.block_number_bytes <= 8,
        ensures
            r is Ok ==> self.bytes@.len() == 1 + self.block_number_bytes + 64,
    {
        crate::codec::decode_block_announces_handshake(
            self.bytes.as_slice(),
            self.block_number_bytes,
        )
    }
}

/// A GrandPa commit message, as received on the wire: the notification tag
/// byte followed by the encoded commit.
#[derive(Debug)]
pub struct EncodedGrandpaCommitMessage {
    /// The raw bytes of the notification, tag byte included.
    pub bytes: Vec<u8>,
}

impl EncodedGrandpaCommitMessage {
    /// Returns the encoded commit message: the notification without its
    /// leading tag byte.
    pub fn as_encoded(&self) -> (r: Vec<u8>)
        requires
            self.bytes@.len() >= 1,
        ensures
            r@ == self.bytes@.skip(1),
    {
        let mut out: Vec<u8> = Vec::new();
        let mut i: usize = 1;
        while i < self.bytes.len()
            invariant
                1 <= i <= self.bytes@.len(),
                out@ == self.bytes@.subrange(1, i as int),
            decreases self.bytes@.len() - i,
        {
            out.push(self.bytes[i]);
            proof {
                assert(out@ =~= self.bytes@.subrange(1, i + 1));
            }
            i += 1;
        }
        proof {
            assert(out@ =~= self.bytes@.skip(1));
        }
        out
    }

    /// Returns the encoded commit message, consuming the wrapper. The
    /// notification's leading tag byte is not part of it.
    pub fn into_encoded(self) -> (r: Vec<u8>)
        requires
            self.bytes@.len() >= 1,
        ensures
            r@ == self.bytes@.skip(1),
    {
        let mut out = self.bytes;
        out.remove(0);
        out
    }

    /// Decodes the notification: a commit message is the tag byte `1`
    /// followed by the encoded commit.
    pub fn decode(&self) -> (r: Result<Vec<u8>, ()>)
        ensures
            match r {
                Ok(body) => self.bytes@.len() >= 1 && self.bytes@[0] == 1 && body@
                    == self.bytes@.skip(1),
                Err(()) => self.bytes@.len() == 0 || self.bytes@[0] != 1,
            },
    {
        if self.bytes.len() == 0 || self.bytes[0] != 1 {
            return Err(());
        }
        Ok(self.as_encoded())
    }
}

/// Outcome of an outgoing request.
#[derive(Debug)]
pub enum RequestResult {
    Blocks(Result<Vec<u8>, RequestError>),
    GrandpaWarpSync(Result<EncodedGrandpaWarpSyncResponse, RequestError>),
    State(Result<EncodedStateResponse, RequestError>),
    StorageProof(Result<EncodedMerkleProof, RequestError>),
    CallProof(Result<EncodedMerkleProof, RequestError>),
    KademliaFindNode(Result<Vec<u8>, RequestError>),
    Identify(Result<Vec<u8>, RequestError>),
    Ping(Result<Vec<u8>, RequestError>),
}

/// Event generated by [`ChainNetwork::next_event`].
#[derive(Debug)]
pub enum Event {
    /// A connection has finished its handshake phase.
    HandshakeFinished { id: ConnectionId, expected_peer_id: Option<PeerId>, peer_id: PeerId },
    /// A connection has shut down before finishing its handshake.
    PreHandshakeDisconnected {
        id: ConnectionId,
        address: Vec<u8>,
        expected_peer_id: Option<PeerId>,
    },
    /// A connection has shut down after finishing its handshake.
    Disconnected { id: ConnectionId, address: Vec<u8>, peer_id: PeerId },
    /// Now connected to the given peer for gossiping purposes.
    GossipConnected {
        peer_id: PeerId,
        chain_id: ChainId,
        kind: GossipKind,
        role: Role,
        best_number: u64,
        best_hash: [u8; 32],
    },
    /// An attempt has been made to open a gossip link, but something wrong
    /// happened.
    GossipOpenFailed {
        peer_id: PeerId,
        chain_id: ChainId,
        kind: GossipKind,
        error: GossipConnectError,
    },
    /// No longer connected to the given peer for gossiping purposes.
    GossipDisconnected { peer_id: PeerId, chain_id: ChainId, kind: GossipKind },
    /// A peer would like to open a gossip link with the local node.
    GossipInDesired { peer_id: PeerId, chain_id: ChainId, kind: GossipKind },
    /// A previously-emitted `GossipInDesired` is no longer relevant.
    GossipInDesiredCancel { peer_id: PeerId, chain_id: ChainId, kind: GossipKind },
    /// An outgoing request has finished.
    RequestResult { substream_id: SubstreamId, response: RequestResult },
    /// Received a block announce from a peer.
    BlockAnnounce { peer_id: PeerId, chain_id: ChainId, announce: EncodedBlockAnnounce },
    /// Received a GrandPa neighbor packet from a peer.
    GrandpaNeighborPacket { peer_id: PeerId, chain_id: ChainId, state: GrandpaState },
    /// Received a GrandPa commit message from a peer.
    GrandpaCommitMessage {
        peer_id: PeerId,
        chain_id: ChainId,
        message: EncodedGrandpaCommitMessage,
    },
    /// Error in the protocol of a connection; diagnostic only.
    ProtocolError { peer_id: PeerId, error: ProtocolError },
    /// A remote has sent a request for identification information.
    IdentifyRequestIn { peer_id: PeerId, substream_id: SubstreamId },
    /// A remote has sent a request for blocks.
    BlocksRequestIn {
        peer_id: PeerId,
        chain_id: ChainId,
        config: Vec<u8>,
        substream_id: SubstreamId,
    },
    /// A remote is no longer interested in the response to a request.
    RequestInCancel { substream_id: SubstreamId },
}

/// True if a notifications substream survives the death of the connection
/// `cid`.
pub open spec fn keep_on_conn_close(s: NotifSubstream, cid: int) -> bool {
    s.connection != cid
}

/// The notifications substreams that survive the death of a connection.
pub open spec fn conn_filtered(subs: Seq<NotifSubstream>, cid: int) -> Seq<NotifSubstream>
    decreases subs.len(),
{
    if subs.len() == 0 {
        Seq::empty()
    } else {
        let rest = conn_filtered(subs.drop_last(), cid);
        if keep_on_conn_close(subs.last(), cid) {
            rest.push(subs.last())
        } else {
            rest
        }
    }
}

/// The request substreams that survive the death of a connection.
pub open spec fn conn_filtered_reqs(subs: Seq<ReqSubstream>, cid: int) -> Seq<ReqSubstream>
    decreases subs.len(),
{
    if subs.len() == 0 {
        Seq::empty()
    } else {
        let rest = conn_filtered_reqs(subs.drop_last(), cid);
        if subs.last().connection != cid {
            rest.push(subs.last())
        } else {
            rest
        }
    }
}

/// Every substream surviving a connection death comes from the original list.
pub proof fn lemma_conn_filtered_from(subs: Seq<NotifSubstream>, cid: int)
    ensures
        forall|k: int|
            0 <= k < conn_filtered(subs, cid).len() ==> (#[trigger] conn_filtered(subs, cid)[k]).connection
                != cid && exists|j: int| 0 <= j < subs.len() && conn_filtered(subs, cid)[k] == subs[j],
    decreases subs.len(),
{
    if subs.len() > 0 {
        lemma_conn_filtered_from(subs.drop_last(), cid);
        let rest = conn_filtered(subs.drop_last(), cid);
        let whole = conn_filtered(subs, cid);
        assert forall|k: int| 0 <= k < whole.len() implies (#[trigger] whole[k]).connection != cid
            && exists|j: int| 0 <= j < subs.len() && whole[k] == subs[j] by {
            if k < rest.len() {
                let j = choose|j: int|
                    0 <= j < subs.drop_last().len() && rest[k] == subs.drop_last()[j];
                assert(whole[k] == subs[j]);
            } else {
                assert(whole[k] == subs[subs.len() - 1]);
            }
        }
    }
}

/// Every request substream surviving a connection death comes from the
/// original list.
pub proof fn lemma_conn_filtered_reqs_from(subs: Seq<ReqSubstream>, cid: int)
    ensures
        forall|k: int|
            0 <= k < conn_filtered_reqs(subs, cid).len() ==> (#[trigger] conn_filtered_reqs(
                subs,
                cid,
            )[k]).connection != cid && exists|j: int|
                0 <= j < subs.len() && conn_filtered_reqs(subs, cid)[k] == subs[j],
    decreases subs.len(),
{
    if subs.len() > 0 {
        lemma_conn_filtered_reqs_from(subs.drop_last(), cid);
        let rest = conn_filtered_reqs(subs.drop_last(), cid);
        let whole = conn_filtered_reqs(subs, cid);
        assert forall|k: int| 0 <= k < whole.len() implies (#[trigger] whole[k]).connection != cid
            && exists|j: int| 0 <= j < subs.len() && whole[k] == subs[j] by {
            if k < rest.len() {
                let j = choose|j: int|
                    0 <= j < subs.drop_last().len() && rest[k] == subs.drop_last()[j];
                assert(whole[k] == subs[j]);
            } else {
                assert(whole[k] == subs[subs.len() - 1]);
            }
        }
    }
}



impl ChainNetwork {
    /// Finds a notifications substream by its identifier.
    #[verifier::loop_isolation(false)]
    fn find_notif_by_id(&self, substream_id: u64) -> (r: Option<usize>)
        ensures
            match r {
                Some(k) => k < self.notif_substreams_spec().len()
                    && self.notif_substreams_spec()[k as int].id == substream_id,
                None => forall|j: int|
                    0 <= j < self.notif_substreams_spec().len()
                        ==> (#[trigger] self.notif_substreams_spec()[j].id) != substream_id,
            },
    {
        let mut i: usize = 0;
        while i < self.notif_substreams.len()
            invariant
                i <= self.notif_substreams@.len(),
                forall|j: int| 0 <= j < i ==> (#[trigger] self.notif_substreams@[j].id) != substream_id,
            decreases self.notif_substreams@.len() - i,
        {
            if self.notif_substreams[i].id == substream_id {
                return Some(i);
            }
            i += 1;
        }
        None
    }

    /// Removes the notifications substream at position `k`, keeping the state
    /// well-formed.
    fn remove_notif_substream(&mut self, k: usize) -> (r: NotifSubstream)
        requires
            old(self).wf(),
            k < old(self).notif_substreams_spec().len(),
        ensures
            final(self).wf(),
            r == old(self).notif_substreams_spec()[k as int],
            final(self).notif_substreams_spec() == old(self).notif_substreams_spec().remove(
                k as int,
            ),
            final(self).chains_spec() == old(self).chains_spec(),
            final(self).connections_spec() == old(self).connections_spec(),
            final(self).request_substreams_spec() == old(self).request_substreams_spec(),
            final(self).desired_spec() == old(self).desired_spec(),
            final(self).pending_messages_spec() == old(self).pending_messages_spec(),
            final(self).pending_events_spec() == old(self).pending_events_spec(),
            final(self).next_substream_id_spec() == old(self).next_substream_id_spec(),
    {
        let ghost pre = self.notif_substreams@;
        let sub = self.notif_substreams.remove(k);
        proof {
            old(self).lemma_chains_desired_wf_carries(self);
            let ns = self.notif_substreams@;
            assert forall|a: int, b: int| 0 <= a < b < ns.len() implies ns[a].id != ns[b].id && !(
            sub_is_out_ba(ns[a]) && sub_is_out_ba(ns[b]) && ns[a].protocol == ns[b].protocol
                && ns[a].peer.id() == ns[b].peer.id()) by {
                let oa = if a < k { a } else { a + 1 };
                let ob = if b < k { b } else { b + 1 };
                assert(ns[a] == pre[oa]);
                assert(ns[b] == pre[ob]);
            }
            assert forall|a: int| 0 <= a < ns.len() implies (#[trigger] ns[a].id)
                < self.next_substream_id && ns[a].connection < self.connections@.len() by {
                let oa = if a < k { a } else { a + 1 };
                assert(ns[a] == pre[oa]);
            }
            assert forall|a: int, b: int|
                0 <= a < ns.len() && 0 <= b < self.request_substreams@.len() implies ns[a].id
                != self.request_substreams@[b].id by {
                let oa = if a < k { a } else { a + 1 };
                assert(ns[a] == pre[oa]);
            }
        }
        self.refresh_desired_sets();
        sub
    }

    /// Marks the notifications substream at position `k` as open.
    fn set_notif_open(&mut self, k: usize)
        requires
            old(self).wf(),
            k < old(self).notif_substreams_spec().len(),
        ensures
            final(self).wf(),
            final(self).notif_substreams_spec().len() == old(self).notif_substreams_spec().len(),
            final(self).notif_substreams_spec()[k as int] == (NotifSubstream {
                state: NotificationsSubstreamState::Open,
                ..old(self).notif_substreams_spec()[k as int]
            }),
            forall|j: int|
                0 <= j < final(self).notif_substreams_spec().len() && j != k ==> final(self).notif_substreams_spec().index(j) == old(self).notif_substreams_spec().index(j),
            final(self).chains_spec() == old(self).chains_spec(),
            final(self).connections_spec() == old(self).connections_spec(),
            final(self).request_substreams_spec() == old(self).request_substreams_spec(),
            final(self).desired_spec() == old(self).desired_spec(),
            final(self).pending_messages_spec() == old(self).pending_messages_spec(),
            final(self).pending_events_spec() == old(self).pending_events_spec(),
            final(self).next_substream_id_spec() == old(self).next_substream_id_spec(),
    {
        let ghost pre = self.notif_substreams@;
        let mut sub = self.notif_substreams.remove(k);
        sub.state = NotificationsSubstreamState::Open;
        let ghost gsub = sub;
        self.notif_substreams.insert(k, sub);
        proof {
            assert(self.notif_substreams@ =~= pre.update(k as int, gsub));
            old(self).lemma_chains_desired_wf_carries(self);
            let ns = self.notif_substreams@;
            assert forall|a: int, b: int| 0 <= a < b < ns.len() implies ns[a].id != ns[b].id && !(
            sub_is_out_ba(ns[a]) && sub_is_out_ba(ns[b]) && ns[a].protocol == ns[b].protocol
                && ns[a].peer.id() == ns[b].peer.id()) by {
                assert(ns[a].id == pre[a].id && ns[b].id == pre[b].id);
                assert(ns[a].protocol == pre[a].protocol && ns[b].protocol == pre[b].protocol);
                assert(ns[a].peer == pre[a].peer && ns[b].peer == pre[b].peer);
                assert(ns[a].direction == pre[a].direction && ns[b].direction == pre[b].direction);
            }
            assert forall|a: int| 0 <= a < ns.len() implies (#[trigger] ns[a].id)
                < self.next_substream_id && ns[a].connection < self.connections@.len() by {
                assert(ns[a].id == pre[a].id && ns[a].connection == pre[a].connection);
            }
            assert forall|a: int, b: int|
                0 <= a < ns.len() && 0 <= b < self.request_substreams@.len() implies ns[a].id
                != self.request_substreams@[b].id by {
                assert(ns[a].id == pre[a].id);
            }
        }
        self.refresh_desired_sets();
    }

    /// Opens an outbound notifications substream of a chain protocol that is
    /// not block-announces, with the given handshake bytes.
    fn open_dependent_substream(
        &mut self,
        proto: NotificationsProtocol,
        peer: &PeerId,
        connection: usize,
        handshake: Vec<u8>,
    )
        requires
            old(self).wf(),
            !(proto matches NotificationsProtocol::BlockAnnounces { .. }),
            old(self).chain_ok(proto.chain_index_spec() as int),
            connection < old(self).connections_spec().len(),
            old(self).next_substream_id_spec() < u64::MAX,
        ensures
            final(self).wf(),
            final(self).chains_spec() == old(self).chains_spec(),
            final(self).connections_spec() == old(self).connections_spec(),
            final(self).request_substreams_spec() == old(self).request_substreams_spec(),
            final(self).desired_spec() == old(self).desired_spec(),
            final(self).pending_events_spec() == old(self).pending_events_spec(),
            final(self).notif_substreams_spec().len() == old(self).notif_substreams_spec().len()
                + 1,
            forall|j: int|
                0 <= j < old(self).notif_substreams_spec().len() ==> final(self).notif_substreams_spec().index(j) == old(self).notif_substreams_spec().index(j),
            final(self).notif_substreams_spec().last().protocol == proto,
            final(self).notif_substreams_spec().last().direction == SubstreamDirection::Out,
            final(self).notif_substreams_spec().last().state
                == NotificationsSubstreamState::Pending,
            final(self).notif_substreams_spec().last().peer.id() == peer.id(),
    {
        let chain_index = proto.chain_index();
        let (genesis_hash, fork_id) = match &self.chains[chain_index] {
            Some(c) => (
                c.genesis_hash,
                match &c.fork_id {
                    Some(f) => Some(clone_bytes(f)),
                    None => None,
                },
            ),
            None => vstd::pervasive::unreached(),
        };
        let base_proto: Protocol = match proto {
            NotificationsProtocol::BlockAnnounces { chain_index } => Protocol::BlockAnnounces {
                chain_index,
            },
            NotificationsProtocol::Transactions { chain_index } => Protocol::Transactions {
                chain_index,
            },
            NotificationsProtocol::Grandpa { chain_index } => Protocol::Grandpa { chain_index },
        };
        let suffix = crate::protocol::suffix_bytes(base_proto);
        let protocol_name = crate::protocol::encode_chain_protocol_name(
            &genesis_hash,
            &fork_id,
            suffix.as_slice(),
        );
        let substream_id = self.next_substream_id;
        self.next_substream_id = self.next_substream_id + 1;
        let ghost pre = self.notif_substreams@;
        self.notif_substreams.push(
            NotifSubstream {
                id: substream_id,
                connection,
                peer: peer.duplicate(),
                protocol: proto,
                direction: SubstreamDirection::Out,
                state: NotificationsSubstreamState::Pending,
            },
        );
        self.messages.push(
            (
                connection,
                CoordinatorToConnection::OpenOutNotifications {
                    substream_id,
                    protocol_name,
                    handshake,
                },
            ),
        );
        proof {
            old(self).lemma_chains_desired_wf_carries(self);
            let ns = self.notif_substreams@;
            assert forall|a: int, b: int| 0 <= a < b < ns.len() implies ns[a].id != ns[b].id && !(
            sub_is_out_ba(ns[a]) && sub_is_out_ba(ns[b]) && ns[a].protocol == ns[b].protocol
                && ns[a].peer.id() == ns[b].peer.id()) by {
                if b == ns.len() - 1 {
                    assert(ns[a] == pre[a]);
                    assert(!sub_is_out_ba(ns[b]));
                } else {
                    assert(ns[a] == pre[a]);
                    assert(ns[b] == pre[b]);
                }
            }
        }
        self.refresh_desired_sets();
    }
}



impl ChainNetwork {
    /// Recognizes the name of a notifications protocol of one of the
    /// registered chains.
    #[verifier::loop_isolation(false)]
    fn recognize_notifications_protocol(&self, name: &Vec<u8>) -> (r: Option<
        NotificationsProtocol,
    >)
        ensures
            match r {
                Some(proto) => {
                    &&& self.chain_ok(proto.chain_index_spec() as int)
                    &&& name@ == crate::protocol::chain_protocol_name_spec(
                        self.chains_spec()[proto.chain_index_spec() as int]->Some_0.genesis_hash@,
                        fork_view(
                            self.chains_spec()[proto.chain_index_spec() as int]->Some_0.fork_id,
                        ),
                        match proto {
                            NotificationsProtocol::BlockAnnounces { .. } => crate::protocol::block_announces_bytes(),
                            NotificationsProtocol::Transactions { .. } => crate::protocol::transactions_suffix_bytes(),
                            NotificationsProtocol::Grandpa { .. } => crate::protocol::grandpa_suffix_bytes(),
                        },
                    )
                },
                None => true,
            },
    {
        let mut c: usize = 0;
        while c < self.chains.len()
            decreases self.chains@.len() - c,
        {
            let present: bool = self.chains[c].is_some();
            if present {
                let (genesis_hash, fork_id) = match &self.chains[c] {
                    Some(ch) => (
                        ch.genesis_hash,
                        match &ch.fork_id {
                            Some(f) => Some(clone_bytes(f)),
                            None => None,
                        },
                    ),
                    None => vstd::pervasive::unreached(),
                };
                let ba = crate::protocol::encode_chain_protocol_name(
                    &genesis_hash,
                    &fork_id,
                    crate::protocol::suffix_bytes(
                        Protocol::BlockAnnounces { chain_index: c },
                    ).as_slice(),
                );
                if bytes_eq(&ba, name) {
                    return Some(NotificationsProtocol::BlockAnnounces { chain_index: c });
                }
                let tx = crate::protocol::encode_chain_protocol_name(
                    &genesis_hash,
                    &fork_id,
                    crate::protocol::suffix_bytes(
                        Protocol::Transactions { chain_index: c },
                    ).as_slice(),
                );
                if bytes_eq(&tx, name) {
                    return Some(NotificationsProtocol::Transactions { chain_index: c });
                }
                let gp = crate::protocol::encode_chain_protocol_name(
                    &genesis_hash,
                    &fork_id,
                    crate::protocol::suffix_bytes(Protocol::Grandpa { chain_index: c }).as_slice(),
                );
                if bytes_eq(&gp, name) {
                    return Some(NotificationsProtocol::Grandpa { chain_index: c });
                }
            }
            c += 1;
        }
        None
    }

    /// Recognizes the name of a request-response protocol: `identify`,
    /// `ping`, or a per-chain request protocol.
    #[verifier::loop_isolation(false)]
    fn recognize_request_protocol(&self, name: &Vec<u8>) -> (r: Option<Protocol>)
        ensures
            match r {
                Some(proto) => proto matches Protocol::Identify || proto matches Protocol::Ping
                    || (proto.chain_index_of() matches Some(c) && self.chain_ok(c as int)),
                None => true,
            },
    {
        let identify = crate::protocol::suffix_bytes(Protocol::Identify);
        if bytes_eq(&identify, name) {
            return Some(Protocol::Identify);
        }
        let ping = crate::protocol::suffix_bytes(Protocol::Ping);
        if bytes_eq(&ping, name) {
            return Some(Protocol::Ping);
        }
        let mut c: usize = 0;
        while c < self.chains.len()
            decreases self.chains@.len() - c,
        {
            let present: bool = self.chains[c].is_some();
            if present {
                let (genesis_hash, fork_id) = match &self.chains[c] {
                    Some(ch) => (
                        ch.genesis_hash,
                        match &ch.fork_id {
                            Some(f) => Some(clone_bytes(f)),
                            None => None,
                        },
                    ),
                    None => vstd::pervasive::unreached(),
                };
                let sync = crate::protocol::encode_chain_protocol_name(
                    &genesis_hash,
                    &fork_id,
                    crate::protocol::suffix_bytes(Protocol::Sync { chain_index: c }).as_slice(),
                );
                if bytes_eq(&sync, name) {
                    return Some(Protocol::Sync { chain_index: c });
                }
                let light = crate::protocol::encode_chain_protocol_name(
                    &genesis_hash,
                    &fork_id,
                    crate::protocol::suffix_bytes(
                        Protocol::LightUnknown { chain_index: c },
                    ).as_slice(),
                );
                if bytes_eq(&light, name) {
                    return Some(Protocol::LightUnknown { chain_index: c });
                }
                let kad = crate::protocol::encode_chain_protocol_name(
                    &genesis_hash,
                    &fork_id,
                    crate::protocol::suffix_bytes(Protocol::Kad { chain_index: c }).as_slice(),
                );
                if bytes_eq(&kad, name) {
                    return Some(Protocol::Kad { chain_index: c });
                }
                let warp = crate::protocol::encode_chain_protocol_name(
                    &genesis_hash,
                    &fork_id,
                    crate::protocol::suffix_bytes(Protocol::SyncWarp { chain_index: c }).as_slice(),
                );
                if bytes_eq(&warp, name) {
                    return Some(Protocol::SyncWarp { chain_index: c });
                }
                let state = crate::protocol::encode_chain_protocol_name(
                    &genesis_hash,
                    &fork_id,
                    crate::protocol::suffix_bytes(Protocol::State { chain_index: c }).as_slice(),
                );
                if bytes_eq(&state, name) {
                    return Some(Protocol::State { chain_index: c });
                }
            }
            c += 1;
        }
        None
    }
}



impl ChainNetwork {
    /// Handles the completion of a connection handshake, reconciling the
    /// expected identity with the actual one.
    fn handle_handshake_finished(&mut self, cid: usize, actual: PeerId) -> (r: Option<Event>)
        requires
            old(self).wf(),
        ensures
            final(self).wf(),
            final(self).chains_spec() == old(self).chains_spec(),
            final(self).notif_substreams_spec() == old(self).notif_substreams_spec(),
            final(self).request_substreams_spec() == old(self).request_substreams_spec(),
            final(self).desired_spec() == old(self).desired_spec(),
            final(self).pending_messages_spec() == old(self).pending_messages_spec(),
            final(self).pending_events_spec() == old(self).pending_events_spec(),
            cid < old(self).connections_spec().len() && old(self).connections_spec()[cid as int].alive
                && !old(self).connections_spec()[cid as int].established ==> {
                &&& final(self).connections_spec().len() == old(self).connections_spec().len()
                &&& final(self).connections_spec()[cid as int].established
                &&& final(self).connections_spec()[cid as int].alive
                &&& final(self).connections_spec()[cid as int].shutting_down == old(self).connections_spec()[cid as int].shutting_down
                &&& final(self).connections_spec()[cid as int].peer matches Some(q) && q.id()
                    == actual.id()
                &&& forall|k: int|
                    0 <= k < final(self).connections_spec().len() && k != cid ==> final(self).connections_spec().index(k) == old(self).connections_spec().index(k)
                &&& r matches Some(e) && e matches Event::HandshakeFinished {
                    id,
                    expected_peer_id,
                    peer_id,
                } && id.0 == cid && peer_id.id() == actual.id() && (match (
                    expected_peer_id,
                    old(self).connections_spec()[cid as int].peer,
                ) {
                    (Some(a), Some(b)) => a.id() == b.id(),
                    (None, None) => true,
                    _ => false,
                })
            },
            !(cid < old(self).connections_spec().len() && old(self).connections_spec()[cid as int].alive
                && !old(self).connections_spec()[cid as int].established) ==> r is None && *final(self)
                == *old(self),
    {
        if cid >= self.connections.len() {
            return None;
        }
        if !self.connections[cid].alive || self.connections[cid].established {
            return None;
        }
        let ghost pre = self.connections@;
        let mut conn = self.connections.remove(cid);
        let expected: Option<PeerId> = match &conn.peer {
            Some(p) => Some(p.duplicate()),
            None => None,
        };
        conn.peer = Some(actual.duplicate());
        conn.established = true;
        let ghost gconn = conn;
        self.connections.insert(cid, conn);
        proof {
            assert(self.connections@ =~= pre.update(cid as int, gconn));
            old(self).lemma_chains_desired_wf_carries(self);
            let ns = self.notif_substreams@;
            assert forall|a: int| 0 <= a < ns.len() implies (#[trigger] ns[a].connection)
                < self.connections@.len() by {
                assert(old(self).notif_substreams_spec()[a].connection < pre.len());
            }
            assert forall|a: int|
                0 <= a < self.request_substreams@.len() implies (
            #[trigger] self.request_substreams@[a].connection) < self.connections@.len() by {
                assert(old(self).request_substreams_spec()[a].connection < pre.len());
            }
        }
        self.refresh_desired_sets();
        Some(Event::HandshakeFinished { id: ConnectionId(cid), expected_peer_id: expected, peer_id: actual })
    }

    /// Handles the start of a connection shutdown.
    fn handle_start_shutdown(&mut self, cid: usize) -> (r: Option<Event>)
        requires
            old(self).wf(),
        ensures
            final(self).wf(),
            final(self).chains_spec() == old(self).chains_spec(),
            final(self).desired_spec() == old(self).desired_spec(),
            final(self).pending_events_spec() == old(self).pending_events_spec(),
            r is None,
    {
        if cid >= self.connections.len() {
            return None;
        }
        if !self.connections[cid].alive {
            return None;
        }
        let ghost pre = self.connections@;
        let mut conn = self.connections.remove(cid);
        conn.shutting_down = true;
        let ghost gconn = conn;
        self.connections.insert(cid, conn);
        proof {
            assert(self.connections@ =~= pre.update(cid as int, gconn));
            old(self).lemma_chains_desired_wf_carries(self);
            let ns = self.notif_substreams@;
            assert forall|a: int| 0 <= a < ns.len() implies (#[trigger] ns[a].connection)
                < self.connections@.len() by {
                assert(old(self).notif_substreams_spec()[a].connection < pre.len());
            }
            assert forall|a: int|
                0 <= a < self.request_substreams@.len() implies (
            #[trigger] self.request_substreams@[a].connection) < self.connections@.len() by {
                assert(old(self).request_substreams_spec()[a].connection < pre.len());
            }
        }
        self.refresh_desired_sets();
        None
    }

    /// Handles the end of a connection: all its substreams disappear, and a
    /// terminal event is reported.
    #[verifier::loop_isolation(false)]
    #[verifier::rlimit(60)]
    fn handle_shutdown(&mut self, cid: usize) -> (r: Option<Event>)
        requires
            old(self).wf(),
        ensures
            final(self).wf(),
            final(self).chains_spec() == old(self).chains_spec(),
            final(self).desired_spec() == old(self).desired_spec(),
            final(self).pending_events_spec() == old(self).pending_events_spec(),
            cid < old(self).connections_spec().len() && old(self).connections_spec()[cid as int].alive
                ==> {
                &&& !final(self).connections_spec()[cid as int].alive
                &&& final(self).notif_substreams_spec() == conn_filtered(
                    old(self).notif_substreams_spec(),
                    cid as int,
                )
                &&& (match r {
                    Some(Event::Disconnected { id, .. }) => id.0 == cid && old(self).connections_spec()[cid as int].established,
                    Some(Event::PreHandshakeDisconnected { id, .. }) => id.0 == cid,
                    _ => false,
                })
            },
            !(cid < old(self).connections_spec().len() && old(self).connections_spec()[cid as int].alive)
                ==> r is None && *final(self) == *old(self),
    {
        if cid >= self.connections.len() {
            return None;
        }
        if !self.connections[cid].alive {
            return None;
        }
        let ghost pre_conns = self.connections@;
        let mut conn = self.connections.remove(cid);
        conn.alive = false;
        conn.shutting_down = true;
        let was_established = conn.established;
        let address = clone_bytes(&conn.address);
        let peer: Option<PeerId> = match &conn.peer {
            Some(p) => Some(p.duplicate()),
            None => None,
        };
        let ghost gconn = conn;
        self.connections.insert(cid, conn);
        proof {
            assert(self.connections@ =~= pre_conns.update(cid as int, gconn));
        }

        // Remove the notifications substreams of the connection.
        let ghost pre = self.notif_substreams@;
        let total: usize = self.notif_substreams.len();
        let mut kept: Vec<NotifSubstream> = Vec::new();
        let mut i: usize = 0;
        while self.notif_substreams.len() > 0
            invariant
                i <= total,
                pre.len() == total,
                self.notif_substreams@ == pre.skip(i as int),
                kept@ == conn_filtered(pre.take(i as int), cid as int),
                self.chains == old(self).chains,
                self.connections@ == pre_conns.update(cid as int, gconn),
                self.request_substreams == old(self).request_substreams,
                self.desired == old(self).desired,
                self.next_substream_id == old(self).next_substream_id,
                self.unconnected_desired_entries == old(self).unconnected_desired_entries,
                self.connected_unopened_entries == old(self).connected_unopened_entries,
                self.opened_undesired_entries == old(self).opened_undesired_entries,
                self.noise_key == old(self).noise_key,
                self.events_in == old(self).events_in,
                self.messages == old(self).messages,
            decreases self.notif_substreams@.len(),
        {
            proof {
                assert(pre.take(i + 1).drop_last() =~= pre.take(i as int));
                assert(pre.take(i + 1).last() == pre[i as int]);
                assert(pre.skip(i as int)[0] == pre[i as int]);
            }
            let sub = self.notif_substreams.remove(0);
            proof {
                assert(self.notif_substreams@ =~= pre.skip(i + 1));
            }
            if sub.connection != cid {
                kept.push(sub);
                proof {
                    assert(kept@ =~= conn_filtered(pre.take(i + 1), cid as int));
                }
            }
            i += 1;
        }
        proof {
            assert(pre.take(pre.len() as int) =~= pre);
        }
        self.notif_substreams = kept;

        // Remove the request substreams of the connection.
        let ghost pre_reqs = self.request_substreams@;
        let total_reqs: usize = self.request_substreams.len();
        let mut kept_reqs: Vec<ReqSubstream> = Vec::new();
        let mut i2: usize = 0;
        while self.request_substreams.len() > 0
            invariant
                i2 <= total_reqs,
                pre_reqs.len() == total_reqs,
                self.request_substreams@ == pre_reqs.skip(i2 as int),
                kept_reqs@ == conn_filtered_reqs(pre_reqs.take(i2 as int), cid as int),
                self.notif_substreams@ == conn_filtered(pre, cid as int),
                self.chains == old(self).chains,
                self.connections@ == pre_conns.update(cid as int, gconn),
                self.desired == old(self).desired,
                self.next_substream_id == old(self).next_substream_id,
                self.unconnected_desired_entries == old(self).unconnected_desired_entries,
                self.connected_unopened_entries == old(self).connected_unopened_entries,
                self.opened_undesired_entries == old(self).opened_undesired_entries,
                self.noise_key == old(self).noise_key,
                self.events_in == old(self).events_in,
                self.messages == old(self).messages,
            decreases self.request_substreams@.len(),
        {
            proof {
                assert(pre_reqs.take(i2 + 1).drop_last() =~= pre_reqs.take(i2 as int));
                assert(pre_reqs.take(i2 + 1).last() == pre_reqs[i2 as int]);
                assert(pre_reqs.skip(i2 as int)[0] == pre_reqs[i2 as int]);
            }
            let sub = self.request_substreams.remove(0);
            proof {
                assert(self.request_substreams@ =~= pre_reqs.skip(i2 + 1));
            }
            if sub.connection != cid {
                kept_reqs.push(sub);
                proof {
                    assert(kept_reqs@ =~= conn_filtered_reqs(pre_reqs.take(i2 + 1), cid as int));
                }
            }
            i2 += 1;
        }
        proof {
            assert(pre_reqs.take(pre_reqs.len() as int) =~= pre_reqs);
        }
        self.request_substreams = kept_reqs;

        proof {
            old(self).lemma_chains_desired_wf_carries(self);
            lemma_conn_filtered_from(pre, cid as int);
            lemma_conn_filtered_reqs_from(pre_reqs, cid as int);
            lemma_conn_filtered_unique(pre, pre_reqs, cid as int);
            let ns = self.notif_substreams@;
            assert forall|a: int| 0 <= a < ns.len() implies (#[trigger] ns[a].id)
                < self.next_substream_id && ns[a].connection < self.connections@.len() by {
                let ja = choose|j: int| 0 <= j < pre.len() && ns[a] == pre[j];
            }
            let rs = self.request_substreams@;
            assert forall|a: int| 0 <= a < rs.len() implies (#[trigger] rs[a].id)
                < self.next_substream_id && rs[a].connection < self.connections@.len() by {
                let ja = choose|j: int| 0 <= j < pre_reqs.len() && rs[a] == pre_reqs[j];
            }
        }
        self.refresh_desired_sets();
        match (was_established, peer) {
            (true, Some(peer_id)) => Some(
                Event::Disconnected { id: ConnectionId(cid), address, peer_id },
            ),
            (true, None) => Some(
                Event::PreHandshakeDisconnected {
                    id: ConnectionId(cid),
                    address,
                    expected_peer_id: None,
                },
            ),
            (false, expected_peer_id) => Some(
                Event::PreHandshakeDisconnected {
                    id: ConnectionId(cid),
                    address,
                    expected_peer_id,
                },
            ),
        }
    }
}

/// The substream lists filtered by a connection death keep their pairwise
/// well-formedness.
pub proof fn lemma_conn_filtered_unique(
    subs: Seq<NotifSubstream>,
    reqs: Seq<ReqSubstream>,
    cid: int,
)
    requires
        forall|a: int, b: int| 0 <= a < b < subs.len() ==> subs[a].id != subs[b].id,
        forall|a: int, b: int|
            0 <= a < b < subs.len() ==> !(sub_is_out_ba(subs[a]) && sub_is_out_ba(subs[b])
                && subs[a].protocol == subs[b].protocol && subs[a].peer.id() == subs[b].peer.id()),
        forall|a: int, b: int| 0 <= a < b < reqs.len() ==> reqs[a].id != reqs[b].id,
        forall|a: int, b: int|
            0 <= a < subs.len() && 0 <= b < reqs.len() ==> subs[a].id != reqs[b].id,
    ensures
        forall|a: int, b: int|
            0 <= a < b < conn_filtered(subs, cid).len() ==> conn_filtered(subs, cid)[a].id
                != conn_filtered(subs, cid)[b].id,
        forall|a: int, b: int|
            0 <= a < b < conn_filtered(subs, cid).len() ==> !(sub_is_out_ba(
                conn_filtered(subs, cid)[a],
            ) && sub_is_out_ba(conn_filtered(subs, cid)[b]) && conn_filtered(subs, cid)[a].protocol
                == conn_filtered(subs, cid)[b].protocol && conn_filtered(subs, cid)[a].peer.id()
                == conn_filtered(subs, cid)[b].peer.id()),
        forall|a: int, b: int|
            0 <= a < b < conn_filtered_reqs(reqs, cid).len() ==> conn_filtered_reqs(reqs, cid)[a].id
                != conn_filtered_reqs(reqs, cid)[b].id,
        forall|a: int, b: int|
            0 <= a < conn_filtered(subs, cid).len() && 0 <= b < conn_filtered_reqs(
                reqs,
                cid,
            ).len() ==> conn_filtered(subs, cid)[a].id != conn_filtered_reqs(reqs, cid)[b].id,
    decreases subs.len() + reqs.len(),
{
    lemma_conn_filtered_from(subs, cid);
    lemma_conn_filtered_reqs_from(reqs, cid);
    let fs = conn_filtered(subs, cid);
    let fr = conn_filtered_reqs(reqs, cid);
    if subs.len() > 0 {
        let prefix = subs.drop_last();
        assert forall|a: int, b: int| 0 <= a < b < prefix.len() implies prefix[a].id
            != prefix[b].id && !(sub_is_out_ba(prefix[a]) && sub_is_out_ba(prefix[b])
            && prefix[a].protocol == prefix[b].protocol && prefix[a].peer.id()
            == prefix[b].peer.id()) by {
            assert(subs[a].id != subs[b].id);
            assert(!(sub_is_out_ba(subs[a]) && sub_is_out_ba(subs[b]) && subs[a].protocol
                == subs[b].protocol && subs[a].peer.id() == subs[b].peer.id()));
        }
        assert forall|a: int, b: int|
            0 <= a < prefix.len() && 0 <= b < reqs.len() implies prefix[a].id != reqs[b].id by {
            assert(subs[a].id != reqs[b].id);
        }
        lemma_conn_filtered_unique(prefix, reqs, cid);
        lemma_conn_filtered_from(prefix, cid);
        let rest = conn_filtered(prefix, cid);
        if keep_on_conn_close(subs.last(), cid) {
            assert forall|a: int, b: int| 0 <= a < b < fs.len() implies fs[a].id != fs[b].id && !(
            sub_is_out_ba(fs[a]) && sub_is_out_ba(fs[b]) && fs[a].protocol == fs[b].protocol
                && fs[a].peer.id() == fs[b].peer.id()) by {
                if b == fs.len() - 1 {
                    assert(fs[a] == rest[a]);
                    let j = choose|j: int| 0 <= j < prefix.len() && rest[a] == prefix[j];
                    assert(subs[j].id != subs[subs.len() - 1].id);
                    assert(!(sub_is_out_ba(subs[j]) && sub_is_out_ba(subs[subs.len() - 1])
                        && subs[j].protocol == subs[subs.len() - 1].protocol && subs[j].peer.id()
                        == subs[subs.len() - 1].peer.id()));
                }
            }
            assert forall|a: int, b: int|
                0 <= a < fs.len() && 0 <= b < fr.len() implies fs[a].id != fr[b].id by {
                let jb = choose|j: int| 0 <= j < reqs.len() && fr[b] == reqs[j];
                if a == fs.len() - 1 {
                    assert(subs[subs.len() - 1].id != reqs[jb].id);
                } else {
                    assert(fs[a] == rest[a]);
                    let j = choose|j: int| 0 <= j < prefix.len() && rest[a] == prefix[j];
                    assert(subs[j].id != reqs[jb].id);
                }
            }
        } else {
            assert forall|a: int, b: int|
                0 <= a < fs.len() && 0 <= b < fr.len() implies fs[a].id != fr[b].id by {
                let jb = choose|j: int| 0 <= j < reqs.len() && fr[b] == reqs[j];
                assert(fs[a] == rest[a]);
                let j = choose|j: int| 0 <= j < prefix.len() && rest[a] == prefix[j];
                assert(subs[j].id != reqs[jb].id);
            }
        }
    } else if reqs.len() > 0 {
        let rprefix = reqs.drop_last();
        assert forall|a: int, b: int| 0 <= a < b < rprefix.len() implies rprefix[a].id
            != rprefix[b].id by {
            assert(reqs[a].id != reqs[b].id);
        }
        lemma_conn_filtered_unique(subs, rprefix, cid);
        lemma_conn_filtered_reqs_from(rprefix, cid);
        let rrest = conn_filtered_reqs(rprefix, cid);
        if reqs.last().connection != cid {
            assert forall|a: int, b: int| 0 <= a < b < fr.len() implies fr[a].id != fr[b].id by {
                if b == fr.len() - 1 {
                    assert(fr[a] == rrest[a]);
                    let j = choose|j: int| 0 <= j < rprefix.len() && rrest[a] == rprefix[j];
                    assert(reqs[j].id != reqs[reqs.len() - 1].id);
                }
            }
        }
    }
}




/// What the coordinator reports when the opening of an outbound
/// block-announces substream with the given identifier finishes: the remote
/// handshake must decode and carry the chain's genesis hash, else the gossip
/// link fails with the exact error.
pub open spec fn ba_out_result_outcome(
    subs: Seq<NotifSubstream>,
    chains: Seq<Option<Chain>>,
    substream_id: u64,
    result: Result<Vec<u8>, ()>,
    r: Option<Event>,
) -> bool {
    forall|k: int|
        0 <= k < subs.len() && (#[trigger] subs[k].id) == substream_id && subs[k].direction
            == SubstreamDirection::Out && subs[k].state == NotificationsSubstreamState::Pending
            && (subs[k].protocol matches NotificationsProtocol::BlockAnnounces { chain_index: c }
            && 0 <= c < chains.len() && chains[c as int] is Some
            && chains[c as int]->Some_0.block_number_bytes <= 8) ==> (match result {
            Ok(hs) => {
                let w = chains[subs[k].protocol.chain_index_spec() as int]->Some_0.block_number_bytes as int;
                let genesis = chains[subs[k].protocol.chain_index_spec() as int]->Some_0.genesis_hash@;
                if hs@.len() == 1 + w + 64 && crate::codec::role_of_byte(hs@[0]) is Some {
                    if hs@.subrange(33 + w, 65 + w) == genesis {
                        r matches Some(e) && e matches Event::GossipConnected {
                            peer_id,
                            chain_id,
                            ..
                        } && peer_id.id() == subs[k].peer.id() && chain_id.0
                            == subs[k].protocol.chain_index_spec()
                    } else {
                        r matches Some(e) && e matches Event::GossipOpenFailed {
                            chain_id,
                            error,
                            ..
                        } && chain_id.0 == subs[k].protocol.chain_index_spec() && (error matches
                            GossipConnectError::GenesisMismatch {
                            local_genesis,
                            remote_genesis,
                        } && local_genesis@ == genesis && remote_genesis@ == hs@.subrange(
                            33 + w,
                            65 + w,
                        ))
                    }
                } else {
                    r matches Some(e) && e matches Event::GossipOpenFailed { error, .. }
                        && error matches GossipConnectError::HandshakeDecode
                }
            },
            Err(()) => r matches Some(e) && e matches Event::GossipOpenFailed { error, .. }
                && error matches GossipConnectError::Substream,
        })
}

impl ChainNetwork {
    /// Handles the outcome of opening an outbound notifications substream.
    ///
    /// For a block-announces substream this is where the gossip link is
    /// reported connected or failed: the remote handshake must decode and
    /// carry the chain's genesis hash; the transactions and GrandPa
    /// substreams are then opened eagerly. For the dependent protocols a
    /// failure is retried while the block-announces substream remains open.
    #[verifier::rlimit(80)]
    fn handle_notifications_out_result(
        &mut self,
        cid: usize,
        substream_id: u64,
        result: Result<Vec<u8>, ()>,
    ) -> (r: Option<Event>)
        requires
            old(self).wf(),
        ensures
            final(self).wf(),
            final(self).pending_events_spec() == old(self).pending_events_spec(),
            final(self).chains_spec() == old(self).chains_spec(),
            final(self).desired_spec() == old(self).desired_spec(),
            ba_out_result_outcome(
                old(self).notif_substreams_spec(),
                old(self).chains_spec(),
                substream_id,
                result,
                r,
            ),
    {
        let k = match self.find_notif_by_id(substream_id) {
            Some(k) => k,
            None => {
                return None;
            },
        };
        let is_out_pending: bool = self.notif_substreams[k].direction == SubstreamDirection::Out
            && self.notif_substreams[k].state == NotificationsSubstreamState::Pending;
        if !is_out_pending {
            return None;
        }
        let proto = self.notif_substreams[k].protocol;
        let peer = self.notif_substreams[k].peer.duplicate();
        let connection = self.notif_substreams[k].connection;
        let chain_index = proto.chain_index();
        let chain_valid: bool = chain_index < self.chains.len() && self.chains[chain_index].is_some();
        if !chain_valid {
            self.remove_notif_substream(k);
            return None;
        }
        let is_ba: bool = matches!(proto, NotificationsProtocol::BlockAnnounces { .. });
        if is_ba {
            let (genesis, block_number_bytes, grandpa_configured) = match &self.chains[chain_index] {
                Some(c) => (c.genesis_hash, c.block_number_bytes, c.grandpa_protocol_config.is_some()),
                None => vstd::pervasive::unreached(),
            };
            match result {
                Ok(handshake) => {
                    if block_number_bytes > 8 {
                        self.remove_notif_substream(k);
                        return Some(Event::GossipOpenFailed {
                            peer_id: peer,
                            chain_id: ChainId(chain_index),
                            kind: GossipKind::ConsensusTransactions,
                            error: GossipConnectError::HandshakeDecode,
                        });
                    }
                    match crate::codec::decode_block_announces_handshake(
                        handshake.as_slice(),
                        block_number_bytes,
                    ) {
                        Ok(decoded) => {
                            if hash_eq(&decoded.genesis_hash, &genesis) {
                                self.set_notif_open(k);
                                // Open the dependent substreams eagerly.
                                if self.next_substream_id < u64::MAX && !self.has_out_substream(
                                    NotificationsProtocol::Transactions { chain_index },
                                    &peer,
                                ) {
                                    self.open_dependent_substream(
                                        NotificationsProtocol::Transactions { chain_index },
                                        &peer,
                                        connection,
                                        Vec::new(),
                                    );
                                }
                                if grandpa_configured && self.next_substream_id < u64::MAX
                                    && !self.has_out_substream(
                                    NotificationsProtocol::Grandpa { chain_index },
                                    &peer,
                                ) {
                                    let role = match &self.chains[chain_index] {
                                        Some(c) => c.role,
                                        None => vstd::pervasive::unreached(),
                                    };
                                    let mut role_handshake: Vec<u8> = Vec::new();
                                    role_handshake.push(crate::codec::encode_role(role));
                                    self.open_dependent_substream(
                                        NotificationsProtocol::Grandpa { chain_index },
                                        &peer,
                                        connection,
                                        role_handshake,
                                    );
                                }
                                Some(Event::GossipConnected {
                                    peer_id: peer,
                                    chain_id: ChainId(chain_index),
                                    kind: GossipKind::ConsensusTransactions,
                                    role: decoded.role,
                                    best_number: decoded.best_number,
                                    best_hash: decoded.best_hash,
                                })
                            } else {
                                self.remove_notif_substream(k);
                                Some(Event::GossipOpenFailed {
                                    peer_id: peer,
                                    chain_id: ChainId(chain_index),
                                    kind: GossipKind::ConsensusTransactions,
                                    error: GossipConnectError::GenesisMismatch {
                                        local_genesis: genesis,
                                        remote_genesis: decoded.genesis_hash,
                                    },
                                })
                            }
                        },
                        Err(()) => {
                            self.remove_notif_substream(k);
                            Some(Event::GossipOpenFailed {
                                peer_id: peer,
                                chain_id: ChainId(chain_index),
                                kind: GossipKind::ConsensusTransactions,
                                error: GossipConnectError::HandshakeDecode,
                            })
                        },
                    }
                },
                Err(()) => {
                    self.remove_notif_substream(k);
                    Some(Event::GossipOpenFailed {
                        peer_id: peer,
                        chain_id: ChainId(chain_index),
                        kind: GossipKind::ConsensusTransactions,
                        error: GossipConnectError::Substream,
                    })
                },
            }
        } else {
            match result {
                Ok(_) => {
                    self.set_notif_open(k);
                    None
                },
                Err(()) => {
                    self.remove_notif_substream(k);
                    // Retry while the block-announces substream remains open.
                    let ba_open = self.find_open_out(
                        NotificationsProtocol::BlockAnnounces { chain_index },
                        &peer,
                    );
                    if ba_open.is_some() && self.next_substream_id < u64::MAX {
                        let handshake: Vec<u8> = if matches!(
                            proto,
                            NotificationsProtocol::Grandpa { .. },
                        ) {
                            let role = match &self.chains[chain_index] {
                                Some(c) => c.role,
                                None => vstd::pervasive::unreached(),
                            };
                            let mut h: Vec<u8> = Vec::new();
                            h.push(crate::codec::encode_role(role));
                            h
                        } else {
                            Vec::new()
                        };
                        self.open_dependent_substream(proto, &peer, connection, handshake);
                    }
                    None
                },
            }
        }
    }

    /// Returns whether an outbound substream (in any state) of the given
    /// protocol exists towards the peer.
    #[verifier::loop_isolation(false)]
    fn has_out_substream(&self, proto: NotificationsProtocol, peer: &PeerId) -> bool {
        let mut i: usize = 0;
        while i < self.notif_substreams.len()
            decreases self.notif_substreams@.len() - i,
        {
            let sub = &self.notif_substreams[i];
            if sub.direction == SubstreamDirection::Out && sub.protocol == proto
                && sub.peer.same_as(peer) {
                return true;
            }
            i += 1;
        }
        false
    }

    /// Handles the teardown of an outbound notifications substream.
    ///
    /// Losing the block-announces substream tears the gossip link down;
    /// losing a dependent substream retries it while the block-announces
    /// substream remains open.
    #[verifier::loop_isolation(false)]
    fn handle_notifications_out_closed(&mut self, cid: usize, substream_id: u64) -> (r: Option<
        Event,
    >)
        requires
            old(self).wf(),
        ensures
            final(self).wf(),
            final(self).chains_spec() == old(self).chains_spec(),
            final(self).desired_spec() == old(self).desired_spec(),
            final(self).pending_events_spec() == old(self).pending_events_spec(),
    {
        let _ = cid;
        let k = match self.find_notif_by_id(substream_id) {
            Some(k) => k,
            None => {
                return None;
            },
        };
        if self.notif_substreams[k].direction != SubstreamDirection::Out {
            return None;
        }
        let proto = self.notif_substreams[k].protocol;
        let was_open: bool = self.notif_substreams[k].state == NotificationsSubstreamState::Open;
        let peer = self.notif_substreams[k].peer.duplicate();
        let connection = self.notif_substreams[k].connection;
        let chain_index = proto.chain_index();
        self.remove_notif_substream(k);
        let chain_valid: bool = chain_index < self.chains.len() && self.chains[chain_index].is_some();
        if !chain_valid {
            return None;
        }
        let is_ba: bool = matches!(proto, NotificationsProtocol::BlockAnnounces { .. });
        if is_ba {
            if was_open {
                // Tear down the dependent substreams.
                let mut again = true;
                while again
                    invariant
                        self.wf(),
                        self.pending_events_spec() == old(self).pending_events_spec(),
                        self.chains_spec() == old(self).chains_spec(),
                        self.desired_spec() == old(self).desired_spec(),
                    decreases self.notif_substreams_spec().len(), if again {
                        1int
                    } else {
                        0int
                    },
                {
                    let before = self.notif_substreams.len();
                    let tx = self.find_open_out_any_state(
                        NotificationsProtocol::Transactions { chain_index },
                        &peer,
                    );
                    match tx {
                        Some(j) => {
                            let sid = self.notif_substreams[j].id;
                            let conn2 = self.notif_substreams[j].connection;
                            self.remove_notif_substream(j);
                            let ghost mid = *self;
                            self.messages.push(
                                (
                                    conn2,
                                    CoordinatorToConnection::CloseOutNotifications {
                                        substream_id: sid,
                                    },
                                ),
                            );
                            proof {
                                mid.lemma_wf_carries(self);
                            }
                        },
                        None => {
                            let gp = self.find_open_out_any_state(
                                NotificationsProtocol::Grandpa { chain_index },
                                &peer,
                            );
                            match gp {
                                Some(j) => {
                                    let sid = self.notif_substreams[j].id;
                                    let conn2 = self.notif_substreams[j].connection;
                                    self.remove_notif_substream(j);
                                    let ghost mid = *self;
                                    self.messages.push(
                                        (
                                            conn2,
                                            CoordinatorToConnection::CloseOutNotifications {
                                                substream_id: sid,
                                            },
                                        ),
                                    );
                                    proof {
                                        mid.lemma_wf_carries(self);
                                    }
                                },
                                None => {
                                    again = false;
                                },
                            }
                        },
                    }
                    if again {
                        proof {
                            assert(self.notif_substreams_spec().len() < before);
                        }
                    }
                }
                Some(Event::GossipDisconnected {
                    peer_id: peer,
                    chain_id: ChainId(chain_index),
                    kind: GossipKind::ConsensusTransactions,
                })
            } else {
                Some(Event::GossipOpenFailed {
                    peer_id: peer,
                    chain_id: ChainId(chain_index),
                    kind: GossipKind::ConsensusTransactions,
                    error: GossipConnectError::Substream,
                })
            }
        } else {
            // Retry the dependent substream while block-announces stays open.
            let ba_open = self.find_open_out(
                NotificationsProtocol::BlockAnnounces { chain_index },
                &peer,
            );
            if ba_open.is_some() && self.next_substream_id < u64::MAX {
                let handshake: Vec<u8> = if matches!(proto, NotificationsProtocol::Grandpa { .. }) {
                    let role = match &self.chains[chain_index] {
                        Some(c) => c.role,
                        None => vstd::pervasive::unreached(),
                    };
                    let mut h: Vec<u8> = Vec::new();
                    h.push(crate::codec::encode_role(role));
                    h
                } else {
                    Vec::new()
                };
                self.open_dependent_substream(proto, &peer, connection, handshake);
            }
            None
        }
    }

    /// Finds an outbound substream of the given protocol towards the peer,
    /// in any state.
    #[verifier::loop_isolation(false)]
    fn find_open_out_any_state(&self, proto: NotificationsProtocol, peer: &PeerId) -> (r: Option<
        usize,
    >)
        ensures
            r matches Some(k) ==> k < self.notif_substreams_spec().len(),
    {
        let mut i: usize = 0;
        while i < self.notif_substreams.len()
            decreases self.notif_substreams@.len() - i,
        {
            let sub = &self.notif_substreams[i];
            if sub.direction == SubstreamDirection::Out && sub.protocol == proto
                && sub.peer.same_as(peer) {
                return Some(i);
            }
            i += 1;
        }
        None
    }
}



impl ChainNetwork {
    /// Handles the remote opening an inbound notifications substream.
    ///
    /// The substream is rejected if its protocol is unknown, its identifier
    /// is stale, a same-protocol inbound substream already exists with that
    /// peer, or (for the dependent protocols) no open outbound
    /// block-announces substream exists for the same chain and peer. An
    /// accepted block-announces substream stays pending until the caller
    /// resolves it and is reported as [`Event::GossipInDesired`]; the
    /// dependent protocols are accepted immediately.
    #[verifier::rlimit(60)]
    fn handle_notifications_in_open(
        &mut self,
        cid: usize,
        substream_id: u64,
        protocol_name: Vec<u8>,
        handshake: Vec<u8>,
    ) -> (r: Option<Event>)
        requires
            old(self).wf(),
        ensures
            final(self).wf(),
            final(self).chains_spec() == old(self).chains_spec(),
            final(self).desired_spec() == old(self).desired_spec(),
            final(self).pending_events_spec() == old(self).pending_events_spec(),
    {
        let _ = handshake;
        if cid >= self.connections.len() {
            return None;
        }
        if substream_id >= u64::MAX || substream_id < self.next_substream_id {
            // A stale or colliding identifier cannot be tracked: reject.
            self.messages.push(
                (cid, CoordinatorToConnection::RejectInNotifications { substream_id }),
            );
            proof {
                old(self).lemma_wf_carries(self);
            }
            return None;
        }
        let proto = match self.recognize_notifications_protocol(&protocol_name) {
            Some(p) => p,
            None => {
                self.messages.push(
                    (cid, CoordinatorToConnection::RejectInNotifications { substream_id }),
                );
                proof {
                    old(self).lemma_wf_carries(self);
                }
                return None;
            },
        };
        let chain_index = proto.chain_index();
        let peer: PeerId = match &self.connections[cid].peer {
            Some(p) => p.duplicate(),
            None => {
                self.messages.push(
                    (cid, CoordinatorToConnection::RejectInNotifications { substream_id }),
                );
                proof {
                    old(self).lemma_wf_carries(self);
                }
                return None;
            },
        };
        // Reject if a same-protocol inbound substream already exists with
        // that peer.
        let mut exists_in = false;
        let mut i: usize = 0;
        while i < self.notif_substreams.len()
            invariant
                self.wf(),
            decreases self.notif_substreams@.len() - i,
        {
            let sub = &self.notif_substreams[i];
            if sub.direction == SubstreamDirection::In && sub.protocol == proto
                && sub.peer.same_as(&peer) {
                exists_in = true;
            }
            i += 1;
        }
        let is_ba: bool = matches!(proto, NotificationsProtocol::BlockAnnounces { .. });
        let ba_open: bool = self.find_open_out(
            NotificationsProtocol::BlockAnnounces { chain_index },
            &peer,
        ).is_some();
        if exists_in || (!is_ba && !ba_open) {
            self.messages.push(
                (cid, CoordinatorToConnection::RejectInNotifications { substream_id }),
            );
            proof {
                old(self).lemma_wf_carries(self);
            }
            return None;
        }
        // Track the inbound substream.
        let ghost pre = self.notif_substreams@;
        self.next_substream_id = substream_id + 1;
        self.notif_substreams.push(
            NotifSubstream {
                id: substream_id,
                connection: cid,
                peer: peer.duplicate(),
                protocol: proto,
                direction: SubstreamDirection::In,
                state: if is_ba {
                    NotificationsSubstreamState::Pending
                } else {
                    NotificationsSubstreamState::Open
                },
            },
        );
        proof {
            old(self).lemma_chains_desired_wf_carries(self);
            let ns = self.notif_substreams@;
            assert forall|a: int, b: int| 0 <= a < b < ns.len() implies ns[a].id != ns[b].id && !(
            sub_is_out_ba(ns[a]) && sub_is_out_ba(ns[b]) && ns[a].protocol == ns[b].protocol
                && ns[a].peer.id() == ns[b].peer.id()) by {
                if b == ns.len() - 1 {
                    assert(ns[a] == pre[a]);
                    assert(old(self).notif_substreams_spec()[a].id < old(self).next_substream_id_spec());
                    assert(!sub_is_out_ba(ns[b]));
                } else {
                    assert(ns[a] == pre[a]);
                    assert(ns[b] == pre[b]);
                }
            }
            assert forall|a: int, b: int|
                0 <= a < ns.len() && 0 <= b < self.request_substreams@.len() implies ns[a].id
                != self.request_substreams@[b].id by {
                if a < ns.len() - 1 {
                    assert(ns[a] == pre[a]);
                    assert(old(self).request_substreams_spec()[b].id < old(self).next_substream_id_spec());
                } else {
                    assert(old(self).request_substreams_spec()[b].id < old(self).next_substream_id_spec());
                }
            }
        }
        self.refresh_desired_sets();
        if is_ba {
            Some(Event::GossipInDesired {
                peer_id: peer,
                chain_id: ChainId(chain_index),
                kind: GossipKind::ConsensusTransactions,
            })
        } else {
            // Accept immediately with an empty handshake.
            let ghost mid = *self;
            self.messages.push(
                (
                    cid,
                    CoordinatorToConnection::AcceptInNotifications {
                        substream_id,
                        handshake: Vec::new(),
                    },
                ),
            );
            proof {
                mid.lemma_wf_carries(self);
            }
            None
        }
    }

    /// Handles the remote abandoning an inbound notifications substream that
    /// was not resolved yet.
    fn handle_notifications_in_open_cancel(&mut self, cid: usize, substream_id: u64) -> (r: Option<
        Event,
    >)
        requires
            old(self).wf(),
        ensures
            final(self).wf(),
            final(self).chains_spec() == old(self).chains_spec(),
            final(self).desired_spec() == old(self).desired_spec(),
            final(self).pending_events_spec() == old(self).pending_events_spec(),
    {
        let _ = cid;
        let k = match self.find_notif_by_id(substream_id) {
            Some(k) => k,
            None => {
                return None;
            },
        };
        let is_in_pending: bool = self.notif_substreams[k].direction == SubstreamDirection::In
            && self.notif_substreams[k].state == NotificationsSubstreamState::Pending;
        if !is_in_pending {
            return None;
        }
        let proto = self.notif_substreams[k].protocol;
        let peer = self.notif_substreams[k].peer.duplicate();
        let chain_index = proto.chain_index();
        self.remove_notif_substream(k);
        if matches!(proto, NotificationsProtocol::BlockAnnounces { .. }) {
            Some(Event::GossipInDesiredCancel {
                peer_id: peer,
                chain_id: ChainId(chain_index),
                kind: GossipKind::ConsensusTransactions,
            })
        } else {
            None
        }
    }

    /// Handles a notification arriving on an open inbound substream.
    fn handle_notifications_in(&mut self, cid: usize, substream_id: u64, notification: Vec<u8>)
        -> (r: Option<Event>)
        requires
            old(self).wf(),
        ensures
            final(self).wf(),
            *final(self) == *old(self),
    {
        let _ = cid;
        let k = match self.find_notif_by_id(substream_id) {
            Some(k) => k,
            None => {
                return None;
            },
        };
        let is_in_open: bool = self.notif_substreams[k].direction == SubstreamDirection::In
            && self.notif_substreams[k].state == NotificationsSubstreamState::Open;
        if !is_in_open {
            return None;
        }
        let proto = self.notif_substreams[k].protocol;
        let peer = self.notif_substreams[k].peer.duplicate();
        let chain_index = proto.chain_index();
        match proto {
            NotificationsProtocol::BlockAnnounces { .. } => {
                let announce = EncodedBlockAnnounce { bytes: notification };
                match announce.decode() {
                    Ok(_) => Some(Event::BlockAnnounce {
                        peer_id: peer,
                        chain_id: ChainId(chain_index),
                        announce,
                    }),
                    Err(()) => Some(Event::ProtocolError {
                        peer_id: peer,
                        error: ProtocolError::BadBlockAnnounce,
                    }),
                }
            },
            NotificationsProtocol::Grandpa { .. } => {
                if notification.len() == 21 && notification[0] == 2 {
                    let mut round: u64 = 0;
                    let mut set_id: u64 = 0;
                    let mut height: u32 = 0;
                    let mut j: usize = 0;
                    while j < 8
                        invariant
                            notification@.len() == 21,
                        decreases 8 - j,
                    {
                        round = round | ((notification[1 + j] as u64) << ((8 * j) as u64));
                        set_id = set_id | ((notification[9 + j] as u64) << ((8 * j) as u64));
                        j += 1;
                    }
                    let mut j2: usize = 0;
                    while j2 < 4
                        invariant
                            notification@.len() == 21,
                        decreases 4 - j2,
                    {
                        height = height | ((notification[17 + j2] as u32) << ((8 * j2) as u32));
                        j2 += 1;
                    }
                    Some(Event::GrandpaNeighborPacket {
                        peer_id: peer,
                        chain_id: ChainId(chain_index),
                        state: GrandpaState {
                            round_number: round,
                            set_id,
                            commit_finalized_height: height,
                        },
                    })
                } else if notification.len() >= 1 && notification[0] == 1 {
                    Some(Event::GrandpaCommitMessage {
                        peer_id: peer,
                        chain_id: ChainId(chain_index),
                        message: EncodedGrandpaCommitMessage { bytes: notification },
                    })
                } else {
                    Some(Event::ProtocolError {
                        peer_id: peer,
                        error: ProtocolError::BadGrandpaNotification,
                    })
                }
            },
            NotificationsProtocol::Transactions { .. } => None,
        }
    }

    /// Handles the closing of an inbound notifications substream.
    fn handle_notifications_in_close(&mut self, cid: usize, substream_id: u64) -> (r: Option<
        Event,
    >)
        requires
            old(self).wf(),
        ensures
            final(self).wf(),
            final(self).chains_spec() == old(self).chains_spec(),
            final(self).desired_spec() == old(self).desired_spec(),
            final(self).pending_events_spec() == old(self).pending_events_spec(),
    {
        let _ = cid;
        let k = match self.find_notif_by_id(substream_id) {
            Some(k) => k,
            None => {
                return None;
            },
        };
        if self.notif_substreams[k].direction != SubstreamDirection::In {
            return None;
        }
        self.remove_notif_substream(k);
        None
    }

    /// Handles the negotiation of an inbound substream: request protocols
    /// are accepted according to the chain configuration, notification
    /// protocols are accepted so that the handshake can follow, and anything
    /// else is rejected.
    #[verifier::rlimit(60)]
    fn handle_inbound_negotiated(&mut self, cid: usize, substream_id: u64, protocol_name: Vec<u8>)
        -> (r: Option<Event>)
        requires
            old(self).wf(),
        ensures
            final(self).wf(),
            final(self).chains_spec() == old(self).chains_spec(),
            final(self).desired_spec() == old(self).desired_spec(),
            final(self).pending_events_spec() == old(self).pending_events_spec(),
    {
        if cid >= self.connections.len() {
            return None;
        }
        if let Some(_) = self.recognize_notifications_protocol(&protocol_name) {
            // A notifications substream: accept the negotiation; the
            // handshake arrives with the in-open message.
            self.messages.push((cid, CoordinatorToConnection::AcceptInRequest { substream_id }));
            proof {
                old(self).lemma_wf_carries(self);
            }
            return None;
        }
        let proto = match self.recognize_request_protocol(&protocol_name) {
            Some(p) => p,
            None => {
                self.messages.push((cid, CoordinatorToConnection::RejectInbound { substream_id }));
                proof {
                    old(self).lemma_wf_carries(self);
                }
                return None;
            },
        };
        let peer: PeerId = match &self.connections[cid].peer {
            Some(p) => p.duplicate(),
            None => {
                self.messages.push((cid, CoordinatorToConnection::RejectInbound { substream_id }));
                proof {
                    old(self).lemma_wf_carries(self);
                }
                return None;
            },
        };
        let accepted: bool = match proto {
            Protocol::Identify => true,
            Protocol::Ping => true,
            Protocol::Sync { chain_index } => {
                if chain_index < self.chains.len() {
                    match &self.chains[chain_index] {
                        Some(c) => c.allow_inbound_block_requests,
                        None => false,
                    }
                } else {
                    false
                }
            },
            _ => false,
        };
        if !accepted {
            self.messages.push((cid, CoordinatorToConnection::RejectInbound { substream_id }));
            proof {
                old(self).lemma_wf_carries(self);
            }
            return None;
        }
        if matches!(proto, Protocol::Ping) {
            // Ping substreams are answered by the connection itself.
            self.messages.push((cid, CoordinatorToConnection::AcceptInRequest { substream_id }));
            proof {
                old(self).lemma_wf_carries(self);
            }
            return None;
        }
        if substream_id >= u64::MAX || substream_id < self.next_substream_id {
            self.messages.push((cid, CoordinatorToConnection::RejectInbound { substream_id }));
            proof {
                old(self).lemma_wf_carries(self);
            }
            return None;
        }
        let ghost pre = self.request_substreams@;
        self.next_substream_id = substream_id + 1;
        self.request_substreams.push(
            ReqSubstream { id: substream_id, connection: cid, peer, protocol: proto, inbound: true },
        );
        self.messages.push((cid, CoordinatorToConnection::AcceptInRequest { substream_id }));
        proof {
            old(self).lemma_chains_desired_wf_carries(self);
            old(self).lemma_sets_exact_carries(self);
            let rs = self.request_substreams@;
            assert forall|a: int, b: int| 0 <= a < b < rs.len() implies rs[a].id != rs[b].id by {
                if b == rs.len() - 1 {
                    assert(rs[a] == pre[a]);
                    assert(old(self).request_substreams_spec()[a].id < old(self).next_substream_id_spec());
                } else {
                    assert(rs[a] == pre[a]);
                    assert(rs[b] == pre[b]);
                }
            }
            assert forall|a: int, b: int|
                0 <= a < self.notif_substreams@.len() && 0 <= b < rs.len() implies
                self.notif_substreams@[a].id != rs[b].id by {
                if b < rs.len() - 1 {
                    assert(rs[b] == pre[b]);
                } else {
                    assert(old(self).notif_substreams_spec()[a].id < old(self).next_substream_id_spec());
                }
            }
        }
        None
    }

    /// Handles a request arriving on an accepted inbound request substream.
    fn handle_request_in(&mut self, cid: usize, substream_id: u64, payload: Vec<u8>) -> (r: Option<
        Event,
    >)
        requires
            old(self).wf(),
        ensures
            final(self).wf(),
            *final(self) == *old(self),
    {
        let _ = cid;
        let k = match self.find_inbound_request(substream_id) {
            Some(k) => k,
            None => {
                return None;
            },
        };
        let peer = self.request_substreams[k].peer.duplicate();
        match self.request_substreams[k].protocol {
            Protocol::Identify => Some(
                Event::IdentifyRequestIn { peer_id: peer, substream_id: SubstreamId(substream_id) },
            ),
            Protocol::Sync { chain_index } => Some(
                Event::BlocksRequestIn {
                    peer_id: peer,
                    chain_id: ChainId(chain_index),
                    config: payload,
                    substream_id: SubstreamId(substream_id),
                },
            ),
            _ => None,
        }
    }

    /// Handles the remote cancelling an inbound request.
    fn handle_request_in_cancel(&mut self, cid: usize, substream_id: u64) -> (r: Option<Event>)
        requires
            old(self).wf(),
        ensures
            final(self).wf(),
            final(self).chains_spec() == old(self).chains_spec(),
            final(self).desired_spec() == old(self).desired_spec(),
            final(self).pending_events_spec() == old(self).pending_events_spec(),
    {
        let _ = cid;
        let k = match self.find_inbound_request(substream_id) {
            Some(k) => k,
            None => {
                return None;
            },
        };
        let ghost pre = self.request_substreams@;
        self.request_substreams.remove(k);
        proof {
            old(self).lemma_chains_desired_wf_carries(self);
            old(self).lemma_sets_exact_carries(self);
            let rs = self.request_substreams@;
            assert forall|a: int, b: int| 0 <= a < b < rs.len() implies rs[a].id != rs[b].id by {
                let oa = if a < k { a } else { a + 1 };
                let ob = if b < k { b } else { b + 1 };
                assert(rs[a] == pre[oa]);
                assert(rs[b] == pre[ob]);
            }
            assert forall|a: int| 0 <= a < rs.len() implies (#[trigger] rs[a].id)
                < self.next_substream_id && rs[a].connection < self.connections@.len() by {
                let oa = if a < k { a } else { a + 1 };
                assert(rs[a] == pre[oa]);
            }
            assert forall|a: int, b: int|
                0 <= a < self.notif_substreams@.len() && 0 <= b < rs.len() implies
                self.notif_substreams@[a].id != rs[b].id by {
                let ob = if b < k { b } else { b + 1 };
                assert(rs[b] == pre[ob]);
            }
        }
        Some(Event::RequestInCancel { substream_id: SubstreamId(substream_id) })
    }

    /// Handles the completion of an outgoing request.
    fn handle_response(
        &mut self,
        cid: usize,
        substream_id: u64,
        response: Result<Vec<u8>, RequestError>,
    )
        -> (r: Option<Event>)
        requires
            old(self).wf(),
        ensures
            final(self).wf(),
            final(self).chains_spec() == old(self).chains_spec(),
            final(self).desired_spec() == old(self).desired_spec(),
            final(self).pending_events_spec() == old(self).pending_events_spec(),
    {
        let _ = cid;
        // Find the outgoing request substream.
        let mut found: Option<usize> = None;
        let mut i: usize = 0;
        while i < self.request_substreams.len()
            invariant
                self.wf(),
                match found {
                    Some(k) => k < self.request_substreams_spec().len(),
                    None => true,
                },
            decreases self.request_substreams@.len() - i,
        {
            if found.is_none() && self.request_substreams[i].id == substream_id
                && !self.request_substreams[i].inbound {
                found = Some(i);
            }
            i += 1;
        }
        let k = match found {
            Some(k) => k,
            None => {
                return None;
            },
        };
        let proto = self.request_substreams[k].protocol;
        let ghost pre = self.request_substreams@;
        self.request_substreams.remove(k);
        proof {
            old(self).lemma_chains_desired_wf_carries(self);
            old(self).lemma_sets_exact_carries(self);
            let rs = self.request_substreams@;
            assert forall|a: int, b: int| 0 <= a < b < rs.len() implies rs[a].id != rs[b].id by {
                let oa = if a < k { a } else { a + 1 };
                let ob = if b < k { b } else { b + 1 };
                assert(rs[a] == pre[oa]);
                assert(rs[b] == pre[ob]);
            }
            assert forall|a: int| 0 <= a < rs.len() implies (#[trigger] rs[a].id)
                < self.next_substream_id && rs[a].connection < self.connections@.len() by {
                let oa = if a < k { a } else { a + 1 };
                assert(rs[a] == pre[oa]);
            }
            assert forall|a: int, b: int|
                0 <= a < self.notif_substreams@.len() && 0 <= b < rs.len() implies
                self.notif_substreams@[a].id != rs[b].id by {
                let ob = if b < k { b } else { b + 1 };
                assert(rs[b] == pre[ob]);
            }
        }
        let result: RequestResult = match proto {
            Protocol::Sync { .. } => RequestResult::Blocks(response),
            Protocol::SyncWarp { .. } => RequestResult::GrandpaWarpSync(
                match response {
                    Ok(bytes) => Ok(EncodedGrandpaWarpSyncResponse { bytes }),
                    Err(e) => Err(e),
                },
            ),
            Protocol::State { .. } => RequestResult::State(
                match response {
                    Ok(bytes) => Ok(EncodedStateResponse { bytes }),
                    Err(e) => Err(e),
                },
            ),
            Protocol::LightStorage { .. } => RequestResult::StorageProof(
                match response {
                    Ok(bytes) => match crate::codec::decode_proof_response(bytes.as_slice()) {
                        Ok(proof) => Ok(EncodedMerkleProof { bytes: proof }),
                        Err(()) => Err(RequestError::Decode),
                    },
                    Err(e) => Err(e),
                },
            ),
            Protocol::LightCall { .. } => RequestResult::CallProof(
                match response {
                    Ok(bytes) => match crate::codec::decode_proof_response(bytes.as_slice()) {
                        Ok(proof) => Ok(EncodedMerkleProof { bytes: proof }),
                        Err(()) => Err(RequestError::Decode),
                    },
                    Err(e) => Err(e),
                },
            ),
            Protocol::LightUnknown { .. } => RequestResult::StorageProof(
                match response {
                    Ok(bytes) => match crate::codec::decode_proof_response(bytes.as_slice()) {
                        Ok(proof) => Ok(EncodedMerkleProof { bytes: proof }),
                        Err(()) => Err(RequestError::Decode),
                    },
                    Err(e) => Err(e),
                },
            ),
            Protocol::Kad { .. } => RequestResult::KademliaFindNode(response),
            Protocol::Identify => RequestResult::Identify(response),
            Protocol::Ping => RequestResult::Ping(response),
            Protocol::BlockAnnounces { .. } => RequestResult::Blocks(response),
            Protocol::Transactions { .. } => RequestResult::Blocks(response),
            Protocol::Grandpa { .. } => RequestResult::Blocks(response),
        };
        Some(Event::RequestResult { substream_id: SubstreamId(substream_id), response: result })
    }

    /// Returns the number of connection messages waiting to be processed.
    pub fn pending_event_count(&self) -> (r: usize)
        ensures
            r == self.pending_events_spec().len(),
    {
        self.events_in.len()
    }

    /// Returns the next event produced by the service, processing the
    /// messages injected by the connections in order. Returns `None` once no
    /// pending message is left.
    #[verifier::loop_isolation(false)]
    pub fn next_event(&mut self) -> (r: Option<Event>)
        requires
            old(self).wf(),
        ensures
            final(self).wf(),
            r is None ==> final(self).pending_events_spec().len() == 0,
            old(self).pending_events_spec().len() == 0 ==> *final(self) == *old(self),
            final(self).chains_spec() == old(self).chains_spec(),
            final(self).desired_spec() == old(self).desired_spec(),
            // A finished handshake on a live, not shutting-down, not yet
            // established connection stores the actual identity in the
            // connection, leaves every other connection and the substreams
            // alone, reports both identities, and re-derives the desired
            // sets from the new state.
            ({
                let queue = old(self).pending_events_spec();
                first_is_live_handshake(old(self)) ==> (queue[0].1 matches
                    ConnectionToCoordinator::HandshakeFinished { peer_id } ==> {
                    &&& final(self).connections_spec().len() == old(self).connections_spec().len()
                    &&& final(self).connections_spec()[queue[0].0 as int].established
                    &&& final(self).connections_spec()[queue[0].0 as int].alive
                    &&& !final(self).connections_spec()[queue[0].0 as int].shutting_down
                    &&& final(self).connections_spec()[queue[0].0 as int].peer matches Some(q)
                        && q.id() == peer_id.id()
                    &&& forall|k: int|
                        0 <= k < final(self).connections_spec().len() && k != queue[0].0 ==> final(self).connections_spec().index(k) == old(self).connections_spec().index(k)
                    &&& final(self).notif_substreams_spec() == old(self).notif_substreams_spec()
                    &&& final(self).request_substreams_spec() == old(self).request_substreams_spec()
                    &&& r matches Some(e) && e matches Event::HandshakeFinished {
                        id,
                        expected_peer_id,
                        peer_id: actual,
                    } && id.0 == queue[0].0 && actual.id() == peer_id.id() && (match (
                        expected_peer_id,
                        old(self).connections_spec()[queue[0].0 as int].peer,
                    ) {
                        (Some(a), Some(b)) => a.id() == b.id(),
                        (None, None) => true,
                        _ => false,
                    })
                })
            }),
            // The outcome of opening an outbound block-announces substream is
            // reported: the remote handshake must decode and carry the
            // chain's genesis hash, else the gossip link fails with the
            // exact error.
            ({
                let queue = old(self).pending_events_spec();
                first_is_ba_out_result(old(self)) ==> (queue[0].1 matches
                    ConnectionToCoordinator::NotificationsOutResult { substream_id, result }
                    ==> ba_out_result_outcome(
                    old(self).notif_substreams_spec(),
                    old(self).chains_spec(),
                    substream_id,
                    result,
                    r,
                ))
            }),
    {
        loop
            invariant
                self.wf(),
                self.chains_spec() == old(self).chains_spec(),
                self.desired_spec() == old(self).desired_spec(),
                self.pending_events_spec().len() < old(self).pending_events_spec().len() || *self
                    == *old(self),
                self.pending_events_spec().len() < old(self).pending_events_spec().len()
                    ==> !first_is_live_handshake(old(self)) && !first_is_ba_out_result(old(self)),
            decreases self.pending_events_spec().len(),
        {
            if self.events_in.len() == 0 {
                return None;
            }
            let ghost before_pop = *self;
            let (cid, message) = self.events_in.remove(0);
            proof {
                before_pop.lemma_wf_carries(self);
            }
            let outcome: Option<Event> = match message {
                ConnectionToCoordinator::HandshakeFinished { peer_id } => self.handle_handshake_finished(
                    cid,
                    peer_id,
                ),
                ConnectionToCoordinator::StartShutdown => self.handle_start_shutdown(cid),
                ConnectionToCoordinator::Shutdown => self.handle_shutdown(cid),
                ConnectionToCoordinator::InboundNegotiated { substream_id, protocol_name } => self.handle_inbound_negotiated(
                    cid,
                    substream_id,
                    protocol_name,
                ),
                ConnectionToCoordinator::InboundNegotiatedCancel { substream_id } => {
                    let _ = substream_id;
                    None
                },
                ConnectionToCoordinator::RequestIn { substream_id, payload } => self.handle_request_in(
                    cid,
                    substream_id,
                    payload,
                ),
                ConnectionToCoordinator::RequestInCancel { substream_id } => self.handle_request_in_cancel(
                    cid,
                    substream_id,
                ),
                ConnectionToCoordinator::Response { substream_id, response } => self.handle_response(
                    cid,
                    substream_id,
                    response,
                ),
                ConnectionToCoordinator::NotificationsOutResult { substream_id, result } => self.handle_notifications_out_result(
                    cid,
                    substream_id,
                    result,
                ),
                ConnectionToCoordinator::NotificationsOutCloseDemanded { substream_id } => self.handle_notifications_out_closed(
                    cid,
                    substream_id,
                ),
                ConnectionToCoordinator::NotificationsOutReset { substream_id } => self.handle_notifications_out_closed(
                    cid,
                    substream_id,
                ),
                ConnectionToCoordinator::NotificationsInOpen {
                    substream_id,
                    protocol_name,
                    handshake,
                } => self.handle_notifications_in_open(cid, substream_id, protocol_name, handshake),
                ConnectionToCoordinator::NotificationsInOpenCancel { substream_id } => self.handle_notifications_in_open_cancel(
                    cid,
                    substream_id,
                ),
                ConnectionToCoordinator::NotificationsIn { substream_id, notification } => self.handle_notifications_in(
                    cid,
                    substream_id,
                    notification,
                ),
                ConnectionToCoordinator::NotificationsInClose { substream_id } => self.handle_notifications_in_close(
                    cid,
                    substream_id,
                ),
                ConnectionToCoordinator::PingOutSuccess => None,
                ConnectionToCoordinator::PingOutFailed => self.handle_start_shutdown(cid),
            };
            if let Some(event) = outcome {
                return Some(event);
            }
        }
    }
}



/// True if the oldest pending connection message is a finished handshake on
/// a live connection that has not finished its handshake yet.
pub open spec fn first_is_live_handshake(s: &ChainNetwork) -> bool {
    &&& s.pending_events_spec().len() > 0
    &&& s.pending_events_spec()[0].1 matches ConnectionToCoordinator::HandshakeFinished { .. }
    &&& (s.pending_events_spec()[0].0 as int) < s.connections_spec().len()
    &&& s.connections_spec()[s.pending_events_spec()[0].0 as int].alive
    &&& !s.connections_spec()[s.pending_events_spec()[0].0 as int].shutting_down
    &&& !s.connections_spec()[s.pending_events_spec()[0].0 as int].established
}

/// True if the oldest pending connection message reports the outcome of
/// opening an outbound block-announces substream that the coordinator still
/// tracks as pending, on a chain whose block-number width the handshake
/// codec covers.
pub open spec fn first_is_ba_out_result(s: &ChainNetwork) -> bool {
    &&& s.pending_events_spec().len() > 0
    &&& s.pending_events_spec()[0].1 matches ConnectionToCoordinator::NotificationsOutResult {
        substream_id,
        ..
    } && exists|k: int|
        {
            &&& 0 <= k < s.notif_substreams_spec().len()
            &&& (#[trigger] s.notif_substreams_spec()[k]).id == substream_id
            &&& s.notif_substreams_spec()[k].direction == SubstreamDirection::Out
            &&& s.notif_substreams_spec()[k].state == NotificationsSubstreamState::Pending
            &&& s.notif_substreams_spec()[k].protocol matches
                NotificationsProtocol::BlockAnnounces { chain_index: c } && s.chain_ok(c as int)
                && s.chains_spec()[c as int]->Some_0.block_number_bytes <= 8
        }
}

/// Desired-sets partition: for every `(chain, peer)` tuple marked desired,
/// exactly one of the following holds after every operation — the peer is in
/// `unconnected_desired`; the link is in `connected_unopened_gossip_desired`;
/// or an outbound block-announces substream attempt exists (the "no entry"
/// situation). A desired link is never in `opened_gossip_undesired`.
pub proof fn lemma_desired_sets_partition(s: &ChainNetwork, c: int, p: Seq<u8>)
    requires
        s.wf(),
        s.is_desired(c, p),
    ensures
        peers_contain(s.unconnected_desired_spec(), p) <==> !healthy_in(s.connections_spec(), p),
        entries_contain(s.connected_unopened_spec(), c, p) <==> (healthy_in(
            s.connections_spec(),
            p,
        ) && !s.has_out_ba(c, p)),
        !entries_contain(s.opened_undesired_spec(), c, p),
        !(peers_contain(s.unconnected_desired_spec(), p) && entries_contain(
            s.connected_unopened_spec(),
            c,
            p,
        )),
        !(peers_contain(s.unconnected_desired_spec(), p) && s.has_out_ba(c, p) && healthy_in(
            s.connections_spec(),
            p,
        )),
        peers_contain(s.unconnected_desired_spec(), p) || entries_contain(
            s.connected_unopened_spec(),
            c,
            p,
        ) || s.has_out_ba(c, p) || (healthy_in(s.connections_spec(), p) && !s.has_out_ba(c, p)),
{
    let i = choose|i: int|
        0 <= i < s.desired_spec().len() && s.desired_spec()[i].chain_index == c
            && s.desired_spec()[i].peer.id() == p;
    assert(desired_any_in(s.desired_spec(), p));
}

/// Handshake identity migration: whatever connection rewriting a finished
/// handshake performed, a peer (in particular the formerly expected identity)
/// stands in `unconnected_desired` exactly when it is still desired on some
/// chain and no healthy connection to it remains.
pub proof fn lemma_handshake_identity_migration(s: &ChainNetwork, expected: Seq<u8>)
    requires
        s.wf(),
    ensures
        peers_contain(s.unconnected_desired_spec(), expected) <==> (desired_any_in(
            s.desired_spec(),
            expected,
        ) && !healthy_in(s.connections_spec(), expected)),
{
}


} // verus!
