use lightclient::GossipKind;
use lightclient::codec;
use lightclient::protocol::{Protocol, Role};
use lightclient::service::{
    AddChainError, BlocksRequestConfig, ChainConfig, ChainId, ChainNetwork, Config,
    ConnectionId, ConnectionToCoordinator, CoordinatorToConnection, Event, GossipConnectError,
    PeerId, SingleStreamHandshakeKind, StartRequestError,
};

fn config() -> Config {
    Config {
        connections_capacity: 4,
        chains_capacity: 4,
        randomness_seed: [7; 32],
        noise_key: vec![1, 2, 3],
        handshake_timeout_ms: 10_000,
    }
}

fn chain_config(genesis: u8) -> ChainConfig {
    ChainConfig {
        genesis_hash: [genesis; 32],
        fork_id: None,
        block_number_bytes: 4,
        grandpa_protocol_config: None,
        allow_inbound_block_requests: true,
        best_hash: [0xaa; 32],
        best_number: 5,
        role: Role::Light,
    }
}

fn peer(b: u8) -> PeerId {
    PeerId::from_bytes(vec![b; 8])
}

/// Adding the same `(genesis, fork)` pair twice: the second call reports the
/// first chain as the duplicate.
#[test]
fn duplicate_chain_reported() {
    let mut net = ChainNetwork::new(config());
    let first = net.add_chain(ChainConfig { genesis_hash: [0x11; 32], ..chain_config(0x11) });
    assert_eq!(first.unwrap(), ChainId(0));
    let second = net.add_chain(ChainConfig { genesis_hash: [0x11; 32], ..chain_config(0x11) });
    match second {
        Err(AddChainError::Duplicate { existing_identical }) => {
            assert_eq!(existing_identical, ChainId(0));
        }
        _ => panic!("expected a duplicate error"),
    }
}

/// A different fork identifier makes the pair distinct.
#[test]
fn fork_id_distinguishes_chains() {
    let mut net = ChainNetwork::new(config());
    net.add_chain(chain_config(0x11)).unwrap();
    let with_fork = net.add_chain(ChainConfig {
        fork_id: Some(b"fork".to_vec()),
        ..chain_config(0x11)
    });
    assert!(with_fork.is_ok());
}

/// Desired flip-flop: inserting a desired peer puts it in
/// `unconnected_desired`; a connection moves it to
/// `connected_unopened_gossip_desired`; opening the gossip link empties
/// both; removing the desire marks the link undesired.
#[test]
fn desired_flip_flop() {
    let mut net = ChainNetwork::new(config());
    let chain = net.add_chain(chain_config(0x11)).unwrap();
    let p = peer(9);

    assert!(net.gossip_insert_desired(chain, p.duplicate(), GossipKind::ConsensusTransactions));
    assert_eq!(net.unconnected_desired().len(), 1);
    assert_eq!(net.unconnected_desired()[0].bytes, p.bytes);
    assert_eq!(net.connected_unopened_gossip_desired().len(), 0);

    // Inserting again has no effect.
    assert!(!net.gossip_insert_desired(chain, p.duplicate(), GossipKind::ConsensusTransactions));

    // A healthy connection moves the peer out of `unconnected_desired`.
    let (cid, _task) = net.add_single_stream_connection(
        0,
        SingleStreamHandshakeKind::MultistreamSelectNoiseYamux { is_initiator: true },
        vec![4, 5, 6],
        Some(p.duplicate()),
    );
    assert_eq!(cid, ConnectionId(0));
    assert_eq!(net.unconnected_desired().len(), 0);
    assert_eq!(net.connected_unopened_gossip_desired().len(), 1);

    // Finish the handshake so that the connection is established.
    net.inject_connection_message(
        cid,
        ConnectionToCoordinator::HandshakeFinished { peer_id: p.duplicate() },
    );
    match net.next_event() {
        Some(Event::HandshakeFinished { id, peer_id, .. }) => {
            assert_eq!(id, cid);
            assert_eq!(peer_id.bytes, p.bytes);
        }
        other => panic!("unexpected event: {:?}", other),
    }

    // Open the gossip link: both derived sets empty, nothing undesired.
    net.gossip_open(chain, &p, GossipKind::ConsensusTransactions).unwrap();
    assert_eq!(net.connected_unopened_gossip_desired().len(), 0);
    assert_eq!(net.opened_gossip_undesired().len(), 0);

    // A second open attempt is refused while the substream exists.
    assert!(net.gossip_open(chain, &p, GossipKind::ConsensusTransactions).is_err());

    // Removing the desire marks the open link undesired.
    assert!(net.gossip_remove_desired(chain, &p, GossipKind::ConsensusTransactions));
    assert_eq!(net.opened_gossip_undesired().len(), 1);
    assert_eq!(net.opened_gossip_undesired()[0].chain_index, chain.0);
    assert_eq!(net.opened_gossip_undesired()[0].peer.bytes, p.bytes);
}

fn open_ba_substream(net: &mut ChainNetwork, chain: ChainId, p: &PeerId) -> u64 {
    let (cid, _task) = net.add_single_stream_connection(
        0,
        SingleStreamHandshakeKind::MultistreamSelectNoiseYamux { is_initiator: true },
        vec![1],
        Some(p.duplicate()),
    );
    net.inject_connection_message(
        cid,
        ConnectionToCoordinator::HandshakeFinished { peer_id: p.duplicate() },
    );
    net.next_event();
    net.gossip_open(chain, p, GossipKind::ConsensusTransactions).unwrap();
    // The coordinator queued the substream-open message.
    match net.pull_message_to_connection() {
        Some((mcid, CoordinatorToConnection::OpenOutNotifications { substream_id, .. })) => {
            assert_eq!(mcid, cid);
            substream_id
        }
        other => panic!("unexpected message: {:?}", other.is_some()),
    }
}

/// Genesis mismatch on the block-announces handshake is reported as
/// `GossipOpenFailed` with both genesis hashes.
#[test]
fn genesis_mismatch_on_gossip_open() {
    let mut net = ChainNetwork::new(config());
    let chain = net.add_chain(chain_config(0x11)).unwrap();
    let p = peer(9);
    let sid = open_ba_substream(&mut net, chain, &p);

    // The remote answers with a handshake carrying another genesis hash.
    let remote_handshake = codec::encode_block_announces_handshake(
        Role::Full,
        77,
        &[0xbb; 32],
        &[0x22; 32],
        4,
    );
    net.inject_connection_message(
        ConnectionId(0),
        ConnectionToCoordinator::NotificationsOutResult {
            substream_id: sid,
            result: Ok(remote_handshake),
        },
    );
    match net.next_event() {
        Some(Event::GossipOpenFailed { chain_id, error, .. }) => {
            assert_eq!(chain_id, chain);
            match error {
                GossipConnectError::GenesisMismatch { local_genesis, remote_genesis } => {
                    assert_eq!(local_genesis, [0x11; 32]);
                    assert_eq!(remote_genesis, [0x22; 32]);
                }
                other => panic!("unexpected error: {:?}", other),
            }
        }
        other => panic!("unexpected event: {:?}", other),
    }
    // The same peer and chain are eligible again.
    assert!(net.gossip_open(chain, &p, GossipKind::ConsensusTransactions).is_ok());
}

/// A matching handshake reports `GossipConnected` with the remote's best
/// block, and the transactions substream is opened eagerly.
#[test]
fn gossip_connected_on_matching_handshake() {
    let mut net = ChainNetwork::new(config());
    let chain = net.add_chain(chain_config(0x11)).unwrap();
    let p = peer(9);
    let sid = open_ba_substream(&mut net, chain, &p);

    let remote_handshake = codec::encode_block_announces_handshake(
        Role::Full,
        77,
        &[0xbb; 32],
        &[0x11; 32],
        4,
    );
    net.inject_connection_message(
        ConnectionId(0),
        ConnectionToCoordinator::NotificationsOutResult {
            substream_id: sid,
            result: Ok(remote_handshake),
        },
    );
    match net.next_event() {
        Some(Event::GossipConnected { chain_id, role, best_number, best_hash, .. }) => {
            assert_eq!(chain_id, chain);
            assert_eq!(role, Role::Full);
            assert_eq!(best_number, 77);
            assert_eq!(best_hash, [0xbb; 32]);
        }
        other => panic!("unexpected event: {:?}", other),
    }
    // The transactions substream was opened eagerly.
    match net.pull_message_to_connection() {
        Some((_, CoordinatorToConnection::OpenOutNotifications { protocol_name, .. })) => {
            let name = String::from_utf8(protocol_name).unwrap();
            assert!(name.ends_with("/transactions/1"));
        }
        _ => panic!("expected the transactions substream to open"),
    }
    // A block announce can now be sent.
    net.gossip_send_block_announce(&p, chain, &[1, 2, 3], true).unwrap();
}

/// A request needs an established connection.
#[test]
fn request_needs_connection() {
    let mut net = ChainNetwork::new(config());
    let chain = net.add_chain(chain_config(0x11)).unwrap();
    let p = peer(9);
    let r = net.start_blocks_request(
        &p,
        chain,
        BlocksRequestConfig {
            start_hash: [3; 32],
            desired_count: 1,
            ascending: true,
            fields_header: true,
            fields_body: false,
            fields_justifications: false,
        },
        10_000,
    );
    assert!(matches!(r, Err(StartRequestError::NoConnection)));
}

/// The per-chain protocol name is `/<hex(genesis)>[/<fork>]/<suffix>`.
#[test]
fn protocol_name_layout() {
    let name = lightclient::protocol::encode_chain_protocol_name(
        &[0x11; 32],
        &Some(b"fork".to_vec()),
        &lightclient::protocol::suffix_bytes(Protocol::BlockAnnounces { chain_index: 0 }),
    );
    let expected = format!("/{}/fork/block-announces/1", "11".repeat(32));
    assert_eq!(String::from_utf8(name).unwrap(), expected);
}

/// The block-announces handshake round-trips through its codec.
#[test]
fn handshake_round_trip() {
    let bytes = codec::encode_block_announces_handshake(
        Role::Authority,
        0x01020304,
        &[0xcc; 32],
        &[0xdd; 32],
        4,
    );
    assert_eq!(bytes.len(), 1 + 4 + 64);
    let decoded = codec::decode_block_announces_handshake(&bytes, 4).unwrap();
    assert_eq!(decoded.role, Role::Authority);
    assert_eq!(decoded.best_number, 0x01020304);
    assert_eq!(decoded.best_hash, [0xcc; 32]);
    assert_eq!(decoded.genesis_hash, [0xdd; 32]);
}

/// A handshake with an unknown role byte is refused.
#[test]
fn handshake_bad_role_refused() {
    let mut bytes = codec::encode_block_announces_handshake(Role::Full, 9, &[0; 32], &[0; 32], 4);
    bytes[0] = 0x7f;
    assert!(codec::decode_block_announces_handshake(&bytes, 4).is_err());
}

/// A block announce round-trips through its codec, and a bad flag byte is
/// refused.
#[test]
fn block_announce_round_trip() {
    let bytes = codec::encode_block_announce(&[9, 8, 7], true);
    let decoded = codec::decode_block_announce(&bytes).unwrap();
    assert_eq!(decoded.scale_encoded_header, vec![9, 8, 7]);
    assert!(decoded.is_best);
    assert!(codec::decode_block_announce(&[9, 8, 7, 5]).is_err());
    assert!(codec::decode_block_announce(&[]).is_err());
}

/// A full connection shutdown reports the peer and releases the substreams.
#[test]
fn shutdown_reports_disconnected() {
    let mut net = ChainNetwork::new(config());
    let chain = net.add_chain(chain_config(0x11)).unwrap();
    let p = peer(9);
    net.gossip_insert_desired(chain, p.duplicate(), GossipKind::ConsensusTransactions);
    let _sid = open_ba_substream(&mut net, chain, &p);

    net.inject_connection_message(ConnectionId(0), ConnectionToCoordinator::Shutdown);
    match net.next_event() {
        Some(Event::Disconnected { id, peer_id, .. }) => {
            assert_eq!(id, ConnectionId(0));
            assert_eq!(peer_id.bytes, p.bytes);
        }
        other => panic!("unexpected event: {:?}", other),
    }
    // The peer is desired and unconnected again.
    assert_eq!(net.unconnected_desired().len(), 1);
}

/// The GrandPa neighbor packet broadcast updates the stored local state and
/// enqueues the packet on every open GrandPa substream.
#[test]
fn grandpa_broadcast_updates_state() {
    let mut net = ChainNetwork::new(config());
    let chain = net
        .add_chain(ChainConfig {
            grandpa_protocol_config: Some(lightclient::protocol::GrandpaState {
                round_number: 1,
                set_id: 1,
                commit_finalized_height: 0,
            }),
            ..chain_config(0x11)
        })
        .unwrap();
    let state = lightclient::protocol::GrandpaState {
        round_number: 7,
        set_id: 2,
        commit_finalized_height: 40,
    };
    net.gossip_broadcast_grandpa_state_and_update(chain, state);
    // No substream is open: no message was queued.
    assert!(net.pull_message_to_connection().is_none());
    // The encoded packet has the expected layout.
    let packet = codec::encode_neighbor_packet(&state);
    assert_eq!(packet.len(), 21);
    assert_eq!(packet[0], 2);
    assert_eq!(&packet[1..9], &[7, 0, 0, 0, 0, 0, 0, 0]);
    assert_eq!(&packet[9..17], &[2, 0, 0, 0, 0, 0, 0, 0]);
    assert_eq!(&packet[17..21], &[40, 0, 0, 0]);
}

/// A transactions notification is the SCALE compact length one followed by
/// the transaction; without an open gossip link the send is refused.
#[test]
fn transaction_send_needs_gossip_link() {
    let mut net = ChainNetwork::new(config());
    let chain = net.add_chain(chain_config(0x11)).unwrap();
    let p = peer(4);
    let refused = net.gossip_send_transaction(&p, chain, &[0xde, 0xad]);
    assert!(refused.is_err());
    let encoded = codec::encode_single_transaction(&[0xde, 0xad]);
    assert_eq!(encoded, vec![4, 0xde, 0xad]);
}

/// An inbound block-announces substream is reported as `GossipInDesired`
/// and stays pending until the caller resolves it; `gossip_close` rejects
/// it.
#[test]
fn inbound_gossip_desired_flow() {
    let mut net = ChainNetwork::new(config());
    let chain = net.add_chain(chain_config(0x11)).unwrap();
    let p = peer(9);
    let (cid, _task) = net.add_single_stream_connection(
        0,
        SingleStreamHandshakeKind::MultistreamSelectNoiseYamux { is_initiator: false },
        vec![1],
        None,
    );
    net.inject_connection_message(
        cid,
        ConnectionToCoordinator::HandshakeFinished { peer_id: p.duplicate() },
    );
    net.next_event();
    let name = lightclient::protocol::encode_chain_protocol_name(
        &[0x11; 32],
        &None,
        &lightclient::protocol::suffix_bytes(Protocol::BlockAnnounces { chain_index: chain.0 }),
    );
    net.inject_connection_message(
        cid,
        ConnectionToCoordinator::NotificationsInOpen {
            substream_id: 50,
            protocol_name: name,
            handshake: vec![],
        },
    );
    match net.next_event() {
        Some(Event::GossipInDesired { peer_id, chain_id, .. }) => {
            assert_eq!(peer_id.bytes, p.bytes);
            assert_eq!(chain_id, chain);
        }
        other => panic!("unexpected event: {:?}", other),
    }
    // Rejecting the inbound substream through gossip_close queues the
    // rejection.
    net.gossip_close(chain, &p, GossipKind::ConsensusTransactions).unwrap();
    match net.pull_message_to_connection() {
        Some((_, CoordinatorToConnection::RejectInNotifications { substream_id })) => {
            assert_eq!(substream_id, 50);
        }
        _ => panic!("expected the inbound substream to be rejected"),
    }
}

/// Handshake identity migration: when the actual identity differs from the
/// expected one, the desired sets reflect the actual identity, and the
/// expected one re-appears in `unconnected_desired` exactly because it is
/// still desired and has no other healthy connection.
#[test]
fn handshake_identity_migration() {
    let mut net = ChainNetwork::new(config());
    let chain = net.add_chain(chain_config(0x11)).unwrap();
    let expected = peer(1);
    let actual = peer(2);
    net.gossip_insert_desired(chain, expected.duplicate(), GossipKind::ConsensusTransactions);
    let (cid, _task) = net.add_single_stream_connection(
        0,
        SingleStreamHandshakeKind::MultistreamSelectNoiseYamux { is_initiator: true },
        vec![1],
        Some(expected.duplicate()),
    );
    // The expected peer counts as connected while the handshake runs.
    assert_eq!(net.unconnected_desired().len(), 0);

    net.inject_connection_message(
        cid,
        ConnectionToCoordinator::HandshakeFinished { peer_id: actual.duplicate() },
    );
    match net.next_event() {
        Some(Event::HandshakeFinished { expected_peer_id, peer_id, .. }) => {
            assert_eq!(expected_peer_id.unwrap().bytes, expected.bytes);
            assert_eq!(peer_id.bytes, actual.bytes);
        }
        other => panic!("unexpected event: {:?}", other),
    }
    // The expected identity is desired again and no healthy connection to it
    // remains: it re-appears in `unconnected_desired`. The actual identity
    // is not desired at all.
    assert_eq!(net.unconnected_desired().len(), 1);
    assert_eq!(net.unconnected_desired()[0].bytes, expected.bytes);

    // Had the expected identity not been desired, it would not re-appear.
    net.gossip_remove_desired(chain, &expected, GossipKind::ConsensusTransactions);
    assert_eq!(net.unconnected_desired().len(), 0);
}

/// Arbitrary operation sequences keep the desired-sets partition: for every
/// desired link, membership in the three sets is exactly as derived.
#[test]
fn desired_partition_under_random_operations() {
    let mut rng = lightclient::randomness::rng_from_seed([5; 32]);
    let mut net = ChainNetwork::new(config());
    let chain_a = net.add_chain(chain_config(0x11)).unwrap();
    let chain_b = net.add_chain(chain_config(0x22)).unwrap();

    for step in 0..200u32 {
        let which = lightclient::randomness::rng_below(&mut rng, 6);
        let p = peer(1 + lightclient::randomness::rng_below(&mut rng, 3) as u8);
        let chain = if step % 2 == 0 { chain_a } else { chain_b };
        match which {
            0 => {
                net.gossip_insert_desired(chain, p, GossipKind::ConsensusTransactions);
            }
            1 => {
                net.gossip_remove_desired(chain, &p, GossipKind::ConsensusTransactions);
            }
            2 => {
                let (cid, _task) = net.add_single_stream_connection(
                    0,
                    SingleStreamHandshakeKind::MultistreamSelectNoiseYamux {
                        is_initiator: true,
                    },
                    vec![1],
                    Some(p.duplicate()),
                );
                net.inject_connection_message(
                    cid,
                    ConnectionToCoordinator::HandshakeFinished { peer_id: p },
                );
                while net.next_event().is_some() {}
            }
            3 => {
                let _ = net.gossip_open(chain, &p, GossipKind::ConsensusTransactions);
            }
            4 => {
                let _ = net.gossip_close(chain, &p, GossipKind::ConsensusTransactions);
            }
            _ => {
                net.gossip_remove_desired_all(&p, GossipKind::ConsensusTransactions);
            }
        }
        // The three sets never hold the same link twice, and a desired link
        // is never in the undesired set.
        let unconnected = net.unconnected_desired();
        let connected_unopened = net.connected_unopened_gossip_desired();
        for e in connected_unopened {
            assert!(!unconnected.iter().any(|q| q.bytes == e.peer.bytes));
        }
        for e in net.opened_gossip_undesired() {
            assert!(!connected_unopened
                .iter()
                .any(|d| d.chain_index == e.chain_index && d.peer.bytes == e.peer.bytes));
        }
        while net.pull_message_to_connection().is_some() {}
    }
}

/// A received commit message keeps the notification internally but exposes
/// it without the leading tag byte.
#[test]
fn commit_message_strips_tag() {
    let msg = lightclient::service::EncodedGrandpaCommitMessage { bytes: vec![1, 9, 8, 7] };
    assert_eq!(msg.decode().unwrap(), vec![9, 8, 7]);
    assert_eq!(msg.as_encoded(), vec![9, 8, 7]);
    assert_eq!(msg.into_encoded(), vec![9, 8, 7]);
    let not_commit = lightclient::service::EncodedGrandpaCommitMessage { bytes: vec![2, 9] };
    assert!(not_commit.decode().is_err());
}

/// A storage or call proof response carries its proof behind a length
/// prefix; the envelope round-trips and a wrong length is refused.
#[test]
fn proof_response_envelope() {
    let encoded = codec::encode_proof_response(&[5, 6, 7]);
    assert_eq!(encoded, vec![3, 0, 0, 0, 5, 6, 7]);
    assert_eq!(codec::decode_proof_response(&encoded).unwrap(), vec![5, 6, 7]);
    assert!(codec::decode_proof_response(&[9, 0, 0, 0, 5]).is_err());
    assert!(codec::decode_proof_response(&[1, 2]).is_err());
}
