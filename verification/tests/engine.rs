//! Tests of the protocol engine: handshakes, the magic gate, sync
//! decisions, initial-block-download selection and peer failure.

use nakamoto_p2p::clock::AdjustedClock;
use nakamoto_p2p::error::Error;
use nakamoto_p2p::message::NetworkMessage;
use nakamoto_p2p::message::RawNetworkMessage;
use nakamoto_p2p::message::VersionMessage;
use nakamoto_p2p::message::NetAddr;
use nakamoto_p2p::peer::default_user_agent;
use nakamoto_p2p::peer::Config;
use nakamoto_p2p::peer::Handshake;
use nakamoto_p2p::peer::Link;
use nakamoto_p2p::peer::PeerId;
use nakamoto_p2p::peer::PeerState;
use nakamoto_p2p::protocol::Event;
use nakamoto_p2p::protocol::Rpc;
use nakamoto_p2p::protocol::State;
use nakamoto_p2p::tree::Tree;

fn fresh_rpc(height: u32) -> Rpc {
    Rpc::new(Tree::new(vec![0u8; 32], height), AdjustedClock::new(), Config::default())
}

fn version_from(remote: PeerId, local: PeerId, start_height: i32, timestamp: i64) -> NetworkMessage {
    NetworkMessage::Version(VersionMessage {
        version: 70012,
        services: 0,
        timestamp,
        receiver: NetAddr { services: 0, addr: local },
        sender: NetAddr { services: 0, addr: remote },
        nonce: 0,
        user_agent: default_user_agent(),
        start_height,
        relay: false,
    })
}

fn frame(payload: NetworkMessage) -> RawNetworkMessage {
    // Mainnet magic, matching `Config::default()`.
    RawNetworkMessage { magic: 0xD9B4BEF9, payload }
}

/// Runs two engines to quiescence, forwarding every emitted message as a
/// `Received` event at its destination.
fn run_sim(
    alice: &mut Rpc,
    alice_addr: PeerId,
    bob: &mut Rpc,
    bob_addr: PeerId,
    initial: Vec<(PeerId, Event)>,
) {
    let mut events = initial;
    while !events.is_empty() {
        let (to, ev) = events.remove(0);
        let node = if to == alice_addr { &mut *alice } else { &mut *bob };
        let out = node.step(ev);
        for (dest, msg) in out {
            events.push((dest, Event::Received(to, msg)));
        }
    }
}

/// Completes a full handshake for one peer of `rpc`, quoting
/// `start_height` in its version message.
fn handshake_peer(rpc: &mut Rpc, remote: PeerId, local: PeerId, start_height: i32) {
    rpc.step(Event::Connected(remote, local, Link::Outbound));
    rpc.step(Event::Received(remote, frame(version_from(remote, local, start_height, 0))));
    rpc.step(Event::Received(remote, frame(NetworkMessage::Verack)));
}

#[test]
fn test_handshake() {
    let alice_addr = PeerId::from_octets(127, 0, 0, 1, 8333);
    let bob_addr = PeerId::from_octets(127, 0, 0, 2, 8333);

    let mut alice = fresh_rpc(0);
    let mut bob = fresh_rpc(0);

    run_sim(
        &mut alice,
        alice_addr,
        &mut bob,
        bob_addr,
        vec![
            (alice_addr, Event::Connected(bob_addr, alice_addr, Link::Outbound)),
            (bob_addr, Event::Connected(alice_addr, bob_addr, Link::Inbound)),
        ],
    );

    assert!(
        alice
            .peers
            .iter()
            .all(|(_, p)| matches!(p.state, PeerState::Handshake(Handshake::Done))),
        "alice: {:#?}",
        alice.peers
    );
    assert!(
        bob.peers
            .iter()
            .all(|(_, p)| matches!(p.state, PeerState::Handshake(Handshake::Done))),
        "bob: {:#?}",
        bob.peers
    );
}

#[test]
fn two_peer_handshake_one_clock_sample_each() {
    let alice_addr = PeerId::from_octets(127, 0, 0, 1, 8333);
    let bob_addr = PeerId::from_octets(127, 0, 0, 2, 8333);
    let mut alice = fresh_rpc(0);
    let mut bob = fresh_rpc(0);
    run_sim(
        &mut alice,
        alice_addr,
        &mut bob,
        bob_addr,
        vec![
            (alice_addr, Event::Connected(bob_addr, alice_addr, Link::Outbound)),
            (bob_addr, Event::Connected(alice_addr, bob_addr, Link::Inbound)),
        ],
    );
    assert_eq!(alice.clock.len(), 1);
    assert_eq!(bob.clock.len(), 1);
    assert!(alice.connected.contains(&bob_addr));
    assert!(bob.connected.contains(&alice_addr));
}

#[test]
fn magic_mismatch_disconnects_without_output() {
    let alice_addr = PeerId::from_octets(127, 0, 0, 1, 8333);
    let bob_addr = PeerId::from_octets(127, 0, 0, 2, 8333);
    let mut alice = fresh_rpc(0);
    alice.step(Event::Connected(bob_addr, alice_addr, Link::Outbound));
    let out = alice.step(Event::Received(
        bob_addr,
        RawNetworkMessage { magic: 0x00000000, payload: NetworkMessage::Verack },
    ));
    assert!(out.is_empty());
    assert!(alice.disconnected.contains(&bob_addr));
    assert!(!alice.connected.contains(&bob_addr));
    assert!(matches!(alice.state, State::Connecting));
    // The record itself is retained and untouched beyond the failure.
    assert!(alice.peers.iter().any(|(a, _)| *a == bob_addr));
}

#[test]
fn sync_decision_within_threshold() {
    let local = PeerId::from_octets(10, 0, 0, 1, 8333);
    let mut rpc = fresh_rpc(599900);
    let a = PeerId::from_octets(10, 0, 0, 2, 8333);
    let b = PeerId::from_octets(10, 0, 0, 3, 8333);
    let c = PeerId::from_octets(10, 0, 0, 4, 8333);
    handshake_peer(&mut rpc, a, local, 600000);
    handshake_peer(&mut rpc, b, local, 600005);
    handshake_peer(&mut rpc, c, local, 600010);
    assert!(matches!(rpc.state, State::Synced), "state: {:?}", rpc.state);
}

#[test]
fn ibd_selection_with_seed_zero_picks_first_peer() {
    let local = PeerId::from_octets(10, 0, 0, 1, 8333);
    let mut rpc = fresh_rpc(500000);
    rpc.seed_rng(0);
    let a = PeerId::from_octets(10, 0, 0, 2, 8333);
    let b = PeerId::from_octets(10, 0, 0, 3, 8333);
    let c = PeerId::from_octets(10, 0, 0, 4, 8333);
    handshake_peer(&mut rpc, a, local, 700000);
    handshake_peer(&mut rpc, b, local, 700001);
    handshake_peer(&mut rpc, c, local, 700002);
    assert_eq!(rpc.state, State::InitialSync(a), "state: {:?}", rpc.state);
}

#[test]
fn ibd_selection_is_deterministic_per_seed() {
    for seed in [0u64, 1, 7, 42] {
        let mk = || {
            let local = PeerId::from_octets(10, 0, 0, 1, 8333);
            let mut rpc = fresh_rpc(500000);
            rpc.seed_rng(seed);
            let a = PeerId::from_octets(10, 0, 0, 2, 8333);
            let b = PeerId::from_octets(10, 0, 0, 3, 8333);
            let c = PeerId::from_octets(10, 0, 0, 4, 8333);
            handshake_peer(&mut rpc, a, local, 700000);
            handshake_peer(&mut rpc, b, local, 700001);
            handshake_peer(&mut rpc, c, local, 700002);
            rpc.state
        };
        assert_eq!(mk(), mk());
    }
}

#[test]
fn inbound_version_emits_version_then_verack() {
    let alice_addr = PeerId::from_octets(127, 0, 0, 1, 8333);
    let bob_addr = PeerId::from_octets(127, 0, 0, 2, 8333);
    let mut alice = fresh_rpc(0);
    alice.step(Event::Connected(bob_addr, alice_addr, Link::Inbound));
    let out = alice.step(Event::Received(
        bob_addr,
        frame(version_from(bob_addr, alice_addr, 42, 100)),
    ));
    assert_eq!(out.len(), 2);
    assert_eq!(out[0].0, bob_addr);
    assert_eq!(out[1].0, bob_addr);
    assert!(matches!(out[0].1.payload, NetworkMessage::Version(_)));
    assert!(matches!(out[1].1.payload, NetworkMessage::Verack));
}

#[test]
fn error_event_is_idempotent() {
    let alice_addr = PeerId::from_octets(127, 0, 0, 1, 8333);
    let bob_addr = PeerId::from_octets(127, 0, 0, 2, 8333);
    let mut alice = fresh_rpc(0);
    handshake_peer(&mut alice, bob_addr, alice_addr, 10);
    assert!(alice.connected.contains(&bob_addr));

    let out = alice.step(Event::Error(bob_addr, Error::TransportFailed));
    assert!(out.is_empty());
    assert!(!alice.connected.contains(&bob_addr));
    assert_eq!(alice.disconnected.iter().filter(|p| **p == bob_addr).count(), 1);

    alice.step(Event::Error(bob_addr, Error::TransportFailed));
    assert!(!alice.connected.contains(&bob_addr));
    assert_eq!(alice.disconnected.iter().filter(|p| **p == bob_addr).count(), 1);
}

#[test]
fn sync_threshold_boundary() {
    let local = PeerId::from_octets(10, 0, 0, 1, 8333);
    let a = PeerId::from_octets(10, 0, 0, 2, 8333);

    let mut at_threshold = fresh_rpc(1000);
    handshake_peer(&mut at_threshold, a, local, 1144);
    assert_eq!(at_threshold.is_synced(), Ok(true));

    let mut past_threshold = fresh_rpc(1000);
    handshake_peer(&mut past_threshold, a, local, 1145);
    assert_eq!(past_threshold.is_synced(), Ok(false));
}

#[test]
fn is_synced_without_peers_is_not_connected() {
    let rpc = fresh_rpc(0);
    assert_eq!(rpc.is_synced(), Err(Error::NotConnected));
}

#[test]
fn negative_start_height_clamps_to_zero() {
    let alice_addr = PeerId::from_octets(127, 0, 0, 1, 8333);
    let bob_addr = PeerId::from_octets(127, 0, 0, 2, 8333);
    let mut alice = fresh_rpc(0);
    alice.step(Event::Connected(bob_addr, alice_addr, Link::Outbound));
    alice.step(Event::Received(bob_addr, frame(version_from(bob_addr, alice_addr, -5, 0))));
    let peer = &alice.peers.iter().find(|(a, _)| *a == bob_addr).unwrap().1;
    assert_eq!(peer.height, 0);
}

#[test]
fn time_offset_is_peer_clock_minus_ours() {
    let alice_addr = PeerId::from_octets(127, 0, 0, 1, 8333);
    let bob_addr = PeerId::from_octets(127, 0, 0, 2, 8333);
    let mut alice = fresh_rpc(0);
    alice.set_local_time(1000);
    alice.step(Event::Connected(bob_addr, alice_addr, Link::Outbound));
    alice.step(Event::Received(bob_addr, frame(version_from(bob_addr, alice_addr, 7, 1042))));
    alice.step(Event::Received(bob_addr, frame(NetworkMessage::Verack)));
    let peer = &alice.peers.iter().find(|(a, _)| *a == bob_addr).unwrap().1;
    assert_eq!(peer.time_offset, 42);
}

#[test]
fn sets_stay_disjoint_and_samples_match_offsets() {
    let local = PeerId::from_octets(10, 0, 0, 1, 8333);
    let a = PeerId::from_octets(10, 0, 0, 2, 8333);
    let b = PeerId::from_octets(10, 0, 0, 3, 8333);
    let mut rpc = fresh_rpc(0);
    rpc.set_local_time(500);
    handshake_peer(&mut rpc, a, local, 10);
    handshake_peer(&mut rpc, b, local, 20);
    rpc.step(Event::Error(b, Error::TransportFailed));

    // No peer is both connected and disconnected.
    for p in &rpc.connected {
        assert!(!rpc.disconnected.contains(p));
    }
    // Every post-handshake peer contributes exactly one sample, equal to
    // its recorded time offset; `b`'s sample survives its failure because
    // the record is retained.
    assert_eq!(rpc.clock.len(), 2);
    for (addr, peer) in &rpc.peers {
        let samples: Vec<i64> = rpc
            .clock
            .samples
            .iter()
            .filter(|(q, _)| q == addr)
            .map(|(_, v)| *v)
            .collect();
        assert_eq!(samples, vec![peer.time_offset]);
    }
    // A connected peer is exactly a post-handshake one that has not failed.
    for (addr, peer) in &rpc.peers {
        let post = !matches!(
            peer.state,
            PeerState::Handshake(Handshake::AwaitingVersion)
                | PeerState::Handshake(Handshake::AwaitingVerack)
        );
        if !rpc.disconnected.contains(addr) {
            assert_eq!(rpc.connected.contains(addr), post);
        }
    }
}
