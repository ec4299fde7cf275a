//! The protocol engine: a pure state machine that owns the peer table, the
//! `connected` / `disconnected` sets, the adjusted clock and the block tree,
//! consumes discrete events and emits outbound messages. Every transition
//! is a mathematical function of the prior state and the event (`step_m`).

use vstd::prelude::*;

use crate::clock::sample_remove;
use crate::clock::sample_upsert;
use crate::clock::AdjustedClock;
use crate::error::Error;
use crate::message::NetAddr;
use crate::message::NetworkMessage;
use crate::message::NetworkMessageV;
use crate::message::RawNetworkMessage;
use crate::message::RawNetworkMessageV;
use crate::message::VersionMessage;
use crate::peer::post_handshake;
use crate::peer::spec_peer_version_update;
use crate::peer::Config;
use crate::peer::Handshake;
use crate::peer::Link;
use crate::peer::Peer;
use crate::peer::PeerId;
use crate::peer::PeerState;
use crate::peer::Synchronize;
use crate::peer::PEER_CONNECTION_THRESHOLD;
use crate::peer::SYNC_THRESHOLD;
use crate::table::distinct;
use crate::table::find_index;
use crate::table::has_key;
use crate::table::key_index;
use crate::table::lemma_assoc_push;
use crate::table::lemma_push_is_upsert;
use crate::table::lemma_seq_insert;
use crate::table::lemma_seq_remove;
use crate::table::lemma_update_is_upsert;
use crate::table::lemma_upsert;
use crate::table::seq_insert;
use crate::table::seq_remove;
use crate::table::set_contains;
use crate::table::set_insert;
use crate::table::set_remove;
use crate::table::unique_keys;
use crate::table::upsert;
use crate::table::value_of;
use crate::tree::headers_wf;
use crate::tree::spec_linked;
use crate::tree::Tree;
use crate::tree::MAX_HEIGHT;
use crate::codec::spec_block_hash;
use crate::message::BlockHeader;

verus! {

/// The services a version message asks of its receiver: plain network
/// service plus compact filters.
pub const RECEIVER_SERVICES: u64 = 1 | 64;

/// Global protocol state.
#[derive(Clone, Copy, Debug, PartialEq, Eq, Structural)]
pub enum State {
    /// Connecting to the network. Syncing hasn't started yet.
    Connecting,
    /// Initial block download has started with the designated peer.
    InitialSync(PeerId),
    /// We're in sync.
    Synced,
}

/// A discrete input to the engine.
#[derive(Clone, Debug)]
pub enum Event {
    /// A connection was established: remote address, local address, link
    /// direction.
    Connected(PeerId, PeerId, Link),
    /// A framed message arrived from the peer.
    Received(PeerId, RawNetworkMessage),
    /// Bytes were written to the peer; accounting only.
    Sent(PeerId, usize),
    /// The peer failed: transport or decode error.
    Error(PeerId, Error),
}

/// Mathematical view of an event.
pub enum EventV {
    Connected(PeerId, PeerId, Link),
    Received(PeerId, RawNetworkMessageV),
    Sent(PeerId, usize),
    Error(PeerId, Error),
}

impl View for Event {
    type V = EventV;

    open spec fn view(&self) -> EventV {
        match self {
            Event::Connected(a, l, k) => EventV::Connected(*a, *l, *k),
            Event::Received(a, m) => EventV::Received(*a, m@),
            Event::Sent(a, n) => EventV::Sent(*a, *n),
            Event::Error(a, e) => EventV::Error(*a, *e),
        }
    }
}

/// What the engine assumes of an event: a received frame names a known peer
/// and carries a message the codec could have produced. An unknown peer in
/// `Received` is an engine invariant violation, fatal for the process, so
/// the caller checks before stepping.
pub open spec fn event_ok(s: RpcV, e: EventV) -> bool {
    match e {
        EventV::Received(addr, m) => has_key(s.peers, addr) && m.wf(),
        _ => true,
    }
}

/// A protocol state machine: anything that consumes discrete events and
/// emits outbound messages, one step at a time. The reactor is written
/// against this capability alone.
pub trait Protocol: Sized {
    /// The invariant the machine maintains across steps.
    spec fn inv(&self) -> bool;

    /// Which events the machine admits in a given state.
    spec fn admits(&self, event: &Event) -> bool;

    /// Process the next event and advance the protocol state-machine by one
    /// step.
    fn step(&mut self, event: Event) -> (out: Vec<(PeerId, RawNetworkMessage)>)
        requires
            old(self).inv(),
            old(self).admits(&event),
        ensures
            final(self).inv(),
    ;
}

/// Mathematical view of the engine state.
pub struct RpcV {
    pub peers: Seq<(PeerId, Peer)>,
    pub config: crate::peer::ConfigV,
    pub state: State,
    pub tree_height: u32,
    pub tree_tip: Seq<u8>,
    pub clock: Seq<(PeerId, i64)>,
    pub connected: Seq<PeerId>,
    pub disconnected: Seq<PeerId>,
    pub local_time: i64,
    pub rng_state: u64,
}

impl RpcV {
    /// Whether the peer table holds `p`.
    pub open spec fn has_peer(self, p: PeerId) -> bool {
        has_key(self.peers, p)
    }

    /// The record of peer `p`.
    pub open spec fn peer_of(self, p: PeerId) -> Peer {
        value_of(self.peers, p)
    }

    /// The engine's invariant:
    /// - the peer table and the clock have unique keys; the two sets hold
    ///   no duplicates;
    /// - a connected peer is known and past its handshake;
    /// - no peer is both connected and disconnected;
    /// - a known post-handshake peer that has not failed is connected;
    /// - a known peer contributes exactly one time-offset sample if and
    ///   only if it is past its handshake, and that sample equals its
    ///   recorded time offset;
    /// - only known peers contribute samples;
    /// - the tree height fits a version message.
    pub open spec fn wf(self) -> bool {
        &&& unique_keys(self.peers)
        &&& unique_keys(self.clock)
        &&& distinct(self.connected)
        &&& distinct(self.disconnected)
        &&& self.config.wf()
        &&& self.tree_height <= MAX_HEIGHT
        &&& forall|p: PeerId|
            #[trigger] self.connected.contains(p) ==> has_key(self.peers, p) && post_handshake(
                value_of(self.peers, p).state,
            )
        &&& forall|p: PeerId|
            #[trigger] self.disconnected.contains(p) ==> !self.connected.contains(p)
        &&& forall|p: PeerId|
            #[trigger] has_key(self.peers, p) && post_handshake(value_of(self.peers, p).state)
                && !self.disconnected.contains(p) ==> self.connected.contains(p)
        &&& forall|p: PeerId|
            #[trigger] has_key(self.peers, p) ==> (post_handshake(value_of(self.peers, p).state)
                <==> has_key(self.clock, p))
        &&& forall|p: PeerId|
            #[trigger] has_key(self.peers, p) && post_handshake(value_of(self.peers, p).state)
                ==> value_of(self.clock, p) == value_of(self.peers, p).time_offset
        &&& forall|p: PeerId| #[trigger] has_key(self.clock, p) ==> has_key(self.peers, p)
    }
}

/// A fresh record: no height, no offset, handshake not yet begun.
pub open spec fn spec_new_peer(addr: PeerId, local_addr: PeerId, link: Link) -> Peer {
    Peer {
        address: addr,
        local_address: local_addr,
        height: 0u32,
        time_offset: 0i64,
        link,
        state: PeerState::Handshake(Handshake::AwaitingVersion),
        last_active: None,
    }
}

/// The version message the engine sends: configured fields, the local
/// clock, and the current tree height.
pub open spec fn spec_version_msg(
    c: crate::peer::ConfigV,
    local_time: i64,
    addr: PeerId,
    local_addr: PeerId,
    start_height: u32,
) -> crate::message::VersionMessageV {
    crate::message::VersionMessageV {
        version: c.protocol_version,
        services: c.services,
        timestamp: local_time,
        receiver: NetAddr { services: RECEIVER_SERVICES, addr },
        sender: NetAddr { services: 0u64, addr: local_addr },
        nonce: 0u64,
        user_agent: c.user_agent,
        start_height: start_height as i32,
        relay: c.relay,
    }
}

/// The peer moves to `disconnected` and out of `connected`; its record is
/// retained.
pub open spec fn spec_disconnect(s: RpcV, addr: PeerId) -> RpcV {
    RpcV {
        connected: seq_remove(s.connected, addr),
        disconnected: seq_insert(s.disconnected, addr),
        ..s
    }
}

/// A `Connected` event registers a fresh record and clears any earlier
/// trace of the peer: membership in either set, and its clock sample.
pub open spec fn spec_connect(s: RpcV, addr: PeerId, local_addr: PeerId, link: Link) -> RpcV {
    RpcV {
        peers: upsert(s.peers, addr, spec_new_peer(addr, local_addr, link)),
        connected: seq_remove(s.connected, addr),
        disconnected: seq_remove(s.disconnected, addr),
        clock: sample_remove(s.clock, addr),
        ..s
    }
}

/// `m` is the least best-known height over all known peers.
pub open spec fn is_min_height(peers: Seq<(PeerId, Peer)>, m: int) -> bool {
    &&& exists|i: int| 0 <= i < peers.len() && (#[trigger] peers[i]).1.height == m
    &&& forall|i: int| 0 <= i < peers.len() ==> m <= (#[trigger] peers[i]).1.height
}

/// The least best-known height over all known peers.
pub open spec fn min_height(peers: Seq<(PeerId, Peer)>) -> int {
    choose|m: int| is_min_height(peers, m)
}

/// The least height is unique.
pub proof fn lemma_min_height_unique(peers: Seq<(PeerId, Peer)>, a: int, b: int)
    requires
        is_min_height(peers, a),
        is_min_height(peers, b),
    ensures
        a == b,
{
    let i = choose|i: int| 0 <= i < peers.len() && (#[trigger] peers[i]).1.height == a;
    let j = choose|j: int| 0 <= j < peers.len() && (#[trigger] peers[j]).1.height == b;
    assert(b <= peers[i].1.height);
    assert(a <= peers[j].1.height);
}

/// The tree is in sync with the network: its height reaches the least peer
/// height, or lags it by at most `SYNC_THRESHOLD` blocks.
pub open spec fn spec_synced(s: RpcV) -> bool {
    s.tree_height >= min_height(s.peers) || min_height(s.peers) - s.tree_height
        <= SYNC_THRESHOLD as int
}

/// What the outside generator returns for a given state: the successor
/// state and the drawn word.
pub uninterp spec fn rng_word(state: u64) -> (u64, u64);

/// Relies on fastrand::Rng: seeded explicitly, its next word and successor
/// state are a function of the seed state alone.
#[verifier::external_body]
fn rng_next(state: u64) -> (r: (u64, u64))
    ensures
        r == rng_word(state),
{
    let mut rng = fastrand::Rng::with_seed(state);
    let word = rng.u64(..);
    (rng.get_seed(), word)
}

/// The global state after an event has been absorbed: with enough
/// handshake-complete peers the engine either declares itself synced or
/// designates a random connected peer for initial block download; with an
/// empty peer table it goes back to connecting.
pub open spec fn spec_reeval(s: RpcV) -> RpcV {
    if s.connected.len() >= PEER_CONNECTION_THRESHOLD {
        if s.peers.len() == 0 {
            RpcV { state: State::Connecting, ..s }
        } else if spec_synced(s) {
            RpcV { state: State::Synced, ..s }
        } else {
            let roll = rng_word(s.rng_state);
            let idx = roll.1 as int % s.connected.len() as int;
            RpcV { state: State::InitialSync(s.connected[idx]), rng_state: roll.0, ..s }
        }
    } else if s.peers.len() == 0 {
        RpcV { state: State::Connecting, ..s }
    } else {
        s
    }
}

/// A `headers` message while synchronizing: an empty batch finishes the
/// peer's synchronization; a batch that chains from the tip is imported,
/// raising the tree and the peer's height; a batch that does not chain is a
/// validation error, which disconnects the peer and leaves the tree alone.
pub open spec fn spec_recv_headers(
    s: RpcV,
    addr: PeerId,
    p1: Peer,
    hs: Seq<crate::message::BlockHeaderV>,
) -> (RpcV, Seq<(PeerId, NetworkMessageV)>) {
    if hs.len() == 0 {
        (
            RpcV {
                peers: upsert(
                    s.peers,
                    addr,
                    Peer { state: PeerState::Synchronize(Synchronize::Done), ..p1 },
                ),
                ..s
            },
            Seq::empty(),
        )
    } else if spec_linked(hs, s.tree_tip) && s.tree_height + hs.len() <= MAX_HEIGHT {
        let nh = (s.tree_height + hs.len()) as u32;
        (
            RpcV {
                peers: upsert(
                    s.peers,
                    addr,
                    Peer {
                        height: nh,
                        state: PeerState::Synchronize(Synchronize::HeadersReceived),
                        ..p1
                    },
                ),
                tree_height: nh,
                tree_tip: spec_block_hash(hs[hs.len() - 1]),
                ..s
            },
            Seq::empty(),
        )
    } else {
        (spec_disconnect(RpcV { peers: upsert(s.peers, addr, p1), ..s }, addr), Seq::empty())
    }
}

/// A received frame, dispatched by magic, failure status, and the peer's
/// sub-state; messages that do not match the current sub-state only touch
/// `last_active`.
pub open spec fn spec_receive(s: RpcV, addr: PeerId, msg: RawNetworkMessageV) -> (
    RpcV,
    Seq<(PeerId, NetworkMessageV)>,
) {
    if msg.magic != s.config.network.spec_magic() {
        (spec_disconnect(s, addr), Seq::empty())
    } else if s.disconnected.contains(addr) {
        (s, Seq::empty())
    } else {
        let p = value_of(s.peers, addr);
        let p1 = Peer { last_active: Some(s.local_time), ..p };
        match p.state {
            PeerState::Handshake(Handshake::AwaitingVersion) => match msg.payload {
                NetworkMessageV::Version(v) => {
                    let s2 = RpcV {
                        peers: upsert(s.peers, addr, spec_peer_version_update(p1, v, s.local_time)),
                        ..s
                    };
                    if p.link == Link::Inbound {
                        (
                            s2,
                            seq![
                                (
                                    addr,
                                    NetworkMessageV::Version(
                                        spec_version_msg(
                                            s.config,
                                            s.local_time,
                                            addr,
                                            p.local_address,
                                            s.tree_height,
                                        ),
                                    ),
                                ),
                                (addr, NetworkMessageV::Verack),
                            ],
                        )
                    } else {
                        (s2, Seq::empty())
                    }
                },
                _ => (RpcV { peers: upsert(s.peers, addr, p1), ..s }, Seq::empty()),
            },
            PeerState::Handshake(Handshake::AwaitingVerack) => match msg.payload {
                NetworkMessageV::Verack => {
                    let s2 = RpcV {
                        peers: upsert(
                            s.peers,
                            addr,
                            Peer { state: PeerState::Handshake(Handshake::Done), ..p1 },
                        ),
                        connected: seq_insert(s.connected, addr),
                        clock: sample_upsert(s.clock, addr, p1.time_offset),
                        ..s
                    };
                    if p.link == Link::Outbound {
                        (s2, seq![(addr, NetworkMessageV::Verack)])
                    } else {
                        (s2, Seq::empty())
                    }
                },
                _ => (RpcV { peers: upsert(s.peers, addr, p1), ..s }, Seq::empty()),
            },
            PeerState::Handshake(Handshake::Done) => (
                RpcV {
                    peers: upsert(
                        s.peers,
                        addr,
                        Peer { state: PeerState::Synchronize(Synchronize::RequestedHeaders), ..p1 },
                    ),
                    ..s
                },
                Seq::empty(),
            ),
            PeerState::Synchronize(sub) => {
                if sub != Synchronize::Done {
                    match msg.payload {
                        NetworkMessageV::Headers(hs) => spec_recv_headers(s, addr, p1, hs),
                        _ => (RpcV { peers: upsert(s.peers, addr, p1), ..s }, Seq::empty()),
                    }
                } else {
                    (RpcV { peers: upsert(s.peers, addr, p1), ..s }, Seq::empty())
                }
            },
        }
    }
}

/// The event absorbed, before the global state is re-evaluated.
pub open spec fn stage_m(s: RpcV, e: EventV) -> (RpcV, Seq<(PeerId, NetworkMessageV)>) {
    match e {
        EventV::Connected(addr, local_addr, link) => (
            spec_connect(s, addr, local_addr, link),
            if link == Link::Outbound {
                seq![
                    (
                        addr,
                        NetworkMessageV::Version(
                            spec_version_msg(s.config, s.local_time, addr, local_addr, s.tree_height),
                        ),
                    ),
                ]
            } else {
                Seq::empty()
            },
        ),
        EventV::Received(addr, m) => spec_receive(s, addr, m),
        EventV::Sent(_, _) => (s, Seq::empty()),
        EventV::Error(addr, _) => (spec_disconnect(s, addr), Seq::empty()),
    }
}

/// One step of the engine: the event is absorbed, the global state is
/// re-evaluated, and each outbound message is framed with the configured
/// network's magic.
pub open spec fn step_m(s: RpcV, e: EventV) -> (RpcV, Seq<(PeerId, RawNetworkMessageV)>) {
    let staged = stage_m(s, e);
    (
        spec_reeval(staged.0),
        staged.1.map_values(
            |t: (PeerId, NetworkMessageV)|
                (t.0, RawNetworkMessageV { magic: s.config.network.spec_magic(), payload: t.1 }),
        ),
    )
}

/// The view of an outbound batch.
pub open spec fn out_view(out: Seq<(PeerId, RawNetworkMessage)>) -> Seq<(PeerId, RawNetworkMessageV)> {
    out.map_values(|t: (PeerId, RawNetworkMessage)| (t.0, t.1@))
}

/// The view of an unframed outbound batch.
pub open spec fn msgs_view(out: Seq<(PeerId, NetworkMessage)>) -> Seq<(PeerId, NetworkMessageV)> {
    out.map_values(|t: (PeerId, NetworkMessage)| (t.0, t.1@))
}

/// The protocol engine.
#[derive(Clone, Debug)]
pub struct Rpc {
    /// Peers, keyed by remote address.
    pub peers: Vec<(PeerId, Peer)>,
    /// Peer configuration.
    pub config: Config,
    /// Protocol state machine.
    pub state: State,
    /// Block tree.
    pub tree: Tree,
    /// Network-adjusted clock.
    pub clock: AdjustedClock,
    /// Set of connected peers that have completed the handshake.
    pub connected: Vec<PeerId>,
    /// Set of disconnected peers.
    pub disconnected: Vec<PeerId>,
    /// The local wall clock, in unix seconds, as last told to the engine.
    pub local_time: i64,
    /// The state of the injectable random source.
    pub rng_state: u64,
}

impl View for Rpc {
    type V = RpcV;

    open spec fn view(&self) -> RpcV {
        RpcV {
            peers: self.peers@,
            config: self.config@,
            state: self.state,
            tree_height: self.tree.height,
            tree_tip: self.tree.tip@,
            clock: self.clock.samples@,
            connected: self.connected@,
            disconnected: self.disconnected@,
            local_time: self.local_time,
            rng_state: self.rng_state,
        }
    }
}

impl Rpc {
    /// A fresh engine around a block tree, an empty clock and a
    /// configuration. Time and randomness are injected through
    /// `set_local_time` and `seed_rng`.
    pub fn new(tree: Tree, clock: AdjustedClock, config: Config) -> (r: Rpc)
        requires
            tree.wf(),
            clock.samples@.len() == 0,
            config@.wf(),
        ensures
            r@.peers.len() == 0,
            r@.connected.len() == 0,
            r@.disconnected.len() == 0,
            r@.clock.len() == 0,
            r@.state == State::Connecting,
            r@.config == config@,
            r@.tree_height == tree.height,
            r@.tree_tip == tree.tip@,
            r@.local_time == 0i64,
            r@.rng_state == 0u64,
            r@.wf(),
    {
        Rpc {
            peers: Vec::new(),
            config,
            state: State::Connecting,
            tree,
            clock,
            connected: Vec::new(),
            disconnected: Vec::new(),
            local_time: 0,
            rng_state: 0,
        }
    }

    /// Tells the engine the local wall clock, in unix seconds.
    pub fn set_local_time(&mut self, t: i64)
        ensures
            final(self)@ == (RpcV { local_time: t, ..old(self)@ }),
    {
        self.local_time = t;
    }

    /// Seeds the injectable random source.
    pub fn seed_rng(&mut self, seed: u64)
        ensures
            final(self)@ == (RpcV { rng_state: seed, ..old(self)@ }),
    {
        self.rng_state = seed;
    }

    /// Start initial block header sync with the designated peer.
    pub fn initial_sync(&mut self, peer: PeerId)
        ensures
            final(self)@ == (RpcV { state: State::InitialSync(peer), ..old(self)@ }),
    {
        self.state = State::InitialSync(peer);
    }

    /// Moves the engine into `state`.
    pub fn transition(&mut self, _addr: PeerId, state: State)
        ensures
            final(self)@ == (RpcV { state, ..old(self)@ }),
    {
        self.state = state;
    }

    /// Check whether or not we are in sync with the network: the tree's
    /// height against the least best-known height over all known peers.
    /// Fails exactly when no peer is known.
    pub fn is_synced(&self) -> (r: Result<bool, Error>)
        ensures
            match r {
                Ok(b) => self@.peers.len() > 0 && b == spec_synced(self@),
                Err(e) => e == Error::NotConnected && self@.peers.len() == 0,
            },
    {
        if self.peers.len() == 0 {
            return Err(Error::NotConnected);
        }
        let mut m: u32 = self.peers[0].1.height;
        let mut i: usize = 1;
        while i < self.peers.len()
            invariant
                1 <= i <= self.peers@.len(),
                exists|j: int| 0 <= j < i && (#[trigger] self.peers@[j]).1.height == m,
                forall|j: int| 0 <= j < i ==> m <= (#[trigger] self.peers@[j]).1.height,
            decreases self.peers@.len() - i,
        {
            let h = self.peers[i].1.height;
            if h < m {
                m = h;
            }
            i = i + 1;
        }
        proof {
            assert(is_min_height(self@.peers, m as int));
            lemma_min_height_unique(self@.peers, m as int, min_height(self@.peers));
        }
        let height = self.tree.tree_height();
        Ok(height >= m || m - height <= SYNC_THRESHOLD)
    }

    /// The version message for a peer: configured fields, the engine's
    /// clock, and the given start height.
    fn version(&self, addr: PeerId, local_addr: PeerId, start_height: u32) -> (r: NetworkMessage)
        requires
            start_height <= MAX_HEIGHT,
        ensures
            r@ == NetworkMessageV::Version(
                spec_version_msg(self.config@, self.local_time, addr, local_addr, start_height),
            ),
    {
        let mut user_agent: Vec<u8> = Vec::new();
        crate::codec::push_bytes(&mut user_agent, &self.config.user_agent);
        proof {
            assert(user_agent@ =~= self.config.user_agent@);
        }
        NetworkMessage::Version(
            VersionMessage {
                version: self.config.protocol_version,
                services: self.config.services,
                timestamp: self.local_time,
                receiver: NetAddr { services: RECEIVER_SERVICES, addr },
                sender: NetAddr { services: 0, addr: local_addr },
                nonce: 0,
                user_agent,
                start_height: start_height as i32,
                relay: self.config.relay,
            },
        )
    }

    /// Registers a fresh record for the peer, clearing any earlier trace of
    /// it (set membership and clock sample): a re-connection starts the
    /// handshake over. Returns whether the peer was new.
    fn connect(&mut self, addr: PeerId, local_addr: PeerId, link: Link) -> (r: bool)
        requires
            old(self)@.wf(),
        ensures
            final(self)@ == spec_connect(old(self)@, addr, local_addr, link),
            r == !has_key(old(self)@.peers, addr),
    {
        set_remove(&mut self.connected, addr);
        set_remove(&mut self.disconnected, addr);
        self.clock.remove_sample(addr);
        let fresh = Peer::new(
            addr,
            local_addr,
            PeerState::Handshake(Handshake::AwaitingVersion),
            link,
        );
        match find_index(&self.peers, addr) {
            Some(i) => {
                proof {
                    lemma_update_is_upsert(self.peers@, i as int, fresh);
                }
                self.peers[i] = (addr, fresh);
                false
            },
            None => {
                proof {
                    lemma_push_is_upsert(self.peers@, addr, fresh);
                }
                self.peers.push((addr, fresh));
                true
            },
        }
    }

    /// Moves the peer to `disconnected` and out of `connected`, retaining
    /// its record.
    fn disconnect(&mut self, addr: PeerId)
        requires
            distinct(old(self)@.connected),
            distinct(old(self)@.disconnected),
        ensures
            final(self)@ == spec_disconnect(old(self)@, addr),
    {
        set_remove(&mut self.connected, addr);
        set_insert(&mut self.disconnected, addr);
    }

    /// Re-evaluates the global state after an event.
    fn reeval(&mut self)
        requires
            distinct(old(self)@.connected),
        ensures
            final(self)@ == spec_reeval(old(self)@),
    {
        if self.connected.len() >= PEER_CONNECTION_THRESHOLD {
            match self.is_synced() {
                Ok(true) => {
                    self.state = State::Synced;
                },
                Ok(false) => {
                    let roll = rng_next(self.rng_state);
                    self.rng_state = roll.0;
                    let idx = (roll.1 % (self.connected.len() as u64)) as usize;
                    let peer = self.connected[idx];
                    self.initial_sync(peer);
                },
                Err(_) => {
                    self.state = State::Connecting;
                },
            }
        } else if self.peers.len() == 0 {
            self.state = State::Connecting;
        }
    }

    /// Imports a batch of headers announced by `addr`: an empty batch means
    /// the peer has finished synchronizing; otherwise the tree imports it,
    /// and on success the peer's best height becomes the new tree height,
    /// which is returned with the new tip. A validation error leaves the
    /// tree and the peer untouched.
    pub fn receive_headers(&mut self, addr: PeerId, headers: &Vec<BlockHeader>) -> (r: Result<
        Option<(Vec<u8>, u32)>,
        Error,
    >)
        requires
            unique_keys(old(self)@.peers),
            has_key(old(self)@.peers, addr),
            old(self)@.tree_height <= MAX_HEIGHT,
            headers_wf(headers@.map_values(|h: BlockHeader| h@)),
        ensures
            ({
                let hs = headers@.map_values(|h: BlockHeader| h@);
                let s = old(self)@;
                if hs.len() == 0 {
                    r == Result::<Option<(Vec<u8>, u32)>, Error>::Ok(None::<(Vec<u8>, u32)>)
                        && final(self)@ == s
                } else if spec_linked(hs, s.tree_tip) && s.tree_height + hs.len() <= MAX_HEIGHT {
                    let nh = (s.tree_height + hs.len()) as u32;
                    &&& r matches Ok(Some((tip, height))) && tip@ == spec_block_hash(
                        hs[hs.len() - 1],
                    ) && height == nh
                    &&& final(self)@ == (RpcV {
                        peers: upsert(
                            s.peers,
                            addr,
                            Peer { height: nh, ..value_of(s.peers, addr) },
                        ),
                        tree_height: nh,
                        tree_tip: spec_block_hash(hs[hs.len() - 1]),
                        ..s
                    })
                } else {
                    r == Result::<Option<(Vec<u8>, u32)>, Error>::Err(Error::TreeValidation)
                        && final(self)@ == s
                }
            }),
    {
        if headers.len() == 0 {
            return Ok(None);
        }
        match self.tree.import_blocks(headers) {
            Ok((tip, height)) => {
                match find_index(&self.peers, addr) {
                    Some(i) => {
                        let entry = self.peers[i];
                        let mut p = entry.1;
                        p.height = height;
                        proof {
                            lemma_update_is_upsert(self.peers@, i as int, p);
                        }
                        self.peers[i] = (addr, p);
                        Ok(Some((tip, height)))
                    },
                    None => {
                        proof {
                            assert(false);
                        }
                        Err(Error::TreeValidation)
                    },
                }
            },
            Err(e) => Err(e),
        }
    }

    /// Consumes a received frame from `addr`: gated first by magic equality
    /// (a mismatch records the peer as failed and emits nothing), then, for
    /// peers that have not failed, dispatched by the peer's sub-state as
    /// `spec_receive` says. Messages that do not match the current
    /// sub-state only refresh `last_active`.
    #[verifier::rlimit(40)]
    pub fn receive(&mut self, addr: PeerId, msg: RawNetworkMessage) -> (out: Vec<
        (PeerId, NetworkMessage),
    >)
        requires
            old(self)@.wf(),
            has_key(old(self)@.peers, addr),
            msg@.wf(),
        ensures
            final(self)@ == spec_receive(old(self)@, addr, msg@).0,
            msgs_view(out@) == spec_receive(old(self)@, addr, msg@).1,
    {
        let ghost s = old(self)@;
        let ghost msgv = msg@;
        let mut out: Vec<(PeerId, NetworkMessage)> = Vec::new();
        if msg.magic != self.config.network.magic() {
            self.disconnect(addr);
            proof {
                assert(msgs_view(out@) =~= spec_receive(s, addr, msgv).1);
            }
            return out;
        }
        if set_contains(&self.disconnected, addr) {
            proof {
                assert(msgs_view(out@) =~= spec_receive(s, addr, msgv).1);
            }
            return out;
        }
        let i = match find_index(&self.peers, addr) {
            Some(i) => i,
            None => {
                proof {
                    assert(false);
                }
                return out;
            },
        };
        let entry = self.peers[i];
        let p = entry.1;
        proof {
            assert(p == value_of(s.peers, addr));
        }
        let mut p1 = p;
        p1.last_active = Some(self.local_time);
        match p.state {
            PeerState::Handshake(Handshake::AwaitingVersion) => {
                match msg.payload {
                    NetworkMessage::Version(v) => {
                        p1.receive_version(&v, self.local_time);
                        proof {
                            lemma_update_is_upsert(self.peers@, i as int, p1);
                        }
                        self.peers[i] = (addr, p1);
                        if p.link == Link::Inbound {
                            let h = self.tree.tree_height();
                            let vm = self.version(addr, p.local_address, h);
                            out.push((addr, vm));
                            out.push((addr, NetworkMessage::Verack));
                            proof {
                                assert(msgs_view(out@) =~= spec_receive(s, addr, msgv).1);
                            }
                        } else {
                            proof {
                                assert(msgs_view(out@) =~= spec_receive(s, addr, msgv).1);
                            }
                        }
                    },
                    _ => {
                        proof {
                            lemma_update_is_upsert(self.peers@, i as int, p1);
                        }
                        self.peers[i] = (addr, p1);
                        proof {
                            assert(msgs_view(out@) =~= spec_receive(s, addr, msgv).1);
                        }
                    },
                }
            },
            PeerState::Handshake(Handshake::AwaitingVerack) => {
                match msg.payload {
                    NetworkMessage::Verack => {
                        p1.receive_verack();
                        proof {
                            lemma_update_is_upsert(self.peers@, i as int, p1);
                        }
                        self.peers[i] = (addr, p1);
                        set_insert(&mut self.connected, addr);
                        self.clock.add_sample(addr, p1.time_offset);
                        if p.link == Link::Outbound {
                            out.push((addr, NetworkMessage::Verack));
                            proof {
                                assert(msgs_view(out@) =~= spec_receive(s, addr, msgv).1);
                            }
                        } else {
                            proof {
                                assert(msgs_view(out@) =~= spec_receive(s, addr, msgv).1);
                            }
                        }
                    },
                    _ => {
                        proof {
                            lemma_update_is_upsert(self.peers@, i as int, p1);
                        }
                        self.peers[i] = (addr, p1);
                        proof {
                            assert(msgs_view(out@) =~= spec_receive(s, addr, msgv).1);
                        }
                    },
                }
            },
            PeerState::Handshake(Handshake::Done) => {
                p1.transition(PeerState::Synchronize(Synchronize::RequestedHeaders));
                proof {
                    lemma_update_is_upsert(self.peers@, i as int, p1);
                }
                self.peers[i] = (addr, p1);
                proof {
                    assert(msgs_view(out@) =~= spec_receive(s, addr, msgv).1);
                }
            },
            PeerState::Synchronize(sub) => {
                let mut plain = true;
                if sub != Synchronize::Done {
                    match msg.payload {
                        NetworkMessage::Headers(hs) => {
                            plain = false;
                            proof {
                                lemma_update_is_upsert(self.peers@, i as int, p1);
                                lemma_upsert(s.peers, addr, p1);
                            }
                            self.peers[i] = (addr, p1);
                            let ghost mid = self@;
                            proof {
                                assert(msgv.payload == NetworkMessageV::Headers(
                                    hs@.map_values(|h: BlockHeader| h@),
                                ));
                            }
                            let r = self.receive_headers(addr, &hs);
                            match r {
                                Ok(sync_result) => {
                                    let ghost hsv = hs@.map_values(|h: BlockHeader| h@);
                                    let ghost nh = (s.tree_height + hsv.len()) as u32;
                                    let ghost r2 = Peer { height: nh, ..p1 };
                                    proof {
                                        assert(value_of(mid.peers, addr) == p1);
                                        if hsv.len() > 0 {
                                            assert(self.peers@ == upsert(mid.peers, addr, r2));
                                            crate::table::lemma_upsert(mid.peers, addr, r2);
                                        }
                                        assert(mid.peers[i as int] == (addr, p1));
                                        assert(self.peers@.len() == mid.peers.len());
                                        assert(unique_keys(self.peers@));
                                        if hsv.len() > 0 {
                                            assert(has_key(mid.peers, addr));
                                            let j = key_index(mid.peers, addr);
                                            assert(0 <= j < mid.peers.len() && mid.peers[j].0
                                                == addr);
                                            if j != i as int {
                                                assert(false);
                                            }
                                            assert(self.peers@ == mid.peers.update(
                                                i as int,
                                                (addr, r2),
                                            ));
                                        }
                                        assert(self.peers@[i as int].0 == addr);
                                    }
                                    let e2 = self.peers[i];
                                    let mut p2 = e2.1;
                                    match sync_result {
                                        None => {
                                            p2.state = PeerState::Synchronize(Synchronize::Done);
                                        },
                                        Some(_) => {
                                            p2.state = PeerState::Synchronize(
                                                Synchronize::HeadersReceived,
                                            );
                                        },
                                    }
                                    let ghost before_third = self.peers@;
                                    proof {
                                        lemma_update_is_upsert(self.peers@, i as int, p2);
                                    }
                                    self.peers[i] = (addr, p2);
                                    proof {
                                        if hsv.len() == 0 {
                                            assert(before_third == upsert(s.peers, addr, p1));
                                            assert(e2.1 == p1);
                                            assert(p2 == (Peer {
                                                state: PeerState::Synchronize(Synchronize::Done),
                                                ..p1
                                            }));
                                            crate::table::lemma_upsert_upsert(
                                                s.peers,
                                                addr,
                                                p1,
                                                p2,
                                            );
                                            assert(self.peers@ == upsert(s.peers, addr, p2));
                                            assert(self@ == spec_receive(s, addr, msgv).0);
                                        } else {
                                            assert(e2 == (addr, r2));
                                            assert(p2 == (Peer {
                                                height: nh,
                                                state: PeerState::Synchronize(
                                                    Synchronize::HeadersReceived,
                                                ),
                                                ..p1
                                            }));
                                            assert(self.peers@ == upsert(
                                                upsert(mid.peers, addr, r2),
                                                addr,
                                                p2,
                                            ));
                                            crate::table::lemma_upsert_upsert(
                                                mid.peers,
                                                addr,
                                                r2,
                                                p2,
                                            );
                                            crate::table::lemma_upsert_upsert(
                                                s.peers,
                                                addr,
                                                p1,
                                                p2,
                                            );
                                            assert(self.peers@ == upsert(s.peers, addr, p2));
                                            assert(self@ == spec_receive(s, addr, msgv).0);
                                        }
                                        assert(msgs_view(out@) =~= spec_receive(s, addr, msgv).1);
                                    }
                                },
                                Err(_) => {
                                    self.disconnect(addr);
                                    proof {
                                        assert(self@ == spec_receive(s, addr, msgv).0);
                                        assert(msgs_view(out@) =~= spec_receive(s, addr, msgv).1);
                                    }
                                },
                            }
                        },
                        _ => {},
                    }
                }
                if plain {
                    proof {
                        lemma_update_is_upsert(self.peers@, i as int, p1);
                    }
                    self.peers[i] = (addr, p1);
                    proof {
                        assert(msgs_view(out@) =~= spec_receive(s, addr, msgv).1);
                    }
                }
            },
        }
        out
    }
}

/// Re-evaluating the global state touches only `state` and the random
/// source, so the invariant carries over.
pub proof fn lemma_reeval_wf(s: RpcV)
    requires
        s.wf(),
    ensures
        spec_reeval(s).wf(),
{
    let t = spec_reeval(s);
    assert(t.peers == s.peers && t.clock == s.clock && t.connected == s.connected
        && t.disconnected == s.disconnected && t.config == s.config && t.tree_height
        == s.tree_height);
}

/// Moving a peer to `disconnected` keeps the invariant.
pub proof fn lemma_disconnect_wf(s: RpcV, addr: PeerId)
    requires
        s.wf(),
    ensures
        spec_disconnect(s, addr).wf(),
{
    lemma_seq_remove(s.connected, addr);
    lemma_seq_insert(s.disconnected, addr);
    let t = spec_disconnect(s, addr);
    assert forall|p: PeerId| #[trigger] t.connected.contains(p) implies has_key(t.peers, p)
        && post_handshake(value_of(t.peers, p).state) by {
        assert(s.connected.contains(p));
    }
    assert forall|p: PeerId| #[trigger] t.disconnected.contains(p) implies !t.connected.contains(
        p,
    ) by {
        if p != addr {
            assert(s.disconnected.contains(p));
        }
    }
    assert forall|p: PeerId|
        #[trigger] has_key(t.peers, p) && post_handshake(value_of(t.peers, p).state)
            && !t.disconnected.contains(p) implies t.connected.contains(p) by {
        assert(p != addr);
        assert(!s.disconnected.contains(p));
        assert(s.connected.contains(p));
    }
}

/// Registering a fresh record keeps the invariant: the peer starts before
/// its handshake, in neither set, with no clock sample.
pub proof fn lemma_connect_wf(s: RpcV, addr: PeerId, local_addr: PeerId, link: Link)
    requires
        s.wf(),
    ensures
        spec_connect(s, addr, local_addr, link).wf(),
{
    let q = spec_new_peer(addr, local_addr, link);
    lemma_upsert(s.peers, addr, q);
    lemma_seq_remove(s.connected, addr);
    lemma_seq_remove(s.disconnected, addr);
    crate::clock::lemma_sample_remove(s.clock, addr);
    let t = spec_connect(s, addr, local_addr, link);
    assert(!post_handshake(q.state));
    assert forall|p: PeerId| #[trigger] t.connected.contains(p) implies has_key(t.peers, p)
        && post_handshake(value_of(t.peers, p).state) by {
        assert(s.connected.contains(p) && p != addr);
        assert(value_of(t.peers, p) == value_of(s.peers, p));
    }
    assert forall|p: PeerId| #[trigger] t.disconnected.contains(p) implies !t.connected.contains(
        p,
    ) by {
        assert(s.disconnected.contains(p) && p != addr);
    }
    assert forall|p: PeerId|
        #[trigger] has_key(t.peers, p) && post_handshake(value_of(t.peers, p).state)
            && !t.disconnected.contains(p) implies t.connected.contains(p) by {
        assert(p != addr);
        assert(has_key(s.peers, p));
        assert(value_of(t.peers, p) == value_of(s.peers, p));
        assert(!s.disconnected.contains(p));
        assert(s.connected.contains(p));
    }
    assert forall|p: PeerId| #[trigger] has_key(t.peers, p) implies (post_handshake(
        value_of(t.peers, p).state,
    ) <==> has_key(t.clock, p)) by {
        if p == addr {
            assert(!has_key(t.clock, addr));
        } else {
            assert(has_key(s.peers, p));
            assert(value_of(t.peers, p) == value_of(s.peers, p));
        }
    }
    assert forall|p: PeerId|
        #[trigger] has_key(t.peers, p) && post_handshake(value_of(t.peers, p).state) implies
        value_of(t.clock, p) == value_of(t.peers, p).time_offset by {
        assert(p != addr);
        assert(has_key(s.peers, p));
        assert(value_of(t.peers, p) == value_of(s.peers, p));
        assert(has_key(s.clock, p));
        assert(value_of(t.clock, p) == value_of(s.clock, p));
    }
    assert forall|p: PeerId| #[trigger] has_key(t.clock, p) implies has_key(t.peers, p) by {
        assert(p != addr);
        assert(has_key(s.clock, p));
    }
}

/// Replacing a known peer's record keeps the invariant, provided the new
/// record sits on the same side of the handshake and — once past it — keeps
/// its time offset.
pub proof fn lemma_upsert_wf(s: RpcV, addr: PeerId, q: Peer, t: RpcV)
    requires
        s.wf(),
        has_key(s.peers, addr),
        post_handshake(q.state) == post_handshake(value_of(s.peers, addr).state),
        post_handshake(q.state) ==> q.time_offset == value_of(s.peers, addr).time_offset,
        t.peers == upsert(s.peers, addr, q),
        t.clock == s.clock,
        t.connected == s.connected,
        t.disconnected == s.disconnected,
        t.config == s.config,
        t.tree_height <= MAX_HEIGHT,
    ensures
        t.wf(),
{
    lemma_upsert(s.peers, addr, q);
    assert forall|p: PeerId| #[trigger] t.connected.contains(p) implies has_key(t.peers, p)
        && post_handshake(value_of(t.peers, p).state) by {
        assert(s.connected.contains(p));
        if p != addr {
            assert(value_of(t.peers, p) == value_of(s.peers, p));
        }
    }
    assert forall|p: PeerId|
        #[trigger] has_key(t.peers, p) && post_handshake(value_of(t.peers, p).state)
            && !t.disconnected.contains(p) implies t.connected.contains(p) by {
        if p == addr {
            assert(s.connected.contains(p) == t.connected.contains(p));
            assert(has_key(s.peers, p));
        } else {
            assert(has_key(s.peers, p));
            assert(value_of(t.peers, p) == value_of(s.peers, p));
        }
    }
    assert forall|p: PeerId| #[trigger] has_key(t.peers, p) implies (post_handshake(
        value_of(t.peers, p).state,
    ) <==> has_key(t.clock, p)) by {
        if p == addr {
            assert(has_key(s.peers, addr));
        } else {
            assert(has_key(s.peers, p));
            assert(value_of(t.peers, p) == value_of(s.peers, p));
        }
    }
    assert forall|p: PeerId|
        #[trigger] has_key(t.peers, p) && post_handshake(value_of(t.peers, p).state) implies
        value_of(t.clock, p) == value_of(t.peers, p).time_offset by {
        if p == addr {
            assert(value_of(s.clock, p) == value_of(s.peers, p).time_offset);
        } else {
            assert(has_key(s.peers, p));
            assert(value_of(t.peers, p) == value_of(s.peers, p));
        }
    }
    assert forall|p: PeerId| #[trigger] has_key(t.clock, p) implies has_key(t.peers, p) by {
        assert(has_key(s.clock, p));
        assert(has_key(s.peers, p));
    }
}

/// Completing a handshake keeps the invariant: the peer becomes connected
/// and contributes its one time-offset sample.
pub proof fn lemma_verack_wf(s: RpcV, addr: PeerId, q: Peer, t: RpcV)
    requires
        s.wf(),
        has_key(s.peers, addr),
        !s.disconnected.contains(addr),
        !post_handshake(value_of(s.peers, addr).state),
        q.state == PeerState::Handshake(Handshake::Done),
        t.peers == upsert(s.peers, addr, q),
        t.clock == sample_upsert(s.clock, addr, q.time_offset),
        t.connected == seq_insert(s.connected, addr),
        t.disconnected == s.disconnected,
        t.config == s.config,
        t.tree_height == s.tree_height,
    ensures
        t.wf(),
{
    lemma_upsert(s.peers, addr, q);
    lemma_seq_insert(s.connected, addr);
    crate::clock::lemma_sample_upsert(s.clock, addr, q.time_offset);
    assert(post_handshake(q.state));
    assert(!has_key(s.clock, addr));
    assert forall|p: PeerId| #[trigger] t.connected.contains(p) implies has_key(t.peers, p)
        && post_handshake(value_of(t.peers, p).state) by {
        if p != addr {
            assert(s.connected.contains(p));
            assert(value_of(t.peers, p) == value_of(s.peers, p));
        }
    }
    assert forall|p: PeerId| #[trigger] t.disconnected.contains(p) implies !t.connected.contains(
        p,
    ) by {
        assert(s.disconnected.contains(p));
        assert(p != addr);
        assert(!s.connected.contains(p));
    }
    assert forall|p: PeerId|
        #[trigger] has_key(t.peers, p) && post_handshake(value_of(t.peers, p).state)
            && !t.disconnected.contains(p) implies t.connected.contains(p) by {
        if p != addr {
            assert(has_key(s.peers, p));
            assert(value_of(t.peers, p) == value_of(s.peers, p));
            assert(s.connected.contains(p));
        }
    }
    assert forall|p: PeerId| #[trigger] has_key(t.peers, p) implies (post_handshake(
        value_of(t.peers, p).state,
    ) <==> has_key(t.clock, p)) by {
        if p != addr {
            assert(has_key(s.peers, p));
            assert(value_of(t.peers, p) == value_of(s.peers, p));
        }
    }
    assert forall|p: PeerId|
        #[trigger] has_key(t.peers, p) && post_handshake(value_of(t.peers, p).state) implies
        value_of(t.clock, p) == value_of(t.peers, p).time_offset by {
        if p != addr {
            assert(has_key(s.peers, p));
            assert(value_of(t.peers, p) == value_of(s.peers, p));
            assert(value_of(t.clock, p) == value_of(s.clock, p));
        }
    }
    assert forall|p: PeerId| #[trigger] has_key(t.clock, p) implies has_key(t.peers, p) by {
        if p != addr {
            assert(has_key(s.clock, p));
            assert(has_key(s.peers, p));
        }
    }
}

/// Consuming a received frame keeps the invariant.
pub proof fn lemma_receive_wf(s: RpcV, addr: PeerId, msg: RawNetworkMessageV)
    requires
        s.wf(),
        has_key(s.peers, addr),
        msg.wf(),
    ensures
        spec_receive(s, addr, msg).0.wf(),
{
    let t = spec_receive(s, addr, msg).0;
    if msg.magic != s.config.network.spec_magic() {
        lemma_disconnect_wf(s, addr);
    } else if s.disconnected.contains(addr) {
    } else {
        let p = value_of(s.peers, addr);
        let p1 = Peer { last_active: Some(s.local_time), ..p };
        match p.state {
            PeerState::Handshake(Handshake::AwaitingVersion) => {
                match msg.payload {
                    NetworkMessageV::Version(v) => {
                        let q = spec_peer_version_update(p1, v, s.local_time);
                        lemma_upsert_wf(s, addr, q, RpcV { peers: upsert(s.peers, addr, q), ..s });
                    },
                    _ => {
                        lemma_upsert_wf(
                            s,
                            addr,
                            p1,
                            RpcV { peers: upsert(s.peers, addr, p1), ..s },
                        );
                    },
                }
            },
            PeerState::Handshake(Handshake::AwaitingVerack) => {
                match msg.payload {
                    NetworkMessageV::Verack => {
                        let q = Peer { state: PeerState::Handshake(Handshake::Done), ..p1 };
                        lemma_verack_wf(
                            s,
                            addr,
                            q,
                            RpcV {
                                peers: upsert(s.peers, addr, q),
                                connected: seq_insert(s.connected, addr),
                                clock: sample_upsert(s.clock, addr, q.time_offset),
                                ..s
                            },
                        );
                    },
                    _ => {
                        lemma_upsert_wf(
                            s,
                            addr,
                            p1,
                            RpcV { peers: upsert(s.peers, addr, p1), ..s },
                        );
                    },
                }
            },
            PeerState::Handshake(Handshake::Done) => {
                let q = Peer { state: PeerState::Synchronize(Synchronize::RequestedHeaders), ..p1 };
                lemma_upsert_wf(s, addr, q, RpcV { peers: upsert(s.peers, addr, q), ..s });
            },
            PeerState::Synchronize(sub) => {
                if sub != Synchronize::Done {
                    match msg.payload {
                        NetworkMessageV::Headers(hs) => {
                            if hs.len() == 0 {
                                let q = Peer {
                                    state: PeerState::Synchronize(Synchronize::Done),
                                    ..p1
                                };
                                lemma_upsert_wf(
                                    s,
                                    addr,
                                    q,
                                    RpcV { peers: upsert(s.peers, addr, q), ..s },
                                );
                            } else if spec_linked(hs, s.tree_tip) && s.tree_height + hs.len()
                                <= MAX_HEIGHT {
                                let nh = (s.tree_height + hs.len()) as u32;
                                let q = Peer {
                                    height: nh,
                                    state: PeerState::Synchronize(Synchronize::HeadersReceived),
                                    ..p1
                                };
                                lemma_upsert_wf(
                                    s,
                                    addr,
                                    q,
                                    RpcV {
                                        peers: upsert(s.peers, addr, q),
                                        tree_height: nh,
                                        tree_tip: spec_block_hash(hs[hs.len() - 1]),
                                        ..s
                                    },
                                );
                            } else {
                                let mid = RpcV { peers: upsert(s.peers, addr, p1), ..s };
                                lemma_upsert_wf(s, addr, p1, mid);
                                lemma_disconnect_wf(mid, addr);
                            }
                        },
                        _ => {
                            lemma_upsert_wf(
                                s,
                                addr,
                                p1,
                                RpcV { peers: upsert(s.peers, addr, p1), ..s },
                            );
                        },
                    }
                } else {
                    lemma_upsert_wf(s, addr, p1, RpcV { peers: upsert(s.peers, addr, p1), ..s });
                }
            },
        }
    }
}

/// Absorbing any admissible event keeps the invariant.
pub proof fn lemma_stage_wf(s: RpcV, e: EventV)
    requires
        s.wf(),
        event_ok(s, e),
    ensures
        stage_m(s, e).0.wf(),
{
    match e {
        EventV::Connected(addr, local_addr, link) => {
            lemma_connect_wf(s, addr, local_addr, link);
        },
        EventV::Received(addr, m) => {
            lemma_receive_wf(s, addr, m);
        },
        EventV::Sent(_, _) => {},
        EventV::Error(addr, _) => {
            lemma_disconnect_wf(s, addr);
        },
    }
}

/// One step from any well-formed state leaves a well-formed state: the
/// peer-table, set and clock invariants hold after any finite sequence of
/// admissible events.
pub proof fn lemma_step_preserves_wf(s: RpcV, e: EventV)
    requires
        s.wf(),
        event_ok(s, e),
    ensures
        step_m(s, e).0.wf(),
{
    lemma_stage_wf(s, e);
    lemma_reeval_wf(stage_m(s, e).0);
}

/// A peer in the table that has not failed is in `connected` exactly when
/// its state is post-handshake. (A failed peer keeps its record, so its
/// state may remain post-handshake while it sits in `disconnected`.)
pub proof fn lemma_connected_iff_post_handshake(s: RpcV, p: PeerId)
    requires
        s.wf(),
        s.has_peer(p),
        !s.disconnected.contains(p),
    ensures
        s.connected.contains(p) <==> post_handshake(s.peer_of(p).state),
{
}

/// A known peer past its handshake contributes exactly one time-offset
/// sample, whose value equals the offset recorded when the handshake
/// completed; a peer before its handshake contributes none.
pub proof fn lemma_one_sample_per_peer(s: RpcV, p: PeerId)
    requires
        s.wf(),
        s.has_peer(p),
    ensures
        unique_keys(s.clock),
        post_handshake(s.peer_of(p).state) <==> has_key(s.clock, p),
        post_handshake(s.peer_of(p).state) ==> value_of(s.clock, p) == s.peer_of(p).time_offset,
{
}

/// No peer is ever both connected and disconnected.
pub proof fn lemma_connected_disconnected_disjoint(s: RpcV, p: PeerId)
    requires
        s.wf(),
    ensures
        !(s.connected.contains(p) && s.disconnected.contains(p)),
{
}

/// Identical states and identical events step identically: the engine is
/// deterministic. Randomness enters only through the recorded generator
/// state, which is itself part of the state.
pub proof fn lemma_step_deterministic(s1: RpcV, s2: RpcV, e1: EventV, e2: EventV)
    requires
        s1 == s2,
        e1 == e2,
    ensures
        step_m(s1, e1) == step_m(s2, e2),
{
}

/// With a single known peer quoting `h + SYNC_THRESHOLD` while the tree is
/// at `h`, the engine reports synced; one block further, it does not.
pub proof fn lemma_sync_threshold_boundary(s: RpcV, h: u32)
    requires
        s.peers.len() == 1,
        s.tree_height == h,
    ensures
        s.peers[0].1.height == h + SYNC_THRESHOLD ==> spec_synced(s),
        s.peers[0].1.height == h + SYNC_THRESHOLD + 1 ==> !spec_synced(s),
{
    let m = s.peers[0].1.height as int;
    assert(is_min_height(s.peers, m));
    lemma_min_height_unique(s.peers, m, min_height(s.peers));
}

/// A received frame with a magic other than the configured network's never
/// mutates peer state beyond moving the peer to `disconnected`, and emits
/// nothing: the peer table, the clock and the tree are untouched.
pub proof fn lemma_magic_gate(s: RpcV, addr: PeerId, msg: RawNetworkMessageV)
    requires
        msg.magic != s.config.network.spec_magic(),
    ensures
        ({
            let r = step_m(s, EventV::Received(addr, msg));
            &&& r.1.len() == 0
            &&& r.0.peers == s.peers
            &&& r.0.clock == s.clock
            &&& r.0.tree_height == s.tree_height
            &&& r.0.tree_tip == s.tree_tip
            &&& r.0.connected == seq_remove(s.connected, addr)
            &&& r.0.disconnected == seq_insert(s.disconnected, addr)
        }),
{
}

/// Handshake symmetry: one outbound `Connected` at one fresh engine and one
/// inbound `Connected` at another, on the same network, drive both peer
/// records to `Handshake(Done)` with four messages exchanged in total —
/// the four relayed below are all either engine emits.
pub proof fn lemma_handshake_symmetry(a0: RpcV, b0: RpcV, alice: PeerId, bob: PeerId)
    requires
        a0.wf(),
        b0.wf(),
        a0.peers.len() == 0,
        a0.connected.len() == 0,
        a0.disconnected.len() == 0,
        a0.clock.len() == 0,
        b0.peers.len() == 0,
        b0.connected.len() == 0,
        b0.disconnected.len() == 0,
        b0.clock.len() == 0,
        a0.config.network == b0.config.network,
    ensures
        ({
            let (a1, out_a) = step_m(a0, EventV::Connected(bob, alice, Link::Outbound));
            let (b1, out_b) = step_m(b0, EventV::Connected(alice, bob, Link::Inbound));
            let (b2, out_b2) = step_m(b1, EventV::Received(alice, out_a[0].1));
            let (a2, out_a2) = step_m(a1, EventV::Received(bob, out_b2[0].1));
            let (a3, out_a3) = step_m(a2, EventV::Received(bob, out_b2[1].1));
            let (b3, out_b3) = step_m(b2, EventV::Received(alice, out_a3[0].1));
            &&& out_a.len() == 1 && out_b.len() == 0
            &&& out_b2.len() == 2 && out_a2.len() == 0
            &&& out_a3.len() == 1 && out_b3.len() == 0
            &&& has_key(a3.peers, bob) && value_of(a3.peers, bob).state == PeerState::Handshake(
                Handshake::Done,
            )
            &&& has_key(b3.peers, alice) && value_of(b3.peers, alice).state
                == PeerState::Handshake(Handshake::Done)
        }),
{
    let magic = a0.config.network.spec_magic();
    let pa = spec_new_peer(bob, alice, Link::Outbound);
    let pb = spec_new_peer(alice, bob, Link::Inbound);

    // Alice dials: her table gains Bob, and she sends her version.
    let (a1, out_a) = step_m(a0, EventV::Connected(bob, alice, Link::Outbound));
    lemma_push_is_upsert(a0.peers, bob, pa);
    lemma_assoc_push(a0.peers, bob, pa);
    assert(a1.peers == a0.peers.push((bob, pa)));
    assert(a1.peers.len() == 1 && a1.connected.len() == 0 && a1.disconnected.len() == 0
        && a1.clock.len() == 0);
    assert(value_of(a1.peers, bob) == pa);
    let vm_a = spec_version_msg(a0.config, a0.local_time, bob, alice, a0.tree_height);
    assert(out_a.len() == 1);
    assert(out_a[0] == (bob, RawNetworkMessageV { magic, payload: NetworkMessageV::Version(vm_a) }));

    // Bob accepts: his table gains Alice, and he stays silent.
    let (b1, out_b) = step_m(b0, EventV::Connected(alice, bob, Link::Inbound));
    lemma_push_is_upsert(b0.peers, alice, pb);
    lemma_assoc_push(b0.peers, alice, pb);
    assert(b1.peers.len() == 1 && b1.connected.len() == 0 && b1.disconnected.len() == 0
        && b1.clock.len() == 0);
    assert(value_of(b1.peers, alice) == pb);
    assert(out_b.len() == 0);

    // Bob receives Alice's version: he answers with his version and verack.
    let msg_a1 = out_a[0].1;
    assert(msg_a1.magic == b1.config.network.spec_magic());
    assert(!b1.disconnected.contains(alice));
    let (b2, out_b2) = step_m(b1, EventV::Received(alice, msg_a1));
    let pb1 = Peer { last_active: Some(b1.local_time), ..pb };
    let pb2 = spec_peer_version_update(pb1, vm_a, b1.local_time);
    lemma_upsert(b1.peers, alice, pb2);
    assert(b2.peers == upsert(b1.peers, alice, pb2));
    assert(value_of(b2.peers, alice) == pb2);
    assert(pb2.state == PeerState::Handshake(Handshake::AwaitingVerack));
    assert(b2.connected.len() == 0 && b2.disconnected.len() == 0);
    let vm_b = spec_version_msg(b1.config, b1.local_time, alice, bob, b1.tree_height);
    assert(out_b2.len() == 2);
    assert(out_b2[0] == (
        alice,
        RawNetworkMessageV { magic, payload: NetworkMessageV::Version(vm_b) },
    ));
    assert(out_b2[1] == (alice, RawNetworkMessageV { magic, payload: NetworkMessageV::Verack }));

    // Alice receives Bob's version: outbound, so she stays silent.
    let msg_b1 = out_b2[0].1;
    assert(msg_b1.magic == a1.config.network.spec_magic());
    assert(!a1.disconnected.contains(bob));
    let (a2, out_a2) = step_m(a1, EventV::Received(bob, msg_b1));
    let pa1 = Peer { last_active: Some(a1.local_time), ..pa };
    let pa2 = spec_peer_version_update(pa1, vm_b, a1.local_time);
    lemma_upsert(a1.peers, bob, pa2);
    assert(a2.peers == upsert(a1.peers, bob, pa2));
    assert(value_of(a2.peers, bob) == pa2);
    assert(pa2.state == PeerState::Handshake(Handshake::AwaitingVerack));
    assert(a2.connected.len() == 0 && a2.disconnected.len() == 0);
    assert(out_a2.len() == 0);

    // Alice receives Bob's verack: done on her side, and she acknowledges.
    let msg_b2 = out_b2[1].1;
    assert(msg_b2.magic == a2.config.network.spec_magic());
    assert(!a2.disconnected.contains(bob));
    let (a3, out_a3) = step_m(a2, EventV::Received(bob, msg_b2));
    let pa3 = Peer {
        state: PeerState::Handshake(Handshake::Done),
        ..Peer { last_active: Some(a2.local_time), ..pa2 }
    };
    lemma_upsert(a2.peers, bob, pa3);
    assert(a3.peers == upsert(a2.peers, bob, pa3));
    lemma_seq_insert(a2.connected, bob);
    assert(a3.connected.len() == 1);
    assert(value_of(a3.peers, bob) == pa3);
    assert(value_of(a3.peers, bob).state == PeerState::Handshake(Handshake::Done));
    assert(out_a3.len() == 1);
    assert(out_a3[0] == (bob, RawNetworkMessageV { magic, payload: NetworkMessageV::Verack }));

    // Bob receives Alice's verack: done on his side too.
    let msg_a2 = out_a3[0].1;
    assert(msg_a2.magic == b2.config.network.spec_magic());
    assert(!b2.disconnected.contains(alice));
    let (b3, out_b3) = step_m(b2, EventV::Received(alice, msg_a2));
    let pb3 = Peer {
        state: PeerState::Handshake(Handshake::Done),
        ..Peer { last_active: Some(b2.local_time), ..pb2 }
    };
    lemma_upsert(b2.peers, alice, pb3);
    assert(b3.peers == upsert(b2.peers, alice, pb3));
    lemma_seq_insert(b2.connected, alice);
    assert(b3.connected.len() == 1);
    assert(value_of(b3.peers, alice) == pb3);
    assert(value_of(b3.peers, alice).state == PeerState::Handshake(Handshake::Done));
    assert(out_b3.len() == 0);
}

impl Protocol for Rpc {
    /// The engine's invariant.
    open spec fn inv(&self) -> bool {
        self@.wf()
    }

    /// A received frame must name a known peer and carry a message the
    /// codec could have produced.
    open spec fn admits(&self, event: &Event) -> bool {
        event_ok(self@, event@)
    }

    /// One engine step, as `Rpc::step` says.
    fn step(&mut self, event: Event) -> (out: Vec<(PeerId, RawNetworkMessage)>) {
        Rpc::step(self, event)
    }
}

impl Rpc {
    /// Process the next event and advance the protocol state machine by one
    /// step: a pure function of the engine's state and the event, as
    /// `step_m` says, returning the outbound messages framed with the
    /// configured network's magic.
    #[verifier::rlimit(40)]
    pub fn step(&mut self, event: Event) -> (out: Vec<(PeerId, RawNetworkMessage)>)
        requires
            old(self)@.wf(),
            event_ok(old(self)@, event@),
        ensures
            final(self)@ == step_m(old(self)@, event@).0,
            out_view(out@) == step_m(old(self)@, event@).1,
            final(self)@.wf(),
    {
        let ghost s = old(self)@;
        let ghost ev = event@;
        let mut staged: Vec<(PeerId, NetworkMessage)> = Vec::new();
        match event {
            Event::Connected(addr, local_addr, link) => {
                self.connect(addr, local_addr, link);
                if link == Link::Outbound {
                    let h = self.tree.tree_height();
                    let vm = self.version(addr, local_addr, h);
                    staged.push((addr, vm));
                    proof {
                        assert(msgs_view(staged@) =~= stage_m(s, ev).1);
                    }
                } else {
                    proof {
                        assert(msgs_view(staged@) =~= stage_m(s, ev).1);
                    }
                }
            },
            Event::Received(addr, msg) => {
                staged = self.receive(addr, msg);
            },
            Event::Sent(_, _) => {
                proof {
                    assert(msgs_view(staged@) =~= stage_m(s, ev).1);
                }
            },
            Event::Error(addr, _e) => {
                self.disconnect(addr);
                proof {
                    assert(msgs_view(staged@) =~= stage_m(s, ev).1);
                }
            },
        }
        proof {
            lemma_stage_wf(s, ev);
            assert(self@ == stage_m(s, ev).0);
        }
        self.reeval();
        proof {
            lemma_reeval_wf(stage_m(s, ev).0);
        }
        let magic = self.config.network.magic();
        proof {
            assert(self@.config == s.config);
        }
        let ghost m0 = msgs_view(staged@);
        let mut out: Vec<(PeerId, RawNetworkMessage)> = Vec::new();
        while staged.len() > 0
            invariant
                out@.len() + staged@.len() == m0.len(),
                msgs_view(staged@) =~= m0.skip(out@.len() as int),
                magic == s.config.network.spec_magic(),
                forall|x: int|
                    0 <= x < out@.len() ==> #[trigger] out_view(out@)[x] == (
                        m0[x].0,
                        RawNetworkMessageV { magic: s.config.network.spec_magic(), payload: m0[x].1 },
                    ),
            decreases staged@.len(),
        {
            let ghost staged0 = staged@;
            let ghost consumed = out@.len() as int;
            let ghost out0 = out@;
            let next = staged.remove(0);
            let ghost n0 = next.0;
            let ghost nv = next.1@;
            proof {
                assert(next == staged0[0]);
                assert(msgs_view(staged0)[0] == (staged0[0].0, staged0[0].1@));
                assert(m0.skip(consumed)[0] == m0[consumed]);
                assert((n0, nv) == m0[consumed]);
            }
            out.push((next.0, RawNetworkMessage { magic, payload: next.1 }));
            proof {
                assert(out@ == out0.push((n0, RawNetworkMessage { magic, payload: staged0[0].1 })));
                assert forall|x: int| 0 <= x < staged@.len() implies #[trigger] msgs_view(
                    staged@,
                )[x] == m0.skip(consumed + 1)[x] by {
                    assert(staged@[x] == staged0[x + 1]);
                    assert(msgs_view(staged@)[x] == (staged@[x].0, staged@[x].1@));
                    assert(msgs_view(staged0)[x + 1] == (staged0[x + 1].0, staged0[x + 1].1@));
                    assert(msgs_view(staged0)[x + 1] == m0.skip(consumed)[x + 1]);
                    assert(m0.skip(consumed)[x + 1] == m0[consumed + 1 + x]);
                    assert(m0.skip(consumed + 1)[x] == m0[consumed + 1 + x]);
                }
                assert(msgs_view(staged@) =~= m0.skip(consumed + 1));
                assert forall|x: int| 0 <= x < out@.len() implies #[trigger] out_view(out@)[x] == (
                    m0[x].0,
                    RawNetworkMessageV { magic: s.config.network.spec_magic(), payload: m0[x].1 },
                ) by {
                    assert(out_view(out@)[x] == (out@[x].0, out@[x].1@));
                    if x < consumed {
                        assert(out@[x] == out0[x]);
                        assert(out_view(out0)[x] == (out0[x].0, out0[x].1@));
                    } else {
                        assert(out@[x] == (n0, RawNetworkMessage {
                            magic,
                            payload: staged0[0].1,
                        }));
                        assert(staged0[0].1@ == nv);
                    }
                }
            }
        }
        proof {
            let wrapped = step_m(s, ev).1;
            assert(wrapped.len() == m0.len());
            assert forall|x: int| 0 <= x < m0.len() implies #[trigger] wrapped[x] == (
                m0[x].0,
                RawNetworkMessageV { magic: s.config.network.spec_magic(), payload: m0[x].1 },
            ) by {}
            assert(out_view(out@) =~= wrapped);
        }
        out
    }
}

} // verus!
