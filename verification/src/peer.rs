//! Per-connection data: peer identifiers, link direction, configuration,
//! and the handshake / synchronization sub-state machines.

use vstd::prelude::*;

use crate::message::VersionMessage;
use crate::message::VersionMessageV;

verus! {

/// Number of blocks out of sync we have to be to trigger an initial sync.
pub const SYNC_THRESHOLD: u32 = 144;

/// Minimum number of handshake-complete peers before sync decisions are made.
pub const PEER_CONNECTION_THRESHOLD: usize = 3;

/// Maximum time adjustment between network and local time, in seconds
/// (70 minutes).
pub const MAX_TIME_ADJUSTMENT: i64 = 4200;

/// A socket endpoint (IPv4 address and port) that uniquely names a peer in
/// this process.
#[derive(Clone, Copy, Debug, PartialEq, Eq, Structural, Hash)]
pub struct PeerId {
    /// The IPv4 address, as a big-endian integer: `127.0.0.1` is
    /// `0x7f_00_00_01`.
    pub ip: u32,
    /// The TCP port.
    pub port: u16,
}

impl PeerId {
    /// Build a peer identifier from the four address octets and the port.
    pub fn from_octets(a: u8, b: u8, c: u8, d: u8, port: u16) -> (r: PeerId)
        ensures
            r.ip == (a as u32) * 0x1000000 + (b as u32) * 0x10000 + (c as u32) * 0x100 + (d as u32),
            r.port == port,
    {
        let ip: u32 = (a as u32) * 0x1000000 + (b as u32) * 0x10000 + (c as u32) * 0x100 + (d as u32);
        PeerId { ip, port }
    }
}

/// Whether the remote dialed us (`Inbound`) or we dialed the remote
/// (`Outbound`). Chosen at connection time; immutable.
#[derive(Clone, Copy, Debug, PartialEq, Eq, Structural)]
pub enum Link {
    Inbound,
    Outbound,
}

/// The network a node runs on; it determines the wire magic.
#[derive(Clone, Copy, Debug, PartialEq, Eq, Structural)]
pub enum Network {
    Mainnet,
    Testnet,
    Regtest,
    Signet,
}

impl Network {
    /// The 4-byte network magic, as an integer (little-endian on the wire).
    pub open spec fn spec_magic(self) -> u32 {
        match self {
            Network::Mainnet => 0xD9B4BEF9,
            Network::Testnet => 0x0709110B,
            Network::Regtest => 0xDAB5BFFA,
            Network::Signet => 0x40CF030A,
        }
    }

    /// The 4-byte network magic carried by every frame of this network.
    pub fn magic(&self) -> (r: u32)
        ensures
            r == self.spec_magic(),
    {
        match self {
            Network::Mainnet => 0xD9B4BEF9,
            Network::Testnet => 0x0709110B,
            Network::Regtest => 0xDAB5BFFA,
            Network::Signet => 0x40CF030A,
        }
    }
}

/// The user agent the engine quotes by default, as ASCII bytes:
/// `/nakamoto:0.0.0/`.
pub open spec fn spec_user_agent() -> Seq<u8> {
    seq![47u8, 110u8, 97u8, 107u8, 97u8, 109u8, 111u8, 116u8, 111u8, 58u8, 48u8, 46u8, 48u8, 46u8, 48u8, 47u8]
}

/// The default user agent, `/nakamoto:0.0.0/`, as ASCII bytes.
pub fn default_user_agent() -> (r: Vec<u8>)
    ensures
        r@ == spec_user_agent(),
{
    let mut v: Vec<u8> = Vec::new();
    v.push(47);
    v.push(110);
    v.push(97);
    v.push(107);
    v.push(97);
    v.push(109);
    v.push(111);
    v.push(116);
    v.push(111);
    v.push(58);
    v.push(48);
    v.push(46);
    v.push(48);
    v.push(46);
    v.push(48);
    v.push(47);
    proof {
        assert(v@ =~= spec_user_agent());
    }
    v
}

/// Peer configuration: what the engine puts into the version messages it
/// sends, and which network's magic it enforces.
#[derive(Clone, Debug)]
pub struct Config {
    /// The network run on; it determines the wire magic.
    pub network: Network,
    /// The protocol version quoted in version messages.
    pub protocol_version: u32,
    /// The services advertised, as a bitflag mask.
    pub services: u64,
    /// Whether transactions should be relayed to us.
    pub relay: bool,
    /// The user agent quoted in version messages, as ASCII bytes.
    pub user_agent: Vec<u8>,
}

/// Mathematical view of a configuration.
pub struct ConfigV {
    pub network: Network,
    pub protocol_version: u32,
    pub services: u64,
    pub relay: bool,
    pub user_agent: Seq<u8>,
}

impl View for Config {
    type V = ConfigV;

    open spec fn view(&self) -> ConfigV {
        ConfigV {
            network: self.network,
            protocol_version: self.protocol_version,
            services: self.services,
            relay: self.relay,
            user_agent: self.user_agent@,
        }
    }
}

impl ConfigV {
    /// The user agent fits a version message.
    pub open spec fn wf(self) -> bool {
        self.user_agent.len() <= crate::message::MAX_USER_AGENT
    }
}

impl Default for Config {
    /// Mainnet, protocol version 70012, no services, no relay, and the
    /// default user agent.
    fn default() -> (r: Self)
        ensures
            r.network == Network::Mainnet,
            r.protocol_version == 70012u32,
            r.services == 0u64,
            r.relay == false,
            r@.user_agent == spec_user_agent(),
            r@.wf(),
    {
        Config {
            network: Network::Mainnet,
            protocol_version: 70012,
            services: 0,
            relay: false,
            user_agent: default_user_agent(),
        }
    }
}

/// Handshake sub-states.
///
/// The steps for an *outbound* handshake are:
///
///   1. Send "version" message.
///   2. Expect "version" message from remote.
///   3. Expect "verack" message from remote.
///   4. Send "verack" message.
///
/// The steps for an *inbound* handshake are:
///
///   1. Expect "version" message from remote.
///   2. Send "version" message.
///   3. Send "verack" message.
///   4. Expect "verack" message from remote.
#[derive(Clone, Copy, Debug, PartialEq, Eq, Structural)]
pub enum Handshake {
    /// Waiting for "version" message from remote.
    AwaitingVersion,
    /// Waiting for "verack" message from remote.
    AwaitingVerack,
    /// The peer handshake was completed.
    Done,
}

impl Default for Handshake {
    /// A fresh connection starts out waiting for the remote's "version".
    fn default() -> (r: Self)
        ensures
            r == Handshake::AwaitingVersion,
    {
        Handshake::AwaitingVersion
    }
}

/// Header-synchronization sub-states.
#[derive(Clone, Copy, Debug, PartialEq, Eq, Structural)]
pub enum Synchronize {
    RequestedHeaders,
    HeadersReceived,
    Done,
}

impl Default for Synchronize {
    /// Synchronization starts right after headers have been requested.
    fn default() -> (r: Self)
        ensures
            r == Synchronize::RequestedHeaders,
    {
        Synchronize::RequestedHeaders
    }
}

/// Peer state: first the handshake, then header synchronization.
#[derive(Clone, Copy, Debug, PartialEq, Eq, Structural)]
pub enum PeerState {
    Handshake(Handshake),
    Synchronize(Synchronize),
}

/// True of every state a peer can be in once its handshake has completed.
pub open spec fn post_handshake(s: PeerState) -> bool {
    s == PeerState::Handshake(Handshake::Done) || s matches PeerState::Synchronize(_)
}

/// A per-connection record.
#[derive(Clone, Copy, Debug, PartialEq, Eq)]
pub struct Peer {
    /// Remote peer address.
    pub address: PeerId,
    /// Local peer address.
    pub local_address: PeerId,
    /// The peer's best known height. Non-negative; a negative
    /// `start_height` quoted in a version message is clamped to zero.
    pub height: u32,
    /// An offset in seconds, between this peer's clock and ours.
    /// A positive offset means the peer's clock is ahead of ours.
    pub time_offset: i64,
    /// Whether this is an inbound or outbound peer connection.
    pub link: Link,
    /// Peer state.
    pub state: PeerState,
    /// Local time at which we last heard from this peer, in unix seconds.
    pub last_active: Option<i64>,
}

/// A `start_height` quoted on the wire is signed; the record keeps heights
/// non-negative, so negative quotes clamp to zero.
pub open spec fn clamp_height(h: i32) -> u32 {
    if h < 0 {
        0u32
    } else {
        h as u32
    }
}

/// The difference `a - b`, saturated to the 64-bit signed range.
pub open spec fn spec_sat_sub(a: i64, b: i64) -> i64 {
    if a - b > i64::MAX {
        i64::MAX
    } else if a - b < i64::MIN {
        i64::MIN
    } else {
        (a - b) as i64
    }
}

/// Computes `a - b`, saturated to the 64-bit signed range.
pub fn sat_sub_i64(a: i64, b: i64) -> (r: i64)
    ensures
        r == spec_sat_sub(a, b),
{
    match a.checked_sub(b) {
        Some(d) => d,
        None => {
            if b >= 0 {
                i64::MIN
            } else {
                i64::MAX
            }
        },
    }
}

/// The record after a `version` message: the best height and the time
/// offset are taken from the message, and the peer now awaits a `verack`.
pub open spec fn spec_peer_version_update(p: Peer, v: VersionMessageV, local_time: i64) -> Peer {
    Peer {
        height: clamp_height(v.start_height),
        time_offset: spec_sat_sub(v.timestamp, local_time),
        state: PeerState::Handshake(Handshake::AwaitingVerack),
        ..p
    }
}

impl Peer {
    /// A fresh record for a peer that has just connected.
    pub fn new(address: PeerId, local_address: PeerId, state: PeerState, link: Link) -> (r: Peer)
        ensures
            r == (Peer {
                address,
                local_address,
                height: 0u32,
                time_offset: 0i64,
                link,
                state,
                last_active: None::<i64>,
            }),
    {
        Peer { address, local_address, height: 0, time_offset: 0, link, state, last_active: None }
    }

    /// Takes the best height and the time offset from a received `version`
    /// message; the peer now awaits the remote's `verack`. The offset is
    /// the remote's clock minus ours, in seconds, saturated on overflow.
    pub fn receive_version(&mut self, version: &VersionMessage, local_time: i64)
        ensures
            *final(self) == spec_peer_version_update(*old(self), version@, local_time),
    {
        let start_height = version.start_height;
        self.height = if start_height < 0 {
            0
        } else {
            start_height as u32
        };
        self.time_offset = sat_sub_i64(version.timestamp, local_time);
        self.transition(PeerState::Handshake(Handshake::AwaitingVerack));
    }

    /// The remote's `verack` completes the handshake.
    pub fn receive_verack(&mut self)
        ensures
            *final(self) == (Peer { state: PeerState::Handshake(Handshake::Done), ..*old(self) }),
    {
        self.transition(PeerState::Handshake(Handshake::Done));
    }

    /// Moves the record into `state`.
    pub fn transition(&mut self, state: PeerState)
        ensures
            *final(self) == (Peer { state, ..*old(self) }),
    {
        self.state = state;
    }
}

} // verus!
