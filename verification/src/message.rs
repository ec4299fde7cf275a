//! The messages the core exchanges: `version`, `verack`, `headers`,
//! `ping` and `pong`, together with their mathematical views.

use vstd::prelude::*;

use crate::peer::PeerId;

verus! {

/// Maximum peer-to-peer message payload size, in bytes.
pub const MAX_MESSAGE_SIZE: usize = 6 * 1024;

/// Maximum length of the user agent quoted in a version message.
pub const MAX_USER_AGENT: usize = 256;

/// Maximum number of headers per `headers` message such that the payload
/// stays within `MAX_MESSAGE_SIZE` (each entry takes 81 bytes, plus up to
/// three bytes for the leading count).
pub const MAX_HEADERS: usize = 75;

/// A network address quoted inside a version message: a service mask and a
/// socket endpoint.
#[derive(Clone, Copy, Debug, PartialEq, Eq, Structural)]
pub struct NetAddr {
    /// The services advertised for this address, as a bitflag mask.
    pub services: u64,
    /// The endpoint itself.
    pub addr: PeerId,
}

/// The fields of a `version` message used by the core.
#[derive(Clone, Debug, PartialEq, Eq)]
pub struct VersionMessage {
    /// The sender's protocol version.
    pub version: u32,
    /// The services supported by the sender.
    pub services: u64,
    /// The sender's clock, in unix seconds.
    pub timestamp: i64,
    /// The address of the node the message is sent to.
    pub receiver: NetAddr,
    /// The address of the sender.
    pub sender: NetAddr,
    /// A nonce to detect self-connections; the core always sends zero.
    pub nonce: u64,
    /// The sender's user agent, as ASCII bytes.
    pub user_agent: Vec<u8>,
    /// The height of the sender's block tree.
    pub start_height: i32,
    /// Whether the sender wants transactions relayed.
    pub relay: bool,
}

/// Mathematical view of a `version` message.
pub struct VersionMessageV {
    pub version: u32,
    pub services: u64,
    pub timestamp: i64,
    pub receiver: NetAddr,
    pub sender: NetAddr,
    pub nonce: u64,
    pub user_agent: Seq<u8>,
    pub start_height: i32,
    pub relay: bool,
}

impl View for VersionMessage {
    type V = VersionMessageV;

    open spec fn view(&self) -> VersionMessageV {
        VersionMessageV {
            version: self.version,
            services: self.services,
            timestamp: self.timestamp,
            receiver: self.receiver,
            sender: self.sender,
            nonce: self.nonce,
            user_agent: self.user_agent@,
            start_height: self.start_height,
            relay: self.relay,
        }
    }
}

impl VersionMessageV {
    /// A version message the codec can frame.
    pub open spec fn wf(self) -> bool {
        self.user_agent.len() <= MAX_USER_AGENT
    }
}

/// An 80-byte block header, as carried by a `headers` message.
#[derive(Clone, Debug, PartialEq, Eq)]
pub struct BlockHeader {
    /// The block format version.
    pub version: i32,
    /// The hash of the previous block, 32 bytes.
    pub prev_blockhash: Vec<u8>,
    /// The root of the transaction merkle tree, 32 bytes.
    pub merkle_root: Vec<u8>,
    /// The block timestamp.
    pub time: u32,
    /// The compact difficulty target.
    pub bits: u32,
    /// The proof-of-work nonce.
    pub nonce: u32,
}

/// Mathematical view of a block header.
pub struct BlockHeaderV {
    pub version: i32,
    pub prev_blockhash: Seq<u8>,
    pub merkle_root: Seq<u8>,
    pub time: u32,
    pub bits: u32,
    pub nonce: u32,
}

impl View for BlockHeader {
    type V = BlockHeaderV;

    open spec fn view(&self) -> BlockHeaderV {
        BlockHeaderV {
            version: self.version,
            prev_blockhash: self.prev_blockhash@,
            merkle_root: self.merkle_root@,
            time: self.time,
            bits: self.bits,
            nonce: self.nonce,
        }
    }
}

impl BlockHeaderV {
    /// Both hashes carried by a header are 32 bytes long.
    pub open spec fn wf(self) -> bool {
        self.prev_blockhash.len() == 32 && self.merkle_root.len() == 32
    }
}

/// A message of the Bitcoin peer-to-peer protocol, restricted to the kinds
/// the core produces or consumes.
#[derive(Clone, Debug, PartialEq, Eq)]
pub enum NetworkMessage {
    Version(VersionMessage),
    Verack,
    Headers(Vec<BlockHeader>),
    Ping(u64),
    Pong(u64),
}

/// Mathematical view of a message.
pub enum NetworkMessageV {
    Version(VersionMessageV),
    Verack,
    Headers(Seq<BlockHeaderV>),
    Ping(u64),
    Pong(u64),
}

impl View for NetworkMessage {
    type V = NetworkMessageV;

    open spec fn view(&self) -> NetworkMessageV {
        match self {
            NetworkMessage::Version(v) => NetworkMessageV::Version(v@),
            NetworkMessage::Verack => NetworkMessageV::Verack,
            NetworkMessage::Headers(hs) => NetworkMessageV::Headers(
                hs@.map_values(|h: BlockHeader| h@),
            ),
            NetworkMessage::Ping(n) => NetworkMessageV::Ping(*n),
            NetworkMessage::Pong(n) => NetworkMessageV::Pong(*n),
        }
    }
}

impl NetworkMessageV {
    /// A message the codec can frame within `MAX_MESSAGE_SIZE`.
    pub open spec fn wf(self) -> bool {
        match self {
            NetworkMessageV::Version(v) => v.wf(),
            NetworkMessageV::Verack => true,
            NetworkMessageV::Headers(hs) => hs.len() <= MAX_HEADERS && forall|i: int|
                0 <= i < hs.len() ==> (#[trigger] hs[i]).wf(),
            NetworkMessageV::Ping(_) => true,
            NetworkMessageV::Pong(_) => true,
        }
    }
}

/// A framed message: the network magic plus the payload.
#[derive(Clone, Debug, PartialEq, Eq)]
pub struct RawNetworkMessage {
    /// The 4-byte network magic as an integer.
    pub magic: u32,
    /// The message carried by the frame.
    pub payload: NetworkMessage,
}

/// Mathematical view of a framed message.
pub struct RawNetworkMessageV {
    pub magic: u32,
    pub payload: NetworkMessageV,
}

impl View for RawNetworkMessage {
    type V = RawNetworkMessageV;

    open spec fn view(&self) -> RawNetworkMessageV {
        RawNetworkMessageV { magic: self.magic, payload: self.payload@ }
    }
}

impl RawNetworkMessageV {
    pub open spec fn wf(self) -> bool {
        self.payload.wf()
    }
}

} // verus!
