//! Tests of the wire codec, the adjusted clock and the block tree.

use nakamoto_p2p::clock::AdjustedClock;
use nakamoto_p2p::codec::decode_frame;
use nakamoto_p2p::codec::encode_frame;
use nakamoto_p2p::codec::encode_payload;
use nakamoto_p2p::codec::encode_version_payload;
use nakamoto_p2p::codec::parse_headers_payload;
use nakamoto_p2p::codec::parse_version_payload;
use nakamoto_p2p::error::Error;
use nakamoto_p2p::message::BlockHeader;
use nakamoto_p2p::message::NetAddr;
use nakamoto_p2p::message::NetworkMessage;
use nakamoto_p2p::message::RawNetworkMessage;
use nakamoto_p2p::message::VersionMessage;
use nakamoto_p2p::peer::default_user_agent;
use nakamoto_p2p::peer::PeerId;
use nakamoto_p2p::tree::Tree;
use nakamoto_p2p::codec::block_hash;

fn sample_version() -> VersionMessage {
    VersionMessage {
        version: 70012,
        services: 9,
        timestamp: 1600000000,
        receiver: NetAddr { services: 65, addr: PeerId::from_octets(127, 0, 0, 2, 8333) },
        sender: NetAddr { services: 0, addr: PeerId::from_octets(127, 0, 0, 1, 8333) },
        nonce: 0,
        user_agent: default_user_agent(),
        start_height: 600000,
        relay: true,
    }
}

fn header(version: i32, prev: Vec<u8>) -> BlockHeader {
    BlockHeader {
        version,
        prev_blockhash: prev,
        merkle_root: vec![7u8; 32],
        time: 12345,
        bits: 0x1d00ffff,
        nonce: 99,
    }
}

#[test]
fn version_payload_round_trip() {
    let v = sample_version();
    let payload = encode_version_payload(&v);
    let parsed = parse_version_payload(&payload).expect("version payload parses");
    assert_eq!(parsed, v);
}

#[test]
fn version_frame_round_trip() {
    let msg = RawNetworkMessage {
        magic: 0xD9B4BEF9,
        payload: NetworkMessage::Version(sample_version()),
    };
    let bytes = encode_frame(&msg);
    let (decoded, used) = decode_frame(&bytes, 0xD9B4BEF9).expect("frame decodes");
    assert_eq!(used, bytes.len());
    assert_eq!(decoded, msg);
}

#[test]
fn headers_frame_round_trip() {
    let h1 = header(1, vec![0u8; 32]);
    let h2 = header(2, vec![1u8; 32]);
    let msg = RawNetworkMessage {
        magic: 0x0709110B,
        payload: NetworkMessage::Headers(vec![h1, h2]),
    };
    let bytes = encode_frame(&msg);
    let (decoded, used) = decode_frame(&bytes, 0x0709110B).expect("frame decodes");
    assert_eq!(used, bytes.len());
    assert_eq!(decoded, msg);
}

#[test]
fn ping_pong_frame_round_trip() {
    for payload in [NetworkMessage::Ping(77), NetworkMessage::Pong(78), NetworkMessage::Verack] {
        let msg = RawNetworkMessage { magic: 0xDAB5BFFA, payload };
        let bytes = encode_frame(&msg);
        let (decoded, _) = decode_frame(&bytes, 0xDAB5BFFA).expect("frame decodes");
        assert_eq!(decoded, msg);
    }
}

#[test]
fn verack_checksum_is_hash_of_empty_payload() {
    // The checksum of an empty payload is the first four bytes of
    // SHA256d(""): 5d f6 e0 e2.
    let msg = RawNetworkMessage { magic: 0xD9B4BEF9, payload: NetworkMessage::Verack };
    let bytes = encode_frame(&msg);
    assert_eq!(&bytes[20..24], &[0x5d, 0xf6, 0xe0, 0xe2]);
}

#[test]
fn wrong_magic_is_rejected() {
    let msg = RawNetworkMessage { magic: 0x00000000, payload: NetworkMessage::Verack };
    let bytes = encode_frame(&msg);
    assert_eq!(decode_frame(&bytes, 0xD9B4BEF9), Err(Error::MagicMismatch));
}

#[test]
fn oversize_length_is_rejected() {
    let msg = RawNetworkMessage { magic: 0xD9B4BEF9, payload: NetworkMessage::Verack };
    let mut bytes = encode_frame(&msg);
    // Declare a payload longer than MAX_MESSAGE_SIZE (6144 = 0x1800).
    bytes[16] = 0x01;
    bytes[17] = 0x18;
    assert_eq!(decode_frame(&bytes, 0xD9B4BEF9), Err(Error::DecodeFailed));
}

#[test]
fn truncated_frame_is_rejected() {
    let bytes = vec![0u8; 10];
    assert_eq!(decode_frame(&bytes, 0xD9B4BEF9), Err(Error::DecodeFailed));
}

#[test]
fn corrupted_checksum_is_rejected() {
    let msg = RawNetworkMessage { magic: 0xD9B4BEF9, payload: NetworkMessage::Ping(1) };
    let mut bytes = encode_frame(&msg);
    bytes[20] = bytes[20].wrapping_add(1);
    assert_eq!(decode_frame(&bytes, 0xD9B4BEF9), Err(Error::DecodeFailed));
}

#[test]
fn headers_payload_with_inflated_count_is_rejected() {
    let h1 = header(1, vec![0u8; 32]);
    let payload = encode_payload(&NetworkMessage::Headers(vec![h1]));
    let mut long = payload.clone();
    long[0] = 2;
    assert!(parse_headers_payload(&long).is_none());
    assert!(parse_headers_payload(&payload).is_some());
}

#[test]
fn clock_median_is_lower_middle_and_clamped() {
    let mut clock = AdjustedClock::new();
    assert_eq!(clock.offset(), 0);

    clock.add_sample(PeerId::from_octets(1, 0, 0, 1, 1), 5);
    clock.add_sample(PeerId::from_octets(1, 0, 0, 2, 1), -3);
    clock.add_sample(PeerId::from_octets(1, 0, 0, 3, 1), 7);
    assert_eq!(clock.offset(), 5);

    // Even count: the lower of the two middle elements.
    clock.add_sample(PeerId::from_octets(1, 0, 0, 4, 1), 6);
    assert_eq!(clock.offset(), 5);

    // Clamped to +-4200 while samples are kept as given.
    let mut fast = AdjustedClock::new();
    fast.add_sample(PeerId::from_octets(1, 0, 0, 5, 1), 100000);
    assert_eq!(fast.offset(), 4200);
    let mut slow = AdjustedClock::new();
    slow.add_sample(PeerId::from_octets(1, 0, 0, 6, 1), -100000);
    assert_eq!(slow.offset(), -4200);
}

#[test]
fn clock_removal_retracts_the_sample() {
    let mut clock = AdjustedClock::new();
    let p = PeerId::from_octets(1, 0, 0, 1, 1);
    clock.add_sample(p, 9);
    assert_eq!(clock.len(), 1);
    clock.remove_sample(p);
    assert_eq!(clock.len(), 0);
    assert_eq!(clock.offset(), 0);
}

#[test]
fn tree_import_extends_and_rejects() {
    let genesis_tip = vec![9u8; 32];
    let mut tree = Tree::new(genesis_tip.clone(), 100);

    let h1 = header(1, genesis_tip);
    let h2 = header(2, block_hash(&h1));
    let batch = vec![h1, h2.clone()];
    let (tip, height) = tree.import_blocks(&batch).expect("linked batch imports");
    assert_eq!(height, 102);
    assert_eq!(tip, block_hash(&h2));
    assert_eq!(tree.tree_height(), 102);

    // A batch that does not chain from the tip is a validation error and
    // leaves the tree untouched.
    let stray = header(3, vec![5u8; 32]);
    assert_eq!(tree.import_blocks(&vec![stray]), Err(Error::TreeValidation));
    assert_eq!(tree.tree_height(), 102);
}

#[test]
fn decode_consumes_one_frame_of_a_stream() {
    let first = RawNetworkMessage { magic: 0xD9B4BEF9, payload: NetworkMessage::Ping(5) };
    let second = RawNetworkMessage { magic: 0xD9B4BEF9, payload: NetworkMessage::Verack };
    let mut stream = encode_frame(&first);
    let first_len = stream.len();
    stream.extend(encode_frame(&second));
    let (decoded, used) = decode_frame(&stream, 0xD9B4BEF9).expect("first frame decodes");
    assert_eq!(decoded, first);
    assert_eq!(used, first_len);
}
