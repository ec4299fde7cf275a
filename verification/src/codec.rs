//! The wire codec: framed Bitcoin messages with a 4-byte magic, a 12-byte
//! command, a payload length, a 4-byte checksum and the payload. Frames
//! whose declared length exceeds `MAX_MESSAGE_SIZE`, or whose magic does not
//! equal the configured network's magic, are rejected.

use vstd::prelude::*;

use crate::message::BlockHeader;
use crate::message::BlockHeaderV;
use crate::message::NetAddr;
use crate::message::NetworkMessage;
use crate::message::NetworkMessageV;
use crate::message::RawNetworkMessage;
use crate::message::RawNetworkMessageV;
use crate::message::VersionMessage;
use crate::message::VersionMessageV;
use crate::message::MAX_HEADERS;
use crate::message::MAX_MESSAGE_SIZE;
use crate::message::MAX_USER_AGENT;
use crate::error::Error;
use crate::peer::PeerId;

verus! {

/// The digest the checksum and the block ids are drawn from.
pub uninterp spec fn sha256d_of(data: Seq<u8>) -> Seq<u8>;

/// Relies on `bitcoin::hashes::sha256d`: the 32-byte double-SHA256 digest,
/// a function of the input bytes alone.
#[verifier::external_body]
fn sha256d(data: &Vec<u8>) -> (r: Vec<u8>)
    ensures
        r@ == sha256d_of(data@),
        r@.len() == 32,
{
    let h = <bitcoin::hashes::sha256d::Hash as bitcoin::hashes::Hash>::hash(data.as_slice());
    <bitcoin::hashes::sha256d::Hash as bitcoin::hashes::Hash>::to_byte_array(h).to_vec()
}

/// A 16-bit integer as two big-endian bytes (ports on the wire).
pub open spec fn spec_u16_be(x: u16) -> Seq<u8> {
    seq![(x >> 8) as u8, (x & 0xff) as u8]
}

/// A 32-bit integer as four little-endian bytes.
pub open spec fn spec_u32_le(x: u32) -> Seq<u8> {
    seq![(x & 0xff) as u8, ((x >> 8) & 0xff) as u8, ((x >> 16) & 0xff) as u8, (x >> 24) as u8]
}

/// A 64-bit integer as eight little-endian bytes.
pub open spec fn spec_u64_le(x: u64) -> Seq<u8> {
    seq![
        (x & 0xff) as u8,
        ((x >> 8) & 0xff) as u8,
        ((x >> 16) & 0xff) as u8,
        ((x >> 24) & 0xff) as u8,
        ((x >> 32) & 0xff) as u8,
        ((x >> 40) & 0xff) as u8,
        ((x >> 48) & 0xff) as u8,
        (x >> 56) as u8,
    ]
}

/// A signed 32-bit integer, two's complement little-endian.
pub open spec fn spec_i32_le(x: i32) -> Seq<u8> {
    spec_u32_le(x as u32)
}

/// A signed 64-bit integer, two's complement little-endian.
pub open spec fn spec_i64_le(x: i64) -> Seq<u8> {
    spec_u64_le(x as u64)
}

/// Appends the two big-endian bytes of `x`.
pub fn push_u16_be(buf: &mut Vec<u8>, x: u16)
    ensures
        final(buf)@ == old(buf)@ + spec_u16_be(x),
{
    let ghost b0 = buf@;
    buf.push((x >> 8) as u8);
    buf.push((x & 0xff) as u8);
    proof {
        assert(buf@ =~= b0 + spec_u16_be(x));
    }
}

/// Appends the four little-endian bytes of `x`.
pub fn push_u32_le(buf: &mut Vec<u8>, x: u32)
    ensures
        final(buf)@ == old(buf)@ + spec_u32_le(x),
{
    let ghost b0 = buf@;
    buf.push((x & 0xff) as u8);
    buf.push(((x >> 8) & 0xff) as u8);
    buf.push(((x >> 16) & 0xff) as u8);
    buf.push((x >> 24) as u8);
    proof {
        assert(buf@ =~= b0 + spec_u32_le(x));
    }
}

/// Appends the eight little-endian bytes of `x`.
pub fn push_u64_le(buf: &mut Vec<u8>, x: u64)
    ensures
        final(buf)@ == old(buf)@ + spec_u64_le(x),
{
    let ghost b0 = buf@;
    buf.push((x & 0xff) as u8);
    buf.push(((x >> 8) & 0xff) as u8);
    buf.push(((x >> 16) & 0xff) as u8);
    buf.push(((x >> 24) & 0xff) as u8);
    buf.push(((x >> 32) & 0xff) as u8);
    buf.push(((x >> 40) & 0xff) as u8);
    buf.push(((x >> 48) & 0xff) as u8);
    buf.push((x >> 56) as u8);
    proof {
        assert(buf@ =~= b0 + spec_u64_le(x));
    }
}

/// Appends the little-endian two's complement bytes of `x`.
pub fn push_i32_le(buf: &mut Vec<u8>, x: i32)
    ensures
        final(buf)@ == old(buf)@ + spec_i32_le(x),
{
    push_u32_le(buf, x as u32);
}

/// Appends the little-endian two's complement bytes of `x`.
pub fn push_i64_le(buf: &mut Vec<u8>, x: i64)
    ensures
        final(buf)@ == old(buf)@ + spec_i64_le(x),
{
    push_u64_le(buf, x as u64);
}

/// Appends all bytes of `data`.
pub fn push_bytes(buf: &mut Vec<u8>, data: &Vec<u8>)
    ensures
        final(buf)@ == old(buf)@ + data@,
{
    let mut i: usize = 0;
    while i < data.len()
        invariant
            i <= data@.len(),
            buf@ == old(buf)@ + data@.subrange(0, i as int),
        decreases data@.len() - i,
    {
        buf.push(data[i]);
        proof {
            assert(buf@ =~= old(buf)@ + data@.subrange(0, i + 1 as int));
        }
        i = i + 1;
    }
    proof {
        assert(data@.subrange(0, data@.len() as int) =~= data@);
    }
}

/// The serialized form of a block header: 80 bytes.
pub open spec fn spec_encode_header(h: BlockHeaderV) -> Seq<u8> {
    spec_i32_le(h.version) + h.prev_blockhash + h.merkle_root + spec_u32_le(h.time) + spec_u32_le(
        h.bits,
    ) + spec_u32_le(h.nonce)
}

/// Appends the 80-byte serialization of a block header.
pub fn push_header(buf: &mut Vec<u8>, h: &BlockHeader)
    requires
        h@.wf(),
    ensures
        final(buf)@ == old(buf)@ + spec_encode_header(h@),
        final(buf)@.len() == old(buf)@.len() + 80,
{
    push_i32_le(buf, h.version);
    push_bytes(buf, &h.prev_blockhash);
    push_bytes(buf, &h.merkle_root);
    push_u32_le(buf, h.time);
    push_u32_le(buf, h.bits);
    push_u32_le(buf, h.nonce);
    proof {
        assert(buf@ =~= old(buf)@ + spec_encode_header(h@));
    }
}

/// The block id of a header: the double-SHA256 digest of its 80-byte
/// serialization.
pub open spec fn spec_block_hash(h: BlockHeaderV) -> Seq<u8> {
    sha256d_of(spec_encode_header(h))
}

/// Computes the block id of a header.
pub fn block_hash(h: &BlockHeader) -> (r: Vec<u8>)
    requires
        h@.wf(),
    ensures
        r@ == spec_block_hash(h@),
        r@.len() == 32,
{
    let mut buf: Vec<u8> = Vec::new();
    push_header(&mut buf, h);
    proof {
        assert(buf@ =~= spec_encode_header(h@));
    }
    sha256d(&buf)
}

/// The 16-bit value of two big-endian bytes.
pub open spec fn u16_from_be(b0: u8, b1: u8) -> u16 {
    ((b0 as u16) << 8) | (b1 as u16)
}

/// A 16-bit integer as two little-endian bytes.
pub open spec fn spec_u16_le(x: u16) -> Seq<u8> {
    seq![(x & 0xff) as u8, (x >> 8) as u8]
}

/// The 16-bit value of two little-endian bytes.
pub open spec fn u16_from_le(b0: u8, b1: u8) -> u16 {
    (b0 as u16) | ((b1 as u16) << 8)
}

/// The 32-bit value of four little-endian bytes.
pub open spec fn u32_from_le(b0: u8, b1: u8, b2: u8, b3: u8) -> u32 {
    (b0 as u32) | ((b1 as u32) << 8) | ((b2 as u32) << 16) | ((b3 as u32) << 24)
}

/// The 32-bit value of four big-endian bytes.
pub open spec fn u32_from_be(b0: u8, b1: u8, b2: u8, b3: u8) -> u32 {
    ((b0 as u32) << 24) | ((b1 as u32) << 16) | ((b2 as u32) << 8) | (b3 as u32)
}

/// The 64-bit value of eight little-endian bytes.
pub open spec fn u64_from_le(
    b0: u8,
    b1: u8,
    b2: u8,
    b3: u8,
    b4: u8,
    b5: u8,
    b6: u8,
    b7: u8,
) -> u64 {
    (b0 as u64) | ((b1 as u64) << 8) | ((b2 as u64) << 16) | ((b3 as u64) << 24) | ((b4 as u64)
        << 32) | ((b5 as u64) << 40) | ((b6 as u64) << 48) | ((b7 as u64) << 56)
}

/// Reading back the two little-endian bytes of `x` gives `x`.
pub proof fn lemma_u16_le_roundtrip(x: u16)
    ensures
        u16_from_le((x & 0xff) as u8, (x >> 8) as u8) == x,
{
    assert((((x & 0xff) as u8) as u16) | ((((x >> 8) as u8) as u16) << 8) == x) by (bit_vector);
}

/// Reading back the two big-endian bytes of `x` gives `x`.
pub proof fn lemma_u16_be_roundtrip(x: u16)
    ensures
        u16_from_be((x >> 8) as u8, (x & 0xff) as u8) == x,
{
    assert(((((x >> 8) as u8) as u16) << 8) | (((x & 0xff) as u8) as u16) == x) by (bit_vector);
}

/// Reading back the four little-endian bytes of `x` gives `x`.
pub proof fn lemma_u32_le_roundtrip(x: u32)
    ensures
        u32_from_le(
            (x & 0xff) as u8,
            ((x >> 8) & 0xff) as u8,
            ((x >> 16) & 0xff) as u8,
            (x >> 24) as u8,
        ) == x,
{
    assert((((x & 0xff) as u8) as u32) | (((((x >> 8) & 0xff) as u8) as u32) << 8) | (((((x >> 16)
        & 0xff) as u8) as u32) << 16) | ((((x >> 24) as u8) as u32) << 24) == x) by (bit_vector);
}

/// Reading back the four big-endian bytes of `x` gives `x`.
pub proof fn lemma_u32_be_roundtrip(x: u32)
    ensures
        u32_from_be(
            (x >> 24) as u8,
            ((x >> 16) & 0xff) as u8,
            ((x >> 8) & 0xff) as u8,
            (x & 0xff) as u8,
        ) == x,
{
    assert(((((x >> 24) as u8) as u32) << 24) | (((((x >> 16) & 0xff) as u8) as u32) << 16) | (((((
    x >> 8) & 0xff) as u8) as u32) << 8) | (((x & 0xff) as u8) as u32) == x) by (bit_vector);
}

/// Reading back the eight little-endian bytes of `x` gives `x`.
pub proof fn lemma_u64_le_roundtrip(x: u64)
    ensures
        u64_from_le(
            (x & 0xff) as u8,
            ((x >> 8) & 0xff) as u8,
            ((x >> 16) & 0xff) as u8,
            ((x >> 24) & 0xff) as u8,
            ((x >> 32) & 0xff) as u8,
            ((x >> 40) & 0xff) as u8,
            ((x >> 48) & 0xff) as u8,
            (x >> 56) as u8,
        ) == x,
{
    assert((((x & 0xff) as u8) as u64) | (((((x >> 8) & 0xff) as u8) as u64) << 8) | (((((x >> 16)
        & 0xff) as u8) as u64) << 16) | (((((x >> 24) & 0xff) as u8) as u64) << 24) | (((((x >> 32)
        & 0xff) as u8) as u64) << 32) | (((((x >> 40) & 0xff) as u8) as u64) << 40) | (((((x >> 48)
        & 0xff) as u8) as u64) << 48) | ((((x >> 56) as u8) as u64) << 56) == x) by (bit_vector);
}

/// Reads a 16-bit big-endian value.
pub fn read_u16_be(buf: &Vec<u8>, off: usize) -> (r: u16)
    requires
        off + 2 <= buf@.len(),
    ensures
        r == u16_from_be(buf@[off as int], buf@[off + 1]),
{
    let _len = buf.len();
    ((buf[off] as u16) << 8) | (buf[off + 1] as u16)
}

/// Reads a 16-bit little-endian value.
pub fn read_u16_le(buf: &Vec<u8>, off: usize) -> (r: u16)
    requires
        off + 2 <= buf@.len(),
    ensures
        r == u16_from_le(buf@[off as int], buf@[off + 1]),
{
    let _len = buf.len();
    (buf[off] as u16) | ((buf[off + 1] as u16) << 8)
}

/// Reads a 32-bit little-endian value.
pub fn read_u32_le(buf: &Vec<u8>, off: usize) -> (r: u32)
    requires
        off + 4 <= buf@.len(),
    ensures
        r == u32_from_le(buf@[off as int], buf@[off + 1], buf@[off + 2], buf@[off + 3]),
{
    let _len = buf.len();
    (buf[off] as u32) | ((buf[off + 1] as u32) << 8) | ((buf[off + 2] as u32) << 16) | ((buf[off
        + 3] as u32) << 24)
}

/// Reads a 32-bit big-endian value.
pub fn read_u32_be(buf: &Vec<u8>, off: usize) -> (r: u32)
    requires
        off + 4 <= buf@.len(),
    ensures
        r == u32_from_be(buf@[off as int], buf@[off + 1], buf@[off + 2], buf@[off + 3]),
{
    let _len = buf.len();
    ((buf[off] as u32) << 24) | ((buf[off + 1] as u32) << 16) | ((buf[off + 2] as u32) << 8) | (
    buf[off + 3] as u32)
}

/// Reads a 64-bit little-endian value.
pub fn read_u64_le(buf: &Vec<u8>, off: usize) -> (r: u64)
    requires
        off + 8 <= buf@.len(),
    ensures
        r == u64_from_le(
            buf@[off as int],
            buf@[off + 1],
            buf@[off + 2],
            buf@[off + 3],
            buf@[off + 4],
            buf@[off + 5],
            buf@[off + 6],
            buf@[off + 7],
        ),
{
    let _len = buf.len();
    (buf[off] as u64) | ((buf[off + 1] as u64) << 8) | ((buf[off + 2] as u64) << 16) | ((buf[off
        + 3] as u64) << 24) | ((buf[off + 4] as u64) << 32) | ((buf[off + 5] as u64) << 40) | ((
    buf[off + 6] as u64) << 48) | ((buf[off + 7] as u64) << 56)
}

/// Copies `buf[start..end]`.
pub fn copy_range(buf: &Vec<u8>, start: usize, end: usize) -> (r: Vec<u8>)
    requires
        start <= end <= buf@.len(),
    ensures
        r@ == buf@.subrange(start as int, end as int),
{
    let mut r: Vec<u8> = Vec::new();
    let mut i: usize = start;
    while i < end
        invariant
            start <= i <= end <= buf@.len(),
            r@ == buf@.subrange(start as int, i as int),
        decreases end - i,
    {
        r.push(buf[i]);
        proof {
            assert(r@ =~= buf@.subrange(start as int, i + 1 as int));
        }
        i = i + 1;
    }
    r
}

/// A count as a variable-length integer: one byte below `0xFD`, otherwise a
/// tag followed by the value in two, four or eight little-endian bytes.
pub open spec fn spec_varint(x: u64) -> Seq<u8> {
    if x < 0xFD {
        seq![x as u8]
    } else if x <= 0xFFFF {
        seq![0xFDu8] + spec_u16_le(x as u16)
    } else if x <= 0xFFFFFFFF {
        seq![0xFEu8] + spec_u32_le(x as u32)
    } else {
        seq![0xFFu8] + spec_u64_le(x)
    }
}

/// Appends the variable-length encoding of `x`.
pub fn push_varint(buf: &mut Vec<u8>, x: u64)
    ensures
        final(buf)@ == old(buf)@ + spec_varint(x),
{
    let ghost b0 = buf@;
    if x < 0xFD {
        buf.push(x as u8);
        proof {
            assert(buf@ =~= b0 + spec_varint(x));
        }
    } else if x <= 0xFFFF {
        buf.push(0xFD);
        let y = x as u16;
        buf.push((y & 0xff) as u8);
        buf.push((y >> 8) as u8);
        proof {
            assert(buf@ =~= b0 + spec_varint(x));
        }
    } else if x <= 0xFFFFFFFF {
        buf.push(0xFE);
        push_u32_le(buf, x as u32);
        proof {
            assert(buf@ =~= b0 + spec_varint(x));
        }
    } else {
        buf.push(0xFF);
        push_u64_le(buf, x);
        proof {
            assert(buf@ =~= b0 + spec_varint(x));
        }
    }
}

/// The value and the next offset of a variable-length integer at `off`.
pub open spec fn spec_parse_varint(b: Seq<u8>, off: int) -> Option<(u64, int)> {
    if 0 <= off < b.len() {
        let tag = b[off];
        if tag < 0xFD {
            Some((tag as u64, off + 1))
        } else if tag == 0xFD {
            if off + 3 <= b.len() {
                Some((u16_from_le(b[off + 1], b[off + 2]) as u64, off + 3))
            } else {
                None
            }
        } else if tag == 0xFE {
            if off + 5 <= b.len() {
                Some((u32_from_le(b[off + 1], b[off + 2], b[off + 3], b[off + 4]) as u64, off + 5))
            } else {
                None
            }
        } else {
            if off + 9 <= b.len() {
                Some(
                    (
                        u64_from_le(
                            b[off + 1],
                            b[off + 2],
                            b[off + 3],
                            b[off + 4],
                            b[off + 5],
                            b[off + 6],
                            b[off + 7],
                            b[off + 8],
                        ),
                        off + 9,
                    ),
                )
            } else {
                None
            }
        }
    } else {
        None
    }
}

/// Parses a variable-length integer at `off`.
pub fn parse_varint(buf: &Vec<u8>, off: usize) -> (r: Option<(u64, usize)>)
    requires
        buf@.len() <= 0x7FFF_FFFF,
    ensures
        match r {
            Some((x, next)) => spec_parse_varint(buf@, off as int) == Some((x, next as int))
                && off < next <= buf@.len(),
            None => spec_parse_varint(buf@, off as int) == None::<(u64, int)>,
        },
{
    if off >= buf.len() {
        return None;
    }
    let tag = buf[off];
    if tag < 0xFD {
        Some((tag as u64, off + 1))
    } else if tag == 0xFD {
        if off + 3 <= buf.len() {
            Some((read_u16_le(buf, off + 1) as u64, off + 3))
        } else {
            None
        }
    } else if tag == 0xFE {
        if off + 5 <= buf.len() {
            Some((read_u32_le(buf, off + 1) as u64, off + 5))
        } else {
            None
        }
    } else {
        if off + 9 <= buf.len() {
            Some((read_u64_le(buf, off + 1), off + 9))
        } else {
            None
        }
    }
}

/// A varint written at `off` reads back as its value.
pub proof fn lemma_varint_roundtrip_at(b: Seq<u8>, off: int, x: u64)
    requires
        0 <= off,
        off + spec_varint(x).len() <= b.len(),
        b.subrange(off, off + spec_varint(x).len()) == spec_varint(x),
    ensures
        spec_parse_varint(b, off) == Some((x, off + spec_varint(x).len())),
{
    let e = spec_varint(x);
    assert forall|k: int| 0 <= k < e.len() implies b[off + k] == #[trigger] e[k] by {
        assert(b.subrange(off, off + e.len())[k] == b[off + k]);
    }
    if x < 0xFD {
        assert(e[0] == x as u8);
        assert(b[off + 0] == e[0]);
        assert(b[off] == x as u8);
        assert((x as u8) < 0xFD && (x as u8) as u64 == x) by (bit_vector)
            requires
                x < 0xFD,
        ;
    } else if x <= 0xFFFF {
        let y = x as u16;
        assert(e[0] == 0xFDu8 && e[1] == (y & 0xff) as u8 && e[2] == (y >> 8) as u8);
        assert(b[off + 0] == e[0] && b[off + 1] == e[1] && b[off + 2] == e[2]);
        assert(b[off] == 0xFD);
        lemma_u16_le_roundtrip(y);
        assert((x as u16) as u64 == x) by (bit_vector)
            requires
                x <= 0xFFFF,
        ;
    } else if x <= 0xFFFFFFFF {
        let y = x as u32;
        assert(e[0] == 0xFEu8 && e[1] == (y & 0xff) as u8 && e[2] == ((y >> 8) & 0xff) as u8 && e[3]
            == ((y >> 16) & 0xff) as u8 && e[4] == (y >> 24) as u8);
        assert(b[off + 0] == e[0] && b[off + 1] == e[1] && b[off + 2] == e[2] && b[off + 3] == e[3]
            && b[off + 4] == e[4]);
        assert(b[off] == 0xFE);
        lemma_u32_le_roundtrip(y);
        assert((x as u32) as u64 == x) by (bit_vector)
            requires
                x <= 0xFFFFFFFF,
        ;
    } else {
        assert(e[0] == 0xFFu8 && e[1] == (x & 0xff) as u8 && e[2] == ((x >> 8) & 0xff) as u8 && e[3]
            == ((x >> 16) & 0xff) as u8 && e[4] == ((x >> 24) & 0xff) as u8 && e[5] == ((x >> 32)
            & 0xff) as u8 && e[6] == ((x >> 40) & 0xff) as u8 && e[7] == ((x >> 48) & 0xff) as u8
            && e[8] == (x >> 56) as u8);
        assert(b[off + 0] == e[0] && b[off + 1] == e[1] && b[off + 2] == e[2] && b[off + 3] == e[3]
            && b[off + 4] == e[4] && b[off + 5] == e[5] && b[off + 6] == e[6] && b[off + 7] == e[7]
            && b[off + 8] == e[8]);
        assert(b[off] == 0xFF);
        lemma_u64_le_roundtrip(x);
    }
}

/// The 16 address bytes of an IPv4 endpoint: the IPv6-mapped form.
pub open spec fn spec_ip_bytes(ip: u32) -> Seq<u8> {
    seq![
        0u8,
        0u8,
        0u8,
        0u8,
        0u8,
        0u8,
        0u8,
        0u8,
        0u8,
        0u8,
        0xffu8,
        0xffu8,
        (ip >> 24) as u8,
        ((ip >> 16) & 0xff) as u8,
        ((ip >> 8) & 0xff) as u8,
        (ip & 0xff) as u8,
    ]
}

/// A network address on the wire: services, 16 address bytes, and the port
/// in big-endian. 26 bytes.
pub open spec fn spec_encode_netaddr(a: NetAddr) -> Seq<u8> {
    spec_u64_le(a.services) + spec_ip_bytes(a.addr.ip) + spec_u16_be(a.addr.port)
}

/// The network address read at `off` (26 bytes; the address is taken from
/// the last four of the 16 address bytes).
pub open spec fn spec_parse_netaddr(b: Seq<u8>, off: int) -> NetAddr {
    NetAddr {
        services: u64_from_le(
            b[off],
            b[off + 1],
            b[off + 2],
            b[off + 3],
            b[off + 4],
            b[off + 5],
            b[off + 6],
            b[off + 7],
        ),
        addr: PeerId {
            ip: u32_from_be(b[off + 20], b[off + 21], b[off + 22], b[off + 23]),
            port: u16_from_be(b[off + 24], b[off + 25]),
        },
    }
}

/// Appends the 26-byte wire form of a network address.
pub fn push_netaddr(buf: &mut Vec<u8>, a: &NetAddr)
    ensures
        final(buf)@ == old(buf)@ + spec_encode_netaddr(*a),
{
    let ghost b0 = buf@;
    push_u64_le(buf, a.services);
    let ip = a.addr.ip;
    buf.push(0);
    buf.push(0);
    buf.push(0);
    buf.push(0);
    buf.push(0);
    buf.push(0);
    buf.push(0);
    buf.push(0);
    buf.push(0);
    buf.push(0);
    buf.push(0xff);
    buf.push(0xff);
    buf.push((ip >> 24) as u8);
    buf.push(((ip >> 16) & 0xff) as u8);
    buf.push(((ip >> 8) & 0xff) as u8);
    buf.push((ip & 0xff) as u8);
    push_u16_be(buf, a.addr.port);
    proof {
        assert(buf@ =~= b0 + spec_encode_netaddr(*a));
    }
}

/// Reads the 26-byte wire form of a network address at `off`.
pub fn parse_netaddr(buf: &Vec<u8>, off: usize) -> (r: NetAddr)
    requires
        off + 26 <= buf@.len(),
    ensures
        r == spec_parse_netaddr(buf@, off as int),
{
    let _len = buf.len();
    let services = read_u64_le(buf, off);
    let ip = read_u32_be(buf, off + 20);
    let port = read_u16_be(buf, off + 24);
    NetAddr { services, addr: PeerId { ip, port } }
}

/// A netaddr written at `off` reads back as its value.
pub proof fn lemma_netaddr_roundtrip_at(b: Seq<u8>, off: int, a: NetAddr)
    requires
        0 <= off,
        off + 26 <= b.len(),
        b.subrange(off, off + 26) == spec_encode_netaddr(a),
    ensures
        spec_parse_netaddr(b, off) == a,
{
    let e = spec_encode_netaddr(a);
    assert(e.len() == 26);
    assert forall|k: int| 0 <= k < 26 implies b[off + k] == #[trigger] e[k] by {
        assert(b.subrange(off, off + 26)[k] == b[off + k]);
    }
    let sv = a.services;
    let ip = a.addr.ip;
    let pt = a.addr.port;
    assert(e[0] == (sv & 0xff) as u8 && e[1] == ((sv >> 8) & 0xff) as u8 && e[2] == ((sv >> 16)
        & 0xff) as u8 && e[3] == ((sv >> 24) & 0xff) as u8 && e[4] == ((sv >> 32) & 0xff) as u8
        && e[5] == ((sv >> 40) & 0xff) as u8 && e[6] == ((sv >> 48) & 0xff) as u8 && e[7] == (sv
        >> 56) as u8);
    assert(e[20] == (ip >> 24) as u8 && e[21] == ((ip >> 16) & 0xff) as u8 && e[22] == ((ip >> 8)
        & 0xff) as u8 && e[23] == (ip & 0xff) as u8);
    assert(e[24] == (pt >> 8) as u8 && e[25] == (pt & 0xff) as u8);
    assert(b[off + 0] == e[0] && b[off + 1] == e[1] && b[off + 2] == e[2] && b[off + 3] == e[3]
        && b[off + 4] == e[4] && b[off + 5] == e[5] && b[off + 6] == e[6] && b[off + 7] == e[7]);
    assert(b[off + 20] == e[20] && b[off + 21] == e[21] && b[off + 22] == e[22] && b[off + 23]
        == e[23] && b[off + 24] == e[24] && b[off + 25] == e[25]);
    lemma_u64_le_roundtrip(sv);
    lemma_u32_be_roundtrip(ip);
    lemma_u16_be_roundtrip(pt);
}

/// The payload of a version message.
pub open spec fn spec_encode_version(v: VersionMessageV) -> Seq<u8> {
    spec_u32_le(v.version) + spec_u64_le(v.services) + spec_i64_le(v.timestamp)
        + spec_encode_netaddr(v.receiver) + spec_encode_netaddr(v.sender) + spec_u64_le(v.nonce)
        + spec_varint(v.user_agent.len() as u64) + v.user_agent + spec_i32_le(v.start_height)
        + seq![if v.relay { 1u8 } else { 0u8 }]
}

/// The version message a payload holds, if it parses in full.
pub open spec fn spec_parse_version(b: Seq<u8>) -> Option<VersionMessageV> {
    if b.len() < 81 {
        None
    } else {
        match spec_parse_varint(b, 80) {
            None => None,
            Some((n, o)) => {
                if n > MAX_USER_AGENT as u64 {
                    None
                } else if b.len() != o + n + 5 {
                    None
                } else {
                    Some(
                        VersionMessageV {
                            version: u32_from_le(b[0], b[1], b[2], b[3]),
                            services: u64_from_le(
                                b[4],
                                b[5],
                                b[6],
                                b[7],
                                b[8],
                                b[9],
                                b[10],
                                b[11],
                            ),
                            timestamp: u64_from_le(
                                b[12],
                                b[13],
                                b[14],
                                b[15],
                                b[16],
                                b[17],
                                b[18],
                                b[19],
                            ) as i64,
                            receiver: spec_parse_netaddr(b, 20),
                            sender: spec_parse_netaddr(b, 46),
                            nonce: u64_from_le(
                                b[72],
                                b[73],
                                b[74],
                                b[75],
                                b[76],
                                b[77],
                                b[78],
                                b[79],
                            ),
                            user_agent: b.subrange(o, o + n),
                            start_height: u32_from_le(
                                b[o + n],
                                b[o + n + 1],
                                b[o + n + 2],
                                b[o + n + 3],
                            ) as i32,
                            relay: b[o + n + 4] != 0,
                        },
                    )
                }
            },
        }
    }
}

/// Builds the payload of a version message.
pub fn encode_version_payload(v: &VersionMessage) -> (r: Vec<u8>)
    ensures
        r@ == spec_encode_version(v@),
{
    let mut buf: Vec<u8> = Vec::new();
    push_u32_le(&mut buf, v.version);
    push_u64_le(&mut buf, v.services);
    push_i64_le(&mut buf, v.timestamp);
    push_netaddr(&mut buf, &v.receiver);
    push_netaddr(&mut buf, &v.sender);
    push_u64_le(&mut buf, v.nonce);
    push_varint(&mut buf, v.user_agent.len() as u64);
    push_bytes(&mut buf, &v.user_agent);
    push_i32_le(&mut buf, v.start_height);
    buf.push(if v.relay {
        1
    } else {
        0
    });
    proof {
        assert(buf@ =~= spec_encode_version(v@));
    }
    buf
}

/// Parses the payload of a version message in full.
pub fn parse_version_payload(buf: &Vec<u8>) -> (r: Option<VersionMessage>)
    requires
        buf@.len() <= MAX_MESSAGE_SIZE,
    ensures
        match r {
            Some(m) => spec_parse_version(buf@) == Some(m@),
            None => spec_parse_version(buf@) == None::<VersionMessageV>,
        },
{
    if buf.len() < 81 {
        return None;
    }
    let (n64, o) = match parse_varint(buf, 80) {
        Some(t) => t,
        None => {
            return None;
        },
    };
    if n64 > MAX_USER_AGENT as u64 {
        return None;
    }
    let n = n64 as usize;
    if buf.len() < o + n + 5 || buf.len() > o + n + 5 {
        return None;
    }
    let version = read_u32_le(buf, 0);
    let services = read_u64_le(buf, 4);
    let timestamp = read_u64_le(buf, 12) as i64;
    let receiver = parse_netaddr(buf, 20);
    let sender = parse_netaddr(buf, 46);
    let nonce = read_u64_le(buf, 72);
    let user_agent = copy_range(buf, o, o + n);
    let start_height = read_u32_le(buf, o + n) as i32;
    let relay = buf[o + n + 4] != 0;
    Some(
        VersionMessage {
            version,
            services,
            timestamp,
            receiver,
            sender,
            nonce,
            user_agent,
            start_height,
            relay,
        },
    )
}

/// Encoding a version message and parsing the payload back yields
/// structurally equal fields.
pub proof fn lemma_version_roundtrip(v: VersionMessageV)
    requires
        v.wf(),
    ensures
        spec_parse_version(spec_encode_version(v)) == Some(v),
{
    let e = spec_encode_version(v);
    let ua = v.user_agent;
    let n = ua.len() as int;
    let vi = spec_varint(n as u64);
    let fixed = spec_u32_le(v.version) + spec_u64_le(v.services) + spec_i64_le(v.timestamp)
        + spec_encode_netaddr(v.receiver) + spec_encode_netaddr(v.sender) + spec_u64_le(v.nonce);
    assert(fixed.len() == 80);
    assert(n < 0xFD ==> vi.len() == 1);
    assert(n >= 0xFD ==> vi.len() == 3);
    let o = 80 + vi.len() as int;
    assert(e.len() == o + n + 5);
    assert(e.subrange(80, 80 + vi.len() as int) =~= vi);
    lemma_varint_roundtrip_at(e, 80, n as u64);
    assert(spec_parse_varint(e, 80) == Some((n as u64, o)));
    assert(e.subrange(20, 46) =~= spec_encode_netaddr(v.receiver));
    assert(e.subrange(46, 72) =~= spec_encode_netaddr(v.sender));
    lemma_netaddr_roundtrip_at(e, 20, v.receiver);
    lemma_netaddr_roundtrip_at(e, 46, v.sender);
    lemma_u32_le_roundtrip(v.version);
    lemma_u64_le_roundtrip(v.services);
    let ts = v.timestamp;
    lemma_u64_le_roundtrip(ts as u64);
    assert((ts as u64) as i64 == ts) by (bit_vector);
    lemma_u64_le_roundtrip(v.nonce);
    assert(e.subrange(o, o + n) =~= ua);
    let sh = v.start_height;
    lemma_u32_le_roundtrip(sh as u32);
    assert((sh as u32) as i32 == sh) by (bit_vector);
    let parsed = spec_parse_version(e).unwrap();
    assert(parsed.version == v.version);
    assert(parsed.services == v.services);
    assert(parsed.timestamp == v.timestamp);
    assert(parsed.receiver == v.receiver);
    assert(parsed.sender == v.sender);
    assert(parsed.nonce == v.nonce);
    assert(parsed.user_agent == ua);
    assert(parsed.start_height == v.start_height);
    assert(parsed.relay == v.relay);
}

/// The body of a `headers` payload: each header followed by a zero
/// transaction-count byte.
pub open spec fn spec_encode_headers_entries(hs: Seq<BlockHeaderV>) -> Seq<u8>
    decreases hs.len(),
{
    if hs.len() == 0 {
        Seq::empty()
    } else {
        spec_encode_headers_entries(hs.drop_last()) + spec_encode_header(hs.last()) + seq![0u8]
    }
}

/// Each entry takes 81 bytes.
pub proof fn lemma_headers_entries_len(hs: Seq<BlockHeaderV>)
    requires
        crate::tree::headers_wf(hs),
    ensures
        spec_encode_headers_entries(hs).len() == 81 * hs.len(),
    decreases hs.len(),
{
    if hs.len() > 0 {
        assert(crate::tree::headers_wf(hs.drop_last()));
        lemma_headers_entries_len(hs.drop_last());
        assert(hs.last().wf());
    }
}

/// The payload of a `headers` message: the count, then the entries.
pub open spec fn spec_encode_headers(hs: Seq<BlockHeaderV>) -> Seq<u8> {
    spec_varint(hs.len() as u64) + spec_encode_headers_entries(hs)
}

/// The header read at `off` (80 bytes).
pub open spec fn spec_parse_header(b: Seq<u8>, off: int) -> BlockHeaderV {
    BlockHeaderV {
        version: u32_from_le(b[off], b[off + 1], b[off + 2], b[off + 3]) as i32,
        prev_blockhash: b.subrange(off + 4, off + 36),
        merkle_root: b.subrange(off + 36, off + 68),
        time: u32_from_le(b[off + 68], b[off + 69], b[off + 70], b[off + 71]),
        bits: u32_from_le(b[off + 72], b[off + 73], b[off + 74], b[off + 75]),
        nonce: u32_from_le(b[off + 76], b[off + 77], b[off + 78], b[off + 79]),
    }
}

/// Reads `n` header entries at `off`, each 81 bytes with a zero trailer.
pub open spec fn spec_parse_headers_entries(b: Seq<u8>, off: int, n: nat) -> Option<
    (Seq<BlockHeaderV>, int),
>
    decreases n,
{
    if n == 0 {
        Some((Seq::empty(), off))
    } else if off + 81 <= b.len() && b[off + 80] == 0 {
        match spec_parse_headers_entries(b, off + 81, (n - 1) as nat) {
            Some((rest, end)) => Some((seq![spec_parse_header(b, off)] + rest, end)),
            None => None,
        }
    } else {
        None
    }
}

/// The headers a payload holds, if it parses in full and stays within
/// `MAX_HEADERS`.
pub open spec fn spec_parse_headers(b: Seq<u8>) -> Option<Seq<BlockHeaderV>> {
    match spec_parse_varint(b, 0) {
        None => None,
        Some((n, o)) => {
            if n > MAX_HEADERS as u64 {
                None
            } else {
                match spec_parse_headers_entries(b, o, n as nat) {
                    Some((hs, end)) => if end == b.len() {
                        Some(hs)
                    } else {
                        None
                    },
                    None => None,
                }
            }
        },
    }
}

/// Reads a header at `off`.
pub fn parse_header(buf: &Vec<u8>, off: usize) -> (r: BlockHeader)
    requires
        off + 80 <= buf@.len(),
    ensures
        r@ == spec_parse_header(buf@, off as int),
        r@.wf(),
{
    let _len = buf.len();
    let version = read_u32_le(buf, off) as i32;
    let prev_blockhash = copy_range(buf, off + 4, off + 36);
    let merkle_root = copy_range(buf, off + 36, off + 68);
    let time = read_u32_le(buf, off + 68);
    let bits = read_u32_le(buf, off + 72);
    let nonce = read_u32_le(buf, off + 76);
    BlockHeader { version, prev_blockhash, merkle_root, time, bits, nonce }
}

/// Reads `n` header entries at `off`.
fn parse_headers_entries(buf: &Vec<u8>, off: usize, n: usize) -> (r: Option<(Vec<BlockHeader>, usize)>)
    requires
        off <= buf@.len(),
        buf@.len() <= MAX_MESSAGE_SIZE,
        n <= MAX_HEADERS,
    ensures
        match r {
            Some((hs, end)) => spec_parse_headers_entries(buf@, off as int, n as nat) == Some(
                (hs@.map_values(|h: BlockHeader| h@), end as int),
            ) && end <= buf@.len() && hs@.len() == n && crate::tree::headers_wf(
                hs@.map_values(|h: BlockHeader| h@),
            ),
            None => spec_parse_headers_entries(buf@, off as int, n as nat) == None::<
                (Seq<BlockHeaderV>, int),
            >,
        },
    decreases n,
{
    if n == 0 {
        let hs: Vec<BlockHeader> = Vec::new();
        proof {
            assert(hs@.map_values(|h: BlockHeader| h@) =~= Seq::<BlockHeaderV>::empty());
        }
        return Some((hs, off));
    }
    if off + 81 > buf.len() || buf[off + 80] != 0 {
        return None;
    }
    let first = parse_header(buf, off);
    match parse_headers_entries(buf, off + 81, n - 1) {
        Some((rest, end)) => {
            let mut hs: Vec<BlockHeader> = Vec::new();
            hs.push(first);
            let mut k: usize = 0;
            let ghost restv = rest@.map_values(|h: BlockHeader| h@);
            while k < rest.len()
                invariant
                    k <= rest@.len(),
                    restv == rest@.map_values(|h: BlockHeader| h@),
                    hs@.len() == k + 1,
                    hs@[0]@ == spec_parse_header(buf@, off as int),
                    forall|j: int| 1 <= j < k + 1 ==> #[trigger] hs@[j]@ == restv[j - 1],
                decreases rest@.len() - k,
            {
                let h = parse_header_clone(&rest, k);
                hs.push(h);
                k = k + 1;
            }
            proof {
                assert(hs@.map_values(|h: BlockHeader| h@) =~= seq![
                    spec_parse_header(buf@, off as int),
                ] + restv);
            }
            Some((hs, end))
        },
        None => None,
    }
}

/// Copies the header at index `k`.
fn parse_header_clone(v: &Vec<BlockHeader>, k: usize) -> (r: BlockHeader)
    requires
        k < v@.len(),
    ensures
        r@ == v@[k as int]@,
{
    let h = &v[k];
    let mut prev: Vec<u8> = Vec::new();
    push_bytes(&mut prev, &h.prev_blockhash);
    let mut merkle: Vec<u8> = Vec::new();
    push_bytes(&mut merkle, &h.merkle_root);
    proof {
        assert(prev@ =~= h.prev_blockhash@);
        assert(merkle@ =~= h.merkle_root@);
    }
    BlockHeader {
        version: h.version,
        prev_blockhash: prev,
        merkle_root: merkle,
        time: h.time,
        bits: h.bits,
        nonce: h.nonce,
    }
}

/// The command field, 12 bytes, zero padded.
pub open spec fn cmd_version() -> Seq<u8> {
    seq![118u8, 101u8, 114u8, 115u8, 105u8, 111u8, 110u8, 0u8, 0u8, 0u8, 0u8, 0u8]
}

pub open spec fn cmd_verack() -> Seq<u8> {
    seq![118u8, 101u8, 114u8, 97u8, 99u8, 107u8, 0u8, 0u8, 0u8, 0u8, 0u8, 0u8]
}

pub open spec fn cmd_headers() -> Seq<u8> {
    seq![104u8, 101u8, 97u8, 100u8, 101u8, 114u8, 115u8, 0u8, 0u8, 0u8, 0u8, 0u8]
}

pub open spec fn cmd_ping() -> Seq<u8> {
    seq![112u8, 105u8, 110u8, 103u8, 0u8, 0u8, 0u8, 0u8, 0u8, 0u8, 0u8, 0u8]
}

pub open spec fn cmd_pong() -> Seq<u8> {
    seq![112u8, 111u8, 110u8, 103u8, 0u8, 0u8, 0u8, 0u8, 0u8, 0u8, 0u8, 0u8]
}

/// The command that names each message on the wire.
pub open spec fn spec_command(m: NetworkMessageV) -> Seq<u8> {
    match m {
        NetworkMessageV::Version(_) => cmd_version(),
        NetworkMessageV::Verack => cmd_verack(),
        NetworkMessageV::Headers(_) => cmd_headers(),
        NetworkMessageV::Ping(_) => cmd_ping(),
        NetworkMessageV::Pong(_) => cmd_pong(),
    }
}

/// The payload of a message.
pub open spec fn spec_encode_payload(m: NetworkMessageV) -> Seq<u8> {
    match m {
        NetworkMessageV::Version(v) => spec_encode_version(v),
        NetworkMessageV::Verack => Seq::empty(),
        NetworkMessageV::Headers(hs) => spec_encode_headers(hs),
        NetworkMessageV::Ping(x) => spec_u64_le(x),
        NetworkMessageV::Pong(x) => spec_u64_le(x),
    }
}

/// A well-formed message's payload stays within `MAX_MESSAGE_SIZE`.
pub proof fn lemma_payload_len(m: NetworkMessageV)
    requires
        m.wf(),
    ensures
        spec_encode_payload(m).len() <= MAX_MESSAGE_SIZE,
{
    match m {
        NetworkMessageV::Version(v) => {
            assert(spec_varint(v.user_agent.len() as u64).len() <= 3);
        },
        NetworkMessageV::Headers(hs) => {
            assert(crate::tree::headers_wf(hs));
            lemma_headers_entries_len(hs);
            assert(spec_varint(hs.len() as u64).len() == 1);
        },
        _ => {},
    }
}

/// The checksum of a payload: the first four bytes of its double-SHA256
/// digest.
pub open spec fn spec_checksum(p: Seq<u8>) -> Seq<u8> {
    sha256d_of(p).subrange(0, 4)
}

/// A frame: magic, command, payload length, checksum, payload.
pub open spec fn spec_encode_frame(m: RawNetworkMessageV) -> Seq<u8> {
    let p = spec_encode_payload(m.payload);
    spec_u32_le(m.magic) + spec_command(m.payload) + spec_u32_le(p.len() as u32) + spec_checksum(p)
        + p
}

/// The frame read at the head of `b`, and how many bytes it takes: the
/// magic must equal `expected_magic`, the declared length must stay within
/// `MAX_MESSAGE_SIZE`, the checksum must match, the command must be known,
/// and the payload must parse in full.
pub open spec fn spec_parse_frame(b: Seq<u8>, expected_magic: u32) -> Option<
    (RawNetworkMessageV, int),
> {
    if b.len() < 24 {
        None
    } else if u32_from_le(b[0], b[1], b[2], b[3]) != expected_magic {
        None
    } else {
        let plen = u32_from_le(b[16], b[17], b[18], b[19]) as int;
        if plen > MAX_MESSAGE_SIZE {
            None
        } else if b.len() < 24 + plen {
            None
        } else {
            let payload = b.subrange(24, 24 + plen);
            if b.subrange(20, 24) != spec_checksum(payload) {
                None
            } else {
                let cmd = b.subrange(4, 16);
                let msg: Option<NetworkMessageV> = if cmd == cmd_version() {
                    match spec_parse_version(payload) {
                        Some(v) => Some(NetworkMessageV::Version(v)),
                        None => None,
                    }
                } else if cmd == cmd_verack() {
                    if plen == 0 {
                        Some(NetworkMessageV::Verack)
                    } else {
                        None
                    }
                } else if cmd == cmd_headers() {
                    match spec_parse_headers(payload) {
                        Some(hs) => Some(NetworkMessageV::Headers(hs)),
                        None => None,
                    }
                } else if cmd == cmd_ping() {
                    if plen == 8 {
                        Some(
                            NetworkMessageV::Ping(
                                u64_from_le(
                                    payload[0],
                                    payload[1],
                                    payload[2],
                                    payload[3],
                                    payload[4],
                                    payload[5],
                                    payload[6],
                                    payload[7],
                                ),
                            ),
                        )
                    } else {
                        None
                    }
                } else if cmd == cmd_pong() {
                    if plen == 8 {
                        Some(
                            NetworkMessageV::Pong(
                                u64_from_le(
                                    payload[0],
                                    payload[1],
                                    payload[2],
                                    payload[3],
                                    payload[4],
                                    payload[5],
                                    payload[6],
                                    payload[7],
                                ),
                            ),
                        )
                    } else {
                        None
                    }
                } else {
                    None
                };
                match msg {
                    Some(pm) => Some(
                        (RawNetworkMessageV { magic: expected_magic, payload: pm }, 24 + plen),
                    ),
                    None => None,
                }
            }
        }
    }
}

/// Builds the payload of a message.
pub fn encode_payload(m: &NetworkMessage) -> (r: Vec<u8>)
    requires
        m@.wf(),
    ensures
        r@ == spec_encode_payload(m@),
{
    match m {
        NetworkMessage::Version(v) => encode_version_payload(v),
        NetworkMessage::Verack => Vec::new(),
        NetworkMessage::Headers(hs) => {
            let ghost hsv = hs@.map_values(|h: BlockHeader| h@);
            let mut buf: Vec<u8> = Vec::new();
            push_varint(&mut buf, hs.len() as u64);
            let ghost pre = buf@;
            let mut i: usize = 0;
            while i < hs.len()
                invariant
                    i <= hs@.len(),
                    hsv == hs@.map_values(|h: BlockHeader| h@),
                    crate::tree::headers_wf(hsv),
                    buf@ == pre + spec_encode_headers_entries(hsv.take(i as int)),
                decreases hs@.len() - i,
            {
                proof {
                    assert(hsv[i as int] == hs@[i as int]@);
                    assert(hsv[i as int].wf());
                }
                push_header(&mut buf, &hs[i]);
                buf.push(0);
                proof {
                    let t1 = hsv.take(i + 1 as int);
                    assert(t1.drop_last() =~= hsv.take(i as int));
                    assert(t1.last() == hsv[i as int]);
                    assert(buf@ =~= pre + spec_encode_headers_entries(t1));
                }
                i = i + 1;
            }
            proof {
                assert(hsv.take(hsv.len() as int) =~= hsv);
            }
            buf
        },
        NetworkMessage::Ping(x) => {
            let mut buf: Vec<u8> = Vec::new();
            push_u64_le(&mut buf, *x);
            buf
        },
        NetworkMessage::Pong(x) => {
            let mut buf: Vec<u8> = Vec::new();
            push_u64_le(&mut buf, *x);
            buf
        },
    }
}

/// The 12 command bytes of a message.
pub fn command_bytes(m: &NetworkMessage) -> (r: Vec<u8>)
    ensures
        r@ == spec_command(m@),
{
    let mut buf: Vec<u8> = Vec::new();
    match m {
        NetworkMessage::Version(_) => {
            buf.push(118);
            buf.push(101);
            buf.push(114);
            buf.push(115);
            buf.push(105);
            buf.push(111);
            buf.push(110);
            buf.push(0);
            buf.push(0);
            buf.push(0);
            buf.push(0);
            buf.push(0);
            proof {
                assert(buf@ =~= cmd_version());
            }
        },
        NetworkMessage::Verack => {
            buf.push(118);
            buf.push(101);
            buf.push(114);
            buf.push(97);
            buf.push(99);
            buf.push(107);
            buf.push(0);
            buf.push(0);
            buf.push(0);
            buf.push(0);
            buf.push(0);
            buf.push(0);
            proof {
                assert(buf@ =~= cmd_verack());
            }
        },
        NetworkMessage::Headers(_) => {
            buf.push(104);
            buf.push(101);
            buf.push(97);
            buf.push(100);
            buf.push(101);
            buf.push(114);
            buf.push(115);
            buf.push(0);
            buf.push(0);
            buf.push(0);
            buf.push(0);
            buf.push(0);
            proof {
                assert(buf@ =~= cmd_headers());
            }
        },
        NetworkMessage::Ping(_) => {
            buf.push(112);
            buf.push(105);
            buf.push(110);
            buf.push(103);
            buf.push(0);
            buf.push(0);
            buf.push(0);
            buf.push(0);
            buf.push(0);
            buf.push(0);
            buf.push(0);
            buf.push(0);
            proof {
                assert(buf@ =~= cmd_ping());
            }
        },
        NetworkMessage::Pong(_) => {
            buf.push(112);
            buf.push(111);
            buf.push(110);
            buf.push(103);
            buf.push(0);
            buf.push(0);
            buf.push(0);
            buf.push(0);
            buf.push(0);
            buf.push(0);
            buf.push(0);
            buf.push(0);
            proof {
                assert(buf@ =~= cmd_pong());
            }
        },
    }
    buf
}

/// Frames a message: magic, command, payload length, checksum, payload.
pub fn encode_frame(m: &RawNetworkMessage) -> (r: Vec<u8>)
    requires
        m@.wf(),
    ensures
        r@ == spec_encode_frame(m@),
{
    proof {
        lemma_payload_len(m.payload@);
    }
    let payload = encode_payload(&m.payload);
    let digest = sha256d(&payload);
    let mut buf: Vec<u8> = Vec::new();
    push_u32_le(&mut buf, m.magic);
    let cmd = command_bytes(&m.payload);
    push_bytes(&mut buf, &cmd);
    push_u32_le(&mut buf, payload.len() as u32);
    buf.push(digest[0]);
    buf.push(digest[1]);
    buf.push(digest[2]);
    buf.push(digest[3]);
    push_bytes(&mut buf, &payload);
    proof {
        assert(seq![digest@[0], digest@[1], digest@[2], digest@[3]] =~= spec_checksum(payload@));
        assert(buf@ =~= spec_encode_frame(m@));
    }
    buf
}

/// Whether the 12 bytes at `off` equal `cmd`.
fn command_matches(buf: &Vec<u8>, off: usize, cmd: &Vec<u8>) -> (r: bool)
    requires
        cmd@.len() == 12,
        off + 12 <= buf@.len(),
    ensures
        r == (buf@.subrange(off as int, off + 12) == cmd@),
{
    let _len = buf.len();
    let slice = copy_range(buf, off, off + 12);
    bytes_eq(&slice, cmd)
}

/// Decodes the frame at the head of `buf`: returns the message and the
/// number of bytes consumed, or which failure gates it. A wrong magic is
/// `MagicMismatch`; every other failure (truncated frame, oversize length,
/// checksum mismatch, unknown command, payload that does not parse) is
/// `DecodeFailed`, exactly as `spec_parse_frame` says.
pub fn decode_frame(buf: &Vec<u8>, expected_magic: u32) -> (r: Result<
    (RawNetworkMessage, usize),
    Error,
>)
    ensures
        match r {
            Ok((m, used)) => spec_parse_frame(buf@, expected_magic) == Some((m@, used as int))
                && used <= buf@.len(),
            Err(e) => {
                &&& spec_parse_frame(buf@, expected_magic) == None::<(RawNetworkMessageV, int)>
                &&& (e == Error::MagicMismatch || e == Error::DecodeFailed)
                &&& ((e == Error::MagicMismatch) <==> (buf@.len() >= 24 && u32_from_le(
                    buf@[0],
                    buf@[1],
                    buf@[2],
                    buf@[3],
                ) != expected_magic))
            },
        },
{
    let n = buf.len();
    if n < 24 {
        return Err(Error::DecodeFailed);
    }
    let magic = read_u32_le(buf, 0);
    if magic != expected_magic {
        return Err(Error::MagicMismatch);
    }
    let plen32 = read_u32_le(buf, 16);
    if plen32 > MAX_MESSAGE_SIZE as u32 {
        return Err(Error::DecodeFailed);
    }
    let plen = plen32 as usize;
    if n < 24 + plen {
        return Err(Error::DecodeFailed);
    }
    let payload = copy_range(buf, 24, 24 + plen);
    let digest = sha256d(&payload);
    let ghost ck = buf@.subrange(20, 24);
    if !(buf[20] == digest[0] && buf[21] == digest[1] && buf[22] == digest[2] && buf[23]
        == digest[3]) {
        proof {
            assert(ck[0] == buf@[20] && ck[1] == buf@[21] && ck[2] == buf@[22] && ck[3]
                == buf@[23]);
            assert(spec_checksum(payload@).len() == 4);
            assert(ck != spec_checksum(payload@));
        }
        return Err(Error::DecodeFailed);
    }
    proof {
        assert(ck =~= spec_checksum(payload@));
    }
    let used = 24 + plen;
    let vcmd = command_bytes(&NetworkMessage::Verack);
    if command_matches(buf, 4, &vcmd) {
        if plen == 0 {
            return Ok((RawNetworkMessage { magic, payload: NetworkMessage::Verack }, used));
        }
        return Err(Error::DecodeFailed);
    }
    let vercmd = command_bytes(&NetworkMessage::Version(blank_version()));
    if command_matches(buf, 4, &vercmd) {
        match parse_version_payload(&payload) {
            Some(v) => {
                return Ok((RawNetworkMessage { magic, payload: NetworkMessage::Version(v) }, used));
            },
            None => {
                return Err(Error::DecodeFailed);
            },
        }
    }
    let hcmd = command_bytes(&NetworkMessage::Headers(Vec::new()));
    if command_matches(buf, 4, &hcmd) {
        match parse_headers_payload(&payload) {
            Some(hs) => {
                return Ok((RawNetworkMessage { magic, payload: NetworkMessage::Headers(hs) }, used));
            },
            None => {
                return Err(Error::DecodeFailed);
            },
        }
    }
    let pingcmd = command_bytes(&NetworkMessage::Ping(0));
    if command_matches(buf, 4, &pingcmd) {
        if plen == 8 {
            let x = read_u64_le(&payload, 0);
            return Ok((RawNetworkMessage { magic, payload: NetworkMessage::Ping(x) }, used));
        }
        return Err(Error::DecodeFailed);
    }
    let pongcmd = command_bytes(&NetworkMessage::Pong(0));
    if command_matches(buf, 4, &pongcmd) {
        if plen == 8 {
            let x = read_u64_le(&payload, 0);
            return Ok((RawNetworkMessage { magic, payload: NetworkMessage::Pong(x) }, used));
        }
        return Err(Error::DecodeFailed);
    }
    Err(Error::DecodeFailed)
}

/// An all-zero version message; only its command name is ever used of it.
fn blank_version() -> (r: VersionMessage)
    ensures
        r@ == (VersionMessageV {
            version: 0u32,
            services: 0u64,
            timestamp: 0i64,
            receiver: NetAddr { services: 0u64, addr: PeerId { ip: 0u32, port: 0u16 } },
            sender: NetAddr { services: 0u64, addr: PeerId { ip: 0u32, port: 0u16 } },
            nonce: 0u64,
            user_agent: Seq::<u8>::empty(),
            start_height: 0i32,
            relay: false,
        }),
{
    let addr = PeerId { ip: 0, port: 0 };
    let r = VersionMessage {
        version: 0,
        services: 0,
        timestamp: 0,
        receiver: NetAddr { services: 0, addr },
        sender: NetAddr { services: 0, addr },
        nonce: 0,
        user_agent: Vec::new(),
        start_height: 0,
        relay: false,
    };
    proof {
        assert(r@.user_agent =~= Seq::<u8>::empty());
    }
    r
}

/// Parses the payload of a `headers` message in full.
pub fn parse_headers_payload(buf: &Vec<u8>) -> (r: Option<Vec<BlockHeader>>)
    requires
        buf@.len() <= MAX_MESSAGE_SIZE,
    ensures
        match r {
            Some(hs) => spec_parse_headers(buf@) == Some(hs@.map_values(|h: BlockHeader| h@))
                && hs@.map_values(|h: BlockHeader| h@).len() <= MAX_HEADERS
                && crate::tree::headers_wf(hs@.map_values(|h: BlockHeader| h@)),
            None => spec_parse_headers(buf@) == None::<Seq<BlockHeaderV>>,
        },
{
    let (n64, o) = match parse_varint(buf, 0) {
        Some(t) => t,
        None => {
            return None;
        },
    };
    if n64 > MAX_HEADERS as u64 {
        return None;
    }
    match parse_headers_entries(buf, o, n64 as usize) {
        Some((hs, end)) => {
            if end == buf.len() {
                Some(hs)
            } else {
                None
            }
        },
        None => None,
    }
}

/// Whether two byte strings hold the same bytes.
pub fn bytes_eq(a: &Vec<u8>, b: &Vec<u8>) -> (r: bool)
    ensures
        r == (a@ == b@),
{
    if a.len() != b.len() {
        proof {
            assert(a@.len() != b@.len());
        }
        return false;
    }
    let mut i: usize = 0;
    while i < a.len()
        invariant
            i <= a@.len(),
            a@.len() == b@.len(),
            forall|j: int| 0 <= j < i ==> a@[j] == b@[j],
        decreases a@.len() - i,
    {
        if a[i] != b[i] {
            return false;
        }
        i = i + 1;
    }
    proof {
        assert(a@ =~= b@);
    }
    true
}

} // verus!
