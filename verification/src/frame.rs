//! Packet framing: the fixed little-endian header, the connectionless
//! marker that bypasses the netchannel protocol entirely, and the choked
//! count byte that can precede the payload.

use vstd::prelude::*;
use crate::bits::{bits_value, lemma_bits_value_prefix};
use crate::bitreader::BitReader;
use crate::fault::DecodeFault;

verus! {

pub const PACKET_FLAG_RELIABLE: u8 = 1;
pub const PACKET_FLAG_COMPRESSED: u8 = 2;
pub const PACKET_FLAG_ENCRYPTED: u8 = 4;
pub const PACKET_FLAG_SPLIT: u8 = 8;
pub const PACKET_FLAG_CHOKED: u8 = 16;

/// The byte size of the fixed packet header.
pub const HEADER_BYTES: usize = 12;

/// The fixed packet header: little-endian, no padding.
#[derive(Clone, Copy, Debug, PartialEq, Eq, Structural)]
pub struct NetPacketHeader {
    pub sequence: u32,
    pub sequence_ack: u32,
    pub flags: u8,
    pub checksum: u16,
    pub rel_state: u8,
}

/// The first four bytes are the connectionless marker.
pub open spec fn is_connectionless(c: Seq<u8>) -> bool {
    c.len() >= 4 && c[0] == 0xff && c[1] == 0xff && c[2] == 0xff && c[3] == 0xff
}

pub open spec fn sp_header(c: Seq<u8>) -> NetPacketHeader {
    NetPacketHeader {
        sequence: bits_value(c, 0, 32) as u32,
        sequence_ack: bits_value(c, 32, 32) as u32,
        flags: bits_value(c, 64, 8) as u8,
        checksum: bits_value(c, 72, 16) as u16,
        rel_state: bits_value(c, 88, 8) as u8,
    }
}

/// Where the payload of a framed packet starts: right after the header,
/// or one byte later when the packet is choked.
pub open spec fn sp_payload_start(c: Seq<u8>) -> int {
    if sp_header(c).flags & PACKET_FLAG_CHOKED != 0 {
        HEADER_BYTES + 1
    } else {
        HEADER_BYTES as int
    }
}

pub enum FramedPacket {
    /// Not netchannel-framed: the packet must not be touched further.
    Bypass,
    Framed { header: NetPacketHeader, payload_start: usize },
}

pub open spec fn sp_frame(c: Seq<u8>) -> Result<FramedPacket, DecodeFault> {
    if is_connectionless(c) {
        Ok(FramedPacket::Bypass)
    } else if c.len() < HEADER_BYTES {
        Err(DecodeFault::MalformedHeader)
    } else if c.len() < sp_payload_start(c) {
        Err(DecodeFault::MalformedHeader)
    } else {
        Ok(
            FramedPacket::Framed {
                header: sp_header(c),
                payload_start: sp_payload_start(c) as usize,
            },
        )
    }
}

/// Copy `v[from..to]` into a fresh vector.
pub fn copy_range(v: &Vec<u8>, from: usize, to: usize) -> (r: Vec<u8>)
    requires
        from <= to <= v@.len(),
    ensures
        r@ == v@.subrange(from as int, to as int),
{
    let mut out: Vec<u8> = Vec::new();
    let mut i: usize = from;
    while i < to
        invariant
            from <= i <= to <= v@.len(),
            out@.len() == i - from,
            forall|j: int| 0 <= j < out@.len() ==> out@[j] == v@[from + j],
        decreases to - i,
    {
        let b = v[i];
        out.push(b);
        i = i + 1;
    }
    proof {
        assert(out@ =~= v@.subrange(from as int, to as int));
    }
    out
}

/// Frame a raw packet: recognize the connectionless marker, or parse the
/// fixed header and locate the payload.
pub fn parse_packet(packet: &Vec<u8>) -> (r: Result<FramedPacket, DecodeFault>)
    ensures
        r == sp_frame(packet@),
{
    if packet.len() >= 4 && packet[0] == 0xff && packet[1] == 0xff && packet[2] == 0xff
        && packet[3] == 0xff {
        return Ok(FramedPacket::Bypass);
    }
    if packet.len() < HEADER_BYTES {
        return Err(DecodeFault::MalformedHeader);
    }
    let hdr_bytes = copy_range(packet, 0, HEADER_BYTES);
    let mut reader = BitReader::new(hdr_bytes);
    let sequence = reader.read_u32(32);
    let sequence_ack = reader.read_u32(32);
    let flags = reader.read_u8(8);
    let checksum = reader.read_u16(16);
    let rel_state = reader.read_u8(8);
    proof {
        let c = packet@;
        assert(c.subrange(0, 12) =~= c.take(12));
        lemma_bits_value_prefix(c, 12, 0, 32);
        lemma_bits_value_prefix(c, 12, 32, 32);
        lemma_bits_value_prefix(c, 12, 64, 8);
        lemma_bits_value_prefix(c, 12, 72, 16);
        lemma_bits_value_prefix(c, 12, 88, 8);
    }
    let header = NetPacketHeader { sequence, sequence_ack, flags, checksum, rel_state };
    let payload_start: usize = if flags & PACKET_FLAG_CHOKED != 0 {
        HEADER_BYTES + 1
    } else {
        HEADER_BYTES
    };
    if packet.len() < payload_start {
        return Err(DecodeFault::MalformedHeader);
    }
    Ok(FramedPacket::Framed { header, payload_start })
}

} // verus!
