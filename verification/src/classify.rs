//! Classification of a raw packet: IPv4/UDP framing.
//!
//! The classifier reads just far enough into the packet to tell whether it
//! is an IPv4 datagram carrying UDP, and if so where the UDP payload
//! starts and which ports it uses. Malformed or truncated headers are not
//! an error: the packet is simply not classifiable as UDP, and the caller
//! treats it as non-DNS traffic. A pure function of the input bytes.

use vstd::prelude::*;

verus! {

/// The protocol number of UDP in the IPv4 header.
pub const UDP_PROTOCOL: u8 = 17;

/// The length in bytes of an IPv4 header is at least this.
pub const MIN_IPV4_HEADER_LEN: usize = 20;

/// The length in bytes of a UDP header.
pub const UDP_HEADER_LEN: usize = 8;

/// The length in bytes of the IPv4 header declared by the packet itself:
/// four times the header-length field in the low nibble of the first byte.
pub open spec fn ipv4_header_len(p: Seq<u8>) -> int {
    4 * ((p[0] as int) % 16)
}

/// The packet is an IPv4 datagram carrying a complete UDP header: version
/// nibble 4, a declared header length of at least 20 bytes that the buffer
/// actually holds, protocol UDP, and room for the 8-byte UDP header.
pub open spec fn is_ipv4_udp(p: Seq<u8>) -> bool {
    &&& p.len() >= MIN_IPV4_HEADER_LEN
    &&& (p[0] as int) / 16 == 4
    &&& (p[0] as int) % 16 >= 5
    &&& ipv4_header_len(p) + UDP_HEADER_LEN <= p.len()
    &&& p[9] == UDP_PROTOCOL
}

/// The UDP source port, read big-endian from the first two UDP header bytes.
pub open spec fn udp_src_port(p: Seq<u8>) -> int {
    256 * (p[ipv4_header_len(p)] as int) + (p[ipv4_header_len(p) + 1] as int)
}

/// The UDP destination port, read big-endian from the next two bytes.
pub open spec fn udp_dst_port(p: Seq<u8>) -> int {
    256 * (p[ipv4_header_len(p) + 2] as int) + (p[ipv4_header_len(p) + 3] as int)
}

/// Where the UDP payload starts: after the IPv4 and UDP headers.
pub open spec fn udp_payload_offset(p: Seq<u8>) -> int {
    ipv4_header_len(p) + UDP_HEADER_LEN
}

/// The UDP payload: everything after the IPv4 and UDP headers.
pub open spec fn udp_payload(p: Seq<u8>) -> Seq<u8> {
    p.subrange(udp_payload_offset(p), p.len() as int)
}

/// The read-only view a classified UDP packet offers: the two ports and
/// the offset at which the UDP payload starts in the packet buffer.
#[derive(Clone, Copy, Debug, PartialEq, Eq, Structural)]
pub struct UdpInfo {
    /// UDP source port.
    pub src_port: u16,
    /// UDP destination port.
    pub dst_port: u16,
    /// Offset of the first UDP payload byte in the packet buffer.
    pub payload_offset: usize,
}

/// Classify a raw packet buffer. Returns the UDP framing information when
/// the packet is IPv4 carrying a complete UDP header, and `None` otherwise
/// — truncated or malformed headers are not classifiable, not an error.
pub fn classify(packet: &[u8]) -> (r: Option<UdpInfo>)
    ensures
        r is Some <==> is_ipv4_udp(packet@),
        r matches Some(info) ==> {
            &&& info.src_port == udp_src_port(packet@)
            &&& info.dst_port == udp_dst_port(packet@)
            &&& info.payload_offset == udp_payload_offset(packet@)
            &&& info.payload_offset <= packet@.len()
        },
{
    if packet.len() < MIN_IPV4_HEADER_LEN {
        return None;
    }
    let b0 = packet[0];
    if b0 / 16 != 4 {
        return None;
    }
    let ihl = (b0 % 16) as usize;
    if ihl < 5 {
        return None;
    }
    let header_len = 4 * ihl;
    if packet.len() < header_len + UDP_HEADER_LEN {
        return None;
    }
    if packet[9] != UDP_PROTOCOL {
        return None;
    }
    let src_port = 256 * (packet[header_len] as u16) + (packet[header_len + 1] as u16);
    let dst_port = 256 * (packet[header_len + 2] as u16) + (packet[header_len + 3] as u16);
    Some(UdpInfo { src_port, dst_port, payload_offset: header_len + UDP_HEADER_LEN })
}

} // verus!
