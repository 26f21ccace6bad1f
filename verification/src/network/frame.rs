//! Ethernet and IPv4: the headers that every frame of the system carries.

use vstd::prelude::*;
use crate::bytes::{
    all_zero, array_at, be16, bytes_equal, copy_into, get_be_u16, put_be_u16, same_outside, splice,
    zero_between,
};
use crate::network::checksum::{checksum_of, internet_checksum, stored_checksum_verifies};

verus! {

pub const MAX_ETHERNET_FRAME: usize = 1514;

pub const MIN_ETHERNET_FRAME: usize = 60;

pub const ETHERNET_HEADER_BYTES: usize = 14;

pub const IPV4_HEADER_BYTES: usize = 20;

pub const UDP_HEADER_BYTES: usize = 8;

pub const ETHERTYPE_IPV4: u16 = 0x0800;

pub const ETHERTYPE_ARP: u16 = 0x0806;

pub const IP_PROTOCOL_ICMP: u8 = 1;

pub const IP_PROTOCOL_TCP: u8 = 6;

pub const IP_PROTOCOL_UDP: u8 = 17;

/// Why the network refused or failed a request.
#[derive(Debug, Clone, Copy, PartialEq, Eq, Structural)]
pub enum NetworkError {
    DeviceNotFound,
    InvalidIoBar,
    QueueUnavailable(u16),
    QueueTooSmall(u16),
    QueueAddressTooHigh,
    DmaAddressUnavailable,
    DeviceRejected,
    FrameTooLarge,
    PacketMalformed,
    RequestTimedOut,
    DhcpTimedOut,
    DhcpRejected,
    ArpTimedOut,
    IcmpTimedOut,
    DnsTimedOut,
    DnsRejected,
    TcpTimedOut,
    TcpRejected,
    HttpRejected,
}

/// The Ethernet header of `frame`.
pub open spec fn ethernet_header(
    frame: Seq<u8>,
    destination: Seq<u8>,
    source: Seq<u8>,
    ethertype: int,
) -> bool {
    &&& frame.subrange(0, 6) == destination
    &&& frame.subrange(6, 12) == source
    &&& be16(frame, 12) == ethertype
}

/// The IPv4 header of `frame`, as the system writes it: no options, not fragmented, and with its
/// own checksum.
pub open spec fn ipv4_header(
    frame: Seq<u8>,
    total: int,
    identifier: int,
    protocol: int,
    source: Seq<u8>,
    destination: Seq<u8>,
) -> bool {
    &&& frame[14] == 0x45
    &&& frame[15] == 0
    &&& be16(frame, 16) == total
    &&& be16(frame, 18) == identifier
    &&& be16(frame, 20) == 0x4000
    &&& frame[22] == 64
    &&& frame[23] == protocol
    &&& be16(frame, 24) == checksum_of(splice(frame.subrange(14, 34), 10, seq![0u8, 0u8]))
    &&& frame.subrange(26, 30) == source
    &&& frame.subrange(30, 34) == destination
}

/// How many bytes the IPv4 header of `frame` takes.
pub open spec fn ipv4_header_length(frame: Seq<u8>) -> int {
    frame[14] as int % 16 * 4
}

/// How many bytes the IPv4 packet of `frame` takes.
pub open spec fn ipv4_length(frame: Seq<u8>) -> int {
    be16(frame, 16)
}

/// Where the payload of the IPv4 packet of `frame` starts.
pub open spec fn ipv4_payload(frame: Seq<u8>) -> int {
    14 + ipv4_header_length(frame)
}

/// Where the IPv4 packet of `frame` ends.
pub open spec fn ipv4_end(frame: Seq<u8>) -> int {
    14 + ipv4_length(frame)
}

/// Whether `frame` holds a whole IPv4 packet of this protocol, with a sound header and at least
/// `minimum` bytes of payload.
pub open spec fn sound_ipv4(frame: Seq<u8>, protocol: int, minimum: int) -> bool {
    &&& frame.len() >= 34
    &&& be16(frame, 12) == ETHERTYPE_IPV4
    &&& frame[14] as int / 16 == 4
    &&& ipv4_header_length(frame) >= IPV4_HEADER_BYTES
    &&& ipv4_length(frame) >= ipv4_header_length(frame) + minimum
    &&& ipv4_end(frame) <= frame.len()
    &&& checksum_of(frame.subrange(14, ipv4_payload(frame))) == 0
    &&& frame[23] == protocol
    &&& be16(frame, 20) % 0x4000 == 0
}

/// Whether a hardware address belongs to one station.
pub open spec fn unicast(mac: Seq<u8>) -> bool {
    !zero_between(mac, 0, 6) && mac[0] % 2 == 0
}

/// Whether a hardware address belongs to one station.
pub fn is_unicast(mac: &[u8; 6]) -> (result: bool)
    ensures
        result == unicast(mac@),
{
    !all_zero(mac) && mac[0] % 2 == 0
}

/// Whether the bytes of `frame` from `offset` on are `expected`.
pub fn holds(frame: &[u8], offset: usize, expected: &[u8]) -> (result: bool)
    requires
        offset + expected@.len() <= frame.len(),
    ensures
        result == (frame@.subrange(offset as int, offset + expected@.len()) == expected@),
{
    bytes_equal(&frame[offset..offset + expected.len()], expected)
}

/// Writes the Ethernet header.
pub fn put_ethernet_header(
    frame: &mut [u8],
    destination: &[u8; 6],
    source: &[u8; 6],
    ethertype: u16,
)
    requires
        old(frame).len() >= 14,
    ensures
        ethernet_header(final(frame)@, destination@, source@, ethertype as int),
        same_outside(old(frame)@, final(frame)@, 0, 14),
{
    copy_into(frame, 0, destination);
    copy_into(frame, 6, source);
    put_be_u16(frame, 12, ethertype);
    assert(frame@.subrange(0, 6) =~= destination@);
    assert(frame@.subrange(6, 12) =~= source@);
}

/// Writes the IPv4 header, checksum included.
pub fn put_ipv4_header(
    frame: &mut [u8],
    total: u16,
    identifier: u16,
    protocol: u8,
    source: &[u8; 4],
    destination: &[u8; 4],
)
    requires
        old(frame).len() >= 34,
    ensures
        ipv4_header(
            final(frame)@,
            total as int,
            identifier as int,
            protocol as int,
            source@,
            destination@,
        ),
        checksum_of(final(frame)@.subrange(14, 34)) == 0,
        same_outside(old(frame)@, final(frame)@, 14, 20),
{
    frame[14] = 0x45;
    frame[15] = 0;
    put_be_u16(frame, 16, total);
    put_be_u16(frame, 18, identifier);
    put_be_u16(frame, 20, 0x4000);
    frame[22] = 64;
    frame[23] = protocol;
    put_be_u16(frame, 24, 0);
    copy_into(frame, 26, source);
    copy_into(frame, 30, destination);
    let ghost plain = frame@;
    let checksum: u16 = internet_checksum(&frame[14..34]);
    put_be_u16(frame, 24, checksum);
    proof {
        let before = plain.subrange(14, 34);
        let after = frame@.subrange(14, 34);
        assert(be16(before, 10) == be16(plain, 24));
        assert(plain[24] == 0 && plain[25] == 0);
        assert(splice(after, 10, seq![0u8, 0u8]) =~= before);
        assert(be16(after, 10) == be16(frame@, 24));
        stored_checksum_verifies(before, after, 10);
        assert(frame@.subrange(26, 30) =~= source@);
        assert(frame@.subrange(30, 34) =~= destination@);
    }
}

/// Where the payload of a sound IPv4 packet starts and ends.
pub fn check_ipv4(frame: &[u8], protocol: u8, minimum: usize) -> (payload: Option<(usize, usize)>)
    ensures
        match payload {
            Some((start, end)) => sound_ipv4(frame@, protocol as int, minimum as int) && start
                == ipv4_payload(frame@) && end == ipv4_end(frame@) && start + minimum <= end
                <= frame@.len() && start >= 34,
            None => !sound_ipv4(frame@, protocol as int, minimum as int),
        },
{
    if frame.len() < 34 || get_be_u16(frame, 12) != ETHERTYPE_IPV4 {
        return None;
    }
    let header_bytes: usize = (frame[14] % 16) as usize * 4;
    let total_bytes: usize = get_be_u16(frame, 16) as usize;
    if frame[14] / 16 != 4 || header_bytes < IPV4_HEADER_BYTES || total_bytes < header_bytes
        || total_bytes - header_bytes < minimum || frame.len() - 14 < total_bytes {
        return None;
    }
    if internet_checksum(&frame[14..14 + header_bytes]) != 0 || frame[23] != protocol || get_be_u16(
        frame,
        20,
    ) % 0x4000 != 0 {
        return None;
    }
    Some((14 + header_bytes, 14 + total_bytes))
}

/// The IPv4 address at `offset`.
pub fn read_ipv4(input: &[u8], offset: usize) -> (result: Result<[u8; 4], NetworkError>)
    ensures
        match result {
            Ok(address) => offset + 4 <= input@.len() && address@ == input@.subrange(
                offset as int,
                offset + 4,
            ),
            Err(error) => error == NetworkError::PacketMalformed && offset + 4 > input@.len(),
        },
{
    if input.len() < 4 || offset > input.len() - 4 {
        return Err(NetworkError::PacketMalformed);
    }
    Ok(array_at(input, offset))
}

/// The identifier of the packets between two ports.
pub fn query_packet_id(source_port: u16, destination_port: u16) -> (identifier: u16)
    ensures
        identifier == source_port ^ destination_port,
{
    source_port ^ destination_port
}

} // verus!
