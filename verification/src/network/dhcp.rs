//! DHCP: how the system obtains its address.

use vstd::prelude::*;
use crate::bytes::{
    all_zero, append, array_at, be16, be32, bytes_equal, copy_into, get_be_u32, put_be_u16,
    put_be_u32, zero_between,
};
use crate::network::arp::broadcast_mac;
use crate::network::checksum::checksum_of;
use crate::network::frame::{
    ethernet_header, holds, ipv4_header, ipv4_payload, put_ethernet_header, put_ipv4_header,
    NetworkError, ETHERTYPE_IPV4, IP_PROTOCOL_UDP,
};
use crate::network::route::{default_dns, default_dns_server};
use crate::network::udp::{check_udp, sound_udp, udp_end};

verus! {

pub const DHCP_XID: u32 = 0x4344_584f;

pub const DHCP_FRAME_BYTES: usize = 342;

pub const DHCP_SERVER_PORT: u16 = 67;

pub const DHCP_CLIENT_PORT: u16 = 68;

pub const DHCP_DISCOVER: u8 = 1;

pub const DHCP_OFFER: u8 = 2;

pub const DHCP_REQUEST: u8 = 3;

pub const DHCP_ACK: u8 = 5;

/// What tells a DHCP message from a plain BOOTP message.
pub const DHCP_COOKIE: [u8; 4] = [99, 130, 83, 99];

/// `"codexos"`.
pub const HOST_NAME: [u8; 7] = [0x63, 0x6f, 0x64, 0x65, 0x78, 0x6f, 0x73];

/// The options that the system asks for.
pub const REQUESTED_OPTIONS: [u8; 5] = [1, 3, 6, 51, 54];

/// One option: its code, its length, its value.
pub open spec fn option_bytes(code: u8, value: Seq<u8>) -> Seq<u8> {
    seq![code, value.len() as u8] + value
}

/// An option that may be left out.
pub open spec fn optional_bytes(code: u8, value: Option<Seq<u8>>) -> Seq<u8> {
    match value {
        Some(value) => option_bytes(code, value),
        None => Seq::empty(),
    }
}

/// The options of the system's messages.
pub open spec fn client_options(
    mac: Seq<u8>,
    message_type: u8,
    requested: Option<Seq<u8>>,
    server: Option<Seq<u8>>,
) -> Seq<u8> {
    option_bytes(53, seq![message_type]) + option_bytes(61, seq![1u8] + mac) + option_bytes(
        12,
        HOST_NAME@,
    ) + option_bytes(55, REQUESTED_OPTIONS@) + optional_bytes(50, requested) + optional_bytes(
        54,
        server,
    ) + seq![255u8]
}

/// `frame` is a message of the system to every DHCP server, with these options.
pub open spec fn dhcp_frame(frame: Seq<u8>, mac: Seq<u8>, options: Seq<u8>) -> bool {
    &&& frame.len() == DHCP_FRAME_BYTES
    &&& 282int + options.len() <= frame.len()
    &&& ethernet_header(frame, broadcast_mac(), mac, ETHERTYPE_IPV4 as int)
    &&& ipv4_header(
        frame,
        328,
        0x584f,
        IP_PROTOCOL_UDP as int,
        Seq::new(4, |i: int| 0u8),
        Seq::new(4, |i: int| 0xffu8),
    )
    &&& be16(frame, 34) == DHCP_CLIENT_PORT
    &&& be16(frame, 36) == DHCP_SERVER_PORT
    &&& be16(frame, 38) == 308
    &&& be16(frame, 40) == 0
    &&& frame[42] == 1
    &&& frame[43] == 1
    &&& frame[44] == 6
    &&& frame[45] == 0
    &&& be32(frame, 46) == DHCP_XID
    &&& be16(frame, 50) == 0
    &&& be16(frame, 52) == 0x8000
    &&& zero_between(frame, 54, 70)
    &&& frame.subrange(70, 76) == mac
    &&& zero_between(frame, 76, 278)
    &&& frame.subrange(278, 282) == DHCP_COOKIE@
    &&& frame.subrange(282, 282int + options.len()) == options
    &&& zero_between(frame, 282int + options.len(), DHCP_FRAME_BYTES as int)
}

/// The options of a server's message that the system understands.
#[derive(Clone, Copy)]
pub struct DhcpOptions {
    pub message_type: Option<u8>,
    pub subnet_mask: Option<[u8; 4]>,
    pub gateway: Option<[u8; 4]>,
    pub server: Option<[u8; 4]>,
    pub dns_server: Option<[u8; 4]>,
    pub lease_seconds: Option<u32>,
}

/// What the options of a server's message say.
#[verifier::ext_equal]
pub ghost struct DhcpValues {
    pub message_type: Option<u8>,
    pub subnet_mask: Option<Seq<u8>>,
    pub gateway: Option<Seq<u8>>,
    pub server: Option<Seq<u8>>,
    pub dns_server: Option<Seq<u8>>,
    pub lease_seconds: Option<u32>,
}

/// The bytes of an address that may be missing.
pub open spec fn address_bytes(address: Option<[u8; 4]>) -> Option<Seq<u8>> {
    match address {
        Some(address) => Some(address@),
        None => None,
    }
}

impl View for DhcpOptions {
    type V = DhcpValues;

    open spec fn view(&self) -> DhcpValues {
        DhcpValues {
            message_type: self.message_type,
            subnet_mask: address_bytes(self.subnet_mask),
            gateway: address_bytes(self.gateway),
            server: address_bytes(self.server),
            dns_server: address_bytes(self.dns_server),
            lease_seconds: self.lease_seconds,
        }
    }
}

/// Options that say nothing.
pub open spec fn no_values() -> DhcpValues {
    DhcpValues {
        message_type: None,
        subnet_mask: None,
        gateway: None,
        server: None,
        dns_server: None,
        lease_seconds: None,
    }
}

/// What `values` become by one more option. One of unknown code or of the wrong length is ignored.
pub open spec fn with_option(values: DhcpValues, code: u8, value: Seq<u8>) -> DhcpValues {
    if code == 53 && value.len() == 1 {
        DhcpValues { message_type: Some(value[0]), ..values }
    } else if code == 1 && value.len() == 4 {
        DhcpValues { subnet_mask: Some(value), ..values }
    } else if code == 3 && value.len() >= 4 {
        DhcpValues { gateway: Some(value.take(4)), ..values }
    } else if code == 6 && value.len() >= 4 {
        DhcpValues { dns_server: Some(value.take(4)), ..values }
    } else if code == 54 && value.len() == 4 {
        DhcpValues { server: Some(value), ..values }
    } else if code == 51 && value.len() == 4 {
        DhcpValues { lease_seconds: Some(be32(value, 0) as u32), ..values }
    } else {
        values
    }
}

/// What `values` become by the options from `cursor` on, which an end mark must close.
pub open spec fn options_from(bytes: Seq<u8>, cursor: int, values: DhcpValues) -> Result<
    DhcpValues,
    NetworkError,
>
    decreases bytes.len() - cursor,
{
    if cursor < 0 || cursor >= bytes.len() {
        Err(NetworkError::PacketMalformed)
    } else if bytes[cursor] == 0 {
        options_from(bytes, cursor + 1, values)
    } else if bytes[cursor] == 255 {
        Ok(values)
    } else if cursor + 1 >= bytes.len() || cursor + 2 + bytes[cursor + 1] > bytes.len() {
        Err(NetworkError::PacketMalformed)
    } else {
        let end = cursor + 2 + bytes[cursor + 1];
        options_from(
            bytes,
            end,
            with_option(values, bytes[cursor], bytes.subrange(cursor + 2, end)),
        )
    }
}

/// A message of a DHCP server.
#[derive(Clone, Copy)]
pub struct DhcpMessage {
    pub offered_address: [u8; 4],
    pub options: DhcpOptions,
}

/// Where the BOOTP message of a sound datagram starts.
pub open spec fn bootp(frame: Seq<u8>) -> int {
    ipv4_payload(frame) + 8
}

/// The BOOTP message of `frame` is a reply to the system.
pub open spec fn bootp_reply(frame: Seq<u8>, mac: Seq<u8>) -> bool {
    let at = bootp(frame);
    &&& frame[at] == 2
    &&& frame[at + 1] == 1
    &&& frame[at + 2] == 6
    &&& be32(frame, at + 4) == DHCP_XID
    &&& frame.subrange(at + 28, at + 34) == mac
    &&& frame.subrange(at + 236, at + 240) == DHCP_COOKIE@
}

/// The option bytes of a sound datagram.
pub open spec fn reply_options(frame: Seq<u8>) -> Seq<u8> {
    frame.subrange(bootp(frame) + 240, udp_end(frame))
}

/// Why `frame` is no message of a DHCP server for the system, or what its options say.
pub open spec fn dhcp_reply(frame: Seq<u8>, mac: Seq<u8>) -> Result<DhcpValues, NetworkError> {
    if !sound_udp(frame, DHCP_SERVER_PORT as int, DHCP_CLIENT_PORT as int, 240) {
        Err(NetworkError::PacketMalformed)
    } else if !bootp_reply(frame, mac) {
        Err(NetworkError::DhcpRejected)
    } else {
        options_from(reply_options(frame), 0, no_values())
    }
}

/// What the system has been lent.
#[derive(Clone, Copy)]
pub struct DhcpLease {
    pub address: [u8; 4],
    pub subnet_mask: [u8; 4],
    pub gateway: [u8; 4],
    pub server: [u8; 4],
    pub dns_server: [u8; 4],
    pub lease_seconds: u32,
}

/// Appends one option.
fn append_option(options: &mut Vec<u8>, code: u8, value: &[u8])
    requires
        value@.len() <= 255,
    ensures
        final(options)@ == old(options)@ + option_bytes(code, value@),
{
    let ghost before = options@;
    options.push(code);
    options.push(value.len() as u8);
    append(options, value);
    assert(options@ =~= before + option_bytes(code, value@));
}

/// The options of the system's messages.
fn build_options(
    mac: &[u8; 6],
    message_type: u8,
    requested_address: Option<[u8; 4]>,
    server: Option<[u8; 4]>,
) -> (options: Vec<u8>)
    ensures
        options@ == client_options(
            mac@,
            message_type,
            address_bytes(requested_address),
            address_bytes(server),
        ),
        options@.len() <= 60,
{
    let mut options: Vec<u8> = Vec::new();
    let kind: [u8; 1] = [message_type];
    append_option(&mut options, 53, &kind);
    let mut client_identifier: [u8; 7] = [1u8; 7];
    copy_into(&mut client_identifier, 1, mac);
    append_option(&mut options, 61, &client_identifier);
    append_option(&mut options, 12, &HOST_NAME);
    append_option(&mut options, 55, &REQUESTED_OPTIONS);
    let ghost fixed = options@;
    proof {
        assert(kind@ =~= seq![message_type]);
        assert(client_identifier@ =~= seq![1u8] + mac@);
        assert(fixed =~= option_bytes(53, seq![message_type]) + option_bytes(
            61,
            seq![1u8] + mac@,
        ) + option_bytes(12, HOST_NAME@) + option_bytes(55, REQUESTED_OPTIONS@));
        assert(fixed.len() == 28);
    }
    match requested_address {
        Some(address) => append_option(&mut options, 50, &address),
        None => {},
    }
    let ghost with_address = options@;
    assert(with_address =~= fixed + optional_bytes(50, address_bytes(requested_address)));
    match server {
        Some(server) => append_option(&mut options, 54, &server),
        None => {},
    }
    assert(options@ =~= with_address + optional_bytes(54, address_bytes(server)));
    options.push(255);
    options
}

/// A message of the system to every DHCP server.
#[verifier::spinoff_prover]
#[verifier::rlimit(40)]
pub fn build_dhcp_frame(
    mac: [u8; 6],
    message_type: u8,
    requested_address: Option<[u8; 4]>,
    server: Option<[u8; 4]>,
) -> (frame: [u8; DHCP_FRAME_BYTES])
    ensures
        dhcp_frame(
            frame@,
            mac@,
            client_options(
                mac@,
                message_type,
                address_bytes(requested_address),
                address_bytes(server),
            ),
        ),
        checksum_of(frame@.subrange(14, 34)) == 0,
{
    let everyone: [u8; 6] = [0xffu8; 6];
    let nowhere: [u8; 4] = [0u8; 4];
    let everywhere: [u8; 4] = [0xffu8; 4];
    let options: Vec<u8> = build_options(&mac, message_type, requested_address, server);
    let mut frame: [u8; DHCP_FRAME_BYTES] = [0u8; DHCP_FRAME_BYTES];
    put_ethernet_header(&mut frame, &everyone, &mac, ETHERTYPE_IPV4);
    let ghost addressed = frame@;
    put_ipv4_header(&mut frame, 328, 0x584f, IP_PROTOCOL_UDP, &nowhere, &everywhere);
    let ghost headed = frame@;
    put_be_u16(&mut frame, 34, DHCP_CLIENT_PORT);
    put_be_u16(&mut frame, 36, DHCP_SERVER_PORT);
    put_be_u16(&mut frame, 38, 308);
    frame[42] = 1;
    frame[43] = 1;
    frame[44] = 6;
    put_be_u32(&mut frame, 46, DHCP_XID);
    put_be_u16(&mut frame, 52, 0x8000);
    copy_into(&mut frame, 70, &mac);
    copy_into(&mut frame, 278, &DHCP_COOKIE);
    copy_into(&mut frame, 282, &options);
    proof {
        assert(everyone@ =~= broadcast_mac());
        assert(nowhere@ =~= Seq::new(4, |i: int| 0u8));
        assert(everywhere@ =~= Seq::new(4, |i: int| 0xffu8));
        assert(frame@.subrange(0, 6) =~= addressed.subrange(0, 6));
        assert(frame@.subrange(6, 12) =~= addressed.subrange(6, 12));
        assert(frame@.subrange(14, 34) =~= headed.subrange(14, 34));
        assert(frame@.subrange(26, 30) =~= headed.subrange(26, 30));
        assert(frame@.subrange(30, 34) =~= headed.subrange(30, 34));
        assert(frame@.subrange(70, 76) =~= mac@);
        assert(frame@.subrange(278, 282) =~= DHCP_COOKIE@);
        assert(frame@.subrange(282, 282int + options@.len()) =~= options@);
    }
    frame
}

/// What the options of a server's message say.
pub fn parse_dhcp_options(bytes: &[u8]) -> (result: Result<DhcpOptions, NetworkError>)
    ensures
        match result {
            Ok(options) => options_from(bytes@, 0, no_values()) == Ok::<DhcpValues, NetworkError>(
                options@,
            ),
            Err(error) => options_from(bytes@, 0, no_values()) == Err::<DhcpValues, NetworkError>(
                error,
            ),
        },
{
    let mut options = DhcpOptions {
        message_type: None,
        subnet_mask: None,
        gateway: None,
        server: None,
        dns_server: None,
        lease_seconds: None,
    };
    let mut cursor: usize = 0;
    while cursor < bytes.len()
        invariant
            cursor <= bytes.len(),
            options_from(bytes@, 0, no_values()) == options_from(
                bytes@,
                cursor as int,
                options@,
            ),
        decreases bytes.len() - cursor,
    {
        let code: u8 = bytes[cursor];
        if code == 0 {
            cursor += 1;
            continue;
        }
        if code == 255 {
            return Ok(options);
        }
        if bytes.len() - cursor < 2 {
            return Err(NetworkError::PacketMalformed);
        }
        let length: usize = bytes[cursor + 1] as usize;
        if bytes.len() - cursor - 2 < length {
            return Err(NetworkError::PacketMalformed);
        }
        let start: usize = cursor + 2;
        let end: usize = start + length;
        let ghost before = options@;
        let ghost value = bytes@.subrange(start as int, end as int);
        if code == 53 && length == 1 {
            options.message_type = Some(bytes[start]);
        } else if code == 1 && length == 4 {
            options.subnet_mask = Some(array_at(bytes, start));
        } else if code == 3 && length >= 4 {
            options.gateway = Some(array_at(bytes, start));
        } else if code == 6 && length >= 4 {
            options.dns_server = Some(array_at(bytes, start));
        } else if code == 54 && length == 4 {
            options.server = Some(array_at(bytes, start));
        } else if code == 51 && length == 4 {
            options.lease_seconds = Some(get_be_u32(bytes, start));
        }
        proof {
            if length >= 4 {
                assert(value.take(4) =~= bytes@.subrange(start as int, start + 4));
            }
            assert(options@ =~= with_option(before, code, value));
        }
        cursor = end;
    }
    Err(NetworkError::PacketMalformed)
}

/// Reads a message of a DHCP server for the system.
pub fn parse_dhcp_message(frame: &[u8], mac: [u8; 6]) -> (result: Result<DhcpMessage, NetworkError>)
    ensures
        match dhcp_reply(frame@, mac@) {
            Ok(values) => result matches Ok(message) && message.options@ == values
                && message.offered_address@ == frame@.subrange(bootp(frame@) + 16, bootp(frame@) + 20),
            Err(error) => result == Err::<DhcpMessage, NetworkError>(error),
        },
{
    let (at, end) = match check_udp(frame, DHCP_SERVER_PORT, DHCP_CLIENT_PORT, 240) {
        Some(payload) => payload,
        None => return Err(NetworkError::PacketMalformed),
    };
    if frame[at] != 2 || frame[at + 1] != 1 || frame[at + 2] != 6 || get_be_u32(frame, at + 4)
        != DHCP_XID || !holds(frame, at + 28, &mac) || !holds(frame, at + 236, &DHCP_COOKIE) {
        return Err(NetworkError::DhcpRejected);
    }
    let options = match parse_dhcp_options(&frame[at + 240..end]) {
        Ok(options) => options,
        Err(error) => return Err(error),
    };
    Ok(DhcpMessage { offered_address: array_at(frame, at + 16), options })
}

/// The first value that is there.
pub open spec fn first_of<T>(first: Option<T>, second: Option<T>) -> Option<T> {
    if first is Some {
        first
    } else {
        second
    }
}

/// The first value that is there.
fn either<T: Copy>(first: Option<T>, second: Option<T>) -> (value: Option<T>)
    ensures
        value == first_of(first, second),
{
    match first {
        Some(value) => Some(value),
        None => second,
    }
}

/// The server to ask for the offered address; an offer of no address, or without a server, is
/// refused.
pub fn accept_offer(offer: &DhcpMessage) -> (result: Result<[u8; 4], NetworkError>)
    ensures
        match result {
            Ok(server) => offer.options.server == Some(server) && !zero_between(
                offer.offered_address@,
                0,
                4,
            ),
            Err(error) => error == NetworkError::DhcpRejected && (offer.options.server is None
                || zero_between(offer.offered_address@, 0, 4)),
        },
{
    match offer.options.server {
        None => Err(NetworkError::DhcpRejected),
        Some(server) => if all_zero(&offer.offered_address) {
            Err(NetworkError::DhcpRejected)
        } else {
            Ok(server)
        },
    }
}

/// Whether offer and acknowledgement together make a lease: one address, a mask, a gateway and a
/// duration.
pub open spec fn makes_a_lease(offer: DhcpMessage, acknowledgement: DhcpMessage) -> bool {
    &&& acknowledgement.offered_address@ == offer.offered_address@
    &&& first_of(acknowledgement.options@.subnet_mask, offer.options@.subnet_mask) is Some
    &&& first_of(acknowledgement.options@.gateway, offer.options@.gateway) is Some
    &&& first_of(acknowledgement.options@.lease_seconds, offer.options@.lease_seconds) is Some
}

/// The lease that offer and acknowledgement make; what the acknowledgement leaves out is taken from
/// the offer.
pub fn settle_lease(offer: &DhcpMessage, acknowledgement: &DhcpMessage, server: [u8; 4]) -> (result:
    Result<DhcpLease, NetworkError>)
    ensures
        match result {
            Ok(lease) => {
                let gateway = first_of(acknowledgement.options@.gateway, offer.options@.gateway);
                &&& makes_a_lease(*offer, *acknowledgement)
                &&& lease.address@ == offer.offered_address@
                &&& Some(lease.subnet_mask@) == first_of(
                    acknowledgement.options@.subnet_mask,
                    offer.options@.subnet_mask,
                )
                &&& Some(lease.gateway@) == gateway
                &&& lease.server@ == first_of(acknowledgement.options@.server, Some(server@)).unwrap()
                &&& lease.dns_server@ == first_of(
                    first_of(acknowledgement.options@.dns_server, offer.options@.dns_server),
                    Some(default_dns(offer.offered_address@, gateway.unwrap())),
                ).unwrap()
                &&& Some(lease.lease_seconds) == first_of(
                    acknowledgement.options@.lease_seconds,
                    offer.options@.lease_seconds,
                )
            },
            Err(error) => error == NetworkError::DhcpRejected && !makes_a_lease(
                *offer,
                *acknowledgement,
            ),
        },
{
    if !bytes_equal(&acknowledgement.offered_address, &offer.offered_address) {
        return Err(NetworkError::DhcpRejected);
    }
    let subnet_mask = match either(
        acknowledgement.options.subnet_mask,
        offer.options.subnet_mask,
    ) {
        Some(mask) => mask,
        None => return Err(NetworkError::DhcpRejected),
    };
    let gateway = match either(acknowledgement.options.gateway, offer.options.gateway) {
        Some(gateway) => gateway,
        None => return Err(NetworkError::DhcpRejected),
    };
    let lease_seconds: u32 = match either(
        acknowledgement.options.lease_seconds,
        offer.options.lease_seconds,
    ) {
        Some(seconds) => seconds,
        None => return Err(NetworkError::DhcpRejected),
    };
    let dns_server = match either(
        acknowledgement.options.dns_server,
        offer.options.dns_server,
    ) {
        Some(dns_server) => dns_server,
        None => default_dns_server(offer.offered_address, gateway),
    };
    let server = match acknowledgement.options.server {
        Some(server) => server,
        None => server,
    };
    Ok(
        DhcpLease {
            address: acknowledgement.offered_address,
            subnet_mask,
            gateway,
            server,
            dns_server,
            lease_seconds,
        },
    )
}

} // verus!
