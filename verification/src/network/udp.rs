//! UDP datagrams in Ethernet frames.

use vstd::prelude::*;
use crate::bytes::{array_at, be16, copy_into, get_be_u16, put_be_u16, splice, zero_between};
use crate::network::checksum::{
    ipv4_transport_checksum, stored_checksum_verifies, stored_transport_checksum,
    stored_transport_checksum_verifies, transport_checksum_of,
};
use crate::network::frame::{
    check_ipv4, ethernet_header, ipv4_end, ipv4_header, ipv4_payload, put_ethernet_header,
    put_ipv4_header, query_packet_id, sound_ipv4, NetworkError, ETHERTYPE_IPV4, IP_PROTOCOL_UDP,
    MAX_ETHERNET_FRAME, MIN_ETHERNET_FRAME, UDP_HEADER_BYTES,
};

verus! {

/// `frame` carries `payload` in a UDP datagram.
pub open spec fn udp_frame(
    frame: Seq<u8>,
    mac: Seq<u8>,
    destination_mac: Seq<u8>,
    address: Seq<u8>,
    destination: Seq<u8>,
    source_port: u16,
    destination_port: u16,
    payload: Seq<u8>,
) -> bool {
    let end = 42int + payload.len();
    &&& frame.len() == MAX_ETHERNET_FRAME
    &&& end <= frame.len()
    &&& ethernet_header(frame, destination_mac, mac, ETHERTYPE_IPV4 as int)
    &&& ipv4_header(
        frame,
        28int + payload.len(),
        (source_port ^ destination_port) as int,
        IP_PROTOCOL_UDP as int,
        address,
        destination,
    )
    &&& be16(frame, 34) == source_port
    &&& be16(frame, 36) == destination_port
    &&& be16(frame, 38) == 8int + payload.len()
    &&& be16(frame, 40) == stored_transport_checksum(
        transport_checksum_of(
            address,
            destination,
            IP_PROTOCOL_UDP as int,
            splice(frame.subrange(34, end as int), 6, seq![0u8, 0u8]),
        ),
    )
    &&& frame.subrange(42, end as int) == payload
    &&& zero_between(frame, end as int, MAX_ETHERNET_FRAME as int)
}

/// How long a frame with `length` bytes of headers and payload is on the wire.
pub open spec fn wire_length(length: int) -> int {
    if length < MIN_ETHERNET_FRAME {
        MIN_ETHERNET_FRAME as int
    } else {
        length
    }
}

/// Where the UDP datagram of `frame` ends.
pub open spec fn udp_end(frame: Seq<u8>) -> int {
    ipv4_payload(frame) + be16(frame, ipv4_payload(frame) + 4)
}

/// Whether `frame` holds a sound UDP datagram between these ports with at least `minimum` bytes of
/// payload. A datagram may leave its checksum out.
pub open spec fn sound_udp(frame: Seq<u8>, source_port: int, destination_port: int, minimum: int) -> bool {
    let udp = ipv4_payload(frame);
    &&& sound_ipv4(frame, IP_PROTOCOL_UDP as int, 8 + minimum)
    &&& be16(frame, udp) == source_port
    &&& be16(frame, udp + 2) == destination_port
    &&& be16(frame, udp + 4) >= 8 + minimum
    &&& udp_end(frame) <= ipv4_end(frame)
    &&& be16(frame, udp + 6) == 0 || transport_checksum_of(
        frame.subrange(26, 30),
        frame.subrange(30, 34),
        IP_PROTOCOL_UDP as int,
        frame.subrange(udp, udp_end(frame)),
    ) == 0
}

/// A frame that carries `payload` in a UDP datagram, and how long it is on the wire.
#[verifier::spinoff_prover]
#[verifier::rlimit(40)]
pub fn build_udp_ipv4_frame(
    mac: [u8; 6],
    destination_mac: [u8; 6],
    address: [u8; 4],
    destination: [u8; 4],
    source_port: u16,
    destination_port: u16,
    payload: &[u8],
) -> (result: Result<([u8; MAX_ETHERNET_FRAME], usize), NetworkError>)
    ensures
        match result {
            Ok((frame, length)) => udp_frame(
                frame@,
                mac@,
                destination_mac@,
                address@,
                destination@,
                source_port,
                destination_port,
                payload@,
            ) && length == wire_length(42int + payload@.len()),
            Err(error) => error == NetworkError::FrameTooLarge && 42int + payload@.len()
                > MAX_ETHERNET_FRAME,
        },
{
    if payload.len() > MAX_ETHERNET_FRAME - 42 {
        return Err(NetworkError::FrameTooLarge);
    }
    let udp_length: usize = UDP_HEADER_BYTES + payload.len();
    let end: usize = 34 + udp_length;
    let mut frame: [u8; MAX_ETHERNET_FRAME] = [0u8; MAX_ETHERNET_FRAME];
    put_ethernet_header(&mut frame, &destination_mac, &mac, ETHERTYPE_IPV4);
    let ghost addressed = frame@;
    put_ipv4_header(
        &mut frame,
        (20 + udp_length) as u16,
        query_packet_id(source_port, destination_port),
        IP_PROTOCOL_UDP,
        &address,
        &destination,
    );
    let ghost headed = frame@;
    put_be_u16(&mut frame, 34, source_port);
    put_be_u16(&mut frame, 36, destination_port);
    put_be_u16(&mut frame, 38, udp_length as u16);
    copy_into(&mut frame, 42, payload);
    let ghost plain = frame@;
    let checksum: u16 = ipv4_transport_checksum(
        address,
        destination,
        IP_PROTOCOL_UDP,
        &frame[34..end],
    );
    put_be_u16(
        &mut frame,
        40,
        if checksum == 0 {
            0xffff
        } else {
            checksum
        },
    );
    proof {
        assert(plain[40] == 0 && plain[41] == 0);
        assert(splice(frame@.subrange(34, end as int), 6, seq![0u8, 0u8]) =~= plain.subrange(
            34,
            end as int,
        ));
        assert(frame@.subrange(0, 6) =~= addressed.subrange(0, 6));
        assert(frame@.subrange(6, 12) =~= addressed.subrange(6, 12));
        assert(frame@.subrange(14, 34) =~= headed.subrange(14, 34));
        assert(frame@.subrange(26, 30) =~= headed.subrange(26, 30));
        assert(frame@.subrange(30, 34) =~= headed.subrange(30, 34));
        assert(frame@.subrange(42, end as int) =~= payload@);
    }
    Ok(
        (
            frame,
            if end < MIN_ETHERNET_FRAME {
                MIN_ETHERNET_FRAME
            } else {
                end
            },
        ),
    )
}

/// Where the payload of a sound UDP datagram starts and ends.
pub fn check_udp(frame: &[u8], source_port: u16, destination_port: u16, minimum: usize) -> (payload:
    Option<(usize, usize)>)
    ensures
        match payload {
            Some((start, end)) => sound_udp(
                frame@,
                source_port as int,
                destination_port as int,
                minimum as int,
            ) && start == ipv4_payload(frame@) + 8 && end == udp_end(frame@) && start + minimum
                <= end <= frame@.len(),
            None => !sound_udp(
                frame@,
                source_port as int,
                destination_port as int,
                minimum as int,
            ),
        },
{
    if minimum > 0xffff - UDP_HEADER_BYTES {
        return None;
    }
    let (udp, packet_end) = match check_ipv4(frame, IP_PROTOCOL_UDP, UDP_HEADER_BYTES + minimum) {
        Some(payload) => payload,
        None => return None,
    };
    let udp_length: usize = get_be_u16(frame, udp + 4) as usize;
    if get_be_u16(frame, udp) != source_port || get_be_u16(frame, udp + 2) != destination_port
        || udp_length < UDP_HEADER_BYTES + minimum || packet_end - udp < udp_length {
        return None;
    }
    let source: [u8; 4] = array_at(frame, 26);
    let destination: [u8; 4] = array_at(frame, 30);
    if get_be_u16(frame, udp + 6) != 0 && ipv4_transport_checksum(
        source,
        destination,
        IP_PROTOCOL_UDP,
        &frame[udp..udp + udp_length],
    ) != 0 {
        return None;
    }
    Some((udp + 8, udp + udp_length))
}

/// A datagram that was built is sound, and its payload is what was put in.
pub proof fn a_built_datagram_is_sound(
    frame: Seq<u8>,
    mac: Seq<u8>,
    destination_mac: Seq<u8>,
    address: Seq<u8>,
    destination: Seq<u8>,
    source_port: u16,
    destination_port: u16,
    payload: Seq<u8>,
)
    requires
        udp_frame(
            frame,
            mac,
            destination_mac,
            address,
            destination,
            source_port,
            destination_port,
            payload,
        ),
    ensures
        ({
            let sent = frame.take(wire_length(42int + payload.len()));
            &&& sound_udp(sent, source_port as int, destination_port as int, payload.len() as int)
            &&& ipv4_payload(sent) == 34
            &&& udp_end(sent) == 42int + payload.len()
            &&& sent.subrange(42, udp_end(sent)) == payload
            &&& sent.subrange(26, 30) == address
            &&& sent.subrange(30, 34) == destination
            &&& sent.subrange(0, 6) == destination_mac
            &&& sent.subrange(6, 12) == mac
        }),
{
    let end = 42int + payload.len();
    let sent = frame.take(wire_length(end as int));
    let header = sent.subrange(14, 34);
    assert(header =~= frame.subrange(14, 34));
    let plain_header = splice(header, 10, seq![0u8, 0u8]);
    assert(be16(header, 10) == be16(frame, 24));
    assert(be16(plain_header, 10) == 0);
    stored_checksum_verifies(plain_header, header, 10);
    let segment = sent.subrange(34, end as int);
    assert(segment =~= frame.subrange(34, end as int));
    let plain_segment = splice(segment, 6, seq![0u8, 0u8]);
    assert(be16(segment, 6) == be16(frame, 40));
    assert(be16(plain_segment, 6) == 0);
    stored_transport_checksum_verifies(
        address,
        destination,
        IP_PROTOCOL_UDP,
        plain_segment,
        segment,
        6,
    );
    assert(sent.subrange(26, 30) =~= frame.subrange(26, 30));
    assert(sent.subrange(30, 34) =~= frame.subrange(30, 34));
    assert(sent.subrange(0, 6) =~= frame.subrange(0, 6));
    assert(sent.subrange(6, 12) =~= frame.subrange(6, 12));
    assert(sent.subrange(42, end as int) =~= payload) by {
        assert(sent.subrange(42, end as int) =~= frame.subrange(42, end as int));
    }
}

} // verus!
