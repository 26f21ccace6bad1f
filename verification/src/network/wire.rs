//! What the frames of the system say byte by byte, and which frames it takes for sound.

use vstd::prelude::*;
use crate::bytes::{be16, splice, zero_between};
use crate::network::arp::{arp_answer, arp_frame, arp_question};
use crate::network::checksum::{
    a_transport_checksum_covers_the_pseudo_header, checksum_of, stored_checksum_verifies,
    transport_checksum_of,
};
use crate::network::dhcp::dhcp_frame;
use crate::network::echo::{echo_answer, echo_of, echo_question, echo_request};
use crate::network::frame::{sound_ipv4, unicast};
use crate::network::http::{status_of, supported_request};
use crate::network::route::{default_dns, next_dns_hop, next_hop};
use crate::network::tcp::{
    a_built_segment_is_sound, segment_for, segment_from, segment_of, sound_tcp, tcp_frame, TcpFrame,
};
use crate::network::udp::{
    a_built_datagram_is_sound, sound_udp, udp_end, udp_frame, wire_length,
};

verus! {

/// The bytes of `frame` from `from` up to `to` are those of `part`.
pub open spec fn carries(frame: Seq<u8>, from: int, to: int, part: Seq<u8>) -> bool {
    &&& part.len() == to - from
    &&& to <= frame.len()
    &&& forall|i: int| 0 <= i < part.len() ==> #[trigger] frame[from + i] == part[i]
}

/// The pseudo header of a transport checksum, and the segment behind it.
pub open spec fn under_pseudo_header(
    source: Seq<u8>,
    destination: Seq<u8>,
    protocol: u8,
    segment: Seq<u8>,
) -> Seq<u8> {
    source + destination + seq![0u8, protocol] + seq![
        (segment.len() / 256) as u8,
        (segment.len() % 256) as u8,
    ] + segment
}

proof fn lemma_carries(frame: Seq<u8>, from: int, to: int, part: Seq<u8>)
    requires
        0 <= from <= to <= frame.len(),
        frame.subrange(from, to) == part,
    ensures
        carries(frame, from, to, part),
{
    assert forall|i: int| 0 <= i < part.len() implies #[trigger] frame[from + i] == part[i] by {
        assert(frame.subrange(from, to)[i] == frame[from + i]);
    }
}

/// A segment goes out in an Ethernet frame with an IPv4 header of twenty bytes and a TCP header of
/// twenty bytes, each with its fields where every receiver looks for them and a checksum that adds up.
pub proof fn a_segment_on_the_wire(frame: Seq<u8>, request: TcpFrame)
    requires
        tcp_frame(frame, request),
        request.source_address.len() == 4,
        request.destination_address.len() == 4,
    ensures
        ({
            let n = request.payload.len();
            &&& carries(frame, 0, 6, request.destination_mac)
            &&& carries(frame, 6, 12, request.source_mac)
            &&& frame[12] == 0x08 && frame[13] == 0x00
            &&& frame[14] == 0x45
            &&& frame[16] * 256 + frame[17] == 40 + n
            &&& frame[20] == 0x40 && frame[21] == 0x00
            &&& frame[22] == 64
            &&& frame[23] == 6
            &&& carries(frame, 26, 30, request.source_address)
            &&& carries(frame, 30, 34, request.destination_address)
            &&& checksum_of(frame.subrange(14, 34)) == 0
            &&& frame[34] * 256 + frame[35] == request.source_port
            &&& frame[36] * 256 + frame[37] == request.destination_port
            &&& frame[38] * 0x100_0000 + frame[39] * 0x1_0000 + frame[40] * 256 + frame[41]
                == request.sequence
            &&& frame[42] * 0x100_0000 + frame[43] * 0x1_0000 + frame[44] * 256 + frame[45]
                == request.acknowledgement
            &&& frame[46] == 0x50
            &&& frame[47] == request.flags as int % 64
            &&& frame[48] == 0x40 && frame[49] == 0x00
            &&& carries(frame, 54, 54int + n, request.payload)
            &&& checksum_of(
                under_pseudo_header(
                    request.source_address,
                    request.destination_address,
                    6,
                    frame.subrange(34, 54int + n),
                ),
            ) == 0
        }),
{
    let n = request.payload.len();
    a_built_segment_is_sound(frame, request);
    let sent = frame.take(wire_length(54int + n));
    lemma_carries(frame, 0, 6, request.destination_mac);
    lemma_carries(frame, 6, 12, request.source_mac);
    lemma_carries(frame, 26, 30, request.source_address);
    lemma_carries(frame, 30, 34, request.destination_address);
    lemma_carries(frame, 54, 54int + n, request.payload);
    assert(sent.subrange(14, 34) =~= frame.subrange(14, 34));
    assert(sent.subrange(34, 54int + n) =~= frame.subrange(34, 54int + n));
    a_transport_checksum_covers_the_pseudo_header(
        request.source_address,
        request.destination_address,
        6,
        frame.subrange(34, 54int + n),
    );
}

/// A datagram goes out in an Ethernet frame with an IPv4 header of twenty bytes and a UDP header of
/// eight bytes, each with its fields where every receiver looks for them and a checksum that adds up.
pub proof fn a_datagram_on_the_wire(
    frame: Seq<u8>,
    mac: Seq<u8>,
    destination_mac: Seq<u8>,
    address: Seq<u8>,
    destination: Seq<u8>,
    source_port: u16,
    destination_port: u16,
    payload: Seq<u8>,
)
    requires
        udp_frame(
            frame,
            mac,
            destination_mac,
            address,
            destination,
            source_port,
            destination_port,
            payload,
        ),
        address.len() == 4,
        destination.len() == 4,
    ensures
        ({
            let n = payload.len();
            &&& carries(frame, 0, 6, destination_mac)
            &&& carries(frame, 6, 12, mac)
            &&& frame[12] == 0x08 && frame[13] == 0x00
            &&& frame[14] == 0x45
            &&& frame[16] * 256 + frame[17] == 28 + n
            &&& frame[22] == 64
            &&& frame[23] == 17
            &&& carries(frame, 26, 30, address)
            &&& carries(frame, 30, 34, destination)
            &&& checksum_of(frame.subrange(14, 34)) == 0
            &&& frame[34] * 256 + frame[35] == source_port
            &&& frame[36] * 256 + frame[37] == destination_port
            &&& frame[38] * 256 + frame[39] == 8 + n
            &&& frame[40] != 0 || frame[41] != 0
            &&& carries(frame, 42, 42int + n, payload)
            &&& checksum_of(
                under_pseudo_header(address, destination, 17, frame.subrange(34, 42int + n)),
            ) == 0
        }),
{
    let n = payload.len();
    a_built_datagram_is_sound(
        frame,
        mac,
        destination_mac,
        address,
        destination,
        source_port,
        destination_port,
        payload,
    );
    let sent = frame.take(wire_length(42int + n));
    lemma_carries(frame, 0, 6, destination_mac);
    lemma_carries(frame, 6, 12, mac);
    lemma_carries(frame, 26, 30, address);
    lemma_carries(frame, 30, 34, destination);
    lemma_carries(frame, 42, 42int + n, payload);
    assert(sent.subrange(14, 34) =~= frame.subrange(14, 34));
    assert(sent.subrange(34, 42int + n) =~= frame.subrange(34, 42int + n));
    a_transport_checksum_covers_the_pseudo_header(
        address,
        destination,
        17,
        frame.subrange(34, 42int + n),
    );
}

/// A frame holds a sound packet of a protocol if and only if it is an IPv4 frame, holds the whole
/// packet with enough behind its header, is no fragment, and its header adds up.
pub proof fn a_packet_is_sound(frame: Seq<u8>, protocol: int, minimum: int)
    requires
        minimum >= 0,
    ensures
        ({
            let header = 4 * (frame[14] as int % 16);
            let total = frame[16] * 256 + frame[17];
            sound_ipv4(frame, protocol, minimum) <==> {
                &&& frame.len() >= 34
                &&& frame[12] == 0x08 && frame[13] == 0x00
                &&& 0x45 <= frame[14] <= 0x4f
                &&& header + minimum <= total
                &&& 14 + total <= frame.len()
                &&& frame[20] as int % 64 == 0 && frame[21] == 0
                &&& frame[23] == protocol
                &&& checksum_of(frame.subrange(14, 14 + header)) == 0
            }
        }),
{
    assert((0x100 * frame[20] + frame[21]) % 0x4000 == 0 <==> frame[20] as int % 64 == 0 && frame[21]
        == 0);
}

/// A frame holds a sound segment if and only if its packet is sound, its header fits, and the segment
/// adds up under the pseudo header; it then says what stands at the places of a TCP header.
pub proof fn a_segment_is_read_where_it_stands(frame: Seq<u8>)
    ensures
        ({
            let tcp = 14 + 4 * (frame[14] as int % 16);
            let end = 14 + frame[16] * 256 + frame[17];
            let header = 4 * (frame[tcp + 12] as int / 16);
            &&& sound_tcp(frame) <==> {
                &&& sound_ipv4(frame, 6, 20)
                &&& 20 <= header <= end - tcp
                &&& checksum_of(
                    under_pseudo_header(
                        frame.subrange(26, 30),
                        frame.subrange(30, 34),
                        6,
                        frame.subrange(tcp, end),
                    ),
                ) == 0
            }
            &&& sound_tcp(frame) ==> {
                let segment = segment_of(frame);
                &&& segment.sequence == frame[tcp + 4] * 0x100_0000 + frame[tcp + 5] * 0x1_0000
                    + frame[tcp + 6] * 256 + frame[tcp + 7]
                &&& segment.acknowledgement == frame[tcp + 8] * 0x100_0000 + frame[tcp + 9] * 0x1_0000
                    + frame[tcp + 10] * 256 + frame[tcp + 11]
                &&& segment.flags == frame[tcp + 13]
                &&& segment.payload_offset == tcp + header
                &&& segment.payload_offset + segment.payload_len == end
            }
        }),
{
    let tcp = 14 + 4 * (frame[14] as int % 16);
    let end = 14 + frame[16] * 256 + frame[17];
    if sound_ipv4(frame, 6, 20) {
        a_packet_is_sound(frame, 6, 20);
        a_transport_checksum_covers_the_pseudo_header(
            frame.subrange(26, 30),
            frame.subrange(30, 34),
            6,
            frame.subrange(tcp, end),
        );
    }
}

/// A sound segment is for the listener if and only if it goes to its station, its address and its port;
/// and is from a server if and only if it comes from its station, its address and its port to the port
/// that asked.
pub proof fn a_segment_goes_to_whom_it_is_sent(
    frame: Seq<u8>,
    mac: Seq<u8>,
    address: Seq<u8>,
    remote: Seq<u8>,
    local_port: int,
    remote_port: int,
)
    requires
        sound_tcp(frame),
        mac.len() == 6,
        address.len() == 4,
        remote.len() == 4,
    ensures
        ({
            let tcp = 14 + 4 * (frame[14] as int % 16);
            &&& segment_for(frame, mac, address, local_port) <==> {
                &&& carries(frame, 0, 6, mac)
                &&& carries(frame, 30, 34, address)
                &&& frame[tcp + 2] * 256 + frame[tcp + 3] == local_port
            }
            &&& segment_from(frame, mac, address, remote, local_port, remote_port) <==> {
                &&& carries(frame, 6, 12, mac)
                &&& carries(frame, 26, 30, remote)
                &&& carries(frame, 30, 34, address)
                &&& frame[tcp] * 256 + frame[tcp + 1] == remote_port
                &&& frame[tcp + 2] * 256 + frame[tcp + 3] == local_port
            }
        }),
{
    lemma_same_part(frame, 0, 6, mac);
    lemma_same_part(frame, 6, 12, mac);
    lemma_same_part(frame, 26, 30, remote);
    lemma_same_part(frame, 30, 34, address);
}

proof fn lemma_same_part(frame: Seq<u8>, from: int, to: int, part: Seq<u8>)
    requires
        0 <= from <= to <= frame.len(),
    ensures
        frame.subrange(from, to) == part <==> carries(frame, from, to, part),
{
    if frame.subrange(from, to) == part {
        lemma_carries(frame, from, to, part);
    }
    if carries(frame, from, to, part) {
        assert forall|i: int| 0 <= i < part.len() implies frame.subrange(from, to)[i] == part[i] by {
            assert(frame[from + i] == part[i]);
        }
        assert(frame.subrange(from, to) =~= part);
    }
}

/// A frame holds a sound datagram between two ports if and only if its packet is sound, the ports stand
/// in it, the datagram fits, and its checksum was left out or adds up.
pub proof fn a_datagram_is_sound(frame: Seq<u8>, source: int, destination: int, minimum: int)
    requires
        minimum >= 0,
    ensures
        ({
            let udp = 14 + 4 * (frame[14] as int % 16);
            let end = 14 + frame[16] * 256 + frame[17];
            let length = frame[udp + 4] * 256 + frame[udp + 5];
            &&& sound_udp(frame, source, destination, minimum) <==> {
                &&& sound_ipv4(frame, 17, 8 + minimum)
                &&& frame[udp] * 256 + frame[udp + 1] == source
                &&& frame[udp + 2] * 256 + frame[udp + 3] == destination
                &&& 8 + minimum <= length <= end - udp
                &&& (frame[udp + 6] == 0 && frame[udp + 7] == 0) || checksum_of(
                    under_pseudo_header(
                        frame.subrange(26, 30),
                        frame.subrange(30, 34),
                        17,
                        frame.subrange(udp, udp + length),
                    ),
                ) == 0
            }
            &&& udp_end(frame) == udp + length
        }),
{
    let udp = 14 + 4 * (frame[14] as int % 16);
    let length = frame[udp + 4] * 256 + frame[udp + 5];
    if sound_ipv4(frame, 17, 8 + minimum) && 8 + minimum <= length <= 14 + frame[16] * 256 + frame[17]
        - udp {
        a_packet_is_sound(frame, 17, 8 + minimum);
        a_transport_checksum_covers_the_pseudo_header(
            frame.subrange(26, 30),
            frame.subrange(30, 34),
            17,
            frame.subrange(udp, udp + length),
        );
    }
}

/// The fields of an ARP frame stand where every station looks for them.
pub proof fn an_arp_frame_on_the_wire(
    frame: Seq<u8>,
    destination: Seq<u8>,
    operation: int,
    sender_mac: Seq<u8>,
    sender: Seq<u8>,
    target_mac: Seq<u8>,
    target: Seq<u8>,
)
    requires
        arp_frame(frame, destination, operation, sender_mac, sender, target_mac, target),
    ensures
        frame.len() == 60,
        carries(frame, 0, 6, destination),
        carries(frame, 6, 12, sender_mac),
        frame.subrange(12, 20) == seq![0x08u8, 0x06, 0x00, 0x01, 0x08, 0x00, 0x06, 0x04],
        frame[20] * 256 + frame[21] == operation,
        carries(frame, 22, 28, sender_mac),
        carries(frame, 28, 32, sender),
        carries(frame, 32, 38, target_mac),
        carries(frame, 38, 42, target),
        zero_between(frame, 42, 60),
{
    lemma_carries(frame, 0, 6, destination);
    lemma_carries(frame, 6, 12, sender_mac);
    lemma_carries(frame, 22, 28, sender_mac);
    lemma_carries(frame, 28, 32, sender);
    lemma_carries(frame, 32, 38, target_mac);
    lemma_carries(frame, 38, 42, target);
    assert(frame.subrange(12, 20) =~= seq![0x08u8, 0x06, 0x00, 0x01, 0x08, 0x00, 0x06, 0x04]);
}

/// Whether six bytes are the hardware address of one station: not all zero, and not of a group.
pub open spec fn one_station(frame: Seq<u8>, at: int) -> bool {
    &&& frame[at] as int % 2 == 0
    &&& !(frame[at] == 0 && frame[at + 1] == 0 && frame[at + 2] == 0 && frame[at + 3] == 0
        && frame[at + 4] == 0 && frame[at + 5] == 0)
}

/// An ARP question or answer is taken if and only if it is one for IPv4 over Ethernet, is about the
/// address, and names one station; a question only from that station itself.
pub proof fn an_arp_frame_is_taken(frame: Seq<u8>, address: Seq<u8>, sender: Seq<u8>)
    requires
        address.len() == 4,
        sender.len() == 4,
    ensures
        arp_question(frame, address) <==> {
            &&& frame.len() >= 42
            &&& frame.subrange(12, 22) == seq![0x08u8, 0x06, 0, 1, 0x08, 0, 6, 4, 0, 1]
            &&& forall|i: int| 0 <= i < 6 ==> #[trigger] frame[6 + i] == frame[22 + i]
            &&& carries(frame, 38, 42, address)
            &&& one_station(frame, 22)
        },
        arp_answer(frame, address, sender) <==> {
            &&& frame.len() >= 42
            &&& frame.subrange(12, 22) == seq![0x08u8, 0x06, 0, 1, 0x08, 0, 6, 4, 0, 2]
            &&& carries(frame, 28, 32, sender)
            &&& carries(frame, 38, 42, address)
            &&& one_station(frame, 22)
        },
{
    if frame.len() >= 42 {
        let head = frame.subrange(12, 22);
        let asks = seq![0x08u8, 0x06, 0, 1, 0x08, 0, 6, 4, 0, 1];
        let answers = seq![0x08u8, 0x06, 0, 1, 0x08, 0, 6, 4, 0, 2];
        assert(forall|i: int| 0 <= i < 10 ==> head[i] == frame[12 + i]);
        assert(head == asks <==> (forall|i: int| 0 <= i < 10 ==> #[trigger] head[i] == asks[i])) by {
            if forall|i: int| 0 <= i < 10 ==> #[trigger] head[i] == asks[i] {
                assert(head =~= asks);
            }
        }
        assert(head == answers <==> (forall|i: int|
            0 <= i < 10 ==> #[trigger] head[i] == answers[i])) by {
            if forall|i: int| 0 <= i < 10 ==> #[trigger] head[i] == answers[i] {
                assert(head =~= answers);
            }
        }
        lemma_same_part(frame, 28, 32, sender);
        lemma_same_part(frame, 38, 42, address);
        lemma_one_station(frame, 22);
        let from = frame.subrange(6, 12);
        let station = frame.subrange(22, 28);
        assert(forall|i: int| 0 <= i < 6 ==> from[i] == frame[6 + i] && station[i] == frame[22 + i]);
        if forall|i: int| 0 <= i < 6 ==> #[trigger] frame[6 + i] == frame[22 + i] {
            assert(from =~= station);
        }
        if from == station {
            assert forall|i: int| 0 <= i < 6 implies #[trigger] frame[6 + i] == frame[22 + i] by {
                assert(from[i] == station[i]);
            }
        }
    }
}

proof fn lemma_one_station(frame: Seq<u8>, at: int)
    requires
        0 <= at,
        at + 6 <= frame.len(),
    ensures
        unicast(frame.subrange(at, at + 6)) <==> one_station(frame, at),
{
    let mac = frame.subrange(at, at + 6);
    assert(forall|i: int| 0 <= i < 6 ==> mac[i] == frame[at + i]);
    assert(mac[0] == frame[at] && mac[1] == frame[at + 1] && mac[2] == frame[at + 2] && mac[3]
        == frame[at + 3] && mac[4] == frame[at + 4] && mac[5] == frame[at + 5]);
}

/// The system's echo request is an ICMP message of type 8 to the station, with both checksums right.
pub proof fn an_echo_request_on_the_wire(
    frame: Seq<u8>,
    mac: Seq<u8>,
    destination_mac: Seq<u8>,
    address: Seq<u8>,
    destination: Seq<u8>,
)
    requires
        echo_request(frame, mac, destination_mac, address, destination),
    ensures
        frame.len() == 60,
        carries(frame, 0, 6, destination_mac),
        carries(frame, 6, 12, mac),
        frame[12] == 0x08 && frame[13] == 0x00,
        frame[14] == 0x45,
        frame[16] * 256 + frame[17] == 44,
        frame[23] == 1,
        carries(frame, 26, 30, address),
        carries(frame, 30, 34, destination),
        checksum_of(frame.subrange(14, 34)) == 0,
        frame[34] == 8 && frame[35] == 0,
        checksum_of(frame.subrange(34, 58)) == 0,
        frame[38] == 0x43 && frame[39] == 0x44,
        frame[40] == 0 && frame[41] == 1,
        frame.subrange(42, 58) == seq![
            0x63u8, 0x6f, 0x64, 0x65, 0x78, 0x4f, 0x53, 0x2d, 0x6e, 0x65, 0x74, 0x2d, 0x65, 0x63, 0x68,
            0x6f,
        ],
{
    let header = frame.subrange(14, 34);
    assert(header[10] == frame[24] && header[11] == frame[25]);
    lemma_checked(header, 10);
    let message = frame.subrange(34, 58);
    assert(message[2] == frame[36] && message[3] == frame[37]);
    lemma_checked(message, 2);
    lemma_carries(frame, 0, 6, destination_mac);
    lemma_carries(frame, 6, 12, mac);
    lemma_carries(frame, 26, 30, address);
    lemma_carries(frame, 30, 34, destination);
}

/// An echo is sent back if and only if a sound ICMP message of type 8 asks this station for it, and an
/// answer is taken if and only if it is a sound one of type 0 from the station that was asked.
pub proof fn an_echo_is_asked_and_answered(
    frame: Seq<u8>,
    mac: Seq<u8>,
    address: Seq<u8>,
    sender: Seq<u8>,
)
    requires
        mac.len() == 6,
        address.len() == 4,
        sender.len() == 4,
    ensures
        ({
            let message = 14 + 4 * (frame[14] as int % 16);
            let end = 14 + frame[16] * 256 + frame[17];
            &&& echo_question(frame, mac, address) <==> {
                &&& sound_ipv4(frame, 1, 8)
                &&& frame.len() <= 1514
                &&& checksum_of(frame.subrange(message, end)) == 0
                &&& frame[message] == 8 && frame[message + 1] == 0
                &&& carries(frame, 0, 6, mac)
                &&& carries(frame, 30, 34, address)
            }
            &&& echo_answer(frame, mac, address, sender) <==> {
                &&& sound_ipv4(frame, 1, 8)
                &&& checksum_of(frame.subrange(message, end)) == 0
                &&& frame[message] == 0 && frame[message + 1] == 0
                &&& carries(frame, 6, 12, mac)
                &&& carries(frame, 26, 30, sender)
                &&& carries(frame, 30, 34, address)
                &&& frame[message + 4] == 0x43 && frame[message + 5] == 0x44
                &&& frame[message + 6] == 0 && frame[message + 7] == 1
                &&& carries(
                    frame,
                    message + 8,
                    end,
                    seq![
                        0x63u8, 0x6f, 0x64, 0x65, 0x78, 0x4f, 0x53, 0x2d, 0x6e, 0x65, 0x74, 0x2d, 0x65,
                        0x63, 0x68, 0x6f,
                    ],
                )
            }
        }),
{
    let message = 14 + 4 * (frame[14] as int % 16);
    let end = 14 + frame[16] * 256 + frame[17];
    if sound_ipv4(frame, 1, 8) {
        lemma_same_part(frame, 0, 6, mac);
        lemma_same_part(frame, 6, 12, mac);
        lemma_same_part(frame, 26, 30, sender);
        lemma_same_part(frame, 30, 34, address);
        let text = seq![
            0x63u8, 0x6f, 0x64, 0x65, 0x78, 0x4f, 0x53, 0x2d, 0x6e, 0x65, 0x74, 0x2d, 0x65, 0x63, 0x68,
            0x6f,
        ];
        lemma_same_part(frame, message + 8, end, text);
        assert(crate::network::echo::ICMP_ECHO_PAYLOAD@ =~= text);
    }
}

/// A response has a status if and only if it starts with `HTTP/`, has three digits behind the first
/// nine bytes, and they make a number from 100 to 599; that number is the status.
pub proof fn a_status_is_three_digits(payload: Seq<u8>)
    ensures
        ({
            let written = (payload[9] - 0x30) * 100 + (payload[10] - 0x30) * 10 + (payload[11]
                - 0x30);
            let is_status = {
                &&& payload.len() >= 12
                &&& payload[0] == 0x48 && payload[1] == 0x54 && payload[2] == 0x54 && payload[3]
                    == 0x50 && payload[4] == 0x2f
                &&& 0x30 <= payload[9] <= 0x39 && 0x30 <= payload[10] <= 0x39 && 0x30 <= payload[11]
                    <= 0x39
                &&& 100 <= written <= 599
            };
            &&& status_of(payload) is Some <==> is_status
            &&& is_status ==> status_of(payload).unwrap() == written
        }),
{
    if payload.len() >= 5 {
        let prefix = seq![0x48u8, 0x54, 0x54, 0x50, 0x2f];
        assert(crate::network::http::HTTP_PREFIX@ =~= prefix);
        lemma_same_part(payload, 0, 5, prefix);
        assert(payload.take(5) =~= payload.subrange(0, 5));
        assert(carries(payload, 0, 5, prefix) <==> (payload[0] == 0x48 && payload[1] == 0x54
            && payload[2] == 0x54 && payload[3] == 0x50 && payload[4] == 0x2f)) by {
            if carries(payload, 0, 5, prefix) {
                assert(payload[0int + 0] == prefix[0] && payload[0int + 1] == prefix[1] && payload[0int + 2]
                    == prefix[2] && payload[0int + 3] == prefix[3] && payload[0int + 4] == prefix[4]);
            }
        }
    }
}

/// A request is served if and only if it starts with `GET /` or `HEAD /`.
pub proof fn a_get_or_head_is_served(payload: Seq<u8>)
    ensures
        supported_request(payload) <==> {
            ||| payload.len() >= 5 && payload.subrange(0, 5) == seq![0x47u8, 0x45, 0x54, 0x20, 0x2f]
            ||| payload.len() >= 6 && payload.subrange(0, 6) == seq![
                0x48u8,
                0x45,
                0x41,
                0x44,
                0x20,
                0x2f,
            ]
        },
{
    assert(crate::network::http::GET_PREFIX@ =~= seq![0x47u8, 0x45, 0x54, 0x20, 0x2f]);
    assert(crate::network::http::HEAD_PREFIX@ =~= seq![0x48u8, 0x45, 0x41, 0x44, 0x20, 0x2f]);
    if payload.len() >= 5 {
        assert(payload.take(5) =~= payload.subrange(0, 5));
    }
    if payload.len() >= 6 {
        assert(payload.take(6) =~= payload.subrange(0, 6));
    }
}

/// A packet goes to its destination where address and destination agree under the mask, and to the
/// gateway otherwise; one to the name server behind the gateway goes to the gateway.
pub proof fn a_packet_takes_the_right_way(
    address: Seq<u8>,
    mask: Seq<u8>,
    gateway: Seq<u8>,
    destination: Seq<u8>,
)
    requires
        address.len() == 4,
        mask.len() == 4,
        gateway.len() == 4,
        destination.len() == 4,
    ensures
        (forall|i: int| 0 <= i < 4 ==> #[trigger] address[i] & mask[i] == destination[i] & mask[i])
            ==> next_hop(address, mask, gateway, destination) == destination,
        (exists|i: int| 0 <= i < 4 && #[trigger] address[i] & mask[i] != destination[i] & mask[i])
            ==> next_hop(address, mask, gateway, destination) == gateway,
        destination == default_dns(address, gateway) ==> next_dns_hop(
            address,
            mask,
            gateway,
            destination,
        ) == gateway,
        destination != default_dns(address, gateway) ==> next_dns_hop(
            address,
            mask,
            gateway,
            destination,
        ) == next_hop(address, mask, gateway, destination),
{
}

/// Where no name server is given, the one with the number behind the gateway's is taken, and the gateway
/// itself where that is the system's own address.
pub proof fn the_name_server_is_behind_the_gateway(address: Seq<u8>, gateway: Seq<u8>)
    requires
        address.len() == 4,
        gateway.len() == 4,
    ensures
        ({
            let server = default_dns(address, gateway);
            let last = if gateway[3] < 255 {
                gateway[3] + 1
            } else {
                255
            };
            &&& server.len() == 4
            &&& server[0] == gateway[0] && server[1] == gateway[1] && server[2] == gateway[2]
            &&& server[3] == last || (server == gateway && address[0] == gateway[0] && address[1]
                == gateway[1] && address[2] == gateway[2] && address[3] == last)
            &&& server == address ==> server == gateway
        }),
{
}

/// An echo goes back to who asked for it, and carries what came.
pub proof fn an_echo_carries_what_came(frame: Seq<u8>, reply: Seq<u8>, length: int, mac: Seq<u8>)
    requires
        echo_of(frame, reply, length, mac),
        sound_ipv4(frame, 1, 8),
        frame.len() <= 1514,
    ensures
        ({
            let message = 14 + 4 * (frame[14] as int % 16);
            let end = 14 + frame[16] * 256 + frame[17];
            &&& length == if frame.len() < 60 {
                60
            } else {
                frame.len() as int
            }
            &&& carries(reply, 0, 6, frame.subrange(6, 12))
            &&& carries(reply, 6, 12, mac)
            &&& carries(reply, 26, 30, frame.subrange(30, 34))
            &&& carries(reply, 30, 34, frame.subrange(26, 30))
            &&& reply[message] == 0 && reply[message + 1] == frame[message + 1]
            &&& forall|i: int| message + 4 <= i < end ==> #[trigger] reply[i] == frame[i]
        }),
{
    lemma_carries(reply, 0, 6, frame.subrange(6, 12));
    lemma_carries(reply, 6, 12, mac);
    lemma_carries(reply, 26, 30, frame.subrange(30, 34));
    lemma_carries(reply, 30, 34, frame.subrange(26, 30));
}

proof fn lemma_checked(s: Seq<u8>, at: int)
    requires
        s.len() <= 0xffff,
        0 <= at,
        at % 2 == 0,
        at + 2 <= s.len(),
        be16(s, at) == checksum_of(splice(s, at, seq![0u8, 0u8])),
    ensures
        checksum_of(s) == 0,
{
    let plain = splice(s, at, seq![0u8, 0u8]);
    assert(plain[at] == 0 && plain[at + 1] == 0);
    stored_checksum_verifies(plain, s, at);
}

/// An echo that is sent back has both its checksums right again.
pub proof fn an_echo_is_checked_again(frame: Seq<u8>, reply: Seq<u8>, length: int, mac: Seq<u8>)
    requires
        echo_of(frame, reply, length, mac),
        sound_ipv4(frame, 1, 8),
        frame.len() <= 1514,
    ensures
        ({
            let message = 14 + 4 * (frame[14] as int % 16);
            let end = 14 + frame[16] * 256 + frame[17];
            &&& checksum_of(reply.subrange(14, message)) == 0
            &&& checksum_of(reply.subrange(message, end)) == 0
        }),
{
    let message = 14 + 4 * (frame[14] as int % 16);
    let end = 14 + frame[16] * 256 + frame[17];
    a_packet_is_sound(frame, 1, 8);
    assert(34 <= message && message + 8 <= end <= reply.len());
    let header = reply.subrange(14, message);
    assert(header[10] == reply[24] && header[11] == reply[25]);
    lemma_checked(header, 10);
    let part = reply.subrange(message, end);
    assert(part[2] == reply[message + 2] && part[3] == reply[message + 3]);
    lemma_checked(part, 2);
}

/// A segment is taken from nobody and for nobody unless it is sound.
pub proof fn only_a_sound_segment_is_taken(
    frame: Seq<u8>,
    mac: Seq<u8>,
    address: Seq<u8>,
    remote: Seq<u8>,
    local_port: int,
    remote_port: int,
)
    ensures
        segment_for(frame, mac, address, local_port) ==> sound_tcp(frame),
        segment_from(frame, mac, address, remote, local_port, remote_port) ==> sound_tcp(frame),
{
}

/// A DHCP message has a right IPv4 checksum, asks to be answered to everyone and has no UDP checksum.
pub proof fn a_dhcp_message_is_checked(frame: Seq<u8>, mac: Seq<u8>, options: Seq<u8>)
    requires
        dhcp_frame(frame, mac, options),
    ensures
        checksum_of(frame.subrange(14, 34)) == 0,
        frame[40] == 0 && frame[41] == 0,
        frame[52] == 0x80 && frame[53] == 0,
        zero_between(frame, 54, 70),
        zero_between(frame, 76, 278),
        zero_between(frame, 282int + options.len(), 342),
{
    let header = frame.subrange(14, 34);
    assert(header[10] == frame[24] && header[11] == frame[25]);
    lemma_checked(header, 10);
}

} // verus!
