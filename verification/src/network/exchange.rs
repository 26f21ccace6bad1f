//! What the system says in an exchange, step by step.

use vstd::prelude::*;
use crate::bytes::zero_between;
use crate::network::arp::arp_answer;
use crate::network::dhcp::{client_options, dhcp_frame, dhcp_reply, options_from, DhcpValues};
use crate::network::dns::{
    a_written_name_matches, answer_at, encoded_name, label_end, lemma_label_end, matched_name,
    query_message, resolved_at, skipped_name,
};
use crate::network::echo::echo_answer;
use crate::network::frame::NetworkError;
use crate::network::http::{status_of, supported_request};
use crate::network::laws::{lemma_free_place, lemma_place_of, one_place_each};
use crate::network::listener::{
    reaction, without_idle, Arrival, Connection, ListenerState, TcpServerEventKind, TcpServerPhase,
};
use crate::network::route::{next_dns_hop, next_hop};
use crate::network::setup::{lease_of, setup_step, Outgoing, SetupStage, SetupState};
use crate::network::tcp::{segment_from, segment_of};
use crate::network::tcp::{TCP_FLAG_ACK, TCP_FLAG_FIN, TCP_FLAG_PSH, TCP_FLAG_RST, TCP_FLAG_SYN};
use crate::network::udp::sound_udp;
use crate::network::wire::carries;

verus! {

/// The flags of a segment as numbers.
proof fn lemma_flags()
    ensures
        TCP_FLAG_SYN | TCP_FLAG_ACK == 0x12,
        TCP_FLAG_RST | TCP_FLAG_ACK == 0x14,
        TCP_FLAG_PSH | TCP_FLAG_ACK == 0x18,
        TCP_FLAG_PSH | TCP_FLAG_ACK | TCP_FLAG_FIN == 0x19,
{
    assert(2u16 | 0x10u16 == 0x12u16 && 4u16 | 0x10u16 == 0x14u16 && 8u16 | 0x10u16 == 0x18u16 && 8u16
        | 0x10u16 | 1u16 == 0x19u16) by (bit_vector);
}

/// The sequence number `count` behind `sequence`.
pub open spec fn behind(sequence: u32, count: int) -> int {
    (sequence + count) % 0x1_0000_0000
}

/// The connection of `peer` is at `at`, and nowhere else.
pub open spec fn connected_at(state: ListenerState, arrival: Arrival, at: int) -> bool {
    &&& one_place_each(state.connections)
    &&& 0 <= at < state.connections.len()
    &&& state.connections[at] matches Some(connection) && connection.peer == arrival.peer
}

proof fn lemma_connected(state: ListenerState, arrival: Arrival, at: int)
    requires
        connected_at(state, arrival, at),
    ensures
        crate::network::listener::place_of(state.connections, arrival.peer, 0) == Some(at),
{
    lemma_place_of(state.connections, arrival.peer, 0);
    let place = crate::network::listener::place_of(state.connections, arrival.peer, 0).unwrap();
    if place != at {
        assert(state.connections[place] is Some && state.connections[at] is Some);
    }
}

/// A peer that asks to connect while it has a place, or one is free, is answered with a segment that
/// takes and acknowledges the connection, and it then has one.
pub proof fn a_handshake_is_answered(
    state: ListenerState,
    arrival: Arrival,
    mac: Seq<u8>,
    address: Seq<u8>,
    tick: u64,
)
    requires
        arrival.flags & 4 == 0,
        arrival.flags & 2 != 0,
        exists|i: int|
            0 <= i < state.connections.len() && (#[trigger] state.connections[i] matches Some(
                connection,
            ) ==> connection.peer == arrival.peer),
    ensures
        ({
            let due = reaction(state, arrival, mac, address, tick);
            let reply = due.reply.unwrap();
            &&& due.reply is Some
            &&& reply.flags == 0x12
            &&& reply.acknowledgement == behind(arrival.sequence, 1)
            &&& reply.payload.len() == 0
            &&& reply.source_mac == mac && reply.destination_mac == arrival.peer.mac
            &&& reply.source_address == address && reply.destination_address == arrival.peer.address
            &&& reply.source_port == state.local_port && reply.destination_port
                == arrival.peer.port
            &&& exists|i: int|
                0 <= i < state.connections.len() && (#[trigger] due.state.connections[i] matches Some(
                    connection,
                ) && connection.peer == arrival.peer && connection.remote_next == behind(
                    arrival.sequence,
                    1,
                ) && connection.local_next == behind(reply.sequence, 1) && connection.phase
                    == TcpServerPhase::Established && connection.last_activity == tick)
            &&& due.report matches Some(report) && report.kind == TcpServerEventKind::Accepted
                && report.address == arrival.peer.address && report.port == arrival.peer.port
                && report.local_port == state.local_port
        }),
{
    lemma_flags();
    lemma_place_of(state.connections, arrival.peer, 0);
    lemma_free_place(state.connections, 0);
    let due = reaction(state, arrival, mac, address, tick);
    let at = match crate::network::listener::place_of(state.connections, arrival.peer, 0) {
        Some(i) => i,
        None => crate::network::listener::free_place(state.connections, 0).unwrap(),
    };
    let i = choose|i: int|
        0 <= i < state.connections.len() && (#[trigger] state.connections[i] matches Some(
            connection,
        ) ==> connection.peer == arrival.peer);
    assert(state.connections[i] is None || state.connections[i] is Some);
    assert(due.state.connections[at] is Some);
}

/// A request in turn on a new connection is answered with the response and the end of it, behind all
/// that the peer has sent; and it is counted and reported.
pub proof fn a_request_in_turn_is_served(
    state: ListenerState,
    arrival: Arrival,
    mac: Seq<u8>,
    address: Seq<u8>,
    tick: u64,
    at: int,
)
    requires
        connected_at(state, arrival, at),
        arrival.flags & 4 == 0,
        arrival.flags & 2 == 0,
        0 < arrival.payload.len() < 0x1_0000,
        supported_request(arrival.payload),
        state.connections[at] matches Some(connection) && connection.phase
            == TcpServerPhase::Established && arrival.sequence == connection.remote_next
            && arrival.acknowledgement == connection.local_next,
    ensures
        ({
            let connection = state.connections[at].unwrap();
            let due = reaction(state, arrival, mac, address, tick);
            let reply = due.reply.unwrap();
            let taken = arrival.payload.len() as int + if arrival.flags & 1 != 0 {
                1int
            } else {
                0
            };
            &&& due.reply is Some
            &&& reply.flags == 0x19
            &&& reply.sequence == connection.local_next
            &&& reply.acknowledgement == behind(connection.remote_next, taken)
            &&& reply.payload == crate::network::http::HTTP_LISTENER_RESPONSE@
            &&& reply.source_mac == mac && reply.destination_mac == arrival.peer.mac
            &&& reply.source_address == address && reply.destination_address == arrival.peer.address
            &&& reply.source_port == state.local_port && reply.destination_port
                == arrival.peer.port
            &&& due.state.connections.len() == state.connections.len()
            &&& due.state.connections[at] == Some(
                Connection {
                    peer: arrival.peer,
                    remote_next: reply.acknowledgement,
                    local_next: behind(reply.sequence, reply.payload.len() + 1int) as u32,
                    phase: TcpServerPhase::FinWait1,
                    last_activity: tick,
                },
            )
            &&& forall|i: int|
                0 <= i < state.connections.len() && i != at ==> #[trigger] due.state.connections[i]
                    == state.connections[i]
            &&& due.report matches Some(report) && report.kind == TcpServerEventKind::Served
                && report.request_bytes == arrival.payload.len() && report.response_bytes
                == reply.payload.len() && report.address == arrival.peer.address && report.port
                == arrival.peer.port
        }),
{
    lemma_flags();
    lemma_connected(state, arrival, at);
}

/// Anything but a request that is served turns the peer away and takes its place from it.
pub proof fn another_request_is_turned_away(
    state: ListenerState,
    arrival: Arrival,
    mac: Seq<u8>,
    address: Seq<u8>,
    tick: u64,
    at: int,
)
    requires
        connected_at(state, arrival, at),
        arrival.flags & 4 == 0,
        arrival.flags & 2 == 0,
        0 < arrival.payload.len() < 0x1_0000,
        !supported_request(arrival.payload),
        state.connections[at] matches Some(connection) && connection.phase
            == TcpServerPhase::Established && arrival.sequence == connection.remote_next
            && arrival.acknowledgement == connection.local_next,
    ensures
        ({
            let due = reaction(state, arrival, mac, address, tick);
            &&& due.reply matches Some(reply) && reply.flags == 0x14 && reply.payload.len() == 0
                && reply.destination_address == arrival.peer.address && reply.destination_port
                == arrival.peer.port && reply.acknowledgement == behind(
                arrival.sequence,
                arrival.payload.len() as int + if arrival.flags & 1 != 0 {
                    1int
                } else {
                    0
                },
            )
            &&& due.state == ListenerState {
                connections: state.connections.update(at, None),
                ..state
            }
            &&& due.report is None
        }),
{
    lemma_flags();
    lemma_connected(state, arrival, at);
}

/// A peer without a connection is turned away, unless it asks for one or resets; nothing else changes.
pub proof fn a_stray_segment_is_turned_away(
    state: ListenerState,
    arrival: Arrival,
    mac: Seq<u8>,
    address: Seq<u8>,
    tick: u64,
)
    requires
        forall|i: int|
            0 <= i < state.connections.len() ==> (#[trigger] state.connections[i] matches Some(
                connection,
            ) ==> connection.peer != arrival.peer),
        arrival.flags & 2 == 0,
    ensures
        ({
            let due = reaction(state, arrival, mac, address, tick);
            &&& due.state == state
            &&& due.report is None
            &&& arrival.flags & 4 != 0 ==> due.reply is None
            &&& arrival.flags & 4 == 0 ==> (due.reply matches Some(reply) && reply.flags == 0x14
                && reply.payload.len() == 0 && reply.destination_mac == arrival.peer.mac
                && reply.destination_address == arrival.peer.address && reply.destination_port
                == arrival.peer.port)
        }),
{
    lemma_flags();
    lemma_place_of(state.connections, arrival.peer, 0);
}

/// A reset takes the peer's connection away and is not answered.
pub proof fn a_reset_ends_the_connection(
    state: ListenerState,
    arrival: Arrival,
    mac: Seq<u8>,
    address: Seq<u8>,
    tick: u64,
    at: int,
)
    requires
        connected_at(state, arrival, at),
        arrival.flags & 4 != 0,
    ensures
        ({
            let due = reaction(state, arrival, mac, address, tick);
            &&& due.reply is None
            &&& due.report is None
            &&& due.state == ListenerState {
                connections: state.connections.update(at, None),
                ..state
            }
        }),
{
    lemma_connected(state, arrival, at);
}

/// A farewell in turn is acknowledged, ends the connection and is counted; without a farewell, a segment
/// in turn and without payload only keeps the connection alive, and shows that the end was received.
pub proof fn a_farewell_is_acknowledged(
    state: ListenerState,
    arrival: Arrival,
    mac: Seq<u8>,
    address: Seq<u8>,
    tick: u64,
    at: int,
)
    requires
        connected_at(state, arrival, at),
        arrival.flags & 4 == 0,
        arrival.flags & 2 == 0,
        arrival.flags & 0x10 != 0,
        arrival.payload.len() == 0,
        state.connections[at] matches Some(connection) && arrival.sequence
            == connection.remote_next && arrival.acknowledgement == connection.local_next,
    ensures
        ({
            let connection = state.connections[at].unwrap();
            let due = reaction(state, arrival, mac, address, tick);
            &&& due.report is None
            &&& arrival.flags & 1 != 0 ==> {
                let reply = due.reply.unwrap();
                &&& due.reply is Some
                &&& reply.flags == 0x10 && reply.payload.len() == 0
                &&& reply.sequence == connection.local_next
                &&& reply.acknowledgement == behind(connection.remote_next, 1)
                &&& reply.destination_address == arrival.peer.address && reply.destination_port
                    == arrival.peer.port
                &&& due.state.connections == state.connections.update(at, None)
                &&& due.state.closed == if state.closed < u64::MAX {
                    state.closed + 1
                } else {
                    state.closed as int
                }
                &&& due.state.served == state.served
            }
            &&& arrival.flags & 1 == 0 ==> {
                &&& due.reply is None
                &&& due.state == ListenerState {
                    connections: state.connections.update(
                        at,
                        Some(
                            Connection {
                                phase: match connection.phase {
                                    TcpServerPhase::Established => TcpServerPhase::Established,
                                    _ => TcpServerPhase::FinWait2,
                                },
                                last_activity: tick,
                                ..connection
                            },
                        ),
                    ),
                    ..state
                }
            }
        }),
{
    lemma_connected(state, arrival, at);
}

/// A segment out of turn, on a connection that has not been served, changes nothing and is not answered.
pub proof fn a_segment_out_of_turn_is_passed_over(
    state: ListenerState,
    arrival: Arrival,
    mac: Seq<u8>,
    address: Seq<u8>,
    tick: u64,
    at: int,
)
    requires
        connected_at(state, arrival, at),
        arrival.flags & 4 == 0,
        arrival.flags & 2 == 0,
        state.connections[at] matches Some(connection) && connection.phase
            == TcpServerPhase::Established && (arrival.sequence != connection.remote_next
            || arrival.acknowledgement != connection.local_next),
    ensures
        ({
            let due = reaction(state, arrival, mac, address, tick);
            due.state == state && due.reply is None && due.report is None
        }),
{
    lemma_connected(state, arrival, at);
}

/// A connection is dropped if and only if nothing came on it for three thousand ticks.
pub proof fn a_connection_lives_while_it_is_used(
    connections: Seq<Option<Connection>>,
    tick: u64,
    i: int,
)
    requires
        0 <= i < connections.len(),
    ensures
        without_idle(connections, tick).len() == connections.len(),
        without_idle(connections, tick)[i] == match connections[i] {
            Some(connection) => if tick >= connection.last_activity + 3000 {
                None
            } else {
                Some(connection)
            },
            None => None,
        },
{
}

/// The options of a server's message are read one behind the other: padding is passed over, the end mark
/// ends them, and each option that the system knows replaces what was known.
pub proof fn options_are_read_in_order(bytes: Seq<u8>, at: int, values: DhcpValues)
    requires
        0 <= at < bytes.len(),
    ensures
        bytes[at] == 255 ==> options_from(bytes, at, values) == Ok::<DhcpValues, NetworkError>(values),
        bytes[at] == 0 ==> options_from(bytes, at, values) == options_from(bytes, at + 1, values),
        0 < bytes[at] < 255 ==> {
            let length = bytes[at + 1] as int;
            let end = at + 2 + length;
            let value = bytes.subrange(at + 2, end);
            let read = options_from(bytes, at, values);
            &&& at + 1 >= bytes.len() || end > bytes.len() ==> read == Err::<DhcpValues, NetworkError>(
                NetworkError::PacketMalformed,
            )
            &&& at + 1 < bytes.len() && end <= bytes.len() ==> {
                &&& bytes[at] == 53 && length == 1 ==> read == options_from(
                    bytes,
                    end,
                    DhcpValues { message_type: Some(bytes[at + 2]), ..values },
                )
                &&& bytes[at] == 1 && length == 4 ==> read == options_from(
                    bytes,
                    end,
                    DhcpValues { subnet_mask: Some(value), ..values },
                )
                &&& bytes[at] == 3 && length >= 4 ==> read == options_from(
                    bytes,
                    end,
                    DhcpValues { gateway: Some(bytes.subrange(at + 2, at + 6)), ..values },
                )
                &&& bytes[at] == 6 && length >= 4 ==> read == options_from(
                    bytes,
                    end,
                    DhcpValues { dns_server: Some(bytes.subrange(at + 2, at + 6)), ..values },
                )
                &&& bytes[at] == 54 && length == 4 ==> read == options_from(
                    bytes,
                    end,
                    DhcpValues { server: Some(value), ..values },
                )
                &&& bytes[at] == 51 && length == 4 ==> read == options_from(
                    bytes,
                    end,
                    DhcpValues {
                        lease_seconds: Some(
                            (bytes[at + 2] * 0x100_0000 + bytes[at + 3] * 0x1_0000 + bytes[at + 4]
                                * 0x100 + bytes[at + 5]) as u32,
                        ),
                        ..values
                    },
                )
                &&& !(seq![53u8, 1, 3, 6, 54, 51].contains(bytes[at])) ==> read == options_from(
                    bytes,
                    end,
                    values,
                )
            }
        },
        options_from(bytes, bytes.len() as int, values) == Err::<DhcpValues, NetworkError>(
            NetworkError::PacketMalformed,
        ),
{
    if 0 < bytes[at] < 255 && at + 1 < bytes.len() && at + 2 + bytes[at + 1] <= bytes.len() {
        let end = at + 2 + bytes[at + 1];
        let value = bytes.subrange(at + 2, end);
        if bytes[at + 1] >= 4 {
            assert(value.take(4) =~= bytes.subrange(at + 2, at + 6));
        }
        let known = seq![53u8, 1, 3, 6, 54, 51];
        if !known.contains(bytes[at]) {
            assert(known[0] != bytes[at] && known[1] != bytes[at] && known[2] != bytes[at] && known[3]
                != bytes[at] && known[4] != bytes[at] && known[5] != bytes[at]);
        }
    }
}

/// The system's message to the DHCP servers: its type first, then who the system is, what it wants to
/// know, and the address and the server that it asks for, if it does.
pub proof fn a_client_says_what_it_wants(
    mac: Seq<u8>,
    message_type: u8,
    requested: Option<Seq<u8>>,
    server: Option<Seq<u8>>,
)
    requires
        mac.len() == 6,
        requested matches Some(address) ==> address.len() == 4,
        server matches Some(address) ==> address.len() == 4,
    ensures
        ({
            let options = client_options(mac, message_type, requested, server);
            let head = 28int;
            let asked = if requested is Some {
                6int
            } else {
                0
            };
            let named = if server is Some {
                6int
            } else {
                0
            };
            &&& options.subrange(0, 6) == seq![53u8, 1, message_type, 61, 7, 1]
            &&& carries(options, 6, 12, mac)
            &&& options.subrange(12, 28) == seq![
                12u8, 7, 0x63, 0x6f, 0x64, 0x65, 0x78, 0x6f, 0x73, 55, 5, 1, 3, 6, 51, 54,
            ]
            &&& requested matches Some(address) ==> options[28] == 50 && options[29] == 4 && carries(
                options,
                30,
                34,
                address,
            )
            &&& server matches Some(address) ==> options[28 + asked] == 54 && options[29 + asked] == 4
                && carries(options, 30 + asked, 34 + asked, address)
            &&& options.len() == 29 + asked + named
            &&& options.last() == 255
        }),
{
    let options = client_options(mac, message_type, requested, server);
    assert(options.subrange(0, 6) =~= seq![53u8, 1, message_type, 61, 7, 1]);
    assert(options.subrange(12, 28) =~= seq![
        12u8, 7, 0x63, 0x6f, 0x64, 0x65, 0x78, 0x6f, 0x73, 55, 5, 1, 3, 6, 51, 54,
    ]);
}

/// Such a message goes out as a request to every station, from no address and from the port of the
/// clients to that of the servers.
pub proof fn a_dhcp_message_on_the_wire(frame: Seq<u8>, mac: Seq<u8>, options: Seq<u8>)
    requires
        dhcp_frame(frame, mac, options),
    ensures
        frame.len() == 342,
        forall|i: int| 0 <= i < 6 ==> #[trigger] frame[i] == 0xff,
        frame.subrange(6, 12) == mac,
        frame[12] == 0x08 && frame[13] == 0x00,
        frame[14] == 0x45,
        frame[16] * 256 + frame[17] == 328,
        frame[23] == 17,
        frame.subrange(26, 34) == seq![0u8, 0, 0, 0, 255, 255, 255, 255],
        frame[34] * 256 + frame[35] == 68,
        frame[36] * 256 + frame[37] == 67,
        frame[38] * 256 + frame[39] == 308,
        frame.subrange(42, 46) == seq![1u8, 1, 6, 0],
        frame.subrange(46, 50) == seq![0x43u8, 0x44, 0x58, 0x4f],
        frame.subrange(70, 76) == mac,
        frame.subrange(278, 282) == seq![99u8, 130, 83, 99],
        frame.subrange(282, 282int + options.len()) == options,
{
    assert forall|i: int| 0 <= i < 6 implies #[trigger] frame[i] == 0xff by {
        assert(frame.subrange(0, 6)[i] == 0xff);
    }
    assert(frame.subrange(26, 34) =~= seq![0u8, 0, 0, 0, 255, 255, 255, 255]) by {
        let source = frame.subrange(26, 30);
        let destination = frame.subrange(30, 34);
        assert(frame[26] == source[0] && frame[27] == source[1] && frame[28] == source[2] && frame[29]
            == source[3]);
        assert(frame[30] == destination[0] && frame[31] == destination[1] && frame[32]
            == destination[2] && frame[33] == destination[3]);
    }
    assert(frame.subrange(42, 46) =~= seq![1u8, 1, 6, 0]);
    assert(frame.subrange(46, 50) =~= seq![0x43u8, 0x44, 0x58, 0x4f]);
    assert(crate::network::dhcp::DHCP_COOKIE@ =~= seq![99u8, 130, 83, 99]);
}

/// A server's message is read if and only if it is a sound datagram between the two ports, is a reply to
/// the system's own message and has the mark of DHCP; what is read are the options behind that mark.
pub proof fn a_server_message_is_for_the_system(frame: Seq<u8>, mac: Seq<u8>)
    requires
        mac.len() == 6,
    ensures
        ({
            let at = 22 + 4 * (frame[14] as int % 16);
            let end = at - 8 + frame[at - 4] * 256 + frame[at - 3];
            let sound = crate::network::udp::sound_udp(frame, 67, 68, 240);
            let ours = {
                &&& frame[at] == 2 && frame[at + 1] == 1 && frame[at + 2] == 6
                &&& frame.subrange(at + 4, at + 8) == seq![0x43u8, 0x44, 0x58, 0x4f]
                &&& frame.subrange(at + 28, at + 34) == mac
                &&& frame.subrange(at + 236, at + 240) == seq![99u8, 130, 83, 99]
            };
            &&& !sound ==> dhcp_reply(frame, mac) == Err::<DhcpValues, NetworkError>(
                NetworkError::PacketMalformed,
            )
            &&& sound && !ours ==> dhcp_reply(frame, mac) == Err::<DhcpValues, NetworkError>(
                NetworkError::DhcpRejected,
            )
            &&& sound && ours ==> dhcp_reply(frame, mac) == options_from(
                frame.subrange(at + 240, end),
                0,
                DhcpValues {
                    message_type: None,
                    subnet_mask: None,
                    gateway: None,
                    server: None,
                    dns_server: None,
                    lease_seconds: None,
                },
            )
        }),
{
    let at = 22 + 4 * (frame[14] as int % 16);
    assert(crate::network::dhcp::DHCP_COOKIE@ =~= seq![99u8, 130, 83, 99]);
    if crate::network::udp::sound_udp(frame, 67, 68, 240) {
        let number = frame.subrange(at + 4, at + 8);
        let own = seq![0x43u8, 0x44, 0x58, 0x4f];
        assert(number[0] == frame[at + 4] && number[1] == frame[at + 5] && number[2] == frame[at + 6]
            && number[3] == frame[at + 7]);
        if number[0] == own[0] && number[1] == own[1] && number[2] == own[2] && number[3] == own[3] {
            assert(number =~= own);
        }
    }
}

/// What a lease has: the address that was offered and acknowledged; mask, gateway, name server and
/// duration from the acknowledgement, or else from the offer; and no lease without mask, gateway or
/// duration, or where another address was acknowledged.
pub proof fn a_lease_is_what_was_acknowledged(
    offered: Seq<u8>,
    offer: DhcpValues,
    acknowledged: Seq<u8>,
    acknowledgement: DhcpValues,
    server: Seq<u8>,
)
    ensures
        ({
            let lease = lease_of(offered, offer, acknowledged, acknowledgement, server);
            &&& lease is None <==> {
                ||| offered != acknowledged
                ||| offer.subnet_mask is None && acknowledgement.subnet_mask is None
                ||| offer.gateway is None && acknowledgement.gateway is None
                ||| offer.lease_seconds is None && acknowledgement.lease_seconds is None
            }
            &&& lease matches Some(lease) ==> {
                &&& lease.address == acknowledged
                &&& match acknowledgement.subnet_mask {
                    Some(mask) => lease.subnet_mask == mask,
                    None => Some(lease.subnet_mask) == offer.subnet_mask,
                }
                &&& match acknowledgement.gateway {
                    Some(gateway) => lease.gateway == gateway,
                    None => Some(lease.gateway) == offer.gateway,
                }
                &&& match acknowledgement.lease_seconds {
                    Some(seconds) => lease.lease_seconds == seconds,
                    None => Some(lease.lease_seconds) == offer.lease_seconds,
                }
                &&& match acknowledgement.server {
                    Some(named) => lease.server == named,
                    None => lease.server == server,
                }
                &&& match acknowledgement.dns_server {
                    Some(names) => lease.dns_server == names,
                    None => match offer.dns_server {
                        Some(names) => lease.dns_server == names,
                        None => lease.dns_server == crate::network::route::default_dns(
                            offered,
                            lease.gateway,
                        ),
                    },
                }
            }
        }),
{
}

/// A name is written label by label: each behind its length, the last before a zero. A label is neither
/// empty nor longer than 63 bytes, and all of it has to fit.
pub proof fn a_name_is_written_label_by_label(
    name: Seq<u8>,
    from: int,
    end: int,
    cursor: int,
    limit: int,
)
    requires
        0 <= from <= end <= name.len(),
        forall|i: int| from <= i < end ==> #[trigger] name[i] != 0x2e,
        end < name.len() ==> name[end] == 0x2e,
    ensures
        ({
            let n = end - from;
            let written = encoded_name(name, from, cursor, limit);
            let head = seq![n as u8] + name.subrange(from, end);
            if n == 0 || n > 63 {
                written == Err::<Seq<u8>, NetworkError>(NetworkError::DnsRejected)
            } else if cursor + 1 + n >= limit {
                written == Err::<Seq<u8>, NetworkError>(NetworkError::FrameTooLarge)
            } else if end == name.len() {
                written == Ok::<Seq<u8>, NetworkError>(head + seq![0u8])
            } else {
                match encoded_name(name, end + 1, cursor + 1 + n, limit) {
                    Ok(rest) => written == Ok::<Seq<u8>, NetworkError>(head + rest),
                    Err(error) => written == Err::<Seq<u8>, NetworkError>(error),
                }
            }
        }),
{
    lemma_label(name, from, end);
}

proof fn lemma_label(name: Seq<u8>, from: int, end: int)
    requires
        0 <= from <= end <= name.len(),
        forall|i: int| from <= i < end ==> #[trigger] name[i] != 0x2e,
        end < name.len() ==> name[end] == 0x2e,
    ensures
        label_end(name, from) == end,
    decreases end - from,
{
    if from < end {
        assert(name[from] != 0x2e);
        lemma_label(name, from + 1, end);
    }
}

/// A name is found only where it was written.
pub proof fn a_name_matches_only_itself(
    dns: Seq<u8>,
    cursor: int,
    name: Seq<u8>,
    from: int,
    limit: int,
)
    requires
        0 <= from <= name.len(),
        0 <= cursor,
        encoded_name(name, from, cursor, limit) is Ok,
        matched_name(dns, cursor, name, from) is Ok,
    ensures
        ({
            let encoded = encoded_name(name, from, cursor, limit).unwrap();
            let end = matched_name(dns, cursor, name, from).unwrap();
            end == cursor + encoded.len() <= dns.len() && dns.subrange(cursor, end) == encoded
        }),
    decreases name.len() - from,
{
    lemma_label_end(name, from);
    let encoded = encoded_name(name, from, cursor, limit).unwrap();
    let stop = label_end(name, from);
    let n = stop - from;
    let next = cursor + 1 + n;
    let label = dns.subrange(cursor + 1, next);
    assert(label == name.subrange(from, stop));
    if stop < name.len() {
        a_name_matches_only_itself(dns, next, name, stop + 1, limit);
        let rest = encoded_name(name, stop + 1, next, limit).unwrap();
        let found = dns.subrange(next, next + rest.len());
        assert(found == rest);
        assert(dns.subrange(cursor, cursor + encoded.len()) =~= encoded) by {
            assert forall|i: int| 0 <= i < encoded.len() implies dns[cursor + i] == encoded[i] by {
                if 0 < i <= n {
                    assert(label[i - 1] == dns[cursor + i]);
                } else if i > n {
                    assert(found[i - 1 - n] == dns[cursor + i]);
                }
            }
        }
    } else {
        assert(dns.subrange(cursor, cursor + encoded.len()) =~= encoded) by {
            assert forall|i: int| 0 <= i < encoded.len() implies dns[cursor + i] == encoded[i] by {
                if 0 < i <= n {
                    assert(label[i - 1] == dns[cursor + i]);
                }
            }
        }
    }
}

/// Where a name in a message ends: behind its zero, or behind the two bytes that point elsewhere; each
/// label before that is passed over.
pub proof fn a_name_is_passed_over(dns: Seq<u8>, cursor: int)
    requires
        0 <= cursor < dns.len(),
    ensures
        dns[cursor] == 0 ==> skipped_name(dns, cursor) == Ok::<int, NetworkError>(cursor + 1),
        dns[cursor] >= 192 ==> skipped_name(dns, cursor) == if cursor + 2 <= dns.len() {
            Ok::<int, NetworkError>(cursor + 2)
        } else {
            Err(NetworkError::PacketMalformed)
        },
        0 < dns[cursor] < 64 ==> skipped_name(dns, cursor) == if cursor + 1 + dns[cursor] <= dns.len() {
            skipped_name(dns, cursor + 1 + dns[cursor])
        } else {
            Err(NetworkError::PacketMalformed)
        },
        64 <= dns[cursor] < 192 ==> skipped_name(dns, cursor) is Err,
{
}

/// Of the records of an answer the first that is an IPv4 address is taken; every other one is passed
/// over, and where there is none, there is no answer.
pub proof fn the_first_address_is_taken(dns: Seq<u8>, cursor: int, record: int, count: nat)
    requires
        0 <= record,
        record + 10 + dns[record + 8] * 256 + dns[record + 9] <= dns.len(),
        skipped_name(dns, cursor) == Ok::<int, NetworkError>(record),
    ensures
        ({
            let length = dns[record + 8] * 256 + dns[record + 9];
            let is_address = dns[record] == 0 && dns[record + 1] == 1 && dns[record + 2] == 0
                && dns[record + 3] == 1 && length == 4;
            answer_at(dns, cursor, count + 1) == if is_address {
                Ok::<int, NetworkError>(record + 10)
            } else {
                answer_at(dns, record + 10 + length, count)
            }
        }),
        answer_at(dns, cursor, 0) == Err::<int, NetworkError>(NetworkError::DnsRejected),
{
}

/// An answer to the question that was asked, with one record that points back to the name in it and
/// gives four bytes, gives those bytes; whatever it says of itself beyond that it is an answer without
/// an error.
pub proof fn an_answer_gives_the_address(
    dns: Seq<u8>,
    query_id: u16,
    name: Seq<u8>,
    encoded: Seq<u8>,
)
    requires
        encoded_name(name, 0, 12, 256) == Ok::<Seq<u8>, NetworkError>(encoded),
        dns.len() >= 32 + encoded.len(),
        dns[0] * 256 + dns[1] == query_id,
        dns[2] >= 128,
        dns[3] as int % 16 == 0,
        dns[4] == 0 && dns[5] == 1,
        dns[6] == 0 && dns[7] == 1,
        dns.subrange(12, 12int + encoded.len()) == encoded,
        dns.subrange(12int + encoded.len(), 22int + encoded.len()) == seq![
            0u8, 1, 0, 1, 0xc0, 0x0c, 0, 1, 0, 1,
        ],
        dns.subrange(26int + encoded.len(), 28int + encoded.len()) == seq![0u8, 4],
    ensures
        resolved_at(dns, query_id as int, name) == Ok::<int, NetworkError>(28int + encoded.len()),
{
    let q = 12int + encoded.len();
    a_written_name_matches(dns, 12, name, 0, 256);
    let middle = dns.subrange(q, q + 10);
    assert(forall|i: int| 0 <= i < 10 ==> middle[i] == dns[q + i]);
    assert(dns[q] == 0 && dns[q + 1] == 1 && dns[q + 2] == 0 && dns[q + 3] == 1 && dns[q + 4] == 0xc0
        && dns[q + 6] == 0 && dns[q + 7] == 1 && dns[q + 8] == 0 && dns[q + 9] == 1) by {
        assert(middle[0] == 0 && middle[1] == 1 && middle[2] == 0 && middle[3] == 1 && middle[4]
            == 0xc0 && middle[6] == 0 && middle[7] == 1 && middle[8] == 0 && middle[9] == 1);
    }
    let size = dns.subrange(q + 14, q + 16);
    assert(size[0] == dns[q + 14] && size[1] == dns[q + 15]);
    assert((0x100 * dns[2] + dns[3]) % 16 == dns[3] as int % 16);
    a_name_is_passed_over(dns, q + 4);
    the_first_address_is_taken(dns, q + 4, q + 6, 0);
}

/// What is no answer to the question is refused: one with another number, one that is itself a question,
/// one that reports an error, and one that repeats no question or more than one.
pub proof fn no_other_answer_is_taken(dns: Seq<u8>, query_id: u16, name: Seq<u8>)
    requires
        dns.len() >= 12,
        dns[0] * 256 + dns[1] != query_id || dns[2] < 128 || dns[3] as int % 16 != 0 || dns[4] * 256
            + dns[5] != 1,
    ensures
        resolved_at(dns, query_id as int, name) == Err::<int, NetworkError>(NetworkError::DnsRejected),
{
    assert((0x100 * dns[2] + dns[3]) % 16 == dns[3] as int % 16);
}

/// The question asks, with its number, for the address of one name, and wants it looked up.
pub proof fn a_question_asks_for_an_address(query_id: u16, encoded: Seq<u8>)
    ensures
        ({
            let message = query_message(query_id as int, encoded);
            let n = encoded.len() as int;
            &&& message.len() == n + 16
            &&& message[0] * 256 + message[1] == query_id
            &&& message.subrange(2, 12) == seq![1u8, 0, 0, 1, 0, 0, 0, 0, 0, 0]
            &&& message.subrange(12, 12 + n) == encoded
            &&& message.subrange(12 + n, 16 + n) == seq![0u8, 1, 0, 1]
        }),
{
    let message = query_message(query_id as int, encoded);
    let n = encoded.len() as int;
    assert(message.subrange(2, 12) =~= seq![1u8, 0, 0, 1, 0, 0, 0, 0, 0, 0]);
    assert(message.subrange(12, 12 + n) =~= encoded);
    assert(message.subrange(12 + n, 16 + n) =~= seq![0u8, 1, 0, 1]);
}

/// An offer of an address by a named server is asked for, of that server.
pub proof fn an_offer_is_asked_for(state: SetupState, frame: Seq<u8>)
    requires
        state.stage == SetupStage::Offer,
    ensures
        ({
            let at = 22 + 4 * (frame[14] as int % 16);
            let offered = frame.subrange(at + 16, at + 20);
            let none = zero_between(offered, 0, 4);
            let step = setup_step(state, frame);
            match dhcp_reply(frame, state.mac) {
                Ok(values) => if values.message_type != Some(2u8) {
                    step == Ok::<_, NetworkError>((state, Seq::<Outgoing>::empty()))
                } else if none || values.server is None {
                    step == Err::<(SetupState, Seq<Outgoing>), NetworkError>(
                        NetworkError::DhcpRejected,
                    )
                } else {
                    &&& step matches Ok((next, sent)) && next == (SetupState {
                        stage: SetupStage::Acknowledgement,
                        offered,
                        offer: values,
                        server: values.server.unwrap(),
                        ..state
                    }) && sent.len() == 1 && (sent[0] matches Outgoing::Dhcp { options } && options
                        == client_options(state.mac, 3, Some(offered), values.server))
                },
                Err(_) => step == Ok::<_, NetworkError>((state, Seq::<Outgoing>::empty())),
            }
        }),
{
}

/// An acknowledgement that makes a lease has the gateway looked for; one that makes none is refused.
pub proof fn an_acknowledgement_settles_the_lease(state: SetupState, frame: Seq<u8>)
    requires
        state.stage == SetupStage::Acknowledgement,
    ensures
        ({
            let at = 22 + 4 * (frame[14] as int % 16);
            let acknowledged = frame.subrange(at + 16, at + 20);
            let step = setup_step(state, frame);
            match dhcp_reply(frame, state.mac) {
                Ok(values) => if values.message_type != Some(5u8) {
                    step == Ok::<_, NetworkError>((state, Seq::<Outgoing>::empty()))
                } else {
                    match lease_of(state.offered, state.offer, acknowledged, values, state.server) {
                        Some(lease) => step matches Ok((next, sent)) && next == (SetupState {
                            stage: SetupStage::Gateway,
                            lease,
                            ..state
                        }) && sent.len() == 1 && (sent[0] matches Outgoing::WhoHas { target }
                            && target == lease.gateway),
                        None => step == Err::<(SetupState, Seq<Outgoing>), NetworkError>(
                            NetworkError::DhcpRejected,
                        ),
                    }
                },
                Err(_) => step == Ok::<_, NetworkError>((state, Seq::<Outgoing>::empty())),
            }
        }),
{
}

/// Once the gateway has said where it is, it is asked for an echo; once the echo has come back, the name
/// server is asked, through the gateway or after it was looked for.
pub proof fn the_gateway_leads_to_the_names(state: SetupState, frame: Seq<u8>)
    ensures
        state.stage == SetupStage::Gateway ==> setup_step(state, frame) == Ok::<_, NetworkError>(
            if arp_answer(frame, state.lease.address, state.lease.gateway) {
                (
                    SetupState {
                        stage: SetupStage::Echo,
                        gateway_mac: frame.subrange(22, 28),
                        ..state
                    },
                    seq![Outgoing::Echo],
                )
            } else {
                (state, seq![])
            },
        ),
        state.stage == SetupStage::Echo ==> ({
            let hop = next_dns_hop(
                state.lease.address,
                state.lease.subnet_mask,
                state.lease.gateway,
                state.lease.dns_server,
            );
            setup_step(state, frame) == Ok::<_, NetworkError>(
                if !echo_answer(frame, state.gateway_mac, state.lease.address, state.lease.gateway) {
                    (state, seq![])
                } else if hop == state.lease.gateway {
                    (
                        SetupState {
                            stage: SetupStage::DnsAnswer,
                            dns_mac: state.gateway_mac,
                            ..state
                        },
                        seq![Outgoing::Query],
                    )
                } else {
                    (
                        SetupState { stage: SetupStage::DnsStation, ..state },
                        seq![Outgoing::WhoHas { target: hop }],
                    )
                },
            )
        }),
        state.stage == SetupStage::DnsStation ==> setup_step(state, frame) == Ok::<_, NetworkError>(
            if arp_answer(
                frame,
                state.lease.address,
                next_dns_hop(
                    state.lease.address,
                    state.lease.subnet_mask,
                    state.lease.gateway,
                    state.lease.dns_server,
                ),
            ) {
                (
                    SetupState {
                        stage: SetupStage::DnsAnswer,
                        dns_mac: frame.subrange(22, 28),
                        ..state
                    },
                    seq![Outgoing::Query],
                )
            } else {
                (state, seq![])
            },
        ),
{
}

/// Once the name server has given the address, the connection to it is opened, through the gateway or
/// after the station was looked for.
pub proof fn the_name_leads_to_the_server(state: SetupState, frame: Seq<u8>)
    requires
        state.stage == SetupStage::DnsAnswer || state.stage == SetupStage::HttpStation,
    ensures
        ({
            let udp = 14 + 4 * (frame[14] as int % 16);
            let message = frame.subrange(udp + 8, udp + frame[udp + 4] * 256 + frame[udp + 5]);
            let found = resolved_at(
                message,
                0x4344,
                seq![0x65u8, 0x78, 0x61, 0x6d, 0x70, 0x6c, 0x65, 0x2e, 0x63, 0x6f, 0x6d],
            );
            let awaited = sound_udp(frame, 53, 49152, 12) && frame.subrange(6, 12) == state.dns_mac
                && frame.subrange(26, 30) == state.lease.dns_server && frame.subrange(30, 34)
                == state.lease.address;
            let step = setup_step(state, frame);
            let answer = if state.stage == SetupStage::DnsAnswer {
                message.subrange(found->Ok_0, found->Ok_0 + 4)
            } else {
                state.dns_answer
            };
            let hop = next_hop(
                state.lease.address,
                state.lease.subnet_mask,
                state.lease.gateway,
                answer,
            );
            let opening = if state.stage == SetupStage::DnsAnswer {
                awaited && found is Ok && hop == state.lease.gateway
            } else {
                arp_answer(frame, state.lease.address, hop)
            };
            let asking = state.stage == SetupStage::DnsAnswer && awaited && found is Ok && hop
                != state.lease.gateway;
            &&& opening ==> (step matches Ok((next, sent)) && next.stage == SetupStage::Connection
                && next.dns_answer == answer && next.http_mac == (if state.stage
                == SetupStage::DnsAnswer {
                state.gateway_mac
            } else {
                frame.subrange(22, 28)
            }) && sent.len() == 1 && (sent[0] matches Outgoing::Segment {
                sequence,
                acknowledgement,
                flags,
                payload,
            } && sequence == 0x4344_5801 && acknowledgement == 0 && flags == 2 && payload.len() == 0))
            &&& asking ==> (step matches Ok((next, sent)) && next.stage == SetupStage::HttpStation
                && next.dns_answer == answer && sent.len() == 1 && (sent[0] matches Outgoing::WhoHas {
                target,
            } && target == hop))
            &&& !opening && !asking ==> step == Ok::<_, NetworkError>(
                (state, Seq::<Outgoing>::empty()),
            )
        }),
{
    assert(crate::network::dns::DNS_QUERY_NAME@ =~= seq![
        0x65u8, 0x78, 0x61, 0x6d, 0x70, 0x6c, 0x65, 0x2e, 0x63, 0x6f, 0x6d,
    ]);
}

/// Once the server has taken the connection, that is acknowledged and the request is sent; once its
/// response has come, that is acknowledged and the interface is up. A reset ends it all.
pub proof fn the_server_is_asked_and_answers(state: SetupState, frame: Seq<u8>)
    requires
        state.stage == SetupStage::Connection || state.stage == SetupStage::Response,
    ensures
        ({
            let segment = segment_of(frame);
            let payload = frame.subrange(
                segment.payload_offset as int,
                segment.payload_offset + segment.payload_len,
            );
            let awaited = segment_from(
                frame,
                state.http_mac,
                state.lease.address,
                state.dns_answer,
                49153,
                80,
            );
            let step = setup_step(state, frame);
            let taken = segment.flags & 0x12 == 0x12 && segment.acknowledgement == 0x4344_5802;
            let answered = segment.acknowledgement == 0x4344_5802 + 56 && segment.payload_len > 0
                && status_of(payload) is Some;
            let due = if state.stage == SetupStage::Connection {
                taken
            } else {
                answered
            };
            if awaited && segment.flags & 4 != 0 {
                step == Err::<(SetupState, Seq<Outgoing>), NetworkError>(NetworkError::TcpRejected)
            } else if !awaited || !due {
                step == Ok::<_, NetworkError>((state, Seq::<Outgoing>::empty()))
            } else if state.stage == SetupStage::Connection {
                step matches Ok((next, sent)) && next == (SetupState {
                    stage: SetupStage::Response,
                    ..state
                }) && sent.len() == 2 && (sent[0] matches Outgoing::Segment {
                    sequence,
                    acknowledgement,
                    flags,
                    payload,
                } && sequence == 0x4344_5802 && acknowledgement == behind(segment.sequence, 1) && flags
                    == 0x10 && payload.len() == 0) && (sent[1] matches Outgoing::Segment {
                    sequence,
                    acknowledgement,
                    flags,
                    payload,
                } && sequence == 0x4344_5802 && acknowledgement == behind(segment.sequence, 1) && flags
                    == 0x18 && payload == crate::network::http::HTTP_REQUEST@ && payload.len() == 56)
            } else {
                step matches Ok((next, sent)) && next == (SetupState {
                    stage: SetupStage::Done,
                    http_status: status_of(payload).unwrap(),
                    http_response_bytes: segment.payload_len as int,
                    ..state
                }) && sent.len() == 1 && (sent[0] matches Outgoing::Segment {
                    sequence,
                    acknowledgement,
                    flags,
                    payload,
                } && sequence == 0x4344_5802 + 56 && flags == 0x10 && payload.len() == 0
                    && acknowledgement == (segment.sequence + segment.payload_len as u32
                    + if segment.flags & 1 != 0 {
                    1int
                } else {
                    0
                }) % 0x1_0000_0000)
            }
        }),
{
    lemma_flags();
}

} // verus!
