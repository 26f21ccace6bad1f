//! What is sent, byte by byte, for what was decided.

use vstd::prelude::*;
use crate::network::arp::{arp_frame, broadcast_mac, no_mac};
use crate::network::dhcp::{dhcp_frame, makes_a_lease, DhcpMessage};
use crate::network::dns::{encoded_name, query_message, query_name, DNS_QUERY_NAME};
use crate::network::exchange::a_name_is_written_label_by_label;
use crate::network::frame::NetworkError;
use crate::network::interface::{echo_on_the_wire, replies, sends_echo, Handling};
use crate::network::listener::{
    arrived, carries_out, event_view, idle, idle_count, Connection, Reaction, TcpServerAction,
};
use crate::network::setup::{
    client_segment, datagram_on_the_wire, encoded_query, initial_setup, missing_answer, one_more_try,
    segment_on_the_wire, sends, sends_all, sends_segment, setup_step, try_outcome, Outgoing,
    SetupStage, SetupState,
};
use crate::network::tcp::{tcp_frame, IncomingTcpSegment, TcpFrame};
use crate::network::udp::{udp_frame, wire_length};
use crate::network::wire::{
    a_datagram_on_the_wire, a_segment_on_the_wire, an_arp_frame_on_the_wire,
    an_echo_request_on_the_wire, carries,
};

verus! {

/// A frame that is too short is filled up to sixty bytes; a longer one is sent as it is.
pub proof fn a_short_frame_is_filled_up(length: int)
    ensures
        length < 60 ==> wire_length(length) == 60,
        length >= 60 ==> wire_length(length) == length,
{
}

/// A segment is sent whole: its ports, its numbers, its flags and its payload stand in the bytes.
pub proof fn a_sent_segment_is_whole(bytes: Seq<u8>, segment: TcpFrame)
    requires
        sends_segment(bytes, segment),
        segment.source_address.len() == 4,
        segment.destination_address.len() == 4,
        segment.payload.len() <= 1460,
    ensures
        bytes.len() >= 60,
        bytes.len() >= 54 + segment.payload.len(),
        carries(bytes, 0, 6, segment.destination_mac),
        carries(bytes, 6, 12, segment.source_mac),
        carries(bytes, 26, 30, segment.source_address),
        carries(bytes, 30, 34, segment.destination_address),
        bytes[34] * 256 + bytes[35] == segment.source_port,
        bytes[36] * 256 + bytes[37] == segment.destination_port,
        bytes[38] * 0x100_0000 + bytes[39] * 0x1_0000 + bytes[40] * 256 + bytes[41]
            == segment.sequence,
        bytes[42] * 0x100_0000 + bytes[43] * 0x1_0000 + bytes[44] * 256 + bytes[45]
            == segment.acknowledgement,
        bytes[47] == segment.flags as int % 64,
        carries(bytes, 54, 54int + segment.payload.len(), segment.payload),
{
    let frame = choose|frame: Seq<u8>| #[trigger] segment_on_the_wire(bytes, frame, segment);
    a_segment_on_the_wire(frame, segment);
    assert(forall|i: int| 0 <= i < bytes.len() ==> #[trigger] bytes[i] == frame[i]);
    assert(frame.len() == 1514);
}

/// The name that is asked for is written as two labels.
pub proof fn the_asked_name_is_two_labels()
    ensures
        encoded_query() == seq![
            7u8, 0x65, 0x78, 0x61, 0x6d, 0x70, 0x6c, 0x65, 3, 0x63, 0x6f, 0x6d, 0,
        ],
{
    let name = query_name();
    assert(name =~= seq![0x65u8, 0x78, 0x61, 0x6d, 0x70, 0x6c, 0x65, 0x2e, 0x63, 0x6f, 0x6d]) by {
        assert(DNS_QUERY_NAME@.len() == 11);
    }
    a_name_is_written_label_by_label(name, 8, 11, 20, 256);
    a_name_is_written_label_by_label(name, 0, 7, 12, 256);
    assert(encoded_query() =~= seq![
        7u8, 0x65, 0x78, 0x61, 0x6d, 0x70, 0x6c, 0x65, 3, 0x63, 0x6f, 0x6d, 0,
    ]);
}

/// What was decided is sent to whom it is for: a lease is asked of everyone, a station of everyone by its
/// address, an echo of the gateway, the name of the name server, and a segment goes to the server.
pub proof fn what_was_decided_is_sent(bytes: Seq<u8>, outgoing: Outgoing, state: SetupState)
    requires
        sends(bytes, outgoing, state),
        state.mac.len() == 6,
        state.lease.address.len() == 4,
        state.lease.dns_server.len() == 4,
        state.dns_answer.len() == 4,
    ensures
        carries(bytes, 6, 12, state.mac),
        outgoing matches Outgoing::Dhcp { options } ==> bytes.len() == 342 && bytes.subrange(0, 6)
            == seq![0xffu8, 0xff, 0xff, 0xff, 0xff, 0xff] && carries(
            bytes,
            282,
            282int + options.len(),
            options,
        ),
        outgoing matches Outgoing::WhoHas { target } ==> bytes.subrange(0, 6) == seq![
            0xffu8, 0xff, 0xff, 0xff, 0xff, 0xff,
        ] && bytes[20] == 0 && bytes[21] == 1 && carries(bytes, 28, 32, state.lease.address)
            && carries(bytes, 38, 42, target),
        outgoing is Echo ==> carries(bytes, 0, 6, state.gateway_mac) && carries(
            bytes,
            26,
            30,
            state.lease.address,
        ) && carries(bytes, 30, 34, state.lease.gateway) && bytes[34] == 8,
        outgoing is Query ==> carries(bytes, 0, 6, state.dns_mac) && carries(
            bytes,
            26,
            30,
            state.lease.address,
        ) && carries(bytes, 30, 34, state.lease.dns_server) && bytes[34] * 256 + bytes[35] == 49152
            && bytes[36] * 256 + bytes[37] == 53 && bytes.subrange(42, 71) == seq![
            0x43u8, 0x44, 1, 0, 0, 1, 0, 0, 0, 0, 0, 0, 7, 0x65, 0x78, 0x61, 0x6d, 0x70, 0x6c, 0x65, 3,
            0x63, 0x6f, 0x6d, 0, 0, 1, 0, 1,
        ],
        outgoing matches Outgoing::Segment { sequence, acknowledgement, flags, payload }
            ==> payload.len() <= 1460 ==> {
            &&& carries(bytes, 0, 6, state.http_mac)
            &&& carries(bytes, 26, 30, state.lease.address)
            &&& carries(bytes, 30, 34, state.dns_answer)
            &&& bytes[34] * 256 + bytes[35] == 49153
            &&& bytes[36] * 256 + bytes[37] == 80
            &&& bytes[38] * 0x100_0000 + bytes[39] * 0x1_0000 + bytes[40] * 256 + bytes[41]
                == sequence
            &&& bytes[42] * 0x100_0000 + bytes[43] * 0x1_0000 + bytes[44] * 256 + bytes[45]
                == acknowledgement
            &&& bytes[47] == flags as int % 64
            &&& carries(bytes, 54, 54int + payload.len(), payload)
        },
{
    match outgoing {
        Outgoing::Dhcp { options } => {
            lemma_carried(bytes, 6, 12, state.mac);
            lemma_carried(bytes, 282, 282int + options.len(), options);
            assert(bytes.subrange(0, 6) =~= seq![0xffu8, 0xff, 0xff, 0xff, 0xff, 0xff]);
        },
        Outgoing::WhoHas { target } => {
            an_arp_frame_on_the_wire(
                bytes,
                broadcast_mac(),
                1,
                state.mac,
                state.lease.address,
                no_mac(),
                target,
            );
            assert(bytes.subrange(0, 6) =~= seq![0xffu8, 0xff, 0xff, 0xff, 0xff, 0xff]);
        },
        Outgoing::Echo => {
            an_echo_request_on_the_wire(
                bytes,
                state.mac,
                state.gateway_mac,
                state.lease.address,
                state.lease.gateway,
            );
        },
        Outgoing::Query => {
            lemma_query(bytes, state);
        },
        Outgoing::Segment { sequence, acknowledgement, flags, payload } => {
            let segment = client_segment(state, sequence, acknowledgement, flags, payload);
            let frame = choose|frame: Seq<u8>| #[trigger] segment_on_the_wire(bytes, frame, segment);
            assert(frame.len() == 1514);
            assert(54 + payload.len() <= 1514);
            a_sent_segment_is_whole(bytes, segment);
        },
    }
}

proof fn lemma_carried(frame: Seq<u8>, from: int, to: int, part: Seq<u8>)
    requires
        0 <= from <= to <= frame.len(),
        frame.subrange(from, to) == part,
    ensures
        carries(frame, from, to, part),
{
    assert forall|i: int| 0 <= i < part.len() implies #[trigger] frame[from + i] == part[i] by {
        assert(frame.subrange(from, to)[i] == frame[from + i]);
    }
}

proof fn lemma_query(bytes: Seq<u8>, state: SetupState)
    requires
        sends(bytes, Outgoing::Query, state),
        state.lease.address.len() == 4,
        state.lease.dns_server.len() == 4,
    ensures
        carries(bytes, 0, 6, state.dns_mac),
        carries(bytes, 6, 12, state.mac),
        carries(bytes, 26, 30, state.lease.address),
        carries(bytes, 30, 34, state.lease.dns_server),
        bytes[34] * 256 + bytes[35] == 49152,
        bytes[36] * 256 + bytes[37] == 53,
        bytes.subrange(42, 71) == seq![
            0x43u8, 0x44, 1, 0, 0, 1, 0, 0, 0, 0, 0, 0, 7, 0x65, 0x78, 0x61, 0x6d, 0x70, 0x6c, 0x65, 3,
            0x63, 0x6f, 0x6d, 0, 0, 1, 0, 1,
        ],
{
    let frame = choose|frame: Seq<u8>| #[trigger] datagram_on_the_wire(bytes, frame, state);
    the_asked_name_is_two_labels();
    let question = query_message(0x4344, encoded_query());
    assert(question.len() == 29);
    a_datagram_on_the_wire(
        frame,
        state.mac,
        state.dns_mac,
        state.lease.address,
        state.lease.dns_server,
        49152,
        53,
        question,
    );
    assert(bytes.len() == 71);
    assert(forall|i: int| 0 <= i < bytes.len() ==> #[trigger] bytes[i] == frame[i]);
    assert(forall|i: int| 0 <= i < 29 ==> #[trigger] frame[42 + i] == question[i]);
    assert(bytes.subrange(42, 71) =~= question);
    assert(question =~= seq![
        0x43u8, 0x44, 1, 0, 0, 1, 0, 0, 0, 0, 0, 0, 7, 0x65, 0x78, 0x61, 0x6d, 0x70, 0x6c, 0x65, 3, 0x63,
        0x6f, 0x6d, 0, 0, 1, 0, 1,
    ]);
}

/// Every frame that was decided on is sent, in its turn, and no other.
pub proof fn every_decided_frame_is_sent(frames: Seq<Vec<u8>>, outgoing: Seq<Outgoing>, state: SetupState)
    requires
        sends_all(frames, outgoing, state),
    ensures
        frames.len() == outgoing.len(),
        forall|i: int| 0 <= i < outgoing.len() ==> sends((#[trigger] frames[i])@, outgoing[i], state),
{
}

/// Bringing the interface up starts by waiting for an offer, with nothing known but its own address.
pub proof fn a_setup_starts_with_an_offer(mac: Seq<u8>)
    ensures
        ({
            let start = initial_setup(mac);
            &&& start.stage is Offer
            &&& start.mac == mac
            &&& start.lease.address == seq![0u8, 0, 0, 0]
            &&& start.lease.subnet_mask == start.lease.address
            &&& start.lease.gateway == start.lease.address
            &&& start.lease.server == start.lease.address
            &&& start.lease.dns_server == start.lease.address
            &&& start.lease.lease_seconds == 0
            &&& start.offered == start.lease.address && start.server == start.lease.address
            &&& start.gateway_mac == seq![0u8, 0, 0, 0, 0, 0]
            &&& start.dns_mac == start.gateway_mac && start.http_mac == start.gateway_mac
            &&& start.dns_answer == start.lease.address
            &&& start.http_status == 0 && start.http_response_bytes == 0
            &&& start.offer.server is None && start.offer.message_type is None
            &&& start.offer.subnet_mask is None && start.offer.gateway is None
            &&& start.offer.dns_server is None && start.offer.lease_seconds is None
        }),
{
}

/// An answer that does not come is missed under the name of what was asked.
pub proof fn a_missing_answer_is_named(stage: SetupStage)
    ensures
        missing_answer(stage) == NetworkError::DhcpTimedOut <==> stage is Offer
            || stage is Acknowledgement,
        missing_answer(stage) == NetworkError::ArpTimedOut <==> stage is Gateway
            || stage is DnsStation || stage is HttpStation,
        missing_answer(stage) == NetworkError::IcmpTimedOut <==> stage is Echo,
        missing_answer(stage) == NetworkError::DnsTimedOut <==> stage is DnsAnswer,
        missing_answer(stage) == NetworkError::TcpTimedOut <==> stage is Connection
            || stage is Response || stage is Done,
{
}

/// A try in which nothing came, or nothing that leads on, is one more try; what leads to another stage
/// ends the waiting.
pub proof fn a_try_ends_when_the_stage_does(state: SetupState, frame: Seq<u8>, tries: usize)
    ensures
        try_outcome(state, None) == Ok::<Option<(SetupState, Seq<Outgoing>)>, NetworkError>(None),
        setup_step(state, frame) matches Ok(step) ==> match try_outcome(state, Some(frame)) {
            Ok(Some(next)) => step.0.stage != state.stage && next.0 == step.0 && next.1 == step.1,
            Ok(None) => step.0.stage == state.stage,
            Err(_) => false,
        },
        setup_step(state, frame) matches Err(error) ==> try_outcome(state, Some(frame)) == Err::<
            Option<(SetupState, Seq<Outgoing>)>,
            NetworkError,
        >(error),
        tries < usize::MAX ==> one_more_try(tries) == tries + 1,
        tries == usize::MAX ==> one_more_try(tries) == tries,
{
}

/// A lease is made when the address that was offered is acknowledged and its mask, its gateway and its
/// time are in one of the two messages.
pub proof fn a_lease_needs_its_parts(offer: DhcpMessage, acknowledgement: DhcpMessage)
    ensures
        makes_a_lease(offer, acknowledgement) <==> {
            &&& acknowledgement.offered_address@ == offer.offered_address@
            &&& acknowledgement.options.subnet_mask is Some || offer.options.subnet_mask is Some
            &&& acknowledgement.options.gateway is Some || offer.options.gateway is Some
            &&& acknowledgement.options.lease_seconds is Some || offer.options.lease_seconds is Some
        },
{
}

/// A question for a station is answered to whom asked, an echo goes back, a segment that is due is sent,
/// and what is nobody's is answered by nothing.
pub proof fn a_reply_goes_back(
    reply: Option<Vec<u8>>,
    handling: Handling,
    frame: Seq<u8>,
    mac: Seq<u8>,
    address: Seq<u8>,
)
    requires
        replies(reply, handling, frame, mac, address),
        42 <= frame.len() <= 1514,
        mac.len() == 6,
    ensures
        handling is Arp || handling is Echo ==> reply is Some,
        handling is Ignore ==> reply is None,
        handling matches Handling::Tcp(reaction) ==> (reply is Some <==> reaction.reply is Some),
        handling matches Handling::Tcp(reaction) ==> (reaction.reply matches Some(segment)
            ==> sends_segment(reply.unwrap()@, segment)),
        handling is Arp ==> {
            let bytes = reply.unwrap();
            &&& carries(bytes@, 0, 6, frame.subrange(22, 28))
            &&& carries(bytes@, 6, 12, mac)
            &&& bytes@[20] == 0 && bytes@[21] == 2
            &&& carries(bytes@, 22, 28, mac)
            &&& carries(bytes@, 28, 32, address)
            &&& carries(bytes@, 32, 38, frame.subrange(22, 28))
            &&& carries(bytes@, 38, 42, frame.subrange(28, 32))
        },
        handling is Echo ==> {
            let bytes = reply.unwrap();
            &&& bytes@.len() >= frame.len()
            &&& bytes@.len() >= 60
            &&& carries(bytes@, 0, 6, frame.subrange(6, 12))
            &&& carries(bytes@, 6, 12, mac)
            &&& carries(bytes@, 26, 30, frame.subrange(30, 34))
            &&& carries(bytes@, 30, 34, frame.subrange(26, 30))
        },
{
    if handling is Arp {
        an_arp_frame_on_the_wire(
            reply.unwrap()@,
            frame.subrange(22, 28),
            2,
            mac,
            address,
            frame.subrange(22, 28),
            frame.subrange(28, 32),
        );
    }
    if handling is Echo {
        let bytes = reply.unwrap()@;
        let whole = choose|whole: Seq<u8>| #[trigger] echo_on_the_wire(bytes, whole, frame, mac);
        assert(forall|i: int| 0 <= i < bytes.len() ==> #[trigger] bytes[i] == whole[i]);
        lemma_carried(whole, 0, 6, frame.subrange(6, 12));
        lemma_carried(whole, 6, 12, mac);
        lemma_carried(whole, 26, 30, frame.subrange(30, 34));
        lemma_carried(whole, 30, 34, frame.subrange(26, 30));
    }
}

/// The listener sends a segment where one is due and none where none is, and reports what was to be
/// reported.
pub proof fn a_reaction_is_carried_out(action: Option<TcpServerAction>, reaction: Reaction)
    requires
        carries_out(action, reaction),
    ensures
        action is Some <==> reaction.reply is Some,
        reaction.reply is None ==> reaction.report is None,
        action matches Some(action) ==> {
            &&& tcp_frame(action.frame@, reaction.reply.unwrap())
            &&& action.length >= 60
            &&& action.length >= 54 + reaction.reply.unwrap().payload.len()
            &&& event_view(action.event) == reaction.report
        },
{
}

/// What came is what the frame said: who sent it, its numbers, its flags and its payload.
pub proof fn an_arrival_is_what_came(incoming: IncomingTcpSegment, payload: Seq<u8>)
    ensures
        ({
            let arrival = arrived(incoming, payload);
            &&& arrival.peer.mac == incoming.remote_mac@
            &&& arrival.peer.address == incoming.remote_address@
            &&& arrival.peer.port == incoming.remote_port
            &&& arrival.sequence == incoming.segment.sequence
            &&& arrival.acknowledgement == incoming.segment.acknowledgement
            &&& arrival.flags == incoming.segment.flags
            &&& arrival.payload == payload
        }),
{
}

/// The places of the connections that have been idle too long.
pub open spec fn idle_places(connections: Seq<Option<Connection>>, tick: u64, n: int) -> Set<int> {
    Set::new(|i: int| 0 <= i < n && idle(connections[i], tick))
}

/// As many connections are said to have run out as there are idle ones.
pub proof fn every_idle_connection_is_counted(
    connections: Seq<Option<Connection>>,
    tick: u64,
    n: int,
)
    requires
        0 <= n <= connections.len(),
    ensures
        idle_places(connections, tick, n).finite(),
        idle_count(connections, tick, n) == idle_places(connections, tick, n).len(),
    decreases n,
{
    let places = idle_places(connections, tick, n);
    if n == 0 {
        assert(places =~= Set::<int>::empty());
    } else {
        every_idle_connection_is_counted(connections, tick, n - 1);
        let fewer = idle_places(connections, tick, n - 1);
        if idle(connections[n - 1], tick) {
            assert(places =~= fewer.insert(n - 1));
        } else {
            assert(places =~= fewer);
        }
    }
}



} // verus!
