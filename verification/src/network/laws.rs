//! What the TCP listener promises whatever its peers send.

use vstd::prelude::*;
use crate::network::http::{status_of, the_listener_answers_with_success};
use crate::network::listener::{
    flag_set, free_place, idle, place_of, reaction, refusal, without_idle, Arrival, Connection,
    ListenerState, Peer, TcpServerEventKind,
};
use crate::network::tcp::{TCP_FLAG_RST, TCP_FLAG_SYN};

verus! {

/// What a search for a peer finds.
pub proof fn lemma_place_of(connections: Seq<Option<Connection>>, peer: Peer, i: int)
    requires
        0 <= i,
    ensures
        match place_of(connections, peer, i) {
            Some(k) => i <= k < connections.len() && (connections[k] matches Some(connection)
                && connection.peer == peer),
            None => forall|j: int|
                i <= j < connections.len() ==> !(#[trigger] connections[j] matches Some(connection)
                    && connection.peer == peer),
        },
    decreases connections.len() - i,
{
    if i < connections.len() {
        lemma_place_of(connections, peer, i + 1);
    }
}

/// What a search for a free place finds.
pub proof fn lemma_free_place(connections: Seq<Option<Connection>>, i: int)
    requires
        0 <= i,
    ensures
        match free_place(connections, i) {
            Some(k) => i <= k < connections.len() && connections[k] is None,
            None => forall|j: int| i <= j < connections.len() ==> #[trigger] connections[j] is Some,
        },
    decreases connections.len() - i,
{
    if i < connections.len() {
        lemma_free_place(connections, i + 1);
    }
}

/// No peer has two connections.
pub open spec fn one_place_each(connections: Seq<Option<Connection>>) -> bool {
    forall|i: int, j: int|
        0 <= i < j < connections.len() && #[trigger] connections[i] is Some
            && #[trigger] connections[j] is Some ==> connections[i].unwrap().peer
            != connections[j].unwrap().peer
}

/// Whatever a peer sends, the connections of every other peer stay as they are.
pub proof fn other_peers_are_left_alone(
    state: ListenerState,
    arrival: Arrival,
    mac: Seq<u8>,
    address: Seq<u8>,
    tick: u64,
    i: int,
)
    requires
        0 <= i < state.connections.len(),
        state.connections[i] matches Some(connection) && connection.peer != arrival.peer,
    ensures
        reaction(state, arrival, mac, address, tick).state.connections[i] == state.connections[i],
{
    lemma_place_of(state.connections, arrival.peer, 0);
    lemma_free_place(state.connections, 0);
}

/// A peer never gets a second connection.
pub proof fn a_peer_has_one_connection(
    state: ListenerState,
    arrival: Arrival,
    mac: Seq<u8>,
    address: Seq<u8>,
    tick: u64,
)
    requires
        one_place_each(state.connections),
    ensures
        one_place_each(reaction(state, arrival, mac, address, tick).state.connections),
        reaction(state, arrival, mac, address, tick).state.connections.len()
            == state.connections.len(),
{
    lemma_place_of(state.connections, arrival.peer, 0);
    lemma_free_place(state.connections, 0);
    let after = reaction(state, arrival, mac, address, tick).state.connections;
    assert forall|i: int, j: int|
        0 <= i < j < after.len() && #[trigger] after[i] is Some
            && #[trigger] after[j] is Some implies after[i].unwrap().peer
        != after[j].unwrap().peer by {
        if after[i] != state.connections[i] {
            assert(after[i].unwrap().peer == arrival.peer);
            assert(after[j] == state.connections[j]);
        } else if after[j] != state.connections[j] {
            assert(after[j].unwrap().peer == arrival.peer);
            assert(after[i] == state.connections[i]);
        }
    }
}

/// Where every place is taken, a new peer is turned away and nobody loses a connection.
pub proof fn a_full_listener_turns_a_new_peer_away(
    state: ListenerState,
    arrival: Arrival,
    mac: Seq<u8>,
    address: Seq<u8>,
    tick: u64,
)
    requires
        forall|i: int|
            0 <= i < state.connections.len() ==> (#[trigger] state.connections[i] matches Some(
                connection,
            ) && connection.peer != arrival.peer),
        flag_set(arrival.flags, TCP_FLAG_SYN),
        !flag_set(arrival.flags, TCP_FLAG_RST),
    ensures
        reaction(state, arrival, mac, address, tick).state == state,
        reaction(state, arrival, mac, address, tick).reply == Some(
            refusal(state, arrival, mac, address),
        ),
        reaction(state, arrival, mac, address, tick).report is None,
{
    lemma_place_of(state.connections, arrival.peer, 0);
    lemma_free_place(state.connections, 0);
}

/// A request that is repeated after it was served gets the same response again, and is not counted
/// twice.
pub proof fn a_repeated_request_gets_the_same_response(
    state: ListenerState,
    arrival: Arrival,
    mac: Seq<u8>,
    address: Seq<u8>,
    tick: u64,
    later: u64,
)
    requires
        arrival.payload.len() <= u32::MAX,
        reaction(state, arrival, mac, address, tick).report matches Some(report) && report.kind
            == TcpServerEventKind::Served,
    ensures
        ({
            let first = reaction(state, arrival, mac, address, tick);
            let second = reaction(first.state, arrival, mac, address, later);
            &&& second.reply == first.reply
            &&& second.report is None
            &&& second.state.served == first.state.served
        }),
{
    lemma_place_of(state.connections, arrival.peer, 0);
    let first = reaction(state, arrival, mac, address, tick);
    let at = place_of(state.connections, arrival.peer, 0).unwrap();
    lemma_same_place(state.connections, first.state.connections, arrival.peer, at, 0);
}

proof fn lemma_same_place(
    before: Seq<Option<Connection>>,
    after: Seq<Option<Connection>>,
    peer: Peer,
    at: int,
    i: int,
)
    requires
        0 <= i <= at < before.len(),
        place_of(before, peer, i) == Some(at),
        after.len() == before.len(),
        forall|j: int| 0 <= j < before.len() && j != at ==> #[trigger] after[j] == before[j],
        after[at] matches Some(connection) && connection.peer == peer,
    ensures
        place_of(after, peer, i) == Some(at),
    decreases at - i,
{
    if i < at {
        if before[i] matches Some(connection) && connection.peer == peer {
        } else {
            lemma_place_of(before, peer, i + 1);
            lemma_same_place(before, after, peer, at, i + 1);
        }
    }
}

/// A request that is served is answered with a successful response.
pub proof fn a_served_request_succeeds(
    state: ListenerState,
    arrival: Arrival,
    mac: Seq<u8>,
    address: Seq<u8>,
    tick: u64,
)
    requires
        reaction(state, arrival, mac, address, tick).report matches Some(report) && report.kind
            == TcpServerEventKind::Served,
    ensures
        reaction(state, arrival, mac, address, tick).reply matches Some(reply) && status_of(
            reply.payload,
        ) == Some(200u16) && reply.destination_address == arrival.peer.address
            && reply.destination_port == arrival.peer.port,
{
    the_listener_answers_with_success();
    lemma_place_of(state.connections, arrival.peer, 0);
}

/// What is left after the idle connections were dropped is not idle.
pub proof fn no_idle_connection_is_left(connections: Seq<Option<Connection>>, tick: u64, i: int)
    requires
        0 <= i < connections.len(),
    ensures
        !idle(without_idle(connections, tick)[i], tick),
{
}

/// The count of served requests grows by one exactly where a request is served, and the report then has
/// the new count.
pub proof fn served_requests_are_counted(
    state: ListenerState,
    arrival: Arrival,
    mac: Seq<u8>,
    address: Seq<u8>,
    tick: u64,
)
    ensures
        ({
            let due = reaction(state, arrival, mac, address, tick);
            if due.report matches Some(report) && report.kind == TcpServerEventKind::Served {
                &&& due.state.served == if state.served == u64::MAX {
                    state.served
                } else {
                    (state.served + 1) as u64
                }
                &&& due.report.unwrap().connection_count == due.state.served
            } else {
                due.state.served == state.served
            }
        }),
{
    lemma_place_of(state.connections, arrival.peer, 0);
    lemma_free_place(state.connections, 0);
}

/// No segment closes more than one connection.
pub proof fn a_segment_closes_one_connection_at_most(
    state: ListenerState,
    arrival: Arrival,
    mac: Seq<u8>,
    address: Seq<u8>,
    tick: u64,
)
    ensures
        state.closed <= reaction(state, arrival, mac, address, tick).state.closed <= state.closed + 1,
{
    lemma_place_of(state.connections, arrival.peer, 0);
    lemma_free_place(state.connections, 0);
}

} // verus!
