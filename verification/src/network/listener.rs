//! The TCP listener: a fixed number of peers, each served one HTTP response.

use vstd::prelude::*;
use crate::bytes::{be32, bytes_equal, get_be_u32};
use crate::network::frame::{NetworkError, MAX_ETHERNET_FRAME};
use crate::network::http::{is_supported_listener_request, supported_request, HTTP_LISTENER_RESPONSE};
use crate::network::tcp::{
    build_tcp_ipv4_frame, parse_tcp_listener_segment, segment_for, segment_of, tcp_frame,
    tcp_source_port, IncomingTcpSegment, TcpFrame, TcpFrameRequest, TCP_FLAG_ACK, TCP_FLAG_FIN,
    TCP_FLAG_PSH, TCP_FLAG_RST, TCP_FLAG_SYN,
};
use crate::network::udp::wire_length;

verus! {

pub const TCP_LISTENER_PORT: u16 = 8080;

pub const TCP_LISTENER_CAPACITY: usize = 8;

pub const TCP_LISTENER_IDLE_TIMEOUT_TICKS: u64 = 3000;

pub const TCP_SERVER_INITIAL_SEQUENCE: u32 = 0x4344_5901;

/// How many bytes the listener's response has.
pub const RESPONSE_BYTES: usize = 108;

/// What the listener reports.
#[derive(Debug, Clone, Copy, PartialEq, Eq, Structural)]
pub enum TcpServerEventKind {
    Accepted,
    Served,
}

/// What the listener reports, and of whom.
#[derive(Debug, Clone, Copy, PartialEq, Eq)]
pub struct TcpServerEvent {
    pub kind: TcpServerEventKind,
    pub remote_address: [u8; 4],
    pub remote_port: u16,
    pub local_port: u16,
    pub request_bytes: usize,
    pub response_bytes: usize,
    pub connection_count: u64,
}

/// How far a connection has come.
#[derive(Debug, Clone, Copy, PartialEq, Eq, Structural)]
pub enum TcpServerPhase {
    Established,
    FinWait1,
    FinWait2,
}

/// One connection.
#[derive(Debug, Clone, Copy)]
pub struct TcpServerConnection {
    pub remote_mac: [u8; 6],
    pub remote_address: [u8; 4],
    pub remote_port: u16,
    pub remote_next: u32,
    pub local_next: u32,
    pub phase: TcpServerPhase,
    pub last_activity_tick: u64,
}

/// A frame to send, and what to report.
#[derive(Clone, Copy)]
pub struct TcpServerAction {
    pub frame: [u8; MAX_ETHERNET_FRAME],
    pub length: usize,
    pub event: Option<TcpServerEvent>,
}

/// The listener.
pub struct TcpListener {
    pub local_port: u16,
    pub connections: [Option<TcpServerConnection>; TCP_LISTENER_CAPACITY],
    pub served_connections: u64,
    pub closed_connections: u64,
}

/// Who is at the other end.
#[verifier::ext_equal]
pub ghost struct Peer {
    pub mac: Seq<u8>,
    pub address: Seq<u8>,
    pub port: u16,
}

/// What a connection stands for.
#[verifier::ext_equal]
pub ghost struct Connection {
    pub peer: Peer,
    pub remote_next: u32,
    pub local_next: u32,
    pub phase: TcpServerPhase,
    pub last_activity: u64,
}

/// What the listener stands for.
#[verifier::ext_equal]
pub ghost struct ListenerState {
    pub local_port: u16,
    pub connections: Seq<Option<Connection>>,
    pub served: u64,
    pub closed: u64,
}

/// A segment that came in.
#[verifier::ext_equal]
pub ghost struct Arrival {
    pub peer: Peer,
    pub sequence: u32,
    pub acknowledgement: u32,
    pub flags: u16,
    pub payload: Seq<u8>,
}

/// What a report stands for.
#[verifier::ext_equal]
pub ghost struct Report {
    pub kind: TcpServerEventKind,
    pub address: Seq<u8>,
    pub port: u16,
    pub local_port: u16,
    pub request_bytes: int,
    pub response_bytes: int,
    pub connection_count: u64,
}

/// What the listener does about a segment.
#[verifier::ext_equal]
pub ghost struct Reaction {
    pub state: ListenerState,
    pub reply: Option<TcpFrame>,
    pub report: Option<Report>,
}

impl View for TcpServerConnection {
    type V = Connection;

    open spec fn view(&self) -> Connection {
        Connection {
            peer: Peer {
                mac: self.remote_mac@,
                address: self.remote_address@,
                port: self.remote_port,
            },
            remote_next: self.remote_next,
            local_next: self.local_next,
            phase: self.phase,
            last_activity: self.last_activity_tick,
        }
    }
}

/// What a place for a connection holds.
pub open spec fn slot_view(slot: Option<TcpServerConnection>) -> Option<Connection> {
    match slot {
        Some(connection) => Some(connection@),
        None => None,
    }
}

impl View for TcpListener {
    type V = ListenerState;

    open spec fn view(&self) -> ListenerState {
        ListenerState {
            local_port: self.local_port,
            connections: Seq::new(
                TCP_LISTENER_CAPACITY as nat,
                |i: int| slot_view(self.connections@[i]),
            ),
            served: self.served_connections,
            closed: self.closed_connections,
        }
    }
}

impl View for TcpServerEvent {
    type V = Report;

    open spec fn view(&self) -> Report {
        Report {
            kind: self.kind,
            address: self.remote_address@,
            port: self.remote_port,
            local_port: self.local_port,
            request_bytes: self.request_bytes as int,
            response_bytes: self.response_bytes as int,
            connection_count: self.connection_count,
        }
    }
}

/// What an optional report stands for.
pub open spec fn event_view(event: Option<TcpServerEvent>) -> Option<Report> {
    match event {
        Some(event) => Some(event@),
        None => None,
    }
}

/// The segment that a sound frame brings.
pub open spec fn arrival_of(frame: Seq<u8>) -> Arrival {
    let segment = segment_of(frame);
    Arrival {
        peer: Peer {
            mac: frame.subrange(6, 12),
            address: frame.subrange(26, 30),
            port: tcp_source_port(frame) as u16,
        },
        sequence: segment.sequence,
        acknowledgement: segment.acknowledgement,
        flags: segment.flags,
        payload: frame.subrange(
            segment.payload_offset as int,
            segment.payload_offset + segment.payload_len,
        ),
    }
}

/// Whether a flag is set.
pub open spec fn flag_set(flags: u16, flag: u16) -> bool {
    flags & flag != 0
}

/// 1 for a flag that is set: some flags take a sequence number of their own.
pub open spec fn flag_length(flags: u16, flag: u16) -> u32 {
    if flag_set(flags, flag) {
        1
    } else {
        0
    }
}

/// The first place from `i` on that holds the connection of `peer`.
pub open spec fn place_of(connections: Seq<Option<Connection>>, peer: Peer, i: int) -> Option<int>
    decreases connections.len() - i,
{
    if i < 0 || i >= connections.len() {
        None
    } else if connections[i] matches Some(connection) && connection.peer == peer {
        Some(i)
    } else {
        place_of(connections, peer, i + 1)
    }
}

/// The first place from `i` on that is free.
pub open spec fn free_place(connections: Seq<Option<Connection>>, i: int) -> Option<int>
    decreases connections.len() - i,
{
    if i < 0 || i >= connections.len() {
        None
    } else if connections[i] is None {
        Some(i)
    } else {
        free_place(connections, i + 1)
    }
}

/// The first sequence number that the listener uses with a peer.
pub open spec fn server_sequence(address: Seq<u8>, port: u16) -> u32 {
    TCP_SERVER_INITIAL_SEQUENCE ^ (be32(address, 0) as u32) ^ ((port as u32) << 16 | (port as u32))
}

/// A segment of the listener to a peer.
pub open spec fn segment_to(
    local_mac: Seq<u8>,
    local_address: Seq<u8>,
    local_port: u16,
    peer: Peer,
    sequence: u32,
    acknowledgement: u32,
    flags: u16,
    payload: Seq<u8>,
) -> TcpFrame {
    TcpFrame {
        source_mac: local_mac,
        destination_mac: peer.mac,
        source_address: local_address,
        destination_address: peer.address,
        source_port: local_port,
        destination_port: peer.port,
        sequence,
        acknowledgement,
        flags,
        payload,
    }
}

/// The segment that turns a peer away.
pub open spec fn refusal(state: ListenerState, arrival: Arrival, mac: Seq<u8>, address: Seq<u8>) -> TcpFrame {
    segment_to(
        mac,
        address,
        state.local_port,
        arrival.peer,
        server_sequence(arrival.peer.address, arrival.peer.port),
        arrival.sequence.wrapping_add(arrival.payload.len() as u32).wrapping_add(
            flag_length(arrival.flags, TCP_FLAG_SYN),
        ).wrapping_add(flag_length(arrival.flags, TCP_FLAG_FIN)),
        TCP_FLAG_RST | TCP_FLAG_ACK,
        Seq::empty(),
    )
}

/// The listener with one place changed.
pub open spec fn with_place(state: ListenerState, at: int, connection: Option<Connection>) -> ListenerState {
    ListenerState { connections: state.connections.update(at, connection), ..state }
}

/// Nothing changes and nothing is sent.
pub open spec fn ignored(state: ListenerState) -> Reaction {
    Reaction { state, reply: None, report: None }
}

/// A saturating count of one more.
pub open spec fn one_more(count: u64) -> u64 {
    if count == u64::MAX {
        count
    } else {
        (count + 1) as u64
    }
}

/// What a request to connect leads to: the peer's own place or a free one is taken; where there is
/// none, the peer is turned away and no other peer loses its place.
pub open spec fn on_syn(state: ListenerState, arrival: Arrival, mac: Seq<u8>, address: Seq<u8>, tick: u64) -> Reaction {
    let place = match place_of(state.connections, arrival.peer, 0) {
        Some(i) => Some(i),
        None => free_place(state.connections, 0),
    };
    let sequence = server_sequence(arrival.peer.address, arrival.peer.port);
    let remote_next = arrival.sequence.wrapping_add(1);
    match place {
        None => Reaction {
            state,
            reply: Some(refusal(state, arrival, mac, address)),
            report: None,
        },
        Some(i) => Reaction {
            state: with_place(
                state,
                i,
                Some(
                    Connection {
                        peer: arrival.peer,
                        remote_next,
                        local_next: sequence.wrapping_add(1),
                        phase: TcpServerPhase::Established,
                        last_activity: tick,
                    },
                ),
            ),
            reply: Some(
                segment_to(
                    mac,
                    address,
                    state.local_port,
                    arrival.peer,
                    sequence,
                    remote_next,
                    TCP_FLAG_SYN | TCP_FLAG_ACK,
                    Seq::empty(),
                ),
            ),
            report: Some(
                Report {
                    kind: TcpServerEventKind::Accepted,
                    address: arrival.peer.address,
                    port: arrival.peer.port,
                    local_port: state.local_port,
                    request_bytes: 0,
                    response_bytes: 0,
                    connection_count: state.served,
                },
            ),
        },
    }
}

/// What a segment without payload leads to.
pub open spec fn on_control(
    state: ListenerState,
    at: int,
    connection: Connection,
    arrival: Arrival,
    mac: Seq<u8>,
    address: Seq<u8>,
    tick: u64,
) -> Reaction {
    if !flag_set(arrival.flags, TCP_FLAG_ACK) || arrival.acknowledgement != connection.local_next
        || arrival.sequence != connection.remote_next {
        ignored(state)
    } else if flag_set(arrival.flags, TCP_FLAG_FIN) {
        Reaction {
            state: ListenerState {
                closed: one_more(state.closed),
                ..with_place(state, at, None)
            },
            reply: Some(
                segment_to(
                    mac,
                    address,
                    state.local_port,
                    connection.peer,
                    connection.local_next,
                    connection.remote_next.wrapping_add(1),
                    TCP_FLAG_ACK,
                    Seq::empty(),
                ),
            ),
            report: None,
        }
    } else {
        ignored(
            with_place(
                state,
                at,
                Some(
                    Connection {
                        phase: if connection.phase == TcpServerPhase::FinWait1 {
                            TcpServerPhase::FinWait2
                        } else {
                            connection.phase
                        },
                        last_activity: tick,
                        ..connection
                    },
                ),
            ),
        )
    }
}

/// The sequence number that the response to a served connection started at.
pub open spec fn response_sequence(connection: Connection) -> u32 {
    connection.local_next.wrapping_sub(RESPONSE_BYTES as u32).wrapping_sub(1)
}

/// What the repetition of a request that has been served leads to: the same response again.
pub open spec fn on_repetition(
    state: ListenerState,
    at: int,
    connection: Connection,
    arrival: Arrival,
    mac: Seq<u8>,
    address: Seq<u8>,
    tick: u64,
) -> Reaction {
    let span = (arrival.payload.len() as u32).wrapping_add(
        flag_length(arrival.flags, TCP_FLAG_FIN),
    );
    if !supported_request(arrival.payload) || arrival.sequence != connection.remote_next.wrapping_sub(
        span,
    ) || arrival.acknowledgement != response_sequence(connection) {
        ignored(state)
    } else {
        Reaction {
            state: with_place(state, at, Some(Connection { last_activity: tick, ..connection })),
            reply: Some(
                segment_to(
                    mac,
                    address,
                    state.local_port,
                    connection.peer,
                    response_sequence(connection),
                    connection.remote_next,
                    TCP_FLAG_PSH | TCP_FLAG_ACK | TCP_FLAG_FIN,
                    HTTP_LISTENER_RESPONSE@,
                ),
            ),
            report: None,
        }
    }
}

/// What a request leads to.
pub open spec fn on_request(
    state: ListenerState,
    at: int,
    connection: Connection,
    arrival: Arrival,
    mac: Seq<u8>,
    address: Seq<u8>,
    tick: u64,
) -> Reaction {
    let remote_next = connection.remote_next.wrapping_add(arrival.payload.len() as u32).wrapping_add(
        flag_length(arrival.flags, TCP_FLAG_FIN),
    );
    if arrival.acknowledgement != connection.local_next || arrival.sequence
        != connection.remote_next {
        ignored(state)
    } else if !supported_request(arrival.payload) {
        Reaction {
            state: with_place(state, at, None),
            reply: Some(refusal(state, arrival, mac, address)),
            report: None,
        }
    } else {
        Reaction {
            state: ListenerState {
                served: one_more(state.served),
                ..with_place(
                    state,
                    at,
                    Some(
                        Connection {
                            remote_next,
                            local_next: connection.local_next.wrapping_add(
                                RESPONSE_BYTES as u32,
                            ).wrapping_add(1),
                            phase: TcpServerPhase::FinWait1,
                            last_activity: tick,
                            ..connection
                        },
                    ),
                )
            },
            reply: Some(
                segment_to(
                    mac,
                    address,
                    state.local_port,
                    connection.peer,
                    connection.local_next,
                    remote_next,
                    TCP_FLAG_PSH | TCP_FLAG_ACK | TCP_FLAG_FIN,
                    HTTP_LISTENER_RESPONSE@,
                ),
            ),
            report: Some(
                Report {
                    kind: TcpServerEventKind::Served,
                    address: connection.peer.address,
                    port: connection.peer.port,
                    local_port: state.local_port,
                    request_bytes: arrival.payload.len() as int,
                    response_bytes: RESPONSE_BYTES as int,
                    connection_count: one_more(state.served),
                },
            ),
        }
    }
}

/// What the listener does about a segment.
pub open spec fn reaction(state: ListenerState, arrival: Arrival, mac: Seq<u8>, address: Seq<u8>, tick: u64) -> Reaction {
    let place = place_of(state.connections, arrival.peer, 0);
    if flag_set(arrival.flags, TCP_FLAG_RST) {
        match place {
            Some(i) => ignored(with_place(state, i, None)),
            None => ignored(state),
        }
    } else if flag_set(arrival.flags, TCP_FLAG_SYN) {
        on_syn(state, arrival, mac, address, tick)
    } else {
        match place {
            None => Reaction {
                state,
                reply: Some(refusal(state, arrival, mac, address)),
                report: None,
            },
            Some(i) => {
                let connection = state.connections[i].unwrap();
                if arrival.payload.len() == 0 {
                    on_control(state, i, connection, arrival, mac, address, tick)
                } else if connection.phase != TcpServerPhase::Established {
                    on_repetition(state, i, connection, arrival, mac, address, tick)
                } else {
                    on_request(state, i, connection, arrival, mac, address, tick)
                }
            },
        }
    }
}

/// An action carries out a reaction.
pub open spec fn carries_out(action: Option<TcpServerAction>, reaction: Reaction) -> bool {
    match (action, reaction.reply) {
        (None, None) => reaction.report is None,
        (Some(action), Some(reply)) => {
            &&& tcp_frame(action.frame@, reply)
            &&& action.length == wire_length(54int + reply.payload.len())
            &&& event_view(action.event) == reaction.report
        },
        _ => false,
    }
}

/// Whether a connection has been idle for too long.
pub open spec fn idle(slot: Option<Connection>, tick: u64) -> bool {
    slot matches Some(connection) && tick - connection.last_activity
        >= TCP_LISTENER_IDLE_TIMEOUT_TICKS
}

/// How many of the first `n` connections have been idle for too long.
pub open spec fn idle_count(connections: Seq<Option<Connection>>, tick: u64, n: int) -> nat
    decreases n,
{
    if n <= 0 {
        0
    } else {
        idle_count(connections, tick, n - 1) + if idle(connections[n - 1], tick) {
            1nat
        } else {
            0nat
        }
    }
}

/// The connections without those that have been idle for too long.
pub open spec fn without_idle(connections: Seq<Option<Connection>>, tick: u64) -> Seq<Option<Connection>> {
    Seq::new(
        connections.len(),
        |i: int| if idle(connections[i], tick) {
            None
        } else {
            connections[i]
        },
    )
}

/// The first sequence number that the listener uses with a peer.
pub fn tcp_server_sequence(remote_address: [u8; 4], remote_port: u16) -> (sequence: u32)
    ensures
        sequence == server_sequence(remote_address@, remote_port),
{
    let port: u32 = remote_port as u32;
    TCP_SERVER_INITIAL_SEQUENCE ^ get_be_u32(&remote_address, 0) ^ (port << 16 | port)
}

/// 1 for a flag that is set.
fn flag_bit(flags: u16, flag: u16) -> (length: u32)
    ensures
        length == flag_length(flags, flag),
{
    if flags & flag != 0 {
        1
    } else {
        0
    }
}

/// A segment with a payload that fits a frame, as an action.
fn send(request: TcpFrameRequest<'_>, event: Option<TcpServerEvent>) -> (action: TcpServerAction)
    requires
        request.payload@.len() <= RESPONSE_BYTES,
    ensures
        tcp_frame(action.frame@, request@),
        action.length == wire_length(54int + request@.payload.len()),
        action.event == event,
{
    match build_tcp_ipv4_frame(request) {
        Ok((frame, length)) => TcpServerAction { frame, length, event },
        Err(_) => {
            assert(false);
            TcpServerAction { frame: [0u8; MAX_ETHERNET_FRAME], length: 0, event }
        },
    }
}

impl TcpListener {
    /// A listener without connections.
    pub fn new(local_port: u16) -> (listener: Self)
        ensures
            listener@.local_port == local_port,
            listener@.connections == Seq::new(
                TCP_LISTENER_CAPACITY as nat,
                |i: int| None::<Connection>,
            ),
            listener@.served == 0,
            listener@.closed == 0,
    {
        let listener = Self {
            local_port,
            connections: [None; TCP_LISTENER_CAPACITY],
            served_connections: 0,
            closed_connections: 0,
        };
        assert(listener@.connections =~= Seq::new(
            TCP_LISTENER_CAPACITY as nat,
            |i: int| None::<Connection>,
        ));
        listener
    }

    /// As `handle_frame_at`, at tick zero.
    pub fn handle_frame(&mut self, frame: &[u8], local_mac: [u8; 6], local_address: [u8; 4]) -> (result:
        Result<Option<TcpServerAction>, NetworkError>)
        ensures
            if segment_for(frame@, local_mac@, local_address@, old(self)@.local_port as int) {
                let due = reaction(old(self)@, arrival_of(frame@), local_mac@, local_address@, 0);
                final(self)@ == due.state && (result matches Ok(action) && carries_out(action, due))
            } else {
                final(self)@ == old(self)@ && (result matches Err(error) && error
                    == NetworkError::PacketMalformed)
            },
    {
        self.handle_frame_at(frame, local_mac, local_address, 0)
    }

    /// Reacts to a frame. One that is no sound segment for the listener is refused.
    pub fn handle_frame_at(
        &mut self,
        frame: &[u8],
        local_mac: [u8; 6],
        local_address: [u8; 4],
        now_tick: u64,
    ) -> (result: Result<Option<TcpServerAction>, NetworkError>)
        ensures
            if segment_for(frame@, local_mac@, local_address@, old(self)@.local_port as int) {
                let due = reaction(
                    old(self)@,
                    arrival_of(frame@),
                    local_mac@,
                    local_address@,
                    now_tick,
                );
                final(self)@ == due.state && (result matches Ok(action) && carries_out(action, due))
            } else {
                final(self)@ == old(self)@ && (result matches Err(error) && error
                    == NetworkError::PacketMalformed)
            },
    {
        let incoming = match parse_tcp_listener_segment(
            frame,
            local_mac,
            local_address,
            self.local_port,
        ) {
            Ok(incoming) => incoming,
            Err(error) => return Err(error),
        };
        let start: usize = incoming.segment.payload_offset;
        let payload = &frame[start..start + incoming.segment.payload_len];
        let ghost arrival = arrival_of(frame@);
        assert(arrived(incoming, payload@) =~= arrival);
        let connection_index = self.connection_index(&incoming);
        if incoming.segment.flags & TCP_FLAG_RST != 0 {
            match connection_index {
                Some(index) => {
                    let ghost before = self@;
                    self.connections[index] = None;
                    assert(self@ =~= with_place(before, index as int, None));
                },
                None => {},
            }
            return Ok(None);
        }
        if incoming.segment.flags & TCP_FLAG_SYN != 0 {
            return Ok(Some(self.accept_syn(incoming, payload, local_mac, local_address, now_tick)));
        }
        match connection_index {
            None => Ok(Some(self.reset(incoming, payload, local_mac, local_address))),
            Some(index) => match self.connections[index] {
                None => {
                    assert(false);
                    Ok(None)
                },
                Some(connection) => if payload.len() == 0 {
                    Ok(
                        self.handle_control_segment(
                            index,
                            connection,
                            incoming,
                            local_mac,
                            local_address,
                            now_tick,
                        ),
                    )
                } else if connection.phase != TcpServerPhase::Established {
                    Ok(
                        self.retransmit_response(
                            index,
                            connection,
                            incoming,
                            payload,
                            local_mac,
                            local_address,
                            now_tick,
                        ),
                    )
                } else {
                    Ok(
                        self.serve_request(
                            index,
                            connection,
                            incoming,
                            payload,
                            local_mac,
                            local_address,
                            now_tick,
                        ),
                    )
                },
            },
        }
    }

    /// Where the connection of a peer is.
    fn connection_index(&self, incoming: &IncomingTcpSegment) -> (found: Option<usize>)
        ensures
            match found {
                Some(index) => place_of(self@.connections, peer_of(*incoming), 0) == Some(
                    index as int,
                ) && index < TCP_LISTENER_CAPACITY && self.connections@[index as int] is Some,
                None => place_of(self@.connections, peer_of(*incoming), 0) is None,
            },
    {
        let mut i: usize = 0;
        while i < TCP_LISTENER_CAPACITY
            invariant
                i <= TCP_LISTENER_CAPACITY,
                place_of(self@.connections, peer_of(*incoming), 0) == place_of(
                    self@.connections,
                    peer_of(*incoming),
                    i as int,
                ),
            decreases TCP_LISTENER_CAPACITY - i,
        {
            match self.connections[i] {
                Some(connection) => {
                    let same = connection.remote_port == incoming.remote_port && bytes_equal(
                        &connection.remote_address,
                        &incoming.remote_address,
                    ) && bytes_equal(&connection.remote_mac, &incoming.remote_mac);
                    proof {
                        if same {
                            assert(connection@.peer =~= peer_of(*incoming));
                        }
                    }
                    if same {
                        return Some(i);
                    }
                },
                None => {},
            }
            i += 1;
        }
        None
    }

    /// Where a connection could go.
    fn free_index(&self) -> (found: Option<usize>)
        ensures
            match found {
                Some(index) => free_place(self@.connections, 0) == Some(index as int) && index
                    < TCP_LISTENER_CAPACITY,
                None => free_place(self@.connections, 0) is None,
            },
    {
        let mut i: usize = 0;
        while i < TCP_LISTENER_CAPACITY
            invariant
                i <= TCP_LISTENER_CAPACITY,
                free_place(self@.connections, 0) == free_place(self@.connections, i as int),
            decreases TCP_LISTENER_CAPACITY - i,
        {
            if self.connections[i].is_none() {
                return Some(i);
            }
            i += 1;
        }
        None
    }

    fn accept_syn(
        &mut self,
        incoming: IncomingTcpSegment,
        payload: &[u8],
        local_mac: [u8; 6],
        local_address: [u8; 4],
        now_tick: u64,
    ) -> (action: TcpServerAction)
        requires
            payload@.len() == incoming.segment.payload_len,
        ensures
            ({
                let due = on_syn(
                    old(self)@,
                    arrived(incoming, payload@),
                    local_mac@,
                    local_address@,
                    now_tick,
                );
                final(self)@ == due.state && carries_out(Some(action), due)
            }),
    {
        let ghost before = self@;
        let known = self.connection_index(&incoming);
        let place = match known {
            Some(index) => Some(index),
            None => self.free_index(),
        };
        let index: usize = match place {
            Some(index) => index,
            None => return self.reset(incoming, payload, local_mac, local_address),
        };
        let server_sequence: u32 = tcp_server_sequence(
            incoming.remote_address,
            incoming.remote_port,
        );
        let remote_next: u32 = incoming.segment.sequence.wrapping_add(1);
        let nothing: [u8; 0] = [];
        let action = send(
            TcpFrameRequest {
                source_mac: local_mac,
                destination_mac: incoming.remote_mac,
                source_address: local_address,
                destination_address: incoming.remote_address,
                source_port: self.local_port,
                destination_port: incoming.remote_port,
                sequence: server_sequence,
                acknowledgement: remote_next,
                flags: TCP_FLAG_SYN | TCP_FLAG_ACK,
                payload: &nothing,
            },
            Some(
                TcpServerEvent {
                    kind: TcpServerEventKind::Accepted,
                    remote_address: incoming.remote_address,
                    remote_port: incoming.remote_port,
                    local_port: self.local_port,
                    request_bytes: 0,
                    response_bytes: 0,
                    connection_count: self.served_connections,
                },
            ),
        );
        let connection = TcpServerConnection {
            remote_mac: incoming.remote_mac,
            remote_address: incoming.remote_address,
            remote_port: incoming.remote_port,
            remote_next,
            local_next: server_sequence.wrapping_add(1),
            phase: TcpServerPhase::Established,
            last_activity_tick: now_tick,
        };
        self.connections[index] = Some(connection);
        proof {
            let due = on_syn(
                before,
                arrived(incoming, payload@),
                local_mac@,
                local_address@,
                now_tick,
            );
            assert(nothing@ =~= Seq::<u8>::empty());
            assert(self@ =~= with_place(before, index as int, Some(connection@)));
            assert(connection@ =~= due.state.connections[index as int].unwrap());
            assert(action.event.unwrap()@ =~= due.report.unwrap());
        }
        action
    }

    fn reset(
        &self,
        incoming: IncomingTcpSegment,
        payload: &[u8],
        local_mac: [u8; 6],
        local_address: [u8; 4],
    ) -> (action: TcpServerAction)
        requires
            payload@.len() == incoming.segment.payload_len,
        ensures
            tcp_frame(
                action.frame@,
                refusal(self@, arrived(incoming, payload@), local_mac@, local_address@),
            ),
            action.length == wire_length(54),
            action.event is None,
    {
        let acknowledgement: u32 = incoming.segment.sequence.wrapping_add(
            incoming.segment.payload_len as u32,
        ).wrapping_add(flag_bit(incoming.segment.flags, TCP_FLAG_SYN)).wrapping_add(
            flag_bit(incoming.segment.flags, TCP_FLAG_FIN),
        );
        let nothing: [u8; 0] = [];
        assert(nothing@ =~= Seq::<u8>::empty());
        send(
            TcpFrameRequest {
                source_mac: local_mac,
                destination_mac: incoming.remote_mac,
                source_address: local_address,
                destination_address: incoming.remote_address,
                source_port: self.local_port,
                destination_port: incoming.remote_port,
                sequence: tcp_server_sequence(incoming.remote_address, incoming.remote_port),
                acknowledgement,
                flags: TCP_FLAG_RST | TCP_FLAG_ACK,
                payload: &nothing,
            },
            None,
        )
    }

    fn handle_control_segment(
        &mut self,
        index: usize,
        connection: TcpServerConnection,
        incoming: IncomingTcpSegment,
        local_mac: [u8; 6],
        local_address: [u8; 4],
        now_tick: u64,
    ) -> (action: Option<TcpServerAction>)
        requires
            index < TCP_LISTENER_CAPACITY,
        ensures
            ({
                let due = on_control(
                    old(self)@,
                    index as int,
                    connection@,
                    arrived(incoming, Seq::empty()),
                    local_mac@,
                    local_address@,
                    now_tick,
                );
                final(self)@ == due.state && carries_out(action, due)
            }),
    {
        let ghost before = self@;
        if incoming.segment.flags & TCP_FLAG_ACK == 0 || incoming.segment.acknowledgement
            != connection.local_next || incoming.segment.sequence != connection.remote_next {
            return None;
        }
        if incoming.segment.flags & TCP_FLAG_FIN != 0 {
            let nothing: [u8; 0] = [];
            assert(nothing@ =~= Seq::<u8>::empty());
            let action = send(
                TcpFrameRequest {
                    source_mac: local_mac,
                    destination_mac: connection.remote_mac,
                    source_address: local_address,
                    destination_address: connection.remote_address,
                    source_port: self.local_port,
                    destination_port: connection.remote_port,
                    sequence: connection.local_next,
                    acknowledgement: connection.remote_next.wrapping_add(1),
                    flags: TCP_FLAG_ACK,
                    payload: &nothing,
                },
                None,
            );
            self.connections[index] = None;
            self.closed_connections = self.closed_connections.saturating_add(1);
            assert(self@.connections =~= before.connections.update(index as int, None));
            return Some(action);
        }
        let mut next: TcpServerConnection = connection;
        next.last_activity_tick = now_tick;
        if connection.phase == TcpServerPhase::FinWait1 {
            next.phase = TcpServerPhase::FinWait2;
        }
        self.connections[index] = Some(next);
        assert(self@.connections =~= before.connections.update(index as int, Some(next@)));
        None
    }

    fn retransmit_response(
        &mut self,
        index: usize,
        connection: TcpServerConnection,
        incoming: IncomingTcpSegment,
        payload: &[u8],
        local_mac: [u8; 6],
        local_address: [u8; 4],
        now_tick: u64,
    ) -> (action: Option<TcpServerAction>)
        requires
            index < TCP_LISTENER_CAPACITY,
            payload@.len() == incoming.segment.payload_len,
        ensures
            ({
                let due = on_repetition(
                    old(self)@,
                    index as int,
                    connection@,
                    arrived(incoming, payload@),
                    local_mac@,
                    local_address@,
                    now_tick,
                );
                final(self)@ == due.state && carries_out(action, due)
            }),
    {
        let ghost before = self@;
        let span: u32 = (payload.len() as u32).wrapping_add(
            flag_bit(incoming.segment.flags, TCP_FLAG_FIN),
        );
        let request_sequence: u32 = connection.remote_next.wrapping_sub(span);
        let response_sequence: u32 = connection.local_next.wrapping_sub(
            RESPONSE_BYTES as u32,
        ).wrapping_sub(1);
        if !is_supported_listener_request(payload) || incoming.segment.sequence != request_sequence
            || incoming.segment.acknowledgement != response_sequence {
            return None;
        }
        let action = send(
            TcpFrameRequest {
                source_mac: local_mac,
                destination_mac: connection.remote_mac,
                source_address: local_address,
                destination_address: connection.remote_address,
                source_port: self.local_port,
                destination_port: connection.remote_port,
                sequence: response_sequence,
                acknowledgement: connection.remote_next,
                flags: TCP_FLAG_PSH | TCP_FLAG_ACK | TCP_FLAG_FIN,
                payload: &HTTP_LISTENER_RESPONSE,
            },
            None,
        );
        let mut next: TcpServerConnection = connection;
        next.last_activity_tick = now_tick;
        self.connections[index] = Some(next);
        assert(self@.connections =~= before.connections.update(index as int, Some(next@)));
        Some(action)
    }

    fn serve_request(
        &mut self,
        index: usize,
        connection: TcpServerConnection,
        incoming: IncomingTcpSegment,
        payload: &[u8],
        local_mac: [u8; 6],
        local_address: [u8; 4],
        now_tick: u64,
    ) -> (action: Option<TcpServerAction>)
        requires
            index < TCP_LISTENER_CAPACITY,
            payload@.len() == incoming.segment.payload_len,
        ensures
            ({
                let due = on_request(
                    old(self)@,
                    index as int,
                    connection@,
                    arrived(incoming, payload@),
                    local_mac@,
                    local_address@,
                    now_tick,
                );
                final(self)@ == due.state && carries_out(action, due)
            }),
    {
        let ghost before = self@;
        if incoming.segment.acknowledgement != connection.local_next || incoming.segment.sequence
            != connection.remote_next {
            return None;
        }
        if !is_supported_listener_request(payload) {
            let action = self.reset(incoming, payload, local_mac, local_address);
            self.connections[index] = None;
            assert(self@.connections =~= before.connections.update(index as int, None));
            return Some(action);
        }
        let remote_next: u32 = connection.remote_next.wrapping_add(payload.len() as u32).wrapping_add(
            flag_bit(incoming.segment.flags, TCP_FLAG_FIN),
        );
        let served: u64 = self.served_connections.saturating_add(1);
        let action = send(
            TcpFrameRequest {
                source_mac: local_mac,
                destination_mac: connection.remote_mac,
                source_address: local_address,
                destination_address: connection.remote_address,
                source_port: self.local_port,
                destination_port: connection.remote_port,
                sequence: connection.local_next,
                acknowledgement: remote_next,
                flags: TCP_FLAG_PSH | TCP_FLAG_ACK | TCP_FLAG_FIN,
                payload: &HTTP_LISTENER_RESPONSE,
            },
            Some(
                TcpServerEvent {
                    kind: TcpServerEventKind::Served,
                    remote_address: connection.remote_address,
                    remote_port: connection.remote_port,
                    local_port: self.local_port,
                    request_bytes: payload.len(),
                    response_bytes: RESPONSE_BYTES,
                    connection_count: served,
                },
            ),
        );
        let next = TcpServerConnection {
            remote_next,
            local_next: connection.local_next.wrapping_add(RESPONSE_BYTES as u32).wrapping_add(1),
            phase: TcpServerPhase::FinWait1,
            last_activity_tick: now_tick,
            ..connection
        };
        self.connections[index] = Some(next);
        self.served_connections = served;
        assert(self@.connections =~= before.connections.update(index as int, Some(next@)));
        Some(action)
    }

    /// Drops the connections that have been idle for too long, and says how many there were.
    pub fn expire_idle_connections(&mut self, now_tick: u64) -> (expired: usize)
        ensures
            final(self)@.connections == without_idle(old(self)@.connections, now_tick),
            final(self)@.local_port == old(self)@.local_port,
            final(self)@.served == old(self)@.served,
            final(self)@.closed == old(self)@.closed,
            expired == idle_count(
                old(self)@.connections,
                now_tick,
                TCP_LISTENER_CAPACITY as int,
            ),
    {
        let ghost before = self@.connections;
        let mut expired: usize = 0;
        let mut i: usize = 0;
        while i < TCP_LISTENER_CAPACITY
            invariant
                expired <= i <= TCP_LISTENER_CAPACITY,
                before == old(self)@.connections,
                self.local_port == old(self).local_port,
                self.served_connections == old(self).served_connections,
                self.closed_connections == old(self).closed_connections,
                forall|j: int|
                    0 <= j < i ==> #[trigger] slot_view(self.connections@[j]) == without_idle(
                        before,
                        now_tick,
                    )[j],
                forall|j: int|
                    i <= j < TCP_LISTENER_CAPACITY ==> #[trigger] slot_view(self.connections@[j])
                        == before[j],
                expired == idle_count(before, now_tick, i as int),
            decreases TCP_LISTENER_CAPACITY - i,
        {
            assert(slot_view(self.connections@[i as int]) == before[i as int]);
            let stale = match self.connections[i] {
                Some(connection) => now_tick.saturating_sub(connection.last_activity_tick)
                    >= TCP_LISTENER_IDLE_TIMEOUT_TICKS,
                None => false,
            };
            if stale {
                self.connections[i] = None;
                expired += 1;
            }
            i += 1;
        }
        assert(self@.connections =~= without_idle(before, now_tick));
        expired
    }
}

/// The peer that a segment came from.
pub open spec fn peer_of(incoming: IncomingTcpSegment) -> Peer {
    Peer {
        mac: incoming.remote_mac@,
        address: incoming.remote_address@,
        port: incoming.remote_port,
    }
}

/// A segment that came in with `payload`.
pub open spec fn arrived(incoming: IncomingTcpSegment, payload: Seq<u8>) -> Arrival {
    Arrival {
        peer: peer_of(incoming),
        sequence: incoming.segment.sequence,
        acknowledgement: incoming.segment.acknowledgement,
        flags: incoming.segment.flags,
        payload,
    }
}

} // verus!
