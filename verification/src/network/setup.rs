//! How the interface is brought up: an address, the gateway, the name server and one HTTP request.
//! Each frame that comes in takes the system at most one stage further.

use vstd::prelude::*;
use vstd::utf8::encode_utf8;
use crate::bytes::{bytes_equal, copy_range, zero_between};
use crate::network::arp::{arp_answer, arp_frame, broadcast_mac, build_arp_request, no_mac, parse_arp_reply};
use crate::network::dhcp::{
    accept_offer, bootp, build_dhcp_frame, client_options, dhcp_frame, dhcp_reply, first_of,
    parse_dhcp_message, settle_lease, DhcpLease, DhcpMessage, DhcpOptions, DhcpValues, DHCP_ACK,
    DHCP_DISCOVER, DHCP_OFFER, DHCP_REQUEST,
};
use crate::network::dns::{
    build_dns_query_frame, dns_datagram, dns_message, encoded_name, label_end, parse_dns_response,
    query_message, query_name, resolved_at, DNS_CLIENT_PORT, DNS_QUERY_ID, DNS_SERVER_PORT,
};
use crate::network::echo::{build_echo_request, echo_answer, echo_request, parse_echo_reply};
use crate::network::frame::NetworkError;
use crate::network::http::{http_request_for_host, parse_http_status, status_of, HTTP_REQUEST};
use crate::network::listener::flag_set;
use crate::network::route::{default_dns, dns_next_hop, next_dns_hop, next_hop, route_next_hop};
use crate::network::tcp::{
    build_tcp_ipv4_frame, parse_tcp_segment, segment_from, segment_of, tcp_frame, TcpFrame,
    TcpFrameRequest, TCP_FLAG_ACK, TCP_FLAG_FIN, TCP_FLAG_PSH, TCP_FLAG_RST, TCP_FLAG_SYN,
};
use crate::network::udp::{udp_frame, wire_length};

use crate::network::device::PROTOCOL_TIMEOUT_SPINS;

verus! {

pub const HTTP_CLIENT_PORT: u16 = 49153;

pub const HTTP_SERVER_PORT: u16 = 80;

pub const TCP_INITIAL_SEQUENCE: u32 = 0x4344_5801;

/// The first sequence number behind the one that opens the connection.
pub const SEQUENCE_AFTER_SYN: u32 = 0x4344_5802;

/// The first sequence number behind the request.
pub const SEQUENCE_AFTER_REQUEST: u32 = 0x4344_583a;

/// What the system waits for.
#[derive(Debug, Clone, Copy, PartialEq, Eq, Structural)]
pub enum SetupStage {
    Offer,
    Acknowledgement,
    Gateway,
    Echo,
    DnsStation,
    DnsAnswer,
    HttpStation,
    Connection,
    Response,
    Done,
}

/// How far bringing the interface up has come, and what was learned on the way.
#[derive(Clone, Copy)]
pub struct NetworkSetup {
    pub stage: SetupStage,
    pub mac: [u8; 6],
    pub offer: DhcpMessage,
    pub server: [u8; 4],
    pub lease: DhcpLease,
    pub gateway_mac: [u8; 6],
    pub dns_mac: [u8; 6],
    pub dns_answer: [u8; 4],
    pub http_mac: [u8; 6],
    pub http_status: u16,
    pub http_response_bytes: usize,
    /// How often the frame that is awaited was looked for.
    pub tries: usize,
}

/// What a lease says.
#[verifier::ext_equal]
pub ghost struct LeaseValues {
    pub address: Seq<u8>,
    pub subnet_mask: Seq<u8>,
    pub gateway: Seq<u8>,
    pub server: Seq<u8>,
    pub dns_server: Seq<u8>,
    pub lease_seconds: u32,
}

impl View for DhcpLease {
    type V = LeaseValues;

    open spec fn view(&self) -> LeaseValues {
        LeaseValues {
            address: self.address@,
            subnet_mask: self.subnet_mask@,
            gateway: self.gateway@,
            server: self.server@,
            dns_server: self.dns_server@,
            lease_seconds: self.lease_seconds,
        }
    }
}

/// What the setup stands for.
#[verifier::ext_equal]
pub ghost struct SetupState {
    pub stage: SetupStage,
    pub mac: Seq<u8>,
    pub offered: Seq<u8>,
    pub offer: DhcpValues,
    pub server: Seq<u8>,
    pub lease: LeaseValues,
    pub gateway_mac: Seq<u8>,
    pub dns_mac: Seq<u8>,
    pub dns_answer: Seq<u8>,
    pub http_mac: Seq<u8>,
    pub http_status: u16,
    pub http_response_bytes: int,
}

impl View for NetworkSetup {
    type V = SetupState;

    open spec fn view(&self) -> SetupState {
        SetupState {
            stage: self.stage,
            mac: self.mac@,
            offered: self.offer.offered_address@,
            offer: self.offer.options@,
            server: self.server@,
            lease: self.lease@,
            gateway_mac: self.gateway_mac@,
            dns_mac: self.dns_mac@,
            dns_answer: self.dns_answer@,
            http_mac: self.http_mac@,
            http_status: self.http_status,
            http_response_bytes: self.http_response_bytes as int,
        }
    }
}

/// Nothing is known yet but the hardware address, and an offer is awaited.
pub open spec fn initial_setup(mac: Seq<u8>) -> SetupState {
    let nowhere = seq![0u8, 0u8, 0u8, 0u8];
    let nobody = seq![0u8, 0u8, 0u8, 0u8, 0u8, 0u8];
    SetupState {
        stage: SetupStage::Offer,
        mac,
        offered: nowhere,
        offer: DhcpValues {
            message_type: None,
            subnet_mask: None,
            gateway: None,
            server: None,
            dns_server: None,
            lease_seconds: None,
        },
        server: nowhere,
        lease: LeaseValues {
            address: nowhere,
            subnet_mask: nowhere,
            gateway: nowhere,
            server: nowhere,
            dns_server: nowhere,
            lease_seconds: 0,
        },
        gateway_mac: nobody,
        dns_mac: nobody,
        dns_answer: nowhere,
        http_mac: nobody,
        http_status: 0,
        http_response_bytes: 0,
    }
}

/// A frame that the system sends.
pub ghost enum Outgoing {
    /// To every DHCP server, with these options.
    Dhcp { options: Seq<u8> },
    /// To every station: who has this address?
    WhoHas { target: Seq<u8> },
    /// To the gateway: an echo request.
    Echo,
    /// To the name server: the query.
    Query,
    /// To the HTTP server: a segment.
    Segment { sequence: u32, acknowledgement: u32, flags: u16, payload: Seq<u8> },
}

/// The segment that the system sends to the HTTP server.
pub open spec fn client_segment(
    state: SetupState,
    sequence: u32,
    acknowledgement: u32,
    flags: u16,
    payload: Seq<u8>,
) -> TcpFrame {
    TcpFrame {
        source_mac: state.mac,
        destination_mac: state.http_mac,
        source_address: state.lease.address,
        destination_address: state.dns_answer,
        source_port: HTTP_CLIENT_PORT,
        destination_port: HTTP_SERVER_PORT,
        sequence,
        acknowledgement,
        flags,
        payload,
    }
}

/// The name that the system asks for, as a message holds it.
pub open spec fn encoded_query() -> Seq<u8> {
    encoded_name(query_name(), 0, 12, 256)->Ok_0
}

/// `bytes` are the first `length` bytes of a frame with a datagram.
pub open spec fn datagram_on_the_wire(
    bytes: Seq<u8>,
    frame: Seq<u8>,
    state: SetupState,
) -> bool {
    &&& udp_frame(
        frame,
        state.mac,
        state.dns_mac,
        state.lease.address,
        state.lease.dns_server,
        DNS_CLIENT_PORT,
        DNS_SERVER_PORT,
        query_message(DNS_QUERY_ID as int, encoded_query()),
    )
    &&& bytes == frame.subrange(0, wire_length(58int + encoded_query().len()))
}

/// `bytes` are what of a frame with a segment goes on the wire.
pub open spec fn segment_on_the_wire(bytes: Seq<u8>, frame: Seq<u8>, segment: TcpFrame) -> bool {
    &&& tcp_frame(frame, segment)
    &&& bytes == frame.subrange(0, wire_length(54int + segment.payload.len()))
}

/// `bytes` carry a segment.
pub open spec fn sends_segment(bytes: Seq<u8>, segment: TcpFrame) -> bool {
    exists|frame: Seq<u8>| #[trigger] segment_on_the_wire(bytes, frame, segment)
}

/// `bytes` are the frame that is to be sent.
pub open spec fn sends(bytes: Seq<u8>, outgoing: Outgoing, state: SetupState) -> bool {
    match outgoing {
        Outgoing::Dhcp { options } => dhcp_frame(bytes, state.mac, options),
        Outgoing::WhoHas { target } => arp_frame(
            bytes,
            broadcast_mac(),
            1,
            state.mac,
            state.lease.address,
            no_mac(),
            target,
        ),
        Outgoing::Echo => echo_request(
            bytes,
            state.mac,
            state.gateway_mac,
            state.lease.address,
            state.lease.gateway,
        ),
        Outgoing::Query => exists|frame: Seq<u8>|
            #[trigger] datagram_on_the_wire(bytes, frame, state),
        Outgoing::Segment { sequence, acknowledgement, flags, payload } => sends_segment(
            bytes,
            client_segment(state, sequence, acknowledgement, flags, payload),
        ),
    }
}

/// `frames` are the frames that are to be sent, in order.
pub open spec fn sends_all(frames: Seq<Vec<u8>>, outgoing: Seq<Outgoing>, state: SetupState) -> bool {
    &&& frames.len() == outgoing.len()
    &&& forall|i: int|
        0 <= i < outgoing.len() ==> sends((#[trigger] frames[i])@, outgoing[i], state)
}

/// The lease that an offer and its acknowledgement make.
pub open spec fn lease_of(
    offered: Seq<u8>,
    offer: DhcpValues,
    acknowledged: Seq<u8>,
    acknowledgement: DhcpValues,
    server: Seq<u8>,
) -> Option<LeaseValues> {
    let subnet_mask = first_of(acknowledgement.subnet_mask, offer.subnet_mask);
    let gateway = first_of(acknowledgement.gateway, offer.gateway);
    let lease_seconds = first_of(acknowledgement.lease_seconds, offer.lease_seconds);
    if acknowledged != offered || subnet_mask is None || gateway is None || lease_seconds is None {
        None
    } else {
        Some(
            LeaseValues {
                address: offered,
                subnet_mask: subnet_mask.unwrap(),
                gateway: gateway.unwrap(),
                server: first_of(acknowledgement.server, Some(server)).unwrap(),
                dns_server: first_of(
                    first_of(acknowledgement.dns_server, offer.dns_server),
                    Some(default_dns(offered, gateway.unwrap())),
                ).unwrap(),
                lease_seconds: lease_seconds.unwrap(),
            },
        )
    }
}

/// The address that a DHCP message is about.
pub open spec fn offered_in(frame: Seq<u8>) -> Seq<u8> {
    frame.subrange(bootp(frame) + 16, bootp(frame) + 20)
}

/// Whether `frame` is a message of a DHCP server of this type.
pub open spec fn dhcp_of_type(frame: Seq<u8>, mac: Seq<u8>, message_type: u8) -> bool {
    dhcp_reply(frame, mac) matches Ok(values) && values.message_type == Some(message_type)
}

/// Opens the connection to the HTTP server at `http_mac`.
pub open spec fn opens_connection(state: SetupState, http_mac: Seq<u8>) -> (SetupState, Seq<Outgoing>) {
    (
        SetupState { stage: SetupStage::Connection, http_mac, ..state },
        seq![
            Outgoing::Segment {
                sequence: TCP_INITIAL_SEQUENCE,
                acknowledgement: 0,
                flags: TCP_FLAG_SYN,
                payload: Seq::empty(),
            },
        ],
    )
}

/// Turns to the HTTP server, through the gateway or directly.
pub open spec fn turns_to_server(state: SetupState) -> (SetupState, Seq<Outgoing>) {
    let hop = next_hop(
        state.lease.address,
        state.lease.subnet_mask,
        state.lease.gateway,
        state.dns_answer,
    );
    if hop == state.lease.gateway {
        opens_connection(state, state.gateway_mac)
    } else {
        (
            SetupState { stage: SetupStage::HttpStation, ..state },
            seq![Outgoing::WhoHas { target: hop }],
        )
    }
}

/// Asks the name server at `dns_mac`.
pub open spec fn asks_name(state: SetupState, dns_mac: Seq<u8>) -> (SetupState, Seq<Outgoing>) {
    (SetupState { stage: SetupStage::DnsAnswer, dns_mac, ..state }, seq![Outgoing::Query])
}

/// Turns to the name server, through the gateway or directly.
pub open spec fn turns_to_names(state: SetupState) -> (SetupState, Seq<Outgoing>) {
    let hop = next_dns_hop(
        state.lease.address,
        state.lease.subnet_mask,
        state.lease.gateway,
        state.lease.dns_server,
    );
    if hop == state.lease.gateway {
        asks_name(state, state.gateway_mac)
    } else {
        (
            SetupState { stage: SetupStage::DnsStation, ..state },
            seq![Outgoing::WhoHas { target: hop }],
        )
    }
}

/// Whether `frame` is a segment of the HTTP server.
pub open spec fn from_server(state: SetupState, frame: Seq<u8>) -> bool {
    segment_from(
        frame,
        state.http_mac,
        state.lease.address,
        state.dns_answer,
        HTTP_CLIENT_PORT as int,
        HTTP_SERVER_PORT as int,
    )
}

/// The payload of a segment.
pub open spec fn payload_in(frame: Seq<u8>) -> Seq<u8> {
    let segment = segment_of(frame);
    frame.subrange(
        segment.payload_offset as int,
        segment.payload_offset + segment.payload_len,
    )
}

/// What the acknowledgement of the response says: its bytes, and its end if that came with it.
pub open spec fn response_acknowledgement(frame: Seq<u8>) -> u32 {
    let segment = segment_of(frame);
    segment.sequence.wrapping_add(segment.payload_len as u32).wrapping_add(
        if flag_set(segment.flags, TCP_FLAG_FIN) {
            1
        } else {
            0
        },
    )
}

/// While a DHCP message is awaited.
pub open spec fn dhcp_step(state: SetupState, frame: Seq<u8>) -> Result<
    (SetupState, Seq<Outgoing>),
    NetworkError,
> {
    let values = dhcp_reply(frame, state.mac)->Ok_0;
    if state.stage == SetupStage::Offer {
        if !dhcp_of_type(frame, state.mac, DHCP_OFFER) {
            Ok((state, seq![]))
        } else if values.server is None || zero_between(offered_in(frame), 0, 4) {
            Err(NetworkError::DhcpRejected)
        } else {
            Ok(
                (
                    SetupState {
                        stage: SetupStage::Acknowledgement,
                        offered: offered_in(frame),
                        offer: values,
                        server: values.server.unwrap(),
                        ..state
                    },
                    seq![
                        Outgoing::Dhcp {
                            options: client_options(
                                state.mac,
                                DHCP_REQUEST,
                                Some(offered_in(frame)),
                                values.server,
                            ),
                        },
                    ],
                ),
            )
        }
    } else if !dhcp_of_type(frame, state.mac, DHCP_ACK) {
        Ok((state, seq![]))
    } else {
        match lease_of(state.offered, state.offer, offered_in(frame), values, state.server) {
            None => Err(NetworkError::DhcpRejected),
            Some(lease) => Ok(
                (
                    SetupState { stage: SetupStage::Gateway, lease, ..state },
                    seq![Outgoing::WhoHas { target: lease.gateway }],
                ),
            ),
        }
    }
}

/// While the hardware address of a station is awaited.
pub open spec fn station_step(state: SetupState, frame: Seq<u8>) -> (SetupState, Seq<Outgoing>) {
    let station = frame.subrange(22, 28);
    match state.stage {
        SetupStage::Gateway => if arp_answer(frame, state.lease.address, state.lease.gateway) {
            (
                SetupState { stage: SetupStage::Echo, gateway_mac: station, ..state },
                seq![Outgoing::Echo],
            )
        } else {
            (state, seq![])
        },
        SetupStage::DnsStation => if arp_answer(
            frame,
            state.lease.address,
            next_dns_hop(
                state.lease.address,
                state.lease.subnet_mask,
                state.lease.gateway,
                state.lease.dns_server,
            ),
        ) {
            asks_name(state, station)
        } else {
            (state, seq![])
        },
        _ => if arp_answer(
            frame,
            state.lease.address,
            next_hop(
                state.lease.address,
                state.lease.subnet_mask,
                state.lease.gateway,
                state.dns_answer,
            ),
        ) {
            opens_connection(state, station)
        } else {
            (state, seq![])
        },
    }
}

/// While the HTTP server is awaited.
pub open spec fn http_step(state: SetupState, frame: Seq<u8>) -> Result<
    (SetupState, Seq<Outgoing>),
    NetworkError,
> {
    let segment = segment_of(frame);
    if !from_server(state, frame) {
        Ok((state, seq![]))
    } else if flag_set(segment.flags, TCP_FLAG_RST) {
        Err(NetworkError::TcpRejected)
    } else if state.stage == SetupStage::Connection {
        if segment.flags & 0x12 == 0x12 && segment.acknowledgement == SEQUENCE_AFTER_SYN {
            let remote_next = segment.sequence.wrapping_add(1);
            Ok(
                (
                    SetupState { stage: SetupStage::Response, ..state },
                    seq![
                        Outgoing::Segment {
                            sequence: SEQUENCE_AFTER_SYN,
                            acknowledgement: remote_next,
                            flags: TCP_FLAG_ACK,
                            payload: Seq::empty(),
                        },
                        Outgoing::Segment {
                            sequence: SEQUENCE_AFTER_SYN,
                            acknowledgement: remote_next,
                            flags: TCP_FLAG_PSH | TCP_FLAG_ACK,
                            payload: HTTP_REQUEST@,
                        },
                    ],
                ),
            )
        } else {
            Ok((state, seq![]))
        }
    } else if segment.acknowledgement == SEQUENCE_AFTER_REQUEST && segment.payload_len > 0 && status_of(
        payload_in(frame),
    ) is Some {
        Ok(
            (
                SetupState {
                    stage: SetupStage::Done,
                    http_status: status_of(payload_in(frame)).unwrap(),
                    http_response_bytes: segment.payload_len as int,
                    ..state
                },
                seq![
                    Outgoing::Segment {
                        sequence: SEQUENCE_AFTER_REQUEST,
                        acknowledgement: response_acknowledgement(frame),
                        flags: TCP_FLAG_ACK,
                        payload: Seq::empty(),
                    },
                ],
            ),
        )
    } else {
        Ok((state, seq![]))
    }
}

/// Where a frame takes the system, and what it sends on that account. A frame that is not awaited
/// changes nothing.
pub open spec fn setup_step(state: SetupState, frame: Seq<u8>) -> Result<
    (SetupState, Seq<Outgoing>),
    NetworkError,
> {
    match state.stage {
        SetupStage::Offer | SetupStage::Acknowledgement => dhcp_step(state, frame),
        SetupStage::Gateway | SetupStage::DnsStation | SetupStage::HttpStation => Ok(
            station_step(state, frame),
        ),
        SetupStage::Echo => if echo_answer(
            frame,
            state.gateway_mac,
            state.lease.address,
            state.lease.gateway,
        ) {
            Ok(turns_to_names(state))
        } else {
            Ok((state, seq![]))
        },
        SetupStage::DnsAnswer => if dns_datagram(
            frame,
            state.dns_mac,
            state.lease.address,
            state.lease.dns_server,
        ) && resolved_at(dns_message(frame), DNS_QUERY_ID as int, query_name()) is Ok {
            let at = resolved_at(dns_message(frame), DNS_QUERY_ID as int, query_name())->Ok_0;
            Ok(
                turns_to_server(
                    SetupState { dns_answer: dns_message(frame).subrange(at, at + 4), ..state },
                ),
            )
        } else {
            Ok((state, seq![]))
        },
        SetupStage::Connection | SetupStage::Response => http_step(state, frame),
        SetupStage::Done => Ok((state, seq![])),
    }
}

/// How far a stage is.
pub open spec fn stage_number(stage: SetupStage) -> int {
    match stage {
        SetupStage::Offer => 0,
        SetupStage::Acknowledgement => 1,
        SetupStage::Gateway => 2,
        SetupStage::Echo => 3,
        SetupStage::DnsStation => 4,
        SetupStage::DnsAnswer => 5,
        SetupStage::HttpStation => 6,
        SetupStage::Connection => 7,
        SetupStage::Response => 8,
        SetupStage::Done => 9,
    }
}

/// Bringing the interface up never goes back, and sends frames only when it goes on.
pub proof fn setup_only_goes_on(state: SetupState, frame: Seq<u8>)
    ensures
        setup_step(state, frame) matches Ok((next, sent)) ==> if sent.len() == 0 {
            next == state
        } else {
            stage_number(next.stage) > stage_number(state.stage)
        },
{
}

/// The hardware address never changes while the interface is brought up, and the lease never after
/// it was settled.
pub proof fn setup_keeps_the_lease(state: SetupState, frame: Seq<u8>)
    ensures
        setup_step(state, frame) matches Ok((next, _)) ==> next.mac == state.mac && (stage_number(
            state.stage,
        ) >= 2 ==> next.lease == state.lease),
{
}

/// The name that the system asks for has two labels, of seven letters and of three.
proof fn lemma_query_name()
    ensures
        encoded_name(query_name(), 0, 12, 256) is Ok,
        encoded_query().len() == 13,
{
    reveal_with_fuel(label_end, 9);
    reveal_with_fuel(encoded_name, 3);
    assert(label_end(query_name(), 0) == 7);
    assert(label_end(query_name(), 8) == 11);
}

/// The name that the system asks for, spelled out.
proof fn lemma_query_text()
    ensures
        encode_utf8("example.com"@) == query_name(),
{
    reveal_strlit("example.com");
    vstd::utf8::is_ascii_chars_encode_utf8("example.com"@);
    assert(encode_utf8("example.com"@) =~= query_name());
}

/// A frame on its own.
fn one_frame(frame: Vec<u8>) -> (frames: Vec<Vec<u8>>)
    ensures
        frames@ == seq![frame],
{
    let mut frames: Vec<Vec<u8>> = Vec::new();
    frames.push(frame);
    assert(frames@ =~= seq![frame]);
    frames
}

impl NetworkSetup {
    /// Where bringing the interface up starts, and the frame that is sent first.
    pub fn new(mac: [u8; 6]) -> (start: (NetworkSetup, Vec<u8>))
        ensures
            start.0@ == initial_setup(mac@),
            start.0.tries == 0,
            dhcp_frame(start.1@, mac@, client_options(mac@, DHCP_DISCOVER, None, None)),
    {
        let frame = build_dhcp_frame(mac, DHCP_DISCOVER, None, None);
        let bytes = copy_range(&frame, 0, frame.len());
        assert(bytes@ =~= frame@);
        let nowhere: [u8; 4] = [0, 0, 0, 0];
        let nobody: [u8; 6] = [0, 0, 0, 0, 0, 0];
        assert(nowhere@ =~= seq![0u8, 0u8, 0u8, 0u8]);
        assert(nobody@ =~= seq![0u8, 0u8, 0u8, 0u8, 0u8, 0u8]);
        (
            NetworkSetup {
                stage: SetupStage::Offer,
                mac,
                offer: DhcpMessage {
                    offered_address: nowhere,
                    options: DhcpOptions {
                        message_type: None,
                        subnet_mask: None,
                        gateway: None,
                        server: None,
                        dns_server: None,
                        lease_seconds: None,
                    },
                },
                server: nowhere,
                lease: DhcpLease {
                    address: nowhere,
                    subnet_mask: nowhere,
                    gateway: nowhere,
                    server: nowhere,
                    dns_server: nowhere,
                    lease_seconds: 0,
                },
                gateway_mac: nobody,
                dns_mac: nobody,
                dns_answer: nowhere,
                http_mac: nobody,
                http_status: 0,
                http_response_bytes: 0,
                tries: 0,
            },
            bytes,
        )
    }

    /// The question for a station's hardware address.
    fn who_has(&self, target: [u8; 4]) -> (frame: Vec<u8>)
        ensures
            sends(frame@, Outgoing::WhoHas { target: target@ }, self@),
    {
        let frame = build_arp_request(self.mac, self.lease.address, target);
        let bytes = copy_range(&frame, 0, frame.len());
        assert(bytes@ =~= frame@);
        bytes
    }

    /// The query to the name server.
    fn query(&self) -> (frame: Vec<u8>)
        ensures
            sends(frame@, Outgoing::Query, self@),
    {
        proof {
            lemma_query_name();
            lemma_query_text();
        }
        match build_dns_query_frame(
            self.mac,
            self.dns_mac,
            self.lease.address,
            self.lease.dns_server,
            DNS_QUERY_ID,
            "example.com",
        ) {
            Ok((frame, length)) => {
                let bytes = copy_range(&frame, 0, length);
                assert(datagram_on_the_wire(bytes@, frame@, self@));
                bytes
            },
            Err(_) => {
                assert(false);
                Vec::new()
            },
        }
    }

    /// A segment to the HTTP server.
    fn segment(&self, sequence: u32, acknowledgement: u32, flags: u16, payload: &[u8]) -> (frame: Vec<
        u8,
    >)
        requires
            payload@.len() <= 56,
        ensures
            sends(
                frame@,
                Outgoing::Segment { sequence, acknowledgement, flags, payload: payload@ },
                self@,
            ),
    {
        let request = TcpFrameRequest {
            source_mac: self.mac,
            destination_mac: self.http_mac,
            source_address: self.lease.address,
            destination_address: self.dns_answer,
            source_port: HTTP_CLIENT_PORT,
            destination_port: HTTP_SERVER_PORT,
            sequence,
            acknowledgement,
            flags,
            payload,
        };
        match build_tcp_ipv4_frame(request) {
            Ok((frame, length)) => {
                let bytes = copy_range(&frame, 0, length);
                assert(request@ =~= client_segment(
                    self@,
                    sequence,
                    acknowledgement,
                    flags,
                    payload@,
                ));
                assert(segment_on_the_wire(bytes@, frame@, request@));
                assert(sends_segment(bytes@, request@));
                bytes
            },
            Err(_) => {
                assert(false);
                Vec::new()
            },
        }
    }

    /// A segment to the HTTP server that carries nothing.
    fn bare_segment(&self, sequence: u32, acknowledgement: u32, flags: u16) -> (frame: Vec<u8>)
        ensures
            sends(
                frame@,
                Outgoing::Segment { sequence, acknowledgement, flags, payload: Seq::empty() },
                self@,
            ),
    {
        let nothing: [u8; 0] = [];
        assert(nothing@ =~= Seq::<u8>::empty());
        self.segment(sequence, acknowledgement, flags, &nothing)
    }

    /// While a DHCP message is awaited.
    fn on_dhcp(&mut self, frame: &[u8]) -> (result: Result<Vec<Vec<u8>>, NetworkError>)
        requires
            old(self)@.stage == SetupStage::Offer || old(self)@.stage
                == SetupStage::Acknowledgement,
        ensures
            match dhcp_step(old(self)@, frame@) {
                Ok((next, outgoing)) => result matches Ok(frames) && final(self)@ == next
                    && sends_all(frames@, outgoing, next),
                Err(error) => result == Err::<Vec<Vec<u8>>, NetworkError>(error) && final(self)@
                    == old(self)@,
            },
    {
        let message = match parse_dhcp_message(frame, self.mac) {
            Ok(message) => message,
            Err(_) => return Ok(Vec::new()),
        };
        let awaited: u8 = if matches!(self.stage, SetupStage::Offer) {
            DHCP_OFFER
        } else {
            DHCP_ACK
        };
        let fits: bool = match message.options.message_type {
            Some(message_type) => message_type == awaited,
            None => false,
        };
        if !fits {
            return Ok(Vec::new());
        }
        if matches!(self.stage, SetupStage::Offer) {
            let server = match accept_offer(&message) {
                Ok(server) => server,
                Err(error) => return Err(error),
            };
            self.offer = message;
            self.server = server;
            self.stage = SetupStage::Acknowledgement;
            let request = build_dhcp_frame(
                self.mac,
                DHCP_REQUEST,
                Some(message.offered_address),
                Some(server),
            );
            let bytes = copy_range(&request, 0, request.len());
            assert(bytes@ =~= request@);
            assert(self@ =~= dhcp_step(old(self)@, frame@)->Ok_0.0);
            Ok(one_frame(bytes))
        } else {
            let lease = match settle_lease(&self.offer, &message, self.server) {
                Ok(lease) => lease,
                Err(error) => return Err(error),
            };
            self.lease = lease;
            self.stage = SetupStage::Gateway;
            assert(self@.lease =~= lease_of(
                old(self)@.offered,
                old(self)@.offer,
                offered_in(frame@),
                message.options@,
                old(self)@.server,
            ).unwrap());
            assert(self@ =~= dhcp_step(old(self)@, frame@)->Ok_0.0);
            Ok(one_frame(self.who_has(lease.gateway)))
        }
    }

    /// Opens the connection to the HTTP server.
    fn open_connection(&mut self, http_mac: [u8; 6]) -> (frames: Vec<Vec<u8>>)
        ensures
            ({
                let (next, outgoing) = opens_connection(old(self)@, http_mac@);
                final(self)@ == next && sends_all(frames@, outgoing, next)
            }),
    {
        self.http_mac = http_mac;
        self.stage = SetupStage::Connection;
        assert(self@ =~= opens_connection(old(self)@, http_mac@).0);
        one_frame(self.bare_segment(TCP_INITIAL_SEQUENCE, 0, TCP_FLAG_SYN))
    }

    /// Asks the name server.
    fn ask_name(&mut self, dns_mac: [u8; 6]) -> (frames: Vec<Vec<u8>>)
        ensures
            ({
                let (next, outgoing) = asks_name(old(self)@, dns_mac@);
                final(self)@ == next && sends_all(frames@, outgoing, next)
            }),
    {
        self.dns_mac = dns_mac;
        self.stage = SetupStage::DnsAnswer;
        assert(self@ =~= asks_name(old(self)@, dns_mac@).0);
        one_frame(self.query())
    }

    /// The next station towards the name server.
    fn dns_hop(&self) -> (hop: [u8; 4])
        ensures
            hop@ == next_dns_hop(
                self@.lease.address,
                self@.lease.subnet_mask,
                self@.lease.gateway,
                self@.lease.dns_server,
            ),
    {
        dns_next_hop(
            self.lease.address,
            self.lease.subnet_mask,
            self.lease.gateway,
            self.lease.dns_server,
        )
    }

    /// The next station towards the HTTP server.
    fn http_hop(&self) -> (hop: [u8; 4])
        ensures
            hop@ == next_hop(
                self@.lease.address,
                self@.lease.subnet_mask,
                self@.lease.gateway,
                self@.dns_answer,
            ),
    {
        route_next_hop(
            self.lease.address,
            self.lease.subnet_mask,
            self.lease.gateway,
            self.dns_answer,
        )
    }

    /// While the hardware address of a station is awaited.
    fn on_station(&mut self, frame: &[u8]) -> (frames: Vec<Vec<u8>>)
        requires
            old(self)@.stage == SetupStage::Gateway || old(self)@.stage == SetupStage::DnsStation || old(
                self,
            )@.stage == SetupStage::HttpStation,
        ensures
            ({
                let (next, outgoing) = station_step(old(self)@, frame@);
                final(self)@ == next && sends_all(frames@, outgoing, next)
            }),
    {
        let wanted: [u8; 4] = match self.stage {
            SetupStage::Gateway => self.lease.gateway,
            SetupStage::DnsStation => self.dns_hop(),
            _ => self.http_hop(),
        };
        let station: [u8; 6] = match parse_arp_reply(frame, self.lease.address, wanted) {
            Ok(station) => station,
            Err(_) => return Vec::new(),
        };
        match self.stage {
            SetupStage::Gateway => {
                self.gateway_mac = station;
                self.stage = SetupStage::Echo;
                let echo = build_echo_request(
                    self.mac,
                    self.gateway_mac,
                    self.lease.address,
                    self.lease.gateway,
                );
                let bytes = copy_range(&echo, 0, echo.len());
                assert(bytes@ =~= echo@);
                assert(self@ =~= station_step(old(self)@, frame@).0);
                one_frame(bytes)
            },
            SetupStage::DnsStation => self.ask_name(station),
            _ => self.open_connection(station),
        }
    }

    /// While the echo of the gateway is awaited.
    fn on_echo(&mut self, frame: &[u8]) -> (frames: Vec<Vec<u8>>)
        requires
            old(self)@.stage == SetupStage::Echo,
        ensures
            setup_step(old(self)@, frame@) matches Ok((next, outgoing)) && final(self)@ == next
                && sends_all(frames@, outgoing, next),
    {
        match parse_echo_reply(frame, self.gateway_mac, self.lease.address, self.lease.gateway) {
            Ok(_) => {},
            Err(_) => return Vec::new(),
        }
        let hop = self.dns_hop();
        if bytes_equal(&hop, &self.lease.gateway) {
            let gateway_mac = self.gateway_mac;
            self.ask_name(gateway_mac)
        } else {
            self.stage = SetupStage::DnsStation;
            assert(self@ =~= turns_to_names(old(self)@).0);
            one_frame(self.who_has(hop))
        }
    }

    /// While the name server's answer is awaited.
    fn on_answer(&mut self, frame: &[u8]) -> (frames: Vec<Vec<u8>>)
        requires
            old(self)@.stage == SetupStage::DnsAnswer,
        ensures
            setup_step(old(self)@, frame@) matches Ok((next, outgoing)) && final(self)@ == next
                && sends_all(frames@, outgoing, next),
    {
        proof {
            lemma_query_text();
        }
        let answer: [u8; 4] = match parse_dns_response(
            frame,
            self.dns_mac,
            self.lease.address,
            self.lease.dns_server,
            DNS_QUERY_ID,
            "example.com",
        ) {
            Ok(answer) => answer,
            Err(_) => return Vec::new(),
        };
        self.dns_answer = answer;
        let ghost resolved = SetupState { dns_answer: answer@, ..old(self)@ };
        assert(self@ =~= resolved);
        let hop = self.http_hop();
        if bytes_equal(&hop, &self.lease.gateway) {
            let gateway_mac = self.gateway_mac;
            self.open_connection(gateway_mac)
        } else {
            self.stage = SetupStage::HttpStation;
            assert(self@ =~= turns_to_server(resolved).0);
            one_frame(self.who_has(hop))
        }
    }

    /// While the HTTP server is awaited: it accepts the connection, is asked, and answers.
    fn perform_http_get(&mut self, frame: &[u8]) -> (result: Result<Vec<Vec<u8>>, NetworkError>)
        requires
            old(self)@.stage == SetupStage::Connection || old(self)@.stage == SetupStage::Response,
        ensures
            match http_step(old(self)@, frame@) {
                Ok((next, outgoing)) => result matches Ok(frames) && final(self)@ == next
                    && sends_all(frames@, outgoing, next),
                Err(error) => result == Err::<Vec<Vec<u8>>, NetworkError>(error) && final(self)@
                    == old(self)@,
            },
    {
        let segment = match parse_tcp_segment(
            frame,
            self.http_mac,
            self.lease.address,
            self.dns_answer,
            HTTP_CLIENT_PORT,
            HTTP_SERVER_PORT,
        ) {
            Ok(segment) => segment,
            Err(_) => return Ok(Vec::new()),
        };
        if segment.flags & TCP_FLAG_RST != 0 {
            return Err(NetworkError::TcpRejected);
        }
        if matches!(self.stage, SetupStage::Connection) {
            if segment.flags & 0x12 != 0x12 || segment.acknowledgement != SEQUENCE_AFTER_SYN {
                return Ok(Vec::new());
            }
            let remote_next: u32 = segment.sequence.wrapping_add(1);
            proof {
                lemma_query_text();
            }
            let request = match http_request_for_host("example.com") {
                Ok(request) => request,
                Err(error) => return Err(error),
            };
            self.stage = SetupStage::Response;
            assert(self@ =~= http_step(old(self)@, frame@)->Ok_0.0);
            let mut frames: Vec<Vec<u8>> = Vec::new();
            frames.push(self.bare_segment(SEQUENCE_AFTER_SYN, remote_next, TCP_FLAG_ACK));
            frames.push(
                self.segment(
                    SEQUENCE_AFTER_SYN,
                    remote_next,
                    TCP_FLAG_PSH | TCP_FLAG_ACK,
                    request,
                ),
            );
            return Ok(frames);
        }
        if segment.acknowledgement != SEQUENCE_AFTER_REQUEST || segment.payload_len == 0 {
            return Ok(Vec::new());
        }
        let payload: &[u8] = &frame[segment.payload_offset..segment.payload_offset
            + segment.payload_len];
        let status: u16 = match parse_http_status(payload) {
            Some(status) => status,
            None => return Ok(Vec::new()),
        };
        let ending: u32 = if segment.flags & TCP_FLAG_FIN != 0 {
            1
        } else {
            0
        };
        let acknowledgement: u32 = segment.sequence.wrapping_add(
            segment.payload_len as u32,
        ).wrapping_add(ending);
        self.http_status = status;
        self.http_response_bytes = segment.payload_len;
        self.stage = SetupStage::Done;
        assert(self@ =~= http_step(old(self)@, frame@)->Ok_0.0);
        Ok(
            one_frame(
                self.bare_segment(SEQUENCE_AFTER_REQUEST, acknowledgement, TCP_FLAG_ACK),
            ),
        )
    }

    /// Which error it is that the awaited frame did not come.
    pub fn timed_out(&self) -> (error: NetworkError)
        ensures
            error == missing_answer(self@.stage),
    {
        match self.stage {
            SetupStage::Offer | SetupStage::Acknowledgement => NetworkError::DhcpTimedOut,
            SetupStage::Gateway | SetupStage::DnsStation | SetupStage::HttpStation => {
                NetworkError::ArpTimedOut
            },
            SetupStage::Echo => NetworkError::IcmpTimedOut,
            SetupStage::DnsAnswer => NetworkError::DnsTimedOut,
            SetupStage::Connection | SetupStage::Response | SetupStage::Done => {
                NetworkError::TcpTimedOut
            },
        }
    }

    /// Counts a try that did not bring the awaited frame. After so many tries it is given up.
    pub fn waited(&mut self) -> (result: Result<(), NetworkError>)
        ensures
            final(self)@ == old(self)@,
            final(self).tries == one_more_try(old(self).tries),
            result == if final(self).tries >= PROTOCOL_TIMEOUT_SPINS {
                Err::<(), NetworkError>(missing_answer(old(self)@.stage))
            } else {
                Ok(())
            },
    {
        self.tries = self.tries.saturating_add(1);
        if self.tries >= PROTOCOL_TIMEOUT_SPINS {
            return Err(self.timed_out());
        }
        Ok(())
    }

    /// One try to come further: the frame that came in, if one did, is looked at, and if it was not
    /// the awaited one, the try is counted. Gives the frames to send.
    pub fn attempt(&mut self, frame: Option<&[u8]>) -> (result: Result<Vec<Vec<u8>>, NetworkError>)
        ensures
            match try_outcome(
                old(self)@,
                match frame {
                    Some(frame) => Some(frame@),
                    None => None,
                },
            ) {
                Err(error) => result == Err::<Vec<Vec<u8>>, NetworkError>(error) && final(self)@
                    == old(self)@,
                Ok(Some((next, outgoing))) => result matches Ok(frames) && final(self)@ == next
                    && final(self).tries == 0 && sends_all(frames@, outgoing, next),
                Ok(None) => {
                    &&& final(self)@ == old(self)@
                    &&& final(self).tries == one_more_try(old(self).tries)
                    &&& if final(self).tries >= PROTOCOL_TIMEOUT_SPINS {
                        result == Err::<Vec<Vec<u8>>, NetworkError>(
                            missing_answer(old(self)@.stage),
                        )
                    } else {
                        result matches Ok(frames) && frames@.len() == 0
                    }
                },
            },
    {
        let stage = self.stage;
        let mut frames: Vec<Vec<u8>> = Vec::new();
        match frame {
            Some(frame) => {
                proof {
                    setup_only_goes_on(self@, frame@);
                }
                match configure(self, frame) {
                    Ok(sent) => {
                        frames = sent;
                    },
                    Err(error) => return Err(error),
                }
            },
            None => {},
        }
        if self.stage != stage {
            return Ok(frames);
        }
        match self.waited() {
            Ok(_) => Ok(Vec::new()),
            Err(error) => Err(error),
        }
    }
}

/// Which error it is that the frame awaited at a stage did not come.
pub open spec fn missing_answer(stage: SetupStage) -> NetworkError {
    match stage {
        SetupStage::Offer | SetupStage::Acknowledgement => NetworkError::DhcpTimedOut,
        SetupStage::Gateway | SetupStage::DnsStation | SetupStage::HttpStation =>
        NetworkError::ArpTimedOut,
        SetupStage::Echo => NetworkError::IcmpTimedOut,
        SetupStage::DnsAnswer => NetworkError::DnsTimedOut,
        SetupStage::Connection | SetupStage::Response | SetupStage::Done =>
        NetworkError::TcpTimedOut,
    }
}

/// One more try.
pub open spec fn one_more_try(tries: usize) -> usize {
    if tries == usize::MAX {
        tries
    } else {
        (tries + 1) as usize
    }
}

/// What a try comes to: a failure, the next stage with the frames that are sent, or nothing.
pub open spec fn try_outcome(state: SetupState, frame: Option<Seq<u8>>) -> Result<
    Option<(SetupState, Seq<Outgoing>)>,
    NetworkError,
> {
    match frame {
        None => Ok(None),
        Some(frame) => match setup_step(state, frame) {
            Err(error) => Err(error),
            Ok((next, outgoing)) => if next.stage != state.stage {
                Ok(Some((next, outgoing)))
            } else {
                Ok(None)
            },
        },
    }
}

/// Takes bringing the interface up one frame further, and gives the frames to send on that account. At
/// every new stage tries are counted anew.
pub fn configure(setup: &mut NetworkSetup, frame: &[u8]) -> (result: Result<Vec<Vec<u8>>, NetworkError>)
    ensures
        match setup_step(old(setup)@, frame@) {
            Ok((next, outgoing)) => result matches Ok(frames) && final(setup)@ == next && sends_all(
                frames@,
                outgoing,
                next,
            ),
            Err(error) => result == Err::<Vec<Vec<u8>>, NetworkError>(error) && final(setup)@ == old(
                setup,
            )@,
        },
        final(setup).tries == if final(setup)@.stage == old(setup)@.stage {
            old(setup).tries
        } else {
            0
        },
{
    let stage = setup.stage;
    let tries: usize = setup.tries;
    let result = match setup.stage {
        SetupStage::Offer | SetupStage::Acknowledgement => setup.on_dhcp(frame),
        SetupStage::Gateway | SetupStage::DnsStation | SetupStage::HttpStation => Ok(
            setup.on_station(frame),
        ),
        SetupStage::Echo => Ok(setup.on_echo(frame)),
        SetupStage::DnsAnswer => Ok(setup.on_answer(frame)),
        SetupStage::Connection | SetupStage::Response => setup.perform_http_get(frame),
        SetupStage::Done => Ok(Vec::new()),
    };
    setup.tries = if setup.stage == stage {
        tries
    } else {
        0
    };
    result
}

/// The state after the first `n` tries, if none of them failed.
pub open spec fn after_tries(state: SetupState, tried: Seq<Option<Seq<u8>>>, n: nat) -> SetupState
    decreases n,
{
    if n == 0 {
        state
    } else {
        let before = after_tries(state, tried, (n - 1) as nat);
        match try_outcome(before, tried[n - 1]) {
            Ok(Some((next, _))) => next,
            _ => before,
        }
    }
}

/// How many tries there were since the last change of stage, after the first `n`.
pub open spec fn tries_counted(state: SetupState, tried: Seq<Option<Seq<u8>>>, n: nat) -> nat
    decreases n,
{
    if n == 0 {
        0
    } else if try_outcome(after_tries(state, tried, (n - 1) as nat), tried[n - 1]) matches Ok(
        Some(_),
    ) {
        0
    } else {
        tries_counted(state, tried, (n - 1) as nat) + 1
    }
}

/// Waiting is bounded: whatever frames come in, as long as each stage is given up once its tries are
/// counted, there are never more tries than the limit allows for the stages that are left.
pub proof fn waiting_is_bounded(state: SetupState, tried: Seq<Option<Seq<u8>>>, n: nat)
    requires
        forall|m: nat| m < n ==> #[trigger] tries_counted(state, tried, m) < PROTOCOL_TIMEOUT_SPINS,
    ensures
        n <= (stage_number(after_tries(state, tried, n).stage) - stage_number(state.stage))
            * PROTOCOL_TIMEOUT_SPINS + tries_counted(state, tried, n),
        stage_number(state.stage) <= stage_number(after_tries(state, tried, n).stage) <= 9,
    decreases n,
{
    if n > 0 {
        let m = (n - 1) as nat;
        waiting_is_bounded(state, tried, m);
        let before = after_tries(state, tried, m);
        assert(tries_counted(state, tried, m) < PROTOCOL_TIMEOUT_SPINS);
        match tried[m as int] {
            Some(frame) => setup_only_goes_on(before, frame),
            None => {},
        }
        let gone = stage_number(before.stage) - stage_number(state.stage);
        let after = after_tries(state, tried, n);
        let now = stage_number(after.stage) - stage_number(state.stage);
        if now > gone {
            assert(now * PROTOCOL_TIMEOUT_SPINS >= (gone + 1) * PROTOCOL_TIMEOUT_SPINS)
                by (nonlinear_arith)
                requires
                    now >= gone + 1,
            ;
            assert((gone + 1) * PROTOCOL_TIMEOUT_SPINS == gone * PROTOCOL_TIMEOUT_SPINS
                + PROTOCOL_TIMEOUT_SPINS) by (nonlinear_arith);
        }
    }
}

} // verus!
