//! The interface once it is up: what it reports, and how it answers the frames that come in.

use vstd::prelude::*;
use crate::network::arp::{arp_frame, arp_question, build_arp_reply};
use crate::network::device::VirtioNet;
use crate::network::dhcp::DhcpLease;
use crate::network::dns::DNS_QUERY_ID;
use crate::network::echo::{build_echo_reply, echo_of, echo_question, ICMP_ECHO_SEQUENCE};
use crate::network::laws::a_segment_closes_one_connection_at_most;
use crate::network::listener::{
    arrival_of, event_view, idle_count, reaction, without_idle, Connection, ListenerState, Reaction,
    Report, TcpListener,
    TcpServerEvent, TcpServerEventKind, TCP_LISTENER_CAPACITY, TCP_LISTENER_PORT,
};
use crate::network::setup::{
    segment_on_the_wire, sends_segment, NetworkSetup, SetupStage, HTTP_CLIENT_PORT,
};
use crate::network::tcp::segment_for;
use crate::bytes::copy_range;

verus! {

/// How many frames one poll takes at most.
pub const FRAMES_PER_POLL: usize = 32;

/// What is known of the network.
#[derive(Debug, Clone, Copy)]
pub struct NetworkReport {
    pub pci_bus: u8,
    pub pci_device: u8,
    pub pci_function: u8,
    pub io_base: u16,
    pub mac: [u8; 6],
    pub address: [u8; 4],
    pub subnet_mask: [u8; 4],
    pub gateway: [u8; 4],
    pub dhcp_server: [u8; 4],
    pub dns_server: [u8; 4],
    pub dns_answer: [u8; 4],
    pub dns_query_id: u16,
    pub http_status: u16,
    pub http_response_bytes: usize,
    pub tcp_source_port: u16,
    pub gateway_mac: [u8; 6],
    pub icmp_echo_sequence: u16,
    pub lease_seconds: u32,
    pub transmitted_frames: u64,
    pub received_frames: u64,
}

/// What happened during one poll.
#[derive(Debug, Clone, Copy, PartialEq, Eq)]
pub struct NetworkPollResult {
    pub received_frame: bool,
    pub tcp_server: Option<TcpServerEvent>,
    pub expired_tcp_connections: usize,
    pub closed_tcp_connections: usize,
    pub total_closed_tcp_connections: u64,
}

/// A poll that is under way: what happened so far, when it began, and how many frames it looked for.
#[derive(Debug, Clone, Copy)]
pub struct NetworkPoll {
    pub result: NetworkPollResult,
    pub now_tick: u64,
    pub frames: usize,
}

impl NetworkPoll {
    /// Whether one more frame is looked for.
    pub fn next(&mut self) -> (more: bool)
        ensures
            more <==> old(self).frames < FRAMES_PER_POLL,
            *final(self) == (NetworkPoll {
                frames: if more {
                    (old(self).frames + 1) as usize
                } else {
                    old(self).frames
                },
                ..*old(self)
            }),
    {
        if self.frames < FRAMES_PER_POLL {
            self.frames = self.frames + 1;
            true
        } else {
            false
        }
    }
}

/// The interface.
pub struct NetworkInterface {
    pub device: VirtioNet,
    pub lease: DhcpLease,
    pub gateway_mac: [u8; 6],
    pub dns_answer: [u8; 4],
    pub http_status: u16,
    pub http_response_bytes: usize,
    pub tcp_listener: TcpListener,
}

/// What the interface does with a frame: the first of the three that fits.
pub ghost enum Handling {
    /// It answers a question for its hardware address.
    Arp,
    /// It sends an echo back.
    Echo,
    /// Its listener reacts to a segment.
    Tcp(Reaction),
    /// It lets the frame pass.
    Ignore,
}

/// What an interface with this hardware address, address and listener does with a frame.
pub open spec fn handling(
    frame: Seq<u8>,
    mac: Seq<u8>,
    address: Seq<u8>,
    listener: ListenerState,
    tick: u64,
) -> Handling {
    if arp_question(frame, address) {
        Handling::Arp
    } else if echo_question(frame, mac, address) {
        Handling::Echo
    } else if segment_for(frame, mac, address, listener.local_port as int) {
        Handling::Tcp(reaction(listener, arrival_of(frame), mac, address, tick))
    } else {
        Handling::Ignore
    }
}

/// `bytes` are the echo of `frame` as it goes on the wire.
pub open spec fn echo_on_the_wire(
    bytes: Seq<u8>,
    reply: Seq<u8>,
    frame: Seq<u8>,
    mac: Seq<u8>,
) -> bool {
    &&& echo_of(frame, reply, bytes.len() as int, mac)
    &&& bytes == reply.subrange(0, bytes.len() as int)
}

/// `bytes` are the echo of `frame`.
pub open spec fn sends_echo(bytes: Seq<u8>, frame: Seq<u8>, mac: Seq<u8>) -> bool {
    exists|reply: Seq<u8>| #[trigger] echo_on_the_wire(bytes, reply, frame, mac)
}

/// `reply` is what the interface sends on account of `frame`.
pub open spec fn replies(
    reply: Option<Vec<u8>>,
    handling: Handling,
    frame: Seq<u8>,
    mac: Seq<u8>,
    address: Seq<u8>,
) -> bool {
    match handling {
        Handling::Arp => reply matches Some(bytes) && arp_frame(
            bytes@,
            frame.subrange(22, 28),
            2,
            mac,
            address,
            frame.subrange(22, 28),
            frame.subrange(28, 32),
        ),
        Handling::Echo => reply matches Some(bytes) && sends_echo(bytes@, frame, mac),
        Handling::Tcp(reaction) => match reaction.reply {
            Some(segment) => reply matches Some(bytes) && sends_segment(bytes@, segment),
            None => reply is None,
        },
        Handling::Ignore => reply is None,
    }
}

/// The event that a poll reports once `next` has come too: the first, unless a later one is that a
/// request was served.
pub open spec fn preferred(current: Option<TcpServerEvent>, next: Option<TcpServerEvent>) -> Option<
    TcpServerEvent,
> {
    match next {
        Some(event) => if current is None || event.kind == TcpServerEventKind::Served {
            next
        } else {
            current
        },
        None => current,
    }
}

/// `event` is what the handling of a frame reports.
pub open spec fn reported(event: Option<TcpServerEvent>, handling: Handling) -> bool {
    match handling {
        Handling::Tcp(reaction) => event_view(event) == reaction.report,
        _ => event is None,
    }
}

/// A poll that reported `before` reports `after` once a frame was handled.
pub open spec fn reports(
    before: Option<TcpServerEvent>,
    after: Option<TcpServerEvent>,
    handling: Handling,
) -> bool {
    exists|event: Option<TcpServerEvent>|
        {
            &&& #[trigger] reported(event, handling)
            &&& after == preferred(before, event)
        }
}

/// The listener after a frame was handled.
pub open spec fn listener_after(listener: ListenerState, handling: Handling) -> ListenerState {
    match handling {
        Handling::Tcp(reaction) => reaction.state,
        _ => listener,
    }
}

/// Answers a frame that asks for the hardware address or for an echo.
fn answer_question(frame: &[u8], mac: [u8; 6], address: [u8; 4]) -> (reply: Option<Vec<u8>>)
    ensures
        if arp_question(frame@, address@) {
            replies(reply, Handling::Arp, frame@, mac@, address@)
        } else if echo_question(frame@, mac@, address@) {
            replies(reply, Handling::Echo, frame@, mac@, address@)
        } else {
            reply is None
        },
{
    match build_arp_reply(frame, mac, address) {
        Some(reply) => {
            let bytes = copy_range(&reply, 0, reply.len());
            assert(bytes@ =~= reply@);
            return Some(bytes);
        },
        None => {},
    }
    match build_echo_reply(frame, mac, address) {
        Some((reply, length)) => {
            let bytes = copy_range(&reply, 0, length);
            assert(echo_on_the_wire(bytes@, reply@, frame@, mac@));
            assert(sends_echo(bytes@, frame@, mac@));
            Some(bytes)
        },
        None => None,
    }
}

/// Hands a frame to the listener, and gives the frame to send and the event to report.
fn listen(
    listener: &mut TcpListener,
    frame: &[u8],
    mac: [u8; 6],
    address: [u8; 4],
    now_tick: u64,
) -> (outcome: (Option<Vec<u8>>, Option<TcpServerEvent>))
    ensures
        ({
            let due = if segment_for(frame@, mac@, address@, old(listener)@.local_port as int) {
                Handling::Tcp(
                    reaction(old(listener)@, arrival_of(frame@), mac@, address@, now_tick),
                )
            } else {
                Handling::Ignore
            };
            &&& final(listener)@ == listener_after(old(listener)@, due)
            &&& replies(outcome.0, due, frame@, mac@, address@)
            &&& reported(outcome.1, due)
        }),
{
    match listener.handle_frame_at(frame, mac, address, now_tick) {
        Ok(Some(action)) => {
            let ghost due = reaction(old(listener)@, arrival_of(frame@), mac@, address@, now_tick);
            let bytes = copy_range(&action.frame, 0, action.length);
            assert(segment_on_the_wire(bytes@, action.frame@, due.reply.unwrap()));
            assert(sends_segment(bytes@, due.reply.unwrap()));
            (Some(bytes), action.event)
        },
        _ => (None, None),
    }
}

impl NetworkInterface {
    /// The interface that was brought up, once bringing it up is done.
    pub fn new(device: VirtioNet, setup: &NetworkSetup) -> (interface: Option<NetworkInterface>)
        ensures
            interface is Some <==> setup@.stage == SetupStage::Done,
            interface matches Some(interface) ==> {
                &&& interface.device == device
                &&& interface.lease@ == setup@.lease
                &&& interface.gateway_mac@ == setup@.gateway_mac
                &&& interface.dns_answer@ == setup@.dns_answer
                &&& interface.http_status == setup@.http_status
                &&& interface.http_response_bytes == setup@.http_response_bytes
                &&& interface.tcp_listener@.local_port == TCP_LISTENER_PORT
                &&& interface.tcp_listener@.connections == Seq::new(
                    TCP_LISTENER_CAPACITY as nat,
                    |i: int| None::<Connection>,
                )
                &&& interface.tcp_listener@.served == 0
                &&& interface.tcp_listener@.closed == 0
            },
    {
        match setup.stage {
            SetupStage::Done => Some(
                NetworkInterface {
                    device,
                    lease: setup.lease,
                    gateway_mac: setup.gateway_mac,
                    dns_answer: setup.dns_answer,
                    http_status: setup.http_status,
                    http_response_bytes: setup.http_response_bytes,
                    tcp_listener: TcpListener::new(TCP_LISTENER_PORT),
                },
            ),
            _ => None,
        }
    }

    /// What is known of the network.
    pub fn report(&self) -> (report: NetworkReport)
        ensures
            report == (NetworkReport {
                pci_bus: self.device.pci_bus,
                pci_device: self.device.pci_device,
                pci_function: self.device.pci_function,
                io_base: self.device.io_base,
                mac: self.device.mac,
                address: self.lease.address,
                subnet_mask: self.lease.subnet_mask,
                gateway: self.lease.gateway,
                dhcp_server: self.lease.server,
                dns_server: self.lease.dns_server,
                dns_answer: self.dns_answer,
                dns_query_id: DNS_QUERY_ID,
                http_status: self.http_status,
                http_response_bytes: self.http_response_bytes,
                tcp_source_port: HTTP_CLIENT_PORT,
                gateway_mac: self.gateway_mac,
                icmp_echo_sequence: ICMP_ECHO_SEQUENCE,
                lease_seconds: self.lease.lease_seconds,
                transmitted_frames: self.device.transmitted_frames,
                received_frames: self.device.received_frames,
            }),
    {
        NetworkReport {
            pci_bus: self.device.pci_bus,
            pci_device: self.device.pci_device,
            pci_function: self.device.pci_function,
            io_base: self.device.io_base,
            mac: self.device.mac,
            address: self.lease.address,
            subnet_mask: self.lease.subnet_mask,
            gateway: self.lease.gateway,
            dhcp_server: self.lease.server,
            dns_server: self.lease.dns_server,
            dns_answer: self.dns_answer,
            dns_query_id: DNS_QUERY_ID,
            http_status: self.http_status,
            http_response_bytes: self.http_response_bytes,
            tcp_source_port: HTTP_CLIENT_PORT,
            gateway_mac: self.gateway_mac,
            icmp_echo_sequence: ICMP_ECHO_SEQUENCE,
            lease_seconds: self.lease.lease_seconds,
            transmitted_frames: self.device.transmitted_frames,
            received_frames: self.device.received_frames,
        }
    }

    /// Begins a poll: connections that have been idle for too long are dropped.
    pub fn begin_poll(&mut self, now_tick: u64) -> (poll: NetworkPoll)
        ensures
            poll.now_tick == now_tick,
            poll.frames == 0,
            !poll.result.received_frame,
            poll.result.tcp_server is None,
            poll.result.expired_tcp_connections == idle_count(
                old(self).tcp_listener@.connections,
                now_tick,
                TCP_LISTENER_CAPACITY as int,
            ),
            poll.result.closed_tcp_connections == 0,
            poll.result.total_closed_tcp_connections == old(self).tcp_listener@.closed,
            final(self).tcp_listener@ == (ListenerState {
                connections: without_idle(old(self).tcp_listener@.connections, now_tick),
                ..old(self).tcp_listener@
            }),
            *final(self) == (NetworkInterface {
                tcp_listener: final(self).tcp_listener,
                ..*old(self)
            }),
    {
        let closed_before: u64 = self.tcp_listener.closed_connections;
        let expired: usize = self.tcp_listener.expire_idle_connections(now_tick);
        assert(self.tcp_listener@ =~= (ListenerState {
            connections: without_idle(old(self).tcp_listener@.connections, now_tick),
            ..old(self).tcp_listener@
        }));
        NetworkPoll {
            result: NetworkPollResult {
                received_frame: false,
                tcp_server: None,
                expired_tcp_connections: expired,
                closed_tcp_connections: 0,
                total_closed_tcp_connections: closed_before,
            },
            now_tick,
            frames: 0,
        }
    }

    /// What the interface does with a frame.
    pub open spec fn handles(self, frame: Seq<u8>, tick: u64) -> Handling {
        handling(frame, self.device.mac@, self.lease.address@, self.tcp_listener@, tick)
    }

    /// `after` is the interface after a poll took a frame, and `poll_after` the poll.
    pub open spec fn took(
        self,
        after: NetworkInterface,
        poll: NetworkPoll,
        poll_after: NetworkPoll,
        frame: Seq<u8>,
    ) -> bool {
        let due = self.handles(frame, poll.now_tick);
        &&& after.tcp_listener@ == listener_after(self.tcp_listener@, due)
        &&& after == (NetworkInterface { tcp_listener: after.tcp_listener, ..self })
        &&& reports(poll.result.tcp_server, poll_after.result.tcp_server, due)
        &&& poll_after == (NetworkPoll {
            result: NetworkPollResult {
                received_frame: true,
                tcp_server: poll_after.result.tcp_server,
                ..poll.result
            },
            ..poll
        })
    }

    /// Takes a frame that came in during a poll, and gives the frame to send on that account.
    pub fn poll(&mut self, frame: &[u8], poll: &mut NetworkPoll) -> (reply: Option<Vec<u8>>)
        ensures
            replies(
                reply,
                old(self).handles(frame@, old(poll).now_tick),
                frame@,
                old(self).device.mac@,
                old(self).lease.address@,
            ),
            old(self).took(*final(self), *old(poll), *final(poll), frame@),
    {
        poll.result.received_frame = true;
        match answer_question(frame, self.device.mac, self.lease.address) {
            Some(bytes) => {
                assert(reported(None, Handling::Arp) && reported(None, Handling::Echo));
                return Some(bytes);
            },
            None => {},
        }
        let ghost before = poll.result.tcp_server;
        let (reply, event) = listen(
            &mut self.tcp_listener,
            frame,
            self.device.mac,
            self.lease.address,
            poll.now_tick,
        );
        match event {
            Some(event) => {
                let first: bool = match poll.result.tcp_server {
                    Some(_) => false,
                    None => true,
                };
                if first || event.kind == TcpServerEventKind::Served {
                    poll.result.tcp_server = Some(event);
                }
            },
            None => {},
        }
        assert(poll.result.tcp_server == preferred(before, event));
        reply
    }

    /// Ends a poll: the connections that were closed since it began are counted.
    pub fn end_poll(&self, poll: NetworkPoll) -> (result: NetworkPollResult)
        ensures
            result == poll_result(*self, poll),
    {
        let mut result = poll.result;
        let closed: u64 = self.tcp_listener.closed_connections.saturating_sub(
            result.total_closed_tcp_connections,
        );
        result.total_closed_tcp_connections = self.tcp_listener.closed_connections;
        result.closed_tcp_connections = if closed > usize::MAX as u64 {
            usize::MAX
        } else {
            closed as usize
        };
        result
    }
}

/// What a poll reports when it ends.
pub open spec fn poll_result(interface: NetworkInterface, poll: NetworkPoll) -> NetworkPollResult {
    let closed = interface.tcp_listener@.closed - poll.result.total_closed_tcp_connections;
    NetworkPollResult {
        closed_tcp_connections: if closed < 0 {
            0
        } else if closed > usize::MAX {
            usize::MAX
        } else {
            closed as usize
        },
        total_closed_tcp_connections: interface.tcp_listener@.closed,
        ..poll.result
    }
}

/// One frame of a poll: the interface and the poll before and after it was taken.
pub ghost struct PollStep {
    pub frame: Seq<u8>,
    pub before: NetworkInterface,
    pub after: NetworkInterface,
    pub poll_before: NetworkPoll,
    pub poll_after: NetworkPoll,
}

/// Between two frames nothing changes but the device's queues and counts.
pub open spec fn only_the_device_moved(a: NetworkInterface, b: NetworkInterface) -> bool {
    b == (NetworkInterface {
        device: VirtioNet {
            rx: b.device.rx,
            tx: b.device.tx,
            transmitted_frames: b.device.transmitted_frames,
            received_frames: b.device.received_frames,
            ..a.device
        },
        ..a
    })
}

/// The frames of a poll were taken one after another, each only as the poll looked for one more.
pub open spec fn poll_runs(
    start: NetworkInterface,
    begun: NetworkPoll,
    steps: Seq<PollStep>,
) -> bool {
    forall|i: int|
        0 <= i < steps.len() ==> {
            let step = #[trigger] steps[i];
            let interface = if i == 0 {
                start
            } else {
                steps[i - 1].after
            };
            let poll = if i == 0 {
                begun
            } else {
                steps[i - 1].poll_after
            };
            &&& only_the_device_moved(interface, step.before)
            &&& poll.frames < FRAMES_PER_POLL
            &&& step.poll_before == (NetworkPoll { frames: (poll.frames + 1) as usize, ..poll })
            &&& step.before.took(step.after, step.poll_before, step.poll_after, step.frame)
        }
}

/// What a step reports.
pub open spec fn step_report(step: PollStep) -> Option<Report> {
    match step.before.handles(step.frame, step.poll_before.now_tick) {
        Handling::Tcp(reaction) => reaction.report,
        _ => None,
    }
}

/// What the first `n` steps report together: the last request that was served, or else the first event.
pub open spec fn poll_report(steps: Seq<PollStep>, n: nat) -> Option<Report>
    decreases n,
{
    if n == 0 {
        None
    } else {
        let earlier = poll_report(steps, (n - 1) as nat);
        match step_report(steps[n - 1]) {
            Some(report) => if earlier is None || report.kind == TcpServerEventKind::Served {
                Some(report)
            } else {
                earlier
            },
            None => earlier,
        }
    }
}

/// A whole poll takes at most as many frames as it may, keeps all that the interface reports but the
/// device's counts, and reports whether a frame came, the last request that was served or else the first
/// event, and how many connections were closed.
pub proof fn a_poll_reports_what_its_frames_did(
    start: NetworkInterface,
    begun: NetworkPoll,
    steps: Seq<PollStep>,
    n: nat,
)
    requires
        begun.frames == 0,
        begun.result.tcp_server is None,
        !begun.result.received_frame,
        begun.result.total_closed_tcp_connections == start.tcp_listener@.closed,
        poll_runs(start, begun, steps),
        n <= steps.len(),
    ensures
        n <= FRAMES_PER_POLL,
        n > 0 ==> {
            let last = steps[n - 1];
            let result = poll_result(last.after, last.poll_after);
            &&& last.poll_after.frames == n
            &&& last.poll_after.now_tick == begun.now_tick
            &&& result.received_frame
            &&& event_view(result.tcp_server) == poll_report(steps, n)
            &&& result.expired_tcp_connections == begun.result.expired_tcp_connections
            &&& result.total_closed_tcp_connections == last.after.tcp_listener@.closed
            &&& result.closed_tcp_connections == last.after.tcp_listener@.closed
                - start.tcp_listener@.closed
            &&& start.tcp_listener@.closed <= last.after.tcp_listener@.closed
                <= start.tcp_listener@.closed + n
            &&& last.poll_after.result.total_closed_tcp_connections == start.tcp_listener@.closed
            &&& last.after.lease == start.lease
            &&& last.after.gateway_mac == start.gateway_mac
            &&& last.after.dns_answer == start.dns_answer
            &&& last.after.http_status == start.http_status
            &&& last.after.http_response_bytes == start.http_response_bytes
            &&& last.after.device.mac == start.device.mac
            &&& last.after.device.io_base == start.device.io_base
            &&& last.after.device.pci_bus == start.device.pci_bus
            &&& last.after.device.pci_device == start.device.pci_device
            &&& last.after.device.pci_function == start.device.pci_function
        },
    decreases n,
{
    if n > 0 {
        let m = (n - 1) as nat;
        a_poll_reports_what_its_frames_did(start, begun, steps, m);
        let step = steps[m as int];
        let due = step.before.handles(step.frame, step.poll_before.now_tick);
        let before = step.poll_before.result.tcp_server;
        let event = choose|event: Option<TcpServerEvent>|
            {
                &&& #[trigger] reported(event, due)
                &&& step.poll_after.result.tcp_server == preferred(before, event)
            };
        if segment_for(
            step.frame,
            step.before.device.mac@,
            step.before.lease.address@,
            step.before.tcp_listener@.local_port as int,
        ) {
            a_segment_closes_one_connection_at_most(
                step.before.tcp_listener@,
                arrival_of(step.frame),
                step.before.device.mac@,
                step.before.lease.address@,
                step.poll_before.now_tick,
            );
        }
        assert(event_view(event) == step_report(step));
        assert(event_view(before) == poll_report(steps, m));
    }
}

/// A frame is answered for what it is: a question for the hardware address, one for an echo, or a segment
/// for the listener; any other passes.
pub proof fn a_frame_is_answered_for_what_it_is(
    frame: Seq<u8>,
    mac: Seq<u8>,
    address: Seq<u8>,
    listener: ListenerState,
    tick: u64,
)
    ensures
        ({
            let what = handling(frame, mac, address, listener, tick);
            let asks = arp_question(frame, address);
            let echo = echo_question(frame, mac, address);
            let segment = segment_for(frame, mac, address, listener.local_port as int);
            &&& asks ==> what is Arp
            &&& !asks && echo ==> what is Echo
            &&& !asks && !echo && segment ==> (what matches Handling::Tcp(due) && due == reaction(
                listener,
                arrival_of(frame),
                mac,
                address,
                tick,
            ) && listener_after(listener, what) == due.state)
            &&& !asks && !echo && !segment ==> what is Ignore
            &&& !(what is Tcp) ==> listener_after(listener, what) == listener
        }),
{
}

/// Of several events a poll reports that a request was served, and else the first one.
pub proof fn a_served_request_is_reported_first(
    current: Option<TcpServerEvent>,
    next: Option<TcpServerEvent>,
)
    ensures
        current is None ==> preferred(current, next) == next,
        next is None ==> preferred(current, next) == current,
        next matches Some(event) && event.kind == TcpServerEventKind::Served ==> preferred(current, next)
            == next,
        current is Some && (next matches Some(event) && event.kind == TcpServerEventKind::Accepted)
            ==> preferred(current, next) == current,
{
}

} // verus!
