//! TCP segments in Ethernet frames.

use vstd::prelude::*;
use crate::bytes::{
    array_at, be16, be32, copy_into, get_be_u16, get_be_u32, put_be_u16, put_be_u32, splice,
    zero_between,
};
use crate::network::checksum::{
    ipv4_transport_checksum, stored_checksum_verifies, stored_transport_checksum,
    stored_transport_checksum_verifies, transport_checksum_of,
};
use crate::network::frame::{
    check_ipv4, ethernet_header, holds, ipv4_end, ipv4_header, ipv4_payload, put_ethernet_header,
    put_ipv4_header, query_packet_id, sound_ipv4, NetworkError, ETHERTYPE_IPV4, IP_PROTOCOL_TCP,
    MAX_ETHERNET_FRAME, MIN_ETHERNET_FRAME,
};
use crate::network::udp::wire_length;

verus! {

pub const TCP_HEADER_BYTES: usize = 20;

pub const TCP_FLAG_FIN: u16 = 0x01;

pub const TCP_FLAG_SYN: u16 = 0x02;

pub const TCP_FLAG_RST: u16 = 0x04;

pub const TCP_FLAG_PSH: u16 = 0x08;

pub const TCP_FLAG_ACK: u16 = 0x10;

/// What a TCP segment says, and where in its frame its payload is.
#[derive(Debug, Clone, Copy, PartialEq, Eq, Structural)]
pub struct TcpSegment {
    pub sequence: u32,
    pub acknowledgement: u32,
    pub flags: u16,
    pub payload_offset: usize,
    pub payload_len: usize,
}

/// A segment that is to be sent.
#[derive(Clone, Copy)]
pub struct TcpFrameRequest<'a> {
    pub source_mac: [u8; 6],
    pub destination_mac: [u8; 6],
    pub source_address: [u8; 4],
    pub destination_address: [u8; 4],
    pub source_port: u16,
    pub destination_port: u16,
    pub sequence: u32,
    pub acknowledgement: u32,
    pub flags: u16,
    pub payload: &'a [u8],
}

/// A segment that came in, and from where.
#[derive(Clone, Copy)]
pub struct IncomingTcpSegment {
    pub remote_mac: [u8; 6],
    pub remote_address: [u8; 4],
    pub remote_port: u16,
    pub segment: TcpSegment,
}

/// What a frame that carries a TCP segment says.
#[verifier::ext_equal]
pub ghost struct TcpFrame {
    pub source_mac: Seq<u8>,
    pub destination_mac: Seq<u8>,
    pub source_address: Seq<u8>,
    pub destination_address: Seq<u8>,
    pub source_port: u16,
    pub destination_port: u16,
    pub sequence: u32,
    pub acknowledgement: u32,
    pub flags: u16,
    pub payload: Seq<u8>,
}

impl View for TcpFrameRequest<'_> {
    type V = TcpFrame;

    open spec fn view(&self) -> TcpFrame {
        TcpFrame {
            source_mac: self.source_mac@,
            destination_mac: self.destination_mac@,
            source_address: self.source_address@,
            destination_address: self.destination_address@,
            source_port: self.source_port,
            destination_port: self.destination_port,
            sequence: self.sequence,
            acknowledgement: self.acknowledgement,
            flags: self.flags,
            payload: self.payload@,
        }
    }
}

/// `frame` carries the segment that `request` asks for.
pub open spec fn tcp_frame(frame: Seq<u8>, request: TcpFrame) -> bool {
    let end = 54int + request.payload.len();
    &&& frame.len() == MAX_ETHERNET_FRAME
    &&& end <= frame.len()
    &&& ethernet_header(frame, request.destination_mac, request.source_mac, ETHERTYPE_IPV4 as int)
    &&& ipv4_header(
        frame,
        40int + request.payload.len(),
        (request.source_port ^ request.destination_port) as int,
        IP_PROTOCOL_TCP as int,
        request.source_address,
        request.destination_address,
    )
    &&& be16(frame, 34) == request.source_port
    &&& be16(frame, 36) == request.destination_port
    &&& be32(frame, 38) == request.sequence
    &&& be32(frame, 42) == request.acknowledgement
    &&& frame[46] == 0x50
    &&& frame[47] == request.flags % 64
    &&& be16(frame, 48) == 0x4000
    &&& be16(frame, 50) == stored_transport_checksum(
        transport_checksum_of(
            request.source_address,
            request.destination_address,
            IP_PROTOCOL_TCP as int,
            splice(frame.subrange(34, end as int), 16, seq![0u8, 0u8]),
        ),
    )
    &&& be16(frame, 52) == 0
    &&& frame.subrange(54, end as int) == request.payload
    &&& zero_between(frame, end as int, MAX_ETHERNET_FRAME as int)
}

/// How many bytes the TCP header of `frame` takes.
pub open spec fn tcp_header_length(frame: Seq<u8>) -> int {
    frame[ipv4_payload(frame) + 12] as int / 16 * 4
}

/// Whether `frame` holds a sound TCP segment.
pub open spec fn sound_tcp(frame: Seq<u8>) -> bool {
    let tcp = ipv4_payload(frame);
    let end = ipv4_end(frame);
    &&& sound_ipv4(frame, IP_PROTOCOL_TCP as int, 20)
    &&& 20 <= tcp_header_length(frame) <= end - tcp
    &&& transport_checksum_of(
        frame.subrange(26, 30),
        frame.subrange(30, 34),
        IP_PROTOCOL_TCP as int,
        frame.subrange(tcp, end),
    ) == 0
}

/// The port that the segment of `frame` comes from.
pub open spec fn tcp_source_port(frame: Seq<u8>) -> int {
    be16(frame, ipv4_payload(frame))
}

/// The port that the segment of `frame` goes to.
pub open spec fn tcp_destination_port(frame: Seq<u8>) -> int {
    be16(frame, ipv4_payload(frame) + 2)
}

/// The segment of a sound `frame`.
pub open spec fn segment_of(frame: Seq<u8>) -> TcpSegment {
    let tcp = ipv4_payload(frame);
    let start = tcp + tcp_header_length(frame);
    TcpSegment {
        sequence: be32(frame, tcp + 4) as u32,
        acknowledgement: be32(frame, tcp + 8) as u32,
        flags: frame[tcp + 13] as u16,
        payload_offset: start as usize,
        payload_len: (ipv4_end(frame) - start) as usize,
    }
}

/// `frame` is a sound segment from the expected peer.
pub open spec fn segment_from(
    frame: Seq<u8>,
    expected_mac: Seq<u8>,
    address: Seq<u8>,
    remote: Seq<u8>,
    local_port: int,
    remote_port: int,
) -> bool {
    &&& sound_tcp(frame)
    &&& frame.subrange(6, 12) == expected_mac
    &&& frame.subrange(26, 30) == remote
    &&& frame.subrange(30, 34) == address
    &&& tcp_source_port(frame) == remote_port
    &&& tcp_destination_port(frame) == local_port
}

/// `frame` is a sound segment for the local listener.
pub open spec fn segment_for(
    frame: Seq<u8>,
    local_mac: Seq<u8>,
    local_address: Seq<u8>,
    local_port: int,
) -> bool {
    &&& sound_tcp(frame)
    &&& frame.subrange(0, 6) == local_mac
    &&& frame.subrange(30, 34) == local_address
    &&& tcp_destination_port(frame) == local_port
}

/// The frame that carries a segment, and how long it is on the wire.
#[verifier::spinoff_prover]
#[verifier::rlimit(60)]
pub fn build_tcp_ipv4_frame(request: TcpFrameRequest<'_>) -> (result: Result<
    ([u8; MAX_ETHERNET_FRAME], usize),
    NetworkError,
>)
    ensures
        match result {
            Ok((frame, length)) => tcp_frame(frame@, request@) && length == wire_length(
                54int + request.payload@.len(),
            ),
            Err(error) => error == NetworkError::FrameTooLarge && 54int + request.payload@.len()
                > MAX_ETHERNET_FRAME,
        },
{
    if request.payload.len() > MAX_ETHERNET_FRAME - 54 {
        return Err(NetworkError::FrameTooLarge);
    }
    let tcp_length: usize = TCP_HEADER_BYTES + request.payload.len();
    let end: usize = 34 + tcp_length;
    let mut frame: [u8; MAX_ETHERNET_FRAME] = [0u8; MAX_ETHERNET_FRAME];
    put_ethernet_header(
        &mut frame,
        &request.destination_mac,
        &request.source_mac,
        ETHERTYPE_IPV4,
    );
    let ghost addressed = frame@;
    put_ipv4_header(
        &mut frame,
        (20 + tcp_length) as u16,
        query_packet_id(request.source_port, request.destination_port),
        IP_PROTOCOL_TCP,
        &request.source_address,
        &request.destination_address,
    );
    let ghost headed = frame@;
    put_be_u16(&mut frame, 34, request.source_port);
    put_be_u16(&mut frame, 36, request.destination_port);
    put_be_u32(&mut frame, 38, request.sequence);
    put_be_u32(&mut frame, 42, request.acknowledgement);
    frame[46] = 0x50;
    frame[47] = (request.flags % 64) as u8;
    put_be_u16(&mut frame, 48, 0x4000);
    copy_into(&mut frame, 54, request.payload);
    let ghost plain = frame@;
    let checksum: u16 = ipv4_transport_checksum(
        request.source_address,
        request.destination_address,
        IP_PROTOCOL_TCP,
        &frame[34..end],
    );
    put_be_u16(
        &mut frame,
        50,
        if checksum == 0 {
            0xffff
        } else {
            checksum
        },
    );
    proof {
        assert(plain[50] == 0 && plain[51] == 0);
        assert(splice(frame@.subrange(34, end as int), 16, seq![0u8, 0u8]) =~= plain.subrange(
            34,
            end as int,
        ));
        assert(frame@.subrange(0, 6) =~= addressed.subrange(0, 6));
        assert(frame@.subrange(6, 12) =~= addressed.subrange(6, 12));
        assert(frame@.subrange(14, 34) =~= headed.subrange(14, 34));
        assert(frame@.subrange(26, 30) =~= headed.subrange(26, 30));
        assert(frame@.subrange(30, 34) =~= headed.subrange(30, 34));
        assert(frame@.subrange(54, end as int) =~= request.payload@);
    }
    Ok(
        (
            frame,
            if end < MIN_ETHERNET_FRAME {
                MIN_ETHERNET_FRAME
            } else {
                end
            },
        ),
    )
}

/// The segment of a sound frame.
fn check_tcp(frame: &[u8]) -> (result: Option<(usize, TcpSegment)>)
    ensures
        match result {
            Some((tcp, segment)) => {
                &&& sound_tcp(frame@)
                &&& segment == segment_of(frame@)
                &&& tcp == ipv4_payload(frame@)
                &&& tcp + 20 <= frame@.len()
                &&& segment.payload_offset + segment.payload_len <= frame@.len()
            },
            None => !sound_tcp(frame@),
        },
{
    let (tcp, end) = match check_ipv4(frame, IP_PROTOCOL_TCP, TCP_HEADER_BYTES) {
        Some(payload) => payload,
        None => return None,
    };
    let tcp_length: usize = end - tcp;
    let data_offset: usize = (frame[tcp + 12] / 16) as usize * 4;
    if data_offset < 20 || data_offset > tcp_length {
        return None;
    }
    let source: [u8; 4] = array_at(frame, 26);
    let destination: [u8; 4] = array_at(frame, 30);
    if ipv4_transport_checksum(source, destination, IP_PROTOCOL_TCP, &frame[tcp..end]) != 0 {
        return None;
    }
    Some(
        (
            tcp,
            TcpSegment {
                sequence: get_be_u32(frame, tcp + 4),
                acknowledgement: get_be_u32(frame, tcp + 8),
                flags: frame[tcp + 13] as u16,
                payload_offset: tcp + data_offset,
                payload_len: tcp_length - data_offset,
            },
        ),
    )
}

/// Accepts a segment from the expected peer.
pub fn parse_tcp_segment(
    frame: &[u8],
    expected_mac: [u8; 6],
    address: [u8; 4],
    remote: [u8; 4],
    local_port: u16,
    remote_port: u16,
) -> (result: Result<TcpSegment, NetworkError>)
    ensures
        match result {
            Ok(segment) => segment_from(
                frame@,
                expected_mac@,
                address@,
                remote@,
                local_port as int,
                remote_port as int,
            ) && segment == segment_of(frame@) && segment.payload_offset + segment.payload_len
                <= frame@.len(),
            Err(error) => error == NetworkError::PacketMalformed && !segment_from(
                frame@,
                expected_mac@,
                address@,
                remote@,
                local_port as int,
                remote_port as int,
            ),
        },
{
    let (tcp, segment) = match check_tcp(frame) {
        Some(found) => found,
        None => return Err(NetworkError::PacketMalformed),
    };
    if !holds(frame, 6, &expected_mac) || !holds(frame, 26, &remote) || !holds(frame, 30, &address)
        || get_be_u16(frame, tcp) != remote_port || get_be_u16(frame, tcp + 2) != local_port {
        return Err(NetworkError::PacketMalformed);
    }
    Ok(segment)
}

/// Accepts a segment for the local listener.
pub fn parse_tcp_listener_segment(
    frame: &[u8],
    local_mac: [u8; 6],
    local_address: [u8; 4],
    local_port: u16,
) -> (result: Result<IncomingTcpSegment, NetworkError>)
    ensures
        match result {
            Ok(incoming) => {
                &&& segment_for(frame@, local_mac@, local_address@, local_port as int)
                &&& incoming.remote_mac@ == frame@.subrange(6, 12)
                &&& incoming.remote_address@ == frame@.subrange(26, 30)
                &&& incoming.remote_port == tcp_source_port(frame@)
                &&& incoming.segment == segment_of(frame@)
                &&& incoming.segment.payload_offset + incoming.segment.payload_len <= frame@.len()
            },
            Err(error) => error == NetworkError::PacketMalformed && !segment_for(
                frame@,
                local_mac@,
                local_address@,
                local_port as int,
            ),
        },
{
    let (tcp, segment) = match check_tcp(frame) {
        Some(found) => found,
        None => return Err(NetworkError::PacketMalformed),
    };
    if !holds(frame, 0, &local_mac) || !holds(frame, 30, &local_address) || get_be_u16(
        frame,
        tcp + 2,
    ) != local_port {
        return Err(NetworkError::PacketMalformed);
    }
    Ok(
        IncomingTcpSegment {
            remote_mac: array_at(frame, 6),
            remote_address: array_at(frame, 26),
            remote_port: get_be_u16(frame, tcp),
            segment,
        },
    )
}

/// A segment that was built is sound, and says what was asked for.
pub proof fn a_built_segment_is_sound(frame: Seq<u8>, request: TcpFrame)
    requires
        tcp_frame(frame, request),
    ensures
        ({
            let sent = frame.take(wire_length(54int + request.payload.len()));
            &&& sound_tcp(sent)
            &&& segment_of(sent) == TcpSegment {
                sequence: request.sequence,
                acknowledgement: request.acknowledgement,
                flags: (request.flags % 64) as u16,
                payload_offset: 54,
                payload_len: request.payload.len() as usize,
            }
            &&& sent.subrange(54, 54int + request.payload.len()) == request.payload
            &&& sent.subrange(0, 6) == request.destination_mac
            &&& sent.subrange(6, 12) == request.source_mac
            &&& sent.subrange(26, 30) == request.source_address
            &&& sent.subrange(30, 34) == request.destination_address
            &&& tcp_source_port(sent) == request.source_port
            &&& tcp_destination_port(sent) == request.destination_port
        }),
{
    let end = 54int + request.payload.len();
    let sent = frame.take(wire_length(end as int));
    let header = sent.subrange(14, 34);
    assert(header =~= frame.subrange(14, 34));
    let plain_header = splice(header, 10, seq![0u8, 0u8]);
    assert(be16(header, 10) == be16(frame, 24));
    assert(be16(plain_header, 10) == 0);
    stored_checksum_verifies(plain_header, header, 10);
    let segment = sent.subrange(34, end as int);
    assert(segment =~= frame.subrange(34, end as int));
    let plain_segment = splice(segment, 16, seq![0u8, 0u8]);
    assert(be16(segment, 16) == be16(frame, 50));
    assert(be16(plain_segment, 16) == 0);
    stored_transport_checksum_verifies(
        request.source_address,
        request.destination_address,
        IP_PROTOCOL_TCP,
        plain_segment,
        segment,
        16,
    );
    assert(sent.subrange(26, 30) =~= frame.subrange(26, 30));
    assert(sent.subrange(30, 34) =~= frame.subrange(30, 34));
    assert(sent.subrange(0, 6) =~= frame.subrange(0, 6));
    assert(sent.subrange(6, 12) =~= frame.subrange(6, 12));
    assert(sent.subrange(54, end as int) =~= frame.subrange(54, end as int));
}

} // verus!
