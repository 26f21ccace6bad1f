//! ICMP echo: asking whether a station is there, and answering.

use vstd::prelude::*;
use crate::bytes::{
    be16, bytes_equal, copy_into, get_be_u16, lemma_numbers_agree, put_be_u16, splice, zero_between,
};
use crate::network::checksum::{checksum_of, internet_checksum, stored_checksum_verifies};
use crate::network::frame::{
    check_ipv4, ethernet_header, holds, ipv4_end, ipv4_header, ipv4_payload, put_ethernet_header,
    put_ipv4_header, sound_ipv4, NetworkError, ETHERTYPE_IPV4, IP_PROTOCOL_ICMP, MAX_ETHERNET_FRAME,
    MIN_ETHERNET_FRAME,
};

verus! {

pub const ICMP_ECHO_IDENTIFIER: u16 = 0x4344;

pub const ICMP_ECHO_SEQUENCE: u16 = 1;

/// `"codexOS-net-echo"`.
pub const ICMP_ECHO_PAYLOAD: [u8; 16] = [
    0x63, 0x6f, 0x64, 0x65, 0x78, 0x4f, 0x53, 0x2d, 0x6e, 0x65, 0x74, 0x2d, 0x65, 0x63, 0x68, 0x6f,
];

/// `s` with the checksum field of an ICMP message cleared.
pub open spec fn without_message_checksum(s: Seq<u8>) -> Seq<u8> {
    splice(s, 2, seq![0u8, 0u8])
}

/// `frame` is the system's echo request.
pub open spec fn echo_request(
    frame: Seq<u8>,
    mac: Seq<u8>,
    destination_mac: Seq<u8>,
    address: Seq<u8>,
    destination: Seq<u8>,
) -> bool {
    &&& frame.len() == MIN_ETHERNET_FRAME
    &&& ethernet_header(frame, destination_mac, mac, ETHERTYPE_IPV4 as int)
    &&& ipv4_header(
        frame,
        44,
        ICMP_ECHO_IDENTIFIER as int,
        IP_PROTOCOL_ICMP as int,
        address,
        destination,
    )
    &&& frame[34] == 8
    &&& frame[35] == 0
    &&& be16(frame, 36) == checksum_of(without_message_checksum(frame.subrange(34, 58)))
    &&& be16(frame, 38) == ICMP_ECHO_IDENTIFIER
    &&& be16(frame, 40) == ICMP_ECHO_SEQUENCE
    &&& frame.subrange(42, 58) == ICMP_ECHO_PAYLOAD@
    &&& zero_between(frame, 58, 60)
}

/// `frame` holds a sound ICMP message of this type.
pub open spec fn sound_message(frame: Seq<u8>, kind: int) -> bool {
    let start = ipv4_payload(frame);
    &&& sound_ipv4(frame, IP_PROTOCOL_ICMP as int, 8)
    &&& checksum_of(frame.subrange(start, ipv4_end(frame))) == 0
    &&& frame[start] == kind
    &&& frame[start + 1] == 0
}

/// `frame` is the answer to the system's echo request.
pub open spec fn echo_answer(
    frame: Seq<u8>,
    expected_mac: Seq<u8>,
    address: Seq<u8>,
    expected_sender: Seq<u8>,
) -> bool {
    let start = ipv4_payload(frame);
    &&& sound_message(frame, 0)
    &&& frame.len() >= 42
    &&& frame.subrange(6, 12) == expected_mac
    &&& frame.subrange(26, 30) == expected_sender
    &&& frame.subrange(30, 34) == address
    &&& be16(frame, start + 4) == ICMP_ECHO_IDENTIFIER
    &&& be16(frame, start + 6) == ICMP_ECHO_SEQUENCE
    &&& frame.subrange(start + 8, ipv4_end(frame)) == ICMP_ECHO_PAYLOAD@
}

/// `frame` asks the local station for an echo.
pub open spec fn echo_question(frame: Seq<u8>, local_mac: Seq<u8>, local_address: Seq<u8>) -> bool {
    &&& sound_message(frame, 8)
    &&& 42 <= frame.len() <= MAX_ETHERNET_FRAME
    &&& frame.subrange(0, 6) == local_mac
    &&& frame.subrange(30, 34) == local_address
}

/// `reply` sends the echo of `frame` back: everything as asked, but with the stations and the
/// addresses exchanged, a fresh time to live, the type of an answer and the checksums of these.
pub open spec fn echo_of(frame: Seq<u8>, reply: Seq<u8>, length: int, local_mac: Seq<u8>) -> bool {
    let start = ipv4_payload(frame);
    let end = ipv4_end(frame);
    &&& reply.len() == MAX_ETHERNET_FRAME
    &&& length == if frame.len() < MIN_ETHERNET_FRAME {
        MIN_ETHERNET_FRAME as int
    } else {
        frame.len() as int
    }
    &&& reply.subrange(0, 6) == frame.subrange(6, 12)
    &&& reply.subrange(6, 12) == local_mac
    &&& reply.subrange(26, 30) == frame.subrange(30, 34)
    &&& reply.subrange(30, 34) == frame.subrange(26, 30)
    &&& reply[22] == 64
    &&& be16(reply, 24) == checksum_of(splice(reply.subrange(14, start), 10, seq![0u8, 0u8]))
    &&& reply[start] == 0
    &&& be16(reply, start + 2) == checksum_of(without_message_checksum(reply.subrange(start, end)))
    &&& forall|i: int|
        12 <= i < frame.len() && i != 22 && !(24 <= i < 34) && i != start && !(start + 2 <= i < start
            + 4) ==> #[trigger] reply[i] == frame[i]
    &&& zero_between(reply, frame.len() as int, MAX_ETHERNET_FRAME as int)
}

/// The system's echo request.
pub fn build_echo_request(
    mac: [u8; 6],
    destination_mac: [u8; 6],
    address: [u8; 4],
    destination: [u8; 4],
) -> (frame: [u8; MIN_ETHERNET_FRAME])
    ensures
        echo_request(frame@, mac@, destination_mac@, address@, destination@),
        checksum_of(frame@.subrange(14, 34)) == 0,
        checksum_of(frame@.subrange(34, 58)) == 0,
{
    let mut frame: [u8; MIN_ETHERNET_FRAME] = [0u8; MIN_ETHERNET_FRAME];
    put_ethernet_header(&mut frame, &destination_mac, &mac, ETHERTYPE_IPV4);
    let ghost addressed = frame@;
    put_ipv4_header(&mut frame, 44, ICMP_ECHO_IDENTIFIER, IP_PROTOCOL_ICMP, &address, &destination);
    let ghost headed = frame@;
    frame[34] = 8;
    put_be_u16(&mut frame, 38, ICMP_ECHO_IDENTIFIER);
    put_be_u16(&mut frame, 40, ICMP_ECHO_SEQUENCE);
    copy_into(&mut frame, 42, &ICMP_ECHO_PAYLOAD);
    let ghost plain = frame@;
    let checksum: u16 = internet_checksum(&frame[34..58]);
    put_be_u16(&mut frame, 36, checksum);
    proof {
        let before = plain.subrange(34, 58);
        let after = frame@.subrange(34, 58);
        assert(plain[36] == 0 && plain[37] == 0);
        assert(be16(before, 2) == be16(plain, 36));
        assert(be16(after, 2) == be16(frame@, 36));
        assert(without_message_checksum(after) =~= before);
        stored_checksum_verifies(before, after, 2);
        assert(frame@.subrange(0, 6) =~= addressed.subrange(0, 6));
        assert(frame@.subrange(6, 12) =~= addressed.subrange(6, 12));
        assert(frame@.subrange(14, 34) =~= headed.subrange(14, 34));
        assert(frame@.subrange(26, 30) =~= headed.subrange(26, 30));
        assert(frame@.subrange(30, 34) =~= headed.subrange(30, 34));
        assert(frame@.subrange(42, 58) =~= ICMP_ECHO_PAYLOAD@);
    }
    frame
}

/// Where the ICMP message of this type starts and ends, if it is sound.
fn check_message(frame: &[u8], kind: u8) -> (message: Option<(usize, usize)>)
    ensures
        match message {
            Some((start, end)) => sound_message(frame@, kind as int) && start == ipv4_payload(frame@)
                && end == ipv4_end(frame@) && 34 <= start && start + 8 <= end <= frame@.len(),
            None => !sound_message(frame@, kind as int),
        },
{
    match check_ipv4(frame, IP_PROTOCOL_ICMP, 8) {
        None => None,
        Some((start, end)) => if internet_checksum(&frame[start..end]) != 0 || frame[start] != kind
            || frame[start + 1] != 0 {
            None
        } else {
            Some((start, end))
        },
    }
}

/// Accepts the answer to the system's echo request.
pub fn parse_echo_reply(
    frame: &[u8],
    expected_mac: [u8; 6],
    address: [u8; 4],
    expected_sender: [u8; 4],
) -> (result: Result<(), NetworkError>)
    ensures
        match result {
            Ok(_) => echo_answer(frame@, expected_mac@, address@, expected_sender@),
            Err(error) => error == NetworkError::PacketMalformed && !echo_answer(
                frame@,
                expected_mac@,
                address@,
                expected_sender@,
            ),
        },
{
    let (start, end) = match check_message(frame, 0) {
        Some(message) => message,
        None => return Err(NetworkError::PacketMalformed),
    };
    if !holds(frame, 6, &expected_mac) || !holds(frame, 26, &expected_sender) || !holds(
        frame,
        30,
        &address,
    ) {
        return Err(NetworkError::PacketMalformed);
    }
    if get_be_u16(frame, start + 4) != ICMP_ECHO_IDENTIFIER || get_be_u16(frame, start + 6)
        != ICMP_ECHO_SEQUENCE || !bytes_equal(&frame[start + 8..end], &ICMP_ECHO_PAYLOAD) {
        return Err(NetworkError::PacketMalformed);
    }
    Ok(())
}

/// Answers an echo request for the local station.
#[verifier::spinoff_prover]
#[verifier::rlimit(40)]
pub fn build_echo_reply(frame: &[u8], local_mac: [u8; 6], local_address: [u8; 4]) -> (reply: Option<
    ([u8; MAX_ETHERNET_FRAME], usize),
>)
    ensures
        match reply {
            Some((reply, length)) => echo_question(frame@, local_mac@, local_address@) && echo_of(
                frame@,
                reply@,
                length as int,
                local_mac@,
            ),
            None => !echo_question(frame@, local_mac@, local_address@),
        },
{
    if frame.len() < 42 || frame.len() > MAX_ETHERNET_FRAME || !holds(frame, 0, &local_mac) || !holds(
        frame,
        30,
        &local_address,
    ) {
        return None;
    }
    let (start, end) = match check_message(frame, 8) {
        Some(message) => message,
        None => return None,
    };
    let length: usize = if frame.len() < MIN_ETHERNET_FRAME {
        MIN_ETHERNET_FRAME
    } else {
        frame.len()
    };
    let mut reply: [u8; MAX_ETHERNET_FRAME] = [0u8; MAX_ETHERNET_FRAME];
    copy_into(&mut reply, 0, frame);
    copy_into(&mut reply, 0, &frame[6..12]);
    copy_into(&mut reply, 6, &local_mac);
    copy_into(&mut reply, 26, &frame[30..34]);
    copy_into(&mut reply, 30, &frame[26..30]);
    reply[22] = 64;
    put_be_u16(&mut reply, 24, 0);
    let ghost r1 = reply@;
    let ip_checksum: u16 = internet_checksum(&reply[14..start]);
    put_be_u16(&mut reply, 24, ip_checksum);
    let ghost r2 = reply@;
    reply[start] = 0;
    put_be_u16(&mut reply, start + 2, 0);
    let ghost r3 = reply@;
    let message_checksum: u16 = internet_checksum(&reply[start..end]);
    put_be_u16(&mut reply, start + 2, message_checksum);
    proof {
        assert(r1[24] == 0 && r1[25] == 0);
        assert(splice(reply@.subrange(14, start as int), 10, seq![0u8, 0u8]) =~= r1.subrange(
            14,
            start as int,
        ));
        assert(r3[start + 2] == 0 && r3[start + 3] == 0);
        assert(without_message_checksum(reply@.subrange(start as int, end as int)) =~= r3.subrange(
            start as int,
            end as int,
        ));
        assert(reply@.subrange(0, 6) =~= frame@.subrange(6, 12));
        assert(reply@.subrange(6, 12) =~= local_mac@);
        assert(reply@.subrange(26, 30) =~= frame@.subrange(30, 34));
        assert(reply@.subrange(30, 34) =~= frame@.subrange(26, 30));
        lemma_numbers_agree(r2, reply@, 24, 2);
    }
    Some((reply, length))
}

/// The echo of a request is sound, and who sent the system's own request accepts it.
pub proof fn an_echo_is_accepted(
    request: Seq<u8>,
    asker_mac: Seq<u8>,
    asker: Seq<u8>,
    local_mac: Seq<u8>,
    local_address: Seq<u8>,
    reply: Seq<u8>,
    length: int,
)
    requires
        echo_request(request, asker_mac, local_mac, asker, local_address),
        echo_question(request, local_mac, local_address),
        echo_of(request, reply, length, local_mac),
    ensures
        echo_answer(reply.take(length), local_mac, asker, local_address),
{
    let frame = reply.take(length);
    assert(ipv4_payload(request) == 34 && ipv4_end(request) == 58);
    assert(reply[14] == request[14] && reply[16] == request[16] && reply[17] == request[17]);
    assert(reply[12] == request[12] && reply[13] == request[13]);
    assert(reply[20] == request[20] && reply[21] == request[21] && reply[23] == request[23]);
    let header = frame.subrange(14, 34);
    assert(header =~= reply.subrange(14, 34));
    let plain_header = splice(header, 10, seq![0u8, 0u8]);
    assert(be16(header, 10) == be16(reply, 24));
    assert(be16(plain_header, 10) == 0);
    stored_checksum_verifies(plain_header, header, 10);
    let body = frame.subrange(34, 58);
    assert(body =~= reply.subrange(34, 58));
    let plain_message = without_message_checksum(body);
    assert(be16(body, 2) == be16(reply, 36));
    assert(be16(plain_message, 2) == 0);
    stored_checksum_verifies(plain_message, body, 2);
    assert(frame.subrange(6, 12) =~= reply.subrange(6, 12));
    assert(frame.subrange(26, 30) =~= reply.subrange(26, 30));
    assert(frame.subrange(30, 34) =~= reply.subrange(30, 34));
    assert(reply[35] == request[35]);
    assert(reply[38] == request[38] && reply[39] == request[39]);
    assert(reply[40] == request[40] && reply[41] == request[41]);
    assert(frame.subrange(42, 58) =~= request.subrange(42, 58));
}

/// The system's own echo request is a request that a station answers.
pub proof fn a_request_is_answered(
    request: Seq<u8>,
    asker_mac: Seq<u8>,
    asker: Seq<u8>,
    local_mac: Seq<u8>,
    local_address: Seq<u8>,
)
    requires
        echo_request(request, asker_mac, local_mac, asker, local_address),
    ensures
        echo_question(request, local_mac, local_address),
{
    let header = request.subrange(14, 34);
    let plain_header = splice(header, 10, seq![0u8, 0u8]);
    assert(be16(header, 10) == be16(request, 24));
    assert(be16(plain_header, 10) == 0);
    stored_checksum_verifies(plain_header, header, 10);
    let body = request.subrange(34, 58);
    let plain_message = without_message_checksum(body);
    assert(be16(body, 2) == be16(request, 36));
    assert(be16(plain_message, 2) == 0);
    stored_checksum_verifies(plain_message, body, 2);
    assert(ipv4_payload(request) == 34 && ipv4_end(request) == 58);
}

} // verus!
