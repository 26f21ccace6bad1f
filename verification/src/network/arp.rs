//! ARP: which hardware address an IPv4 address has.

use vstd::prelude::*;
use crate::bytes::{array_at, be16, copy_into, get_be_u16, put_be_u16, zero_between};
use crate::network::frame::{
    ethernet_header, holds, is_unicast, put_ethernet_header, unicast, NetworkError, ETHERTYPE_ARP,
    ETHERTYPE_IPV4, MIN_ETHERNET_FRAME,
};

verus! {

/// `frame` asks or answers (`operation`) for IPv4 over Ethernet.
pub open spec fn arp_packet(frame: Seq<u8>, operation: int) -> bool {
    &&& frame.len() >= 42
    &&& be16(frame, 12) == ETHERTYPE_ARP
    &&& be16(frame, 14) == 1
    &&& be16(frame, 16) == ETHERTYPE_IPV4
    &&& frame[18] == 6
    &&& frame[19] == 4
    &&& be16(frame, 20) == operation
}

/// `frame` is an ARP frame with these fields and nothing behind them.
pub open spec fn arp_frame(
    frame: Seq<u8>,
    destination: Seq<u8>,
    operation: int,
    sender_mac: Seq<u8>,
    sender: Seq<u8>,
    target_mac: Seq<u8>,
    target: Seq<u8>,
) -> bool {
    &&& frame.len() == MIN_ETHERNET_FRAME
    &&& ethernet_header(frame, destination, sender_mac, ETHERTYPE_ARP as int)
    &&& arp_packet(frame, operation)
    &&& frame.subrange(22, 28) == sender_mac
    &&& frame.subrange(28, 32) == sender
    &&& frame.subrange(32, 38) == target_mac
    &&& frame.subrange(38, 42) == target
    &&& zero_between(frame, 42, 60)
}

/// `frame` answers `address` that `sender` is at the hardware address it gives.
pub open spec fn arp_answer(frame: Seq<u8>, address: Seq<u8>, sender: Seq<u8>) -> bool {
    &&& arp_packet(frame, 2)
    &&& frame.subrange(28, 32) == sender
    &&& frame.subrange(38, 42) == address
    &&& unicast(frame.subrange(22, 28))
}

/// `frame` asks for the hardware address of `address`, and its sender can be answered.
pub open spec fn arp_question(frame: Seq<u8>, address: Seq<u8>) -> bool {
    &&& arp_packet(frame, 1)
    &&& frame.subrange(6, 12) == frame.subrange(22, 28)
    &&& frame.subrange(38, 42) == address
    &&& unicast(frame.subrange(22, 28))
}

/// The hardware address of every station.
pub open spec fn broadcast_mac() -> Seq<u8> {
    Seq::new(6, |i: int| 0xffu8)
}

/// No hardware address.
pub open spec fn no_mac() -> Seq<u8> {
    Seq::new(6, |i: int| 0u8)
}

/// Whether `frame` asks or answers for IPv4 over Ethernet.
fn is_arp_packet(frame: &[u8], operation: u16) -> (result: bool)
    ensures
        result == arp_packet(frame@, operation as int),
{
    frame.len() >= 42 && get_be_u16(frame, 12) == ETHERTYPE_ARP && get_be_u16(frame, 14) == 1
        && get_be_u16(frame, 16) == ETHERTYPE_IPV4 && frame[18] == 6 && frame[19] == 4 && get_be_u16(
        frame,
        20,
    ) == operation
}

/// An ARP frame with these fields.
fn build_arp_frame(
    destination: &[u8; 6],
    operation: u16,
    sender_mac: &[u8; 6],
    sender: &[u8; 4],
    target_mac: &[u8; 6],
    target: &[u8; 4],
) -> (frame: [u8; MIN_ETHERNET_FRAME])
    ensures
        arp_frame(
            frame@,
            destination@,
            operation as int,
            sender_mac@,
            sender@,
            target_mac@,
            target@,
        ),
{
    let mut frame: [u8; MIN_ETHERNET_FRAME] = [0u8; MIN_ETHERNET_FRAME];
    put_ethernet_header(&mut frame, destination, sender_mac, ETHERTYPE_ARP);
    put_be_u16(&mut frame, 14, 1);
    put_be_u16(&mut frame, 16, ETHERTYPE_IPV4);
    frame[18] = 6;
    frame[19] = 4;
    put_be_u16(&mut frame, 20, operation);
    copy_into(&mut frame, 22, sender_mac);
    copy_into(&mut frame, 28, sender);
    copy_into(&mut frame, 32, target_mac);
    copy_into(&mut frame, 38, target);
    assert(frame@.subrange(0, 6) =~= destination@);
    assert(frame@.subrange(6, 12) =~= sender_mac@);
    assert(frame@.subrange(22, 28) =~= sender_mac@);
    assert(frame@.subrange(28, 32) =~= sender@);
    assert(frame@.subrange(32, 38) =~= target_mac@);
    assert(frame@.subrange(38, 42) =~= target@);
    frame
}

/// Asks every station for the hardware address of `target`.
pub fn build_arp_request(mac: [u8; 6], address: [u8; 4], target: [u8; 4]) -> (frame: [u8;
    MIN_ETHERNET_FRAME])
    ensures
        arp_frame(frame@, broadcast_mac(), 1, mac@, address@, no_mac(), target@),
{
    let everyone: [u8; 6] = [0xffu8; 6];
    let nobody: [u8; 6] = [0u8; 6];
    assert(everyone@ =~= broadcast_mac());
    assert(nobody@ =~= no_mac());
    build_arp_frame(&everyone, 1, &mac, &address, &nobody, &target)
}

/// The hardware address that `expected_sender` answers with.
pub fn parse_arp_reply(frame: &[u8], address: [u8; 4], expected_sender: [u8; 4]) -> (result: Result<
    [u8; 6],
    NetworkError,
>)
    ensures
        match result {
            Ok(mac) => arp_answer(frame@, address@, expected_sender@) && mac@ == frame@.subrange(
                22,
                28,
            ),
            Err(error) => error == NetworkError::PacketMalformed && !arp_answer(
                frame@,
                address@,
                expected_sender@,
            ),
        },
{
    if !is_arp_packet(frame, 2) || !holds(frame, 28, &expected_sender) || !holds(frame, 38, &address) {
        return Err(NetworkError::PacketMalformed);
    }
    let mac: [u8; 6] = array_at(frame, 22);
    if !is_unicast(&mac) {
        return Err(NetworkError::PacketMalformed);
    }
    Ok(mac)
}

/// Answers a question for the local address.
pub fn build_arp_reply(frame: &[u8], local_mac: [u8; 6], local_address: [u8; 4]) -> (reply: Option<
    [u8; MIN_ETHERNET_FRAME],
>)
    ensures
        match reply {
            Some(reply) => arp_question(frame@, local_address@) && arp_frame(
                reply@,
                frame@.subrange(22, 28),
                2,
                local_mac@,
                local_address@,
                frame@.subrange(22, 28),
                frame@.subrange(28, 32),
            ),
            None => !arp_question(frame@, local_address@),
        },
{
    if !is_arp_packet(frame, 1) || !holds(frame, 38, &local_address) {
        return None;
    }
    let sender_mac: [u8; 6] = array_at(frame, 22);
    if !holds(frame, 6, &sender_mac) || !is_unicast(&sender_mac) {
        return None;
    }
    let sender_address: [u8; 4] = array_at(frame, 28);
    Some(
        build_arp_frame(&sender_mac, 2, &local_mac, &local_address, &sender_mac, &sender_address),
    )
}

/// Who asks for the local address is answered with the local hardware address, and accepts that
/// answer.
pub proof fn a_question_is_answered(
    question: Seq<u8>,
    asker_mac: Seq<u8>,
    asker: Seq<u8>,
    local_mac: Seq<u8>,
    local_address: Seq<u8>,
    reply: Seq<u8>,
)
    requires
        arp_frame(question, broadcast_mac(), 1, asker_mac, asker, no_mac(), local_address),
        unicast(asker_mac),
        unicast(local_mac),
        arp_frame(
            reply,
            question.subrange(22, 28),
            2,
            local_mac,
            local_address,
            question.subrange(22, 28),
            question.subrange(28, 32),
        ),
    ensures
        arp_question(question, local_address),
        arp_answer(reply, asker, local_address),
        reply.subrange(22, 28) == local_mac,
{
}

} // verus!
