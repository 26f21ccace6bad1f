//! DNS: one question for the address of a name, and its answer.

use vstd::prelude::*;
use vstd::utf8::encode_utf8;
use crate::bytes::{append, array_at, be16, bytes_equal, copy_into, get_be_u16, put_be_u16, splice};
use crate::network::frame::{holds, ipv4_payload, NetworkError, MAX_ETHERNET_FRAME};
use crate::network::udp::{
    build_udp_ipv4_frame, check_udp, sound_udp, udp_end, udp_frame, wire_length,
};

verus! {

pub const DNS_SERVER_PORT: u16 = 53;

pub const DNS_CLIENT_PORT: u16 = 49152;

pub const DNS_QUERY_ID: u16 = 0x4344;

/// `"example.com"`.
pub const DNS_QUERY_NAME: [u8; 11] = [
    0x65, 0x78, 0x61, 0x6d, 0x70, 0x6c, 0x65, 0x2e, 0x63, 0x6f, 0x6d,
];

/// The byte `.`.
pub const DOT: u8 = 0x2e;

/// The name that the system asks for.
pub open spec fn query_name() -> Seq<u8> {
    DNS_QUERY_NAME@
}

/// Where the label of `name` that starts at `from` ends.
pub open spec fn label_end(name: Seq<u8>, from: int) -> int
    decreases name.len() - from,
{
    if from < 0 || from >= name.len() || name[from] == DOT {
        from
    } else {
        label_end(name, from + 1)
    }
}

pub proof fn lemma_label_end(name: Seq<u8>, from: int)
    requires
        0 <= from <= name.len(),
    ensures
        from <= label_end(name, from) <= name.len(),
        label_end(name, from) < name.len() ==> name[label_end(name, from)] == DOT,
    decreases name.len() - from,
{
    if from < name.len() && name[from] != DOT {
        lemma_label_end(name, from + 1);
    }
}

/// The labels of `name` from `from` on as a message at `cursor` holds them: each behind its length,
/// and a zero at the end. The message has room up to `limit`.
pub open spec fn encoded_name(name: Seq<u8>, from: int, cursor: int, limit: int) -> Result<
    Seq<u8>,
    NetworkError,
>
    decreases name.len() - from,
{
    let end = label_end(name, from);
    let label = name.subrange(from, end);
    if end <= from || end - from > 63 {
        Err(NetworkError::DnsRejected)
    } else if cursor + 1 + (end - from) >= limit {
        Err(NetworkError::FrameTooLarge)
    } else if end >= name.len() {
        Ok(seq![(end - from) as u8] + label + seq![0u8])
    } else {
        match encoded_name(name, end + 1, cursor + 1 + (end - from), limit) {
            Ok(rest) => Ok(seq![(end - from) as u8] + label + rest),
            Err(error) => Err(error),
        }
    }
}

/// Where the name at `cursor` ends, if it is the labels of `name` from `from` on.
pub open spec fn matched_name(dns: Seq<u8>, cursor: int, name: Seq<u8>, from: int) -> Result<
    int,
    NetworkError,
>
    decreases name.len() - from,
{
    let end = label_end(name, from);
    let next = cursor + 1 + (end - from);
    if cursor >= dns.len() {
        Err(NetworkError::PacketMalformed)
    } else if dns[cursor] != end - from {
        Err(NetworkError::DnsRejected)
    } else if next > dns.len() {
        Err(NetworkError::PacketMalformed)
    } else if dns.subrange(cursor + 1, next) != name.subrange(from, end) {
        Err(NetworkError::DnsRejected)
    } else if end < name.len() && end >= from {
        matched_name(dns, next, name, end + 1)
    } else if next >= dns.len() {
        Err(NetworkError::PacketMalformed)
    } else if dns[next] != 0 {
        Err(NetworkError::DnsRejected)
    } else {
        Ok(next + 1)
    }
}

/// Where the name at `cursor` ends, whatever it is.
pub open spec fn skipped_name(dns: Seq<u8>, cursor: int) -> Result<int, NetworkError>
    decreases dns.len() - cursor,
{
    if cursor >= dns.len() || cursor < 0 {
        Err(NetworkError::PacketMalformed)
    } else if dns[cursor] >= 0xc0 {
        if cursor + 1 >= dns.len() {
            Err(NetworkError::PacketMalformed)
        } else {
            Ok(cursor + 2)
        }
    } else if dns[cursor] >= 0x40 {
        Err(NetworkError::PacketMalformed)
    } else if dns[cursor] == 0 {
        Ok(cursor + 1)
    } else if cursor + 1 + dns[cursor] > dns.len() {
        Err(NetworkError::PacketMalformed)
    } else {
        skipped_name(dns, cursor + 1 + dns[cursor])
    }
}

/// Where the first of `count` records from `cursor` on that is an IPv4 address has its address.
pub open spec fn answer_at(dns: Seq<u8>, cursor: int, count: nat) -> Result<int, NetworkError>
    decreases count,
{
    if count == 0 {
        Err(NetworkError::DnsRejected)
    } else {
        match skipped_name(dns, cursor) {
            Err(error) => Err(error),
            Ok(record) => if record + 10 > dns.len() {
                Err(NetworkError::PacketMalformed)
            } else if record + 10 + be16(dns, record + 8) > dns.len() {
                Err(NetworkError::PacketMalformed)
            } else if be16(dns, record) == 1 && be16(dns, record + 2) == 1 && be16(dns, record + 8)
                == 4 {
                Ok(record + 10)
            } else {
                answer_at(dns, record + 10 + be16(dns, record + 8), (count - 1) as nat)
            },
        }
    }
}

/// Where the answer for `name` has its address.
pub open spec fn resolved_at(dns: Seq<u8>, query_id: int, name: Seq<u8>) -> Result<int, NetworkError> {
    if dns.len() < 12 || be16(dns, 0) != query_id || be16(dns, 2) < 0x8000 || be16(dns, 2) % 16 != 0
        || be16(dns, 4) != 1 {
        Err(NetworkError::DnsRejected)
    } else {
        match matched_name(dns, 12, name, 0) {
            Err(error) => Err(error),
            Ok(question) => if question + 2 > dns.len() {
                Err(NetworkError::PacketMalformed)
            } else if be16(dns, question) != 1 {
                Err(NetworkError::DnsRejected)
            } else if question + 4 > dns.len() {
                Err(NetworkError::PacketMalformed)
            } else if be16(dns, question + 2) != 1 {
                Err(NetworkError::DnsRejected)
            } else {
                answer_at(dns, question + 4, be16(dns, 6) as nat)
            },
        }
    }
}

/// The message that asks for the address of `name`.
pub open spec fn query_message(query_id: int, encoded: Seq<u8>) -> Seq<u8> {
    seq![
        (query_id / 0x100) as u8,
        (query_id % 0x100) as u8,
        1u8,
        0u8,
        0u8,
        1u8,
        0u8,
        0u8,
        0u8,
        0u8,
        0u8,
        0u8,
    ] + encoded + seq![0u8, 1u8, 0u8, 1u8]
}

/// Where the label of `name` that starts at `from` ends.
fn find_label_end(name: &[u8], from: usize) -> (end: usize)
    requires
        from <= name.len(),
    ensures
        end == label_end(name@, from as int),
        from <= end <= name.len(),
        end < name.len() ==> name@[end as int] == DOT,
{
    let mut end: usize = from;
    while end < name.len() && name[end] != DOT
        invariant
            from <= end <= name.len(),
            label_end(name@, from as int) == label_end(name@, end as int),
        decreases name.len() - end,
    {
        end += 1;
    }
    end
}

/// Writes a name at the cursor, label by label, and moves the cursor behind it.
pub fn write_dns_name(output: &mut [u8], cursor: &mut usize, name: &str) -> (result: Result<
    (),
    NetworkError,
>)
    ensures
        final(output)@.len() == old(output)@.len(),
        match encoded_name(encode_utf8(name@), 0, *old(cursor) as int, old(output)@.len() as int) {
            Ok(bytes) => {
                &&& result is Ok
                &&& *final(cursor) == *old(cursor) + bytes.len()
                &&& *final(cursor) <= old(output)@.len()
                &&& final(output)@ == splice(old(output)@, *old(cursor) as int, bytes)
            },
            Err(error) => {
                &&& result == Err::<(), NetworkError>(error)
                &&& *old(cursor) <= *final(cursor)
                &&& forall|i: int| 0 <= i < *old(cursor) ==> #[trigger] final(output)@[i] == old(output)@[i]
            },
        },
{
    let ghost start = *cursor as int;
    let ghost before = output@;
    let ghost text = encode_utf8(name@);
    let limit: usize = output.len();
    let bytes = name.as_bytes();
    let mut written: Vec<u8> = Vec::new();
    let mut from: usize = 0;
    assert(splice(before, start, written@) =~= before);
    loop
        invariant
            bytes@ == text,
            text == encode_utf8(name@),
            from <= bytes.len(),
            limit == before.len(),
            output@ == before,
            before == old(output)@,
            start == *old(cursor),
            start <= *cursor,
            start <= limit ==> *cursor <= limit,
            *cursor == start + written@.len(),
            match encoded_name(text, 0, start, limit as int) {
                Ok(all) => match encoded_name(text, from as int, *cursor as int, limit as int) {
                    Ok(rest) => all == written@ + rest,
                    Err(_) => false,
                },
                Err(error) => encoded_name(text, from as int, *cursor as int, limit as int) == Err::<
                    Seq<u8>,
                    NetworkError,
                >(error),
            },
        decreases bytes.len() - from,
    {
        let end: usize = find_label_end(bytes, from);
        let length: usize = end - from;
        if length == 0 || length > 63 {
            return Err(NetworkError::DnsRejected);
        }
        if *cursor > limit || limit - *cursor <= 1 + length {
            return Err(NetworkError::FrameTooLarge);
        }
        let ghost earlier = written@;
        written.push(length as u8);
        append(&mut written, &bytes[from..end]);
        *cursor = *cursor + 1 + length;
        if end >= bytes.len() {
            written.push(0);
            proof {
                assert(written@ =~= earlier + (seq![length as u8] + text.subrange(
                    from as int,
                    end as int,
                ) + seq![0u8]));
            }
            copy_into(output, *cursor + 1 - written.len(), &written);
            *cursor = *cursor + 1;
            return Ok(());
        }
        proof {
            let label = seq![length as u8] + text.subrange(from as int, end as int);
            assert(written@ =~= earlier + label);
            match encoded_name(text, end + 1, *cursor as int, limit as int) {
                Ok(rest) => {
                    assert(earlier + (label + rest) =~= written@ + rest);
                },
                Err(_) => {},
            }
        }
        from = end + 1;
    }
}

/// Where the name at `cursor` ends, if it is `name`.
pub fn dns_name_matches(dns: &[u8], cursor: usize, name: &str) -> (result: Result<usize, NetworkError>)
    ensures
        match result {
            Ok(end) => matched_name(dns@, cursor as int, encode_utf8(name@), 0) == Ok::<
                int,
                NetworkError,
            >(end as int) && cursor < end <= dns@.len(),
            Err(error) => matched_name(dns@, cursor as int, encode_utf8(name@), 0) == Err::<
                int,
                NetworkError,
            >(error),
        },
{
    let ghost text = encode_utf8(name@);
    let bytes = name.as_bytes();
    let mut at: usize = cursor;
    let mut from: usize = 0;
    loop
        invariant
            bytes@ == text,
            text == encode_utf8(name@),
            from <= bytes.len(),
            cursor <= at,
            matched_name(dns@, cursor as int, text, 0) == matched_name(
                dns@,
                at as int,
                text,
                from as int,
            ),
        decreases bytes.len() - from,
    {
        if at >= dns.len() {
            return Err(NetworkError::PacketMalformed);
        }
        let length: usize = dns[at] as usize;
        let end: usize = find_label_end(bytes, from);
        if length != end - from {
            return Err(NetworkError::DnsRejected);
        }
        if dns.len() - at - 1 < length {
            return Err(NetworkError::PacketMalformed);
        }
        let next: usize = at + 1 + length;
        if !bytes_equal(&dns[at + 1..next], &bytes[from..end]) {
            return Err(NetworkError::DnsRejected);
        }
        at = next;
        if end >= bytes.len() {
            if at >= dns.len() {
                return Err(NetworkError::PacketMalformed);
            }
            if dns[at] != 0 {
                return Err(NetworkError::DnsRejected);
            }
            return Ok(at + 1);
        }
        from = end + 1;
    }
}

/// Where the name at `cursor` ends, whatever it is.
pub fn skip_dns_name(dns: &[u8], cursor: usize) -> (result: Result<usize, NetworkError>)
    ensures
        match result {
            Ok(end) => skipped_name(dns@, cursor as int) == Ok::<int, NetworkError>(end as int)
                && cursor < end <= dns@.len(),
            Err(error) => skipped_name(dns@, cursor as int) == Err::<int, NetworkError>(error),
        },
{
    let mut at: usize = cursor;
    loop
        invariant
            cursor <= at,
            skipped_name(dns@, cursor as int) == skipped_name(dns@, at as int),
        decreases dns@.len() - at,
    {
        if at >= dns.len() {
            return Err(NetworkError::PacketMalformed);
        }
        let length: u8 = dns[at];
        if length >= 0xc0 {
            if dns.len() - at < 2 {
                return Err(NetworkError::PacketMalformed);
            }
            return Ok(at + 2);
        }
        if length >= 0x40 {
            return Err(NetworkError::PacketMalformed);
        }
        if length == 0 {
            return Ok(at + 1);
        }
        if dns.len() - at - 1 < length as usize {
            return Err(NetworkError::PacketMalformed);
        }
        at = at + 1 + length as usize;
    }
}

/// The frame that asks `dns_server` for the address of `name`, and how long it is on the wire. A
/// name that the message has no room for behind it is outside the function's domain.
pub fn build_dns_query_frame(
    mac: [u8; 6],
    destination_mac: [u8; 6],
    address: [u8; 4],
    dns_server: [u8; 4],
    query_id: u16,
    name: &str,
) -> (result: Result<([u8; MAX_ETHERNET_FRAME], usize), NetworkError>)
    requires
        encoded_name(encode_utf8(name@), 0, 12, 256) matches Ok(encoded) ==> encoded.len() <= 240,
    ensures
        match encoded_name(encode_utf8(name@), 0, 12, 256) {
            Ok(encoded) => result matches Ok((frame, length)) && udp_frame(
                frame@,
                mac@,
                destination_mac@,
                address@,
                dns_server@,
                DNS_CLIENT_PORT,
                DNS_SERVER_PORT,
                query_message(query_id as int, encoded),
            ) && length == wire_length(58int + encoded.len()),
            Err(error) => result == Err::<([u8; MAX_ETHERNET_FRAME], usize), NetworkError>(error),
        },
{
    let mut dns: [u8; 256] = [0u8; 256];
    put_be_u16(&mut dns, 0, query_id);
    put_be_u16(&mut dns, 2, 0x0100);
    put_be_u16(&mut dns, 4, 1);
    let ghost head = dns@;
    let mut dns_length: usize = 12;
    match write_dns_name(&mut dns, &mut dns_length, name) {
        Ok(_) => {},
        Err(error) => return Err(error),
    }
    let ghost encoded = encoded_name(encode_utf8(name@), 0, 12, 256).unwrap();
    put_be_u16(&mut dns, dns_length, 1);
    put_be_u16(&mut dns, dns_length + 2, 1);
    dns_length += 4;
    let message = &dns[0..dns_length];
    proof {
        assert(head[0] == query_id / 0x100 && head[1] == query_id % 0x100);
        assert(head[2] == 1 && head[3] == 0 && head[4] == 0 && head[5] == 1);
        assert(message@ =~= query_message(query_id as int, encoded));
    }
    build_udp_ipv4_frame(
        mac,
        destination_mac,
        address,
        dns_server,
        DNS_CLIENT_PORT,
        DNS_SERVER_PORT,
        message,
    )
}

/// The address that a message gives for `name`.
pub fn parse_dns_message(dns: &[u8], query_id: u16, name: &str) -> (result: Result<
    [u8; 4],
    NetworkError,
>)
    ensures
        match resolved_at(dns@, query_id as int, encode_utf8(name@)) {
            Ok(at) => result matches Ok(address) && 0 <= at && at + 4 <= dns@.len() && address@
                == dns@.subrange(at, at + 4),
            Err(error) => result == Err::<[u8; 4], NetworkError>(error),
        },
{
    if dns.len() < 12 || get_be_u16(dns, 0) != query_id || get_be_u16(dns, 2) < 0x8000 || get_be_u16(
        dns,
        2,
    ) % 16 != 0 || get_be_u16(dns, 4) != 1 {
        return Err(NetworkError::DnsRejected);
    }
    let answer_count: u16 = get_be_u16(dns, 6);
    let question: usize = match dns_name_matches(dns, 12, name) {
        Ok(end) => end,
        Err(error) => return Err(error),
    };
    if dns.len() - question < 2 {
        return Err(NetworkError::PacketMalformed);
    }
    if get_be_u16(dns, question) != 1 {
        return Err(NetworkError::DnsRejected);
    }
    if dns.len() - question < 4 {
        return Err(NetworkError::PacketMalformed);
    }
    if get_be_u16(dns, question + 2) != 1 {
        return Err(NetworkError::DnsRejected);
    }
    let mut cursor: usize = question + 4;
    let mut left: u16 = answer_count;
    let ghost goal = answer_at(dns@, cursor as int, answer_count as nat);
    assert(resolved_at(dns@, query_id as int, encode_utf8(name@)) == goal);
    while left > 0
        invariant
            cursor <= dns.len(),
            goal == resolved_at(dns@, query_id as int, encode_utf8(name@)),
            goal == answer_at(dns@, cursor as int, left as nat),
        decreases left,
    {
        let record: usize = match skip_dns_name(dns, cursor) {
            Ok(end) => end,
            Err(error) => return Err(error),
        };
        if dns.len() - record < 10 {
            return Err(NetworkError::PacketMalformed);
        }
        let data_length: usize = get_be_u16(dns, record + 8) as usize;
        let data: usize = record + 10;
        if dns.len() - data < data_length {
            return Err(NetworkError::PacketMalformed);
        }
        if get_be_u16(dns, record) == 1 && get_be_u16(dns, record + 2) == 1 && data_length == 4 {
            return Ok(array_at(dns, data));
        }
        cursor = data + data_length;
        left -= 1;
    }
    Err(NetworkError::DnsRejected)
}

/// `frame` is a sound datagram from the name server.
pub open spec fn dns_datagram(
    frame: Seq<u8>,
    expected_mac: Seq<u8>,
    address: Seq<u8>,
    dns_server: Seq<u8>,
) -> bool {
    &&& sound_udp(frame, DNS_SERVER_PORT as int, DNS_CLIENT_PORT as int, 12)
    &&& frame.subrange(6, 12) == expected_mac
    &&& frame.subrange(26, 30) == dns_server
    &&& frame.subrange(30, 34) == address
}

/// The message of a sound datagram from the name server.
pub open spec fn dns_message(frame: Seq<u8>) -> Seq<u8> {
    frame.subrange(ipv4_payload(frame) + 8, udp_end(frame))
}

/// The address that the name server's datagram gives for `name`.
pub fn parse_dns_response(
    frame: &[u8],
    expected_mac: [u8; 6],
    address: [u8; 4],
    dns_server: [u8; 4],
    query_id: u16,
    name: &str,
) -> (result: Result<[u8; 4], NetworkError>)
    ensures
        if dns_datagram(frame@, expected_mac@, address@, dns_server@) {
            match resolved_at(dns_message(frame@), query_id as int, encode_utf8(name@)) {
                Ok(at) => result matches Ok(answer) && 0 <= at && at + 4 <= dns_message(frame@).len()
                    && answer@ == dns_message(frame@).subrange(at, at + 4),
                Err(error) => result == Err::<[u8; 4], NetworkError>(error),
            }
        } else {
            result == Err::<[u8; 4], NetworkError>(NetworkError::PacketMalformed)
        },
{
    let (start, end) = match check_udp(frame, DNS_SERVER_PORT, DNS_CLIENT_PORT, 12) {
        Some(payload) => payload,
        None => return Err(NetworkError::PacketMalformed),
    };
    if !holds(frame, 6, &expected_mac) || !holds(frame, 26, &dns_server) || !holds(
        frame,
        30,
        &address,
    ) {
        return Err(NetworkError::PacketMalformed);
    }
    parse_dns_message(&frame[start..end], query_id, name)
}

/// A name that was written is found where it was written.
pub proof fn a_written_name_matches(
    dns: Seq<u8>,
    cursor: int,
    name: Seq<u8>,
    from: int,
    limit: int,
)
    requires
        0 <= from <= name.len(),
        0 <= cursor,
        encoded_name(name, from, cursor, limit) matches Ok(encoded) && cursor + encoded.len()
            <= dns.len() && dns.subrange(cursor, cursor + encoded.len()) == encoded,
    ensures
        matched_name(dns, cursor, name, from) == Ok::<int, NetworkError>(
            cursor + encoded_name(name, from, cursor, limit).unwrap().len(),
        ),
    decreases name.len() - from,
{
    lemma_label_end(name, from);
    let encoded = encoded_name(name, from, cursor, limit).unwrap();
    let end = label_end(name, from);
    let n = end - from;
    let next = cursor + 1 + n;
    let held = dns.subrange(cursor, cursor + encoded.len());
    assert(encoded[0] == n as u8);
    assert(dns[cursor] == held[0]);
    assert(dns.subrange(cursor + 1, next) =~= name.subrange(from, end)) by {
        assert forall|i: int| 0 <= i < n implies #[trigger] dns.subrange(cursor + 1, next)[i]
            == name.subrange(from, end)[i] by {
            assert(dns[cursor + 1 + i] == held[1 + i]);
            assert(encoded[1 + i] == name[from + i]);
        }
    }
    if end < name.len() {
        let rest = encoded_name(name, end + 1, next, limit).unwrap();
        assert(dns.subrange(next, next + rest.len()) =~= rest) by {
            assert forall|i: int| 0 <= i < rest.len() implies #[trigger] dns.subrange(
                next,
                next + rest.len(),
            )[i] == rest[i] by {
                assert(dns[next + i] == held[1 + n + i]);
                assert(encoded[1 + n + i] == rest[i]);
            }
        }
        a_written_name_matches(dns, next, name, end + 1, limit);
    } else {
        assert(dns[next] == held[1 + n]);
    }
}

} // verus!
