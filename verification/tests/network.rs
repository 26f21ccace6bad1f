use codexos::bytes::{get_be_u16, get_be_u32, put_be_u16, put_be_u32};
use codexos::network::arp::{build_arp_reply, build_arp_request, parse_arp_reply};
use codexos::network::checksum::{internet_checksum, ipv4_transport_checksum};
use codexos::network::dhcp::{build_dhcp_frame, DHCP_DISCOVER, DHCP_XID};
use codexos::network::dns::{
    build_dns_query_frame, dns_name_matches, parse_dns_response, write_dns_name, DNS_CLIENT_PORT,
    DNS_QUERY_ID, DNS_SERVER_PORT,
};
use codexos::network::echo::{build_echo_reply, build_echo_request, parse_echo_reply};
use codexos::network::frame::{
    ETHERNET_HEADER_BYTES, ETHERTYPE_IPV4, IPV4_HEADER_BYTES, IP_PROTOCOL_UDP, UDP_HEADER_BYTES,
};
use codexos::network::http::{parse_http_status, HTTP_LISTENER_RESPONSE};
use codexos::network::listener::{
    TcpListener, TcpServerAction, TcpServerEvent, TcpServerEventKind, TcpServerPhase,
    TCP_LISTENER_CAPACITY, TCP_LISTENER_IDLE_TIMEOUT_TICKS, TCP_LISTENER_PORT,
};
use codexos::network::device::{NetProbe, DEVICE_TIMEOUT_SPINS, PROTOCOL_TIMEOUT_SPINS};
use codexos::network::interface::FRAMES_PER_POLL;
use codexos::network::setup::{NetworkSetup, SetupStage, HTTP_CLIENT_PORT, HTTP_SERVER_PORT, TCP_INITIAL_SEQUENCE};
use codexos::network::tcp::{
    build_tcp_ipv4_frame, parse_tcp_segment, TcpFrameRequest, TCP_FLAG_ACK, TCP_FLAG_FIN,
    TCP_FLAG_PSH, TCP_FLAG_RST, TCP_FLAG_SYN,
};
use codexos::network::udp::build_udp_ipv4_frame;
use codexos::network::{NetworkError, NetworkInterface};
use codexos::virtio::{virtqueue_layout, WaitStep};

const DNS_QUERY_NAME: &str = "example.com";

#[test]
fn ipv4_header_checksum_round_trips() {
    let frame = build_dhcp_frame([0x52, 0x54, 0, 0x12, 0x34, 0x56], DHCP_DISCOVER, None, None);
    let ip = ETHERNET_HEADER_BYTES;
    assert_eq!(internet_checksum(&frame[ip..ip + IPV4_HEADER_BYTES]), 0);
}

#[test]
fn dhcp_discover_has_valid_wire_fields() {
    let mac = [0x52, 0x54, 0, 0x12, 0x34, 0x56];
    let frame = build_dhcp_frame(mac, DHCP_DISCOVER, None, None);
    assert_eq!(get_be_u16(&frame, 12), ETHERTYPE_IPV4);
    let dhcp = ETHERNET_HEADER_BYTES + IPV4_HEADER_BYTES + UDP_HEADER_BYTES;
    assert_eq!(get_be_u32(&frame, dhcp + 4), DHCP_XID);
    assert_eq!(&frame[dhcp + 28..dhcp + 34], &mac);
    assert!(
        frame[dhcp + 240..]
            .windows(3)
            .any(|option| option == [53, 1, DHCP_DISCOVER])
    );
}

#[test]
fn arp_reply_parser_rejects_wrong_sender() {
    let host = [10, 0, 2, 15];
    let gateway = [10, 0, 2, 2];
    let mut frame = build_arp_request([0x52, 0x54, 0, 1, 2, 3], host, gateway);
    put_be_u16(&mut frame, 20, 2);
    frame[22..28].copy_from_slice(&[0x52, 0x55, 10, 0, 2, 2]);
    frame[28..32].copy_from_slice(&gateway);
    frame[38..42].copy_from_slice(&host);
    assert!(parse_arp_reply(&frame, host, gateway).is_ok());
    assert!(parse_arp_reply(&frame, host, [10, 0, 2, 3]).is_err());
}

#[test]
fn live_arp_responder_returns_its_configured_identity() {
    let local_mac = [0x52, 0x54, 0, 0x12, 0x34, 0x56];
    let remote_mac = [0x52, 0x55, 10, 0, 2, 2];
    let local_address = [10, 0, 2, 15];
    let remote_address = [10, 0, 2, 2];
    let request = build_arp_request(remote_mac, remote_address, local_address);
    let reply = build_arp_reply(&request, local_mac, local_address).unwrap();
    assert_eq!(
        parse_arp_reply(&reply, remote_address, local_address).unwrap(),
        local_mac
    );
}

#[test]
fn icmp_echo_request_has_valid_ip_and_icmp_checksums() {
    let frame = build_echo_request(
        [0x52, 0x54, 0, 0x12, 0x34, 0x56],
        [0x52, 0x55, 10, 0, 2, 2],
        [10, 0, 2, 15],
        [10, 0, 2, 2],
    );
    let ip = ETHERNET_HEADER_BYTES;
    assert_eq!(internet_checksum(&frame[ip..ip + IPV4_HEADER_BYTES]), 0);
    let total = usize::from(get_be_u16(&frame, ip + 2));
    assert_eq!(
        internet_checksum(&frame[ip + IPV4_HEADER_BYTES..ip + total]),
        0
    );
}

#[test]
fn dns_query_frame_has_valid_udp_checksum_and_question() {
    let (frame, length) = build_dns_query_frame(
        [0x52, 0x54, 0, 0x12, 0x34, 0x56],
        [0x52, 0x55, 10, 0, 2, 3],
        [10, 0, 2, 15],
        [10, 0, 2, 3],
        DNS_QUERY_ID,
        DNS_QUERY_NAME,
    )
    .unwrap();
    let frame = &frame[..length];
    let ip = ETHERNET_HEADER_BYTES;
    let udp = ip + IPV4_HEADER_BYTES;
    let total = usize::from(get_be_u16(frame, ip + 2));
    let udp_length = usize::from(get_be_u16(frame, udp + 4));
    assert_eq!(internet_checksum(&frame[ip..ip + IPV4_HEADER_BYTES]), 0);
    assert_eq!(
        ipv4_transport_checksum(
            [10, 0, 2, 15],
            [10, 0, 2, 3],
            IP_PROTOCOL_UDP,
            &frame[udp..udp + udp_length],
        ),
        0
    );
    let dns = udp + UDP_HEADER_BYTES;
    assert_eq!(get_be_u16(frame, dns), DNS_QUERY_ID);
    assert!(dns_name_matches(frame, dns + 12, DNS_QUERY_NAME).is_ok());
    assert!(total >= IPV4_HEADER_BYTES + UDP_HEADER_BYTES + 12);
}

#[test]
fn dns_response_parser_extracts_a_record() {
    let client_mac = [0x52, 0x54, 0, 0x12, 0x34, 0x56];
    let dns_mac = [0x52, 0x55, 10, 0, 2, 3];
    let client = [10, 0, 2, 15];
    let dns_server = [10, 0, 2, 3];
    let mut payload = [0_u8; 256];
    put_be_u16(&mut payload, 0, DNS_QUERY_ID);
    put_be_u16(&mut payload, 2, 0x8180);
    put_be_u16(&mut payload, 4, 1);
    put_be_u16(&mut payload, 6, 1);
    let mut cursor = 12;
    write_dns_name(&mut payload, &mut cursor, DNS_QUERY_NAME).unwrap();
    put_be_u16(&mut payload, cursor, 1);
    put_be_u16(&mut payload, cursor + 2, 1);
    cursor += 4;
    payload[cursor] = 0xc0;
    payload[cursor + 1] = 0x0c;
    cursor += 2;
    put_be_u16(&mut payload, cursor, 1);
    put_be_u16(&mut payload, cursor + 2, 1);
    put_be_u32(&mut payload, cursor + 4, 60);
    put_be_u16(&mut payload, cursor + 8, 4);
    cursor += 10;
    payload[cursor..cursor + 4].copy_from_slice(&[93, 184, 216, 34]);
    cursor += 4;
    let (frame, length) = build_udp_ipv4_frame(
        dns_mac,
        client_mac,
        dns_server,
        client,
        DNS_SERVER_PORT,
        DNS_CLIENT_PORT,
        &payload[..cursor],
    )
    .unwrap();
    assert_eq!(
        parse_dns_response(
            &frame[..length],
            dns_mac,
            client,
            dns_server,
            DNS_QUERY_ID,
            DNS_QUERY_NAME,
        )
        .unwrap(),
        [93, 184, 216, 34]
    );
}

#[test]
fn tcp_segment_parser_validates_checksum_and_flags() {
    let client_mac = [0x52, 0x54, 0, 0x12, 0x34, 0x56];
    let remote_mac = [0x52, 0x55, 10, 0, 2, 2];
    let client = [10, 0, 2, 15];
    let remote = [93, 184, 216, 34];
    let (frame, length) = build_tcp_ipv4_frame(TcpFrameRequest {
        source_mac: remote_mac,
        destination_mac: client_mac,
        source_address: remote,
        destination_address: client,
        source_port: HTTP_SERVER_PORT,
        destination_port: HTTP_CLIENT_PORT,
        sequence: 0x1020_3040,
        acknowledgement: TCP_INITIAL_SEQUENCE + 1,
        flags: TCP_FLAG_SYN | TCP_FLAG_ACK,
        payload: &[],
    })
    .unwrap();
    let segment = parse_tcp_segment(
        &frame[..length],
        remote_mac,
        client,
        remote,
        HTTP_CLIENT_PORT,
        HTTP_SERVER_PORT,
    )
    .unwrap();
    assert_eq!(segment.sequence, 0x1020_3040);
    assert_eq!(segment.acknowledgement, TCP_INITIAL_SEQUENCE + 1);
    assert_eq!(
        segment.flags & (TCP_FLAG_SYN | TCP_FLAG_ACK),
        TCP_FLAG_SYN | TCP_FLAG_ACK
    );
}

#[test]
fn http_status_parser_accepts_real_status_line() {
    assert_eq!(parse_http_status(b"HTTP/1.1 301 Moved\r\n"), Some(301));
    assert_eq!(parse_http_status(b"not-http"), None);
    let body = HTTP_LISTENER_RESPONSE
        .split(|byte| *byte == b'\n')
        .rev()
        .nth(1)
        .unwrap();
    assert_eq!(body, b"codexOS listener online");
    assert_eq!(body.len() + 1, 24);
}

#[test]
fn live_icmp_responder_returns_a_valid_echo_reply() {
    let local_mac = [0x52, 0x54, 0, 0x12, 0x34, 0x56];
    let remote_mac = [0x52, 0x55, 10, 0, 2, 2];
    let local_address = [10, 0, 2, 15];
    let remote_address = [10, 0, 2, 2];
    let request = build_echo_request(remote_mac, local_mac, remote_address, local_address);
    let (reply, length) = build_echo_reply(&request, local_mac, local_address).unwrap();
    assert!(
        parse_echo_reply(&reply[..length], local_mac, remote_address, local_address)
            .is_ok()
    );
}

#[test]
fn tcp_listener_accepts_a_host_http_connection() {
    let local_mac = [0x52, 0x54, 0, 0x12, 0x34, 0x56];
    let remote_mac = [0x52, 0x55, 10, 0, 2, 2];
    let local_address = [10, 0, 2, 15];
    let remote_address = [10, 0, 2, 2];
    let remote_port = 55000;
    let remote_sequence = 0x1020_3040;
    let mut listener = TcpListener::new(TCP_LISTENER_PORT);

    let (syn, syn_length) = build_tcp_ipv4_frame(TcpFrameRequest {
        source_mac: remote_mac,
        destination_mac: local_mac,
        source_address: remote_address,
        destination_address: local_address,
        source_port: remote_port,
        destination_port: TCP_LISTENER_PORT,
        sequence: remote_sequence,
        acknowledgement: 0,
        flags: TCP_FLAG_SYN,
        payload: &[],
    })
    .unwrap();
    let syn_ack = listener
        .handle_frame(&syn[..syn_length], local_mac, local_address)
        .unwrap()
        .unwrap();
    let accepted = syn_ack.event.unwrap();
    assert_eq!(accepted.kind, TcpServerEventKind::Accepted);
    assert_eq!(accepted.local_port, TCP_LISTENER_PORT);
    assert_eq!(accepted.remote_address, remote_address);
    assert_eq!(accepted.remote_port, remote_port);
    let syn_ack_segment = parse_tcp_segment(
        &syn_ack.frame[..syn_ack.length],
        local_mac,
        remote_address,
        local_address,
        remote_port,
        TCP_LISTENER_PORT,
    )
    .unwrap();
    assert_eq!(
        syn_ack_segment.flags & (TCP_FLAG_SYN | TCP_FLAG_ACK),
        TCP_FLAG_SYN | TCP_FLAG_ACK
    );
    assert_eq!(syn_ack_segment.acknowledgement, remote_sequence + 1);

    let client_next = remote_sequence + 1;
    let server_next = syn_ack_segment.sequence + 1;
    let (ack, ack_length) = build_tcp_ipv4_frame(TcpFrameRequest {
        source_mac: remote_mac,
        destination_mac: local_mac,
        source_address: remote_address,
        destination_address: local_address,
        source_port: remote_port,
        destination_port: TCP_LISTENER_PORT,
        sequence: client_next,
        acknowledgement: server_next,
        flags: TCP_FLAG_ACK,
        payload: &[],
    })
    .unwrap();
    assert!(
        listener
            .handle_frame(&ack[..ack_length], local_mac, local_address)
            .unwrap()
            .is_none()
    );

    let request = b"GET / HTTP/1.1\r\nHost: codexos.local\r\nConnection: close\r\n\r\n";
    let (get, get_length) = build_tcp_ipv4_frame(TcpFrameRequest {
        source_mac: remote_mac,
        destination_mac: local_mac,
        source_address: remote_address,
        destination_address: local_address,
        source_port: remote_port,
        destination_port: TCP_LISTENER_PORT,
        sequence: client_next,
        acknowledgement: server_next,
        flags: TCP_FLAG_PSH | TCP_FLAG_ACK,
        payload: request,
    })
    .unwrap();
    let response = listener
        .handle_frame(&get[..get_length], local_mac, local_address)
        .unwrap()
        .unwrap();
    let event = response.event.unwrap();
    assert_eq!(event.kind, TcpServerEventKind::Served);
    assert_eq!(event.local_port, TCP_LISTENER_PORT);
    assert_eq!(event.remote_address, remote_address);
    assert_eq!(event.remote_port, remote_port);
    assert_eq!(event.request_bytes, request.len());
    assert_eq!(event.response_bytes, HTTP_LISTENER_RESPONSE.len());
    assert_eq!(event.connection_count, 1);

    let response_segment = parse_tcp_segment(
        &response.frame[..response.length],
        local_mac,
        remote_address,
        local_address,
        remote_port,
        TCP_LISTENER_PORT,
    )
    .unwrap();
    assert_eq!(
        response_segment.flags & (TCP_FLAG_PSH | TCP_FLAG_ACK | TCP_FLAG_FIN),
        TCP_FLAG_PSH | TCP_FLAG_ACK | TCP_FLAG_FIN
    );
    let payload = &response.frame[response_segment.payload_offset
        ..response_segment.payload_offset + response_segment.payload_len];
    assert_eq!(parse_http_status(payload), Some(200));
    assert!(payload.ends_with(b"codexOS listener online\n"));
}

#[test]
fn tcp_listener_keeps_concurrent_peers_isolated() {
    let local_mac = [0x52, 0x54, 0, 0x12, 0x34, 0x56];
    let remote_mac = [0x52, 0x55, 10, 0, 2, 2];
    let local_address = [10, 0, 2, 15];
    let remote_address = [10, 0, 2, 2];
    let mut listener = TcpListener::new(TCP_LISTENER_PORT);
    let first = complete_listener_handshake(
        &mut listener,
        local_mac,
        remote_mac,
        local_address,
        remote_address,
        55000,
        0x1020_3040,
    );
    let second = complete_listener_handshake(
        &mut listener,
        local_mac,
        remote_mac,
        local_address,
        remote_address,
        55001,
        0x5060_7080,
    );
    assert_eq!(
        listener
            .connections
            .iter()
            .filter(|connection| connection.is_some())
            .count(),
        2
    );

    let first_event = send_listener_request(
        &mut listener,
        local_mac,
        remote_mac,
        local_address,
        remote_address,
        55000,
        first,
    );
    assert_eq!(first_event.connection_count, 1);
    assert!(
        listener
            .connections
            .iter()
            .any(|entry| { entry.is_some_and(|connection| connection.remote_port == 55001) })
    );

    let second_event = send_listener_request(
        &mut listener,
        local_mac,
        remote_mac,
        local_address,
        remote_address,
        55001,
        second,
    );
    assert_eq!(second_event.connection_count, 2);
    assert_eq!(
        listener
            .connections
            .iter()
            .filter(|connection| connection.is_some())
            .count(),
        2
    );
    assert!(
        listener
            .connections
            .iter()
            .flatten()
            .all(|connection| { connection.phase == TcpServerPhase::FinWait1 })
    );
}

#[test]
fn tcp_listener_retransmits_response_and_completes_fin_handshake() {
    let local_mac = [0x52, 0x54, 0, 0x12, 0x34, 0x56];
    let remote_mac = [0x52, 0x55, 10, 0, 2, 2];
    let local_address = [10, 0, 2, 15];
    let remote_address = [10, 0, 2, 2];
    let remote_port = 55000;
    let mut listener = TcpListener::new(TCP_LISTENER_PORT);
    let sequence = complete_listener_handshake(
        &mut listener,
        local_mac,
        remote_mac,
        local_address,
        remote_address,
        remote_port,
        0x1020_3040,
    );
    let response = send_listener_request_action(
        &mut listener,
        local_mac,
        remote_mac,
        local_address,
        remote_address,
        remote_port,
        sequence,
    );
    assert_eq!(response.event.unwrap().connection_count, 1);
    let retransmission = send_listener_request_action(
        &mut listener,
        local_mac,
        remote_mac,
        local_address,
        remote_address,
        remote_port,
        sequence,
    );
    assert!(retransmission.event.is_none());
    assert_eq!(
        &response.frame[..response.length],
        &retransmission.frame[..retransmission.length]
    );
    assert_eq!(listener.served_connections, 1);

    let connection_index = listener
        .connections
        .iter()
        .position(Option::is_some)
        .unwrap();
    let connection = listener.connections[connection_index].unwrap();
    assert_eq!(connection.phase, TcpServerPhase::FinWait1);
    let (fin_ack, fin_ack_length) = build_tcp_ipv4_frame(TcpFrameRequest {
        source_mac: remote_mac,
        destination_mac: local_mac,
        source_address: remote_address,
        destination_address: local_address,
        source_port: remote_port,
        destination_port: TCP_LISTENER_PORT,
        sequence: connection.remote_next,
        acknowledgement: connection.local_next,
        flags: TCP_FLAG_ACK,
        payload: &[],
    })
    .unwrap();
    assert!(
        listener
            .handle_frame(&fin_ack[..fin_ack_length], local_mac, local_address)
            .unwrap()
            .is_none()
    );
    assert_eq!(
        listener.connections[connection_index].unwrap().phase,
        TcpServerPhase::FinWait2
    );

    let (fin, fin_length) = build_tcp_ipv4_frame(TcpFrameRequest {
        source_mac: remote_mac,
        destination_mac: local_mac,
        source_address: remote_address,
        destination_address: local_address,
        source_port: remote_port,
        destination_port: TCP_LISTENER_PORT,
        sequence: connection.remote_next,
        acknowledgement: connection.local_next,
        flags: TCP_FLAG_FIN | TCP_FLAG_ACK,
        payload: &[],
    })
    .unwrap();
    let final_ack = listener
        .handle_frame(&fin[..fin_length], local_mac, local_address)
        .unwrap()
        .unwrap();
    let final_ack_segment = parse_tcp_segment(
        &final_ack.frame[..final_ack.length],
        local_mac,
        remote_address,
        local_address,
        remote_port,
        TCP_LISTENER_PORT,
    )
    .unwrap();
    assert_eq!(final_ack_segment.flags, TCP_FLAG_ACK);
    assert_eq!(
        final_ack_segment.acknowledgement,
        connection.remote_next.wrapping_add(1)
    );
    assert!(listener.connections[connection_index].is_none());
    assert_eq!(listener.closed_connections, 1);
}

#[test]
fn tcp_listener_refuses_excess_connections_without_eviction() {
    let local_mac = [0x52, 0x54, 0, 0x12, 0x34, 0x56];
    let remote_mac = [0x52, 0x55, 10, 0, 2, 2];
    let local_address = [10, 0, 2, 15];
    let remote_address = [10, 0, 2, 2];
    let mut listener = TcpListener::new(TCP_LISTENER_PORT);
    for index in 0..TCP_LISTENER_CAPACITY {
        complete_listener_handshake(
            &mut listener,
            local_mac,
            remote_mac,
            local_address,
            remote_address,
            55000 + index as u16,
            0x1020_3040 + index as u32 * 0x100,
        );
    }

    let (syn, syn_length) = build_tcp_ipv4_frame(TcpFrameRequest {
        source_mac: remote_mac,
        destination_mac: local_mac,
        source_address: remote_address,
        destination_address: local_address,
        source_port: 56000,
        destination_port: TCP_LISTENER_PORT,
        sequence: 0x90a0_b0c0,
        acknowledgement: 0,
        flags: TCP_FLAG_SYN,
        payload: &[],
    })
    .unwrap();
    let refusal = listener
        .handle_frame(&syn[..syn_length], local_mac, local_address)
        .unwrap()
        .unwrap();
    let refusal_segment = parse_tcp_segment(
        &refusal.frame[..refusal.length],
        local_mac,
        remote_address,
        local_address,
        56000,
        TCP_LISTENER_PORT,
    )
    .unwrap();
    assert_eq!(
        refusal_segment.flags & (TCP_FLAG_RST | TCP_FLAG_ACK),
        TCP_FLAG_RST | TCP_FLAG_ACK
    );
    assert_eq!(
        listener
            .connections
            .iter()
            .filter(|connection| connection.is_some())
            .count(),
        TCP_LISTENER_CAPACITY
    );
    assert!(
        listener
            .connections
            .iter()
            .any(|entry| { entry.is_some_and(|connection| connection.remote_port == 55000) })
    );
    assert_eq!(
        listener.expire_idle_connections(TCP_LISTENER_IDLE_TIMEOUT_TICKS - 1),
        0
    );
    assert_eq!(
        listener.expire_idle_connections(TCP_LISTENER_IDLE_TIMEOUT_TICKS),
        TCP_LISTENER_CAPACITY
    );
    let accepted = listener
        .handle_frame_at(
            &syn[..syn_length],
            local_mac,
            local_address,
            TCP_LISTENER_IDLE_TIMEOUT_TICKS,
        )
        .unwrap()
        .unwrap();
    assert_eq!(accepted.event.unwrap().kind, TcpServerEventKind::Accepted);
}

fn complete_listener_handshake(
    listener: &mut TcpListener,
    local_mac: [u8; 6],
    remote_mac: [u8; 6],
    local_address: [u8; 4],
    remote_address: [u8; 4],
    remote_port: u16,
    remote_sequence: u32,
) -> (u32, u32) {
    let (syn, syn_length) = build_tcp_ipv4_frame(TcpFrameRequest {
        source_mac: remote_mac,
        destination_mac: local_mac,
        source_address: remote_address,
        destination_address: local_address,
        source_port: remote_port,
        destination_port: TCP_LISTENER_PORT,
        sequence: remote_sequence,
        acknowledgement: 0,
        flags: TCP_FLAG_SYN,
        payload: &[],
    })
    .unwrap();
    let syn_ack = listener
        .handle_frame(&syn[..syn_length], local_mac, local_address)
        .unwrap()
        .unwrap();
    assert_eq!(syn_ack.event.unwrap().kind, TcpServerEventKind::Accepted);
    let syn_ack_segment = parse_tcp_segment(
        &syn_ack.frame[..syn_ack.length],
        local_mac,
        remote_address,
        local_address,
        remote_port,
        TCP_LISTENER_PORT,
    )
    .unwrap();
    let client_next = remote_sequence.wrapping_add(1);
    let server_next = syn_ack_segment.sequence.wrapping_add(1);
    let (ack, ack_length) = build_tcp_ipv4_frame(TcpFrameRequest {
        source_mac: remote_mac,
        destination_mac: local_mac,
        source_address: remote_address,
        destination_address: local_address,
        source_port: remote_port,
        destination_port: TCP_LISTENER_PORT,
        sequence: client_next,
        acknowledgement: server_next,
        flags: TCP_FLAG_ACK,
        payload: &[],
    })
    .unwrap();
    assert!(
        listener
            .handle_frame(&ack[..ack_length], local_mac, local_address)
            .unwrap()
            .is_none()
    );
    (client_next, server_next)
}

fn send_listener_request(
    listener: &mut TcpListener,
    local_mac: [u8; 6],
    remote_mac: [u8; 6],
    local_address: [u8; 4],
    remote_address: [u8; 4],
    remote_port: u16,
    sequence: (u32, u32),
) -> TcpServerEvent {
    send_listener_request_action(
        listener,
        local_mac,
        remote_mac,
        local_address,
        remote_address,
        remote_port,
        sequence,
    )
    .event
    .unwrap()
}

fn send_listener_request_action(
    listener: &mut TcpListener,
    local_mac: [u8; 6],
    remote_mac: [u8; 6],
    local_address: [u8; 4],
    remote_address: [u8; 4],
    remote_port: u16,
    sequence: (u32, u32),
) -> TcpServerAction {
    let request = b"GET / HTTP/1.1\r\nHost: codexos.local\r\nConnection: close\r\n\r\n";
    let (frame, length) = build_tcp_ipv4_frame(TcpFrameRequest {
        source_mac: remote_mac,
        destination_mac: local_mac,
        source_address: remote_address,
        destination_address: local_address,
        source_port: remote_port,
        destination_port: TCP_LISTENER_PORT,
        sequence: sequence.0,
        acknowledgement: sequence.1,
        flags: TCP_FLAG_PSH | TCP_FLAG_ACK,
        payload: request,
    })
    .unwrap();
    listener
        .handle_frame(&frame[..length], local_mac, local_address)
        .unwrap()
        .unwrap()
}

#[test]
fn virtqueue_layout_keeps_used_ring_page_aligned() {
    let (bytes, used) = virtqueue_layout(256);
    assert_eq!(used, 8192);
    assert!(bytes <= 12 * 1024);
}

#[test]
fn every_try_to_come_further_counts() {
    let (mut setup, _) = NetworkSetup::new([2, 0, 0, 0, 0, 1]);
    assert_eq!(setup.attempt(None), Ok(Vec::new()));
    assert_eq!(setup.attempt(Some(&[0; 64])), Ok(Vec::new()));
    assert_eq!(setup.tries, 2);
    setup.tries = PROTOCOL_TIMEOUT_SPINS - 2;
    assert_eq!(setup.attempt(Some(&[0; 64])), Ok(Vec::new()));
    assert_eq!(setup.attempt(None), Err(NetworkError::DhcpTimedOut));
    setup.stage = SetupStage::Gateway;
    setup.tries = 7;
    setup.lease.address = [10, 0, 2, 15];
    setup.lease.gateway = [10, 0, 2, 2];
    let request = build_arp_request(setup.mac, setup.lease.address, setup.lease.gateway);
    let reply = build_arp_reply(&request, [2, 0, 0, 0, 0, 9], setup.lease.gateway).unwrap();
    assert_eq!(setup.attempt(Some(&reply)).unwrap().len(), 1);
    assert_eq!(setup.stage, SetupStage::Echo);
    assert_eq!(setup.tries, 0);
    setup.tries = PROTOCOL_TIMEOUT_SPINS - 1;
    assert_eq!(setup.waited(), Err(NetworkError::IcmpTimedOut));
}

fn network_device() -> codexos::network::device::VirtioNet {
    NetProbe::Ready {
        io_base: 0xc000,
        rx: 8,
        tx: 8,
        rx_buffer: 0x1000,
        tx_buffer: 0x2000,
        mac: 0x0100_0000_0002,
    }
    .device(0, 3, 0)
    .unwrap()
}

#[test]
fn frames_are_sent_within_bounds() {
    let mut device = network_device();
    assert_eq!(device.wait_step(0, 0, 0), Ok(WaitStep::Again { spins: 1, read_isr: true }));
    assert_eq!(
        device.wait_step(DEVICE_TIMEOUT_SPINS, 1, 0),
        Err(NetworkError::RequestTimedOut)
    );
    assert_eq!(device.wait_step(3, 1, 1), Err(NetworkError::DeviceRejected));
    assert_eq!(device.wait_step(3, 1, 0), Ok(WaitStep::Done));
    assert_eq!(device.transmitted_frames, 1);
}

#[test]
fn a_poll_takes_so_many_frames_at_most() {
    let (mut setup, _) = NetworkSetup::new([2, 0, 0, 0, 0, 1]);
    setup.stage = SetupStage::Done;
    setup.lease.address = [10, 0, 2, 15];
    let mut interface = NetworkInterface::new(network_device(), &setup).unwrap();
    let mut poll = interface.begin_poll(100);
    let mut frames = 0;
    while poll.next() {
        frames += 1;
        assert_eq!(interface.poll(&[0; 60], &mut poll), None);
    }
    assert_eq!(frames, FRAMES_PER_POLL);
    assert_eq!(frames, 32);
    let result = interface.end_poll(poll);
    assert!(result.received_frame);
    assert_eq!(result.tcp_server, None);
    assert_eq!(result.closed_tcp_connections, 0);

    let mut poll = interface.begin_poll(101);
    let request = build_arp_request([2, 0, 0, 0, 0, 7], [10, 0, 2, 2], [10, 0, 2, 15]);
    assert!(poll.next());
    let reply = interface.poll(&request, &mut poll).unwrap();
    assert_eq!(parse_arp_reply(&reply, [10, 0, 2, 2], [10, 0, 2, 15]), Ok(interface.device.mac));
}
