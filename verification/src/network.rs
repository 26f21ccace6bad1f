//! The network: frames of the protocols the system speaks, its TCP listener and the
//! exchange by which it is configured.

pub mod checksum;
pub mod arp;
pub mod frame;
pub mod echo;
pub mod tcp;
pub mod udp;
pub mod dns;
pub mod http;
pub mod dhcp;
pub mod route;
pub mod sending;
pub mod listener;
pub mod laws;
pub mod device;
pub mod setup;
pub mod interface;
pub mod wire;
pub mod exchange;

pub use arp::{build_arp_reply, build_arp_request, parse_arp_reply};
pub use checksum::{internet_checksum, ipv4_transport_checksum};
pub use dhcp::{build_dhcp_frame, parse_dhcp_message};
pub use dns::{build_dns_query_frame, parse_dns_message, parse_dns_response};
pub use echo::{build_echo_reply, build_echo_request, parse_echo_reply};
pub use frame::NetworkError;
pub use http::parse_http_status;
pub use interface::{NetworkInterface, NetworkPoll, NetworkPollResult, NetworkReport};
pub use listener::{
    TcpListener, TcpServerEvent, TcpServerEventKind, TCP_LISTENER_CAPACITY,
    TCP_LISTENER_IDLE_TIMEOUT_TICKS, TCP_LISTENER_PORT,
};
pub use setup::{configure, NetworkSetup};
pub use tcp::{build_tcp_ipv4_frame, parse_tcp_segment, TcpFrameRequest, TcpSegment};
