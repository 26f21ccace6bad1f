//! Which station a packet is handed to next.

use vstd::prelude::*;
use crate::bytes::bytes_equal;

verus! {

/// Whether two addresses agree on every bit of the mask.
pub open spec fn on_one_subnet(left: Seq<u8>, right: Seq<u8>, mask: Seq<u8>) -> bool {
    &&& left[0] & mask[0] == right[0] & mask[0]
    &&& left[1] & mask[1] == right[1] & mask[1]
    &&& left[2] & mask[2] == right[2] & mask[2]
    &&& left[3] & mask[3] == right[3] & mask[3]
}

/// The name server that is taken where none is given: the address behind the gateway's, or the
/// gateway where that is the system's own.
pub open spec fn default_dns(address: Seq<u8>, gateway: Seq<u8>) -> Seq<u8> {
    let behind = gateway.update(
        3,
        if gateway[3] == 255 {
            255
        } else {
            (gateway[3] + 1) as u8
        },
    );
    if behind == address {
        gateway
    } else {
        behind
    }
}

/// The next station towards `destination`.
pub open spec fn next_hop(
    address: Seq<u8>,
    subnet_mask: Seq<u8>,
    gateway: Seq<u8>,
    destination: Seq<u8>,
) -> Seq<u8> {
    if on_one_subnet(address, destination, subnet_mask) {
        destination
    } else {
        gateway
    }
}

/// The next station towards the name server; the default one is reached through the gateway.
pub open spec fn next_dns_hop(
    address: Seq<u8>,
    subnet_mask: Seq<u8>,
    gateway: Seq<u8>,
    dns_server: Seq<u8>,
) -> Seq<u8> {
    if dns_server == default_dns(address, gateway) {
        gateway
    } else {
        next_hop(address, subnet_mask, gateway, dns_server)
    }
}

pub fn same_subnet(left: [u8; 4], right: [u8; 4], mask: [u8; 4]) -> (same: bool)
    ensures
        same == on_one_subnet(left@, right@, mask@),
{
    left[0] & mask[0] == right[0] & mask[0] && left[1] & mask[1] == right[1] & mask[1] && left[2]
        & mask[2] == right[2] & mask[2] && left[3] & mask[3] == right[3] & mask[3]
}

pub fn default_dns_server(address: [u8; 4], gateway: [u8; 4]) -> (server: [u8; 4])
    ensures
        server@ == default_dns(address@, gateway@),
{
    let mut dns: [u8; 4] = gateway;
    dns[3] = gateway[3].saturating_add(1);
    if bytes_equal(&dns, &address) {
        gateway
    } else {
        dns
    }
}

pub fn route_next_hop(
    address: [u8; 4],
    subnet_mask: [u8; 4],
    gateway: [u8; 4],
    destination: [u8; 4],
) -> (hop: [u8; 4])
    ensures
        hop@ == next_hop(address@, subnet_mask@, gateway@, destination@),
{
    if same_subnet(address, destination, subnet_mask) {
        destination
    } else {
        gateway
    }
}

pub fn dns_next_hop(
    address: [u8; 4],
    subnet_mask: [u8; 4],
    gateway: [u8; 4],
    dns_server: [u8; 4],
) -> (hop: [u8; 4])
    ensures
        hop@ == next_dns_hop(address@, subnet_mask@, gateway@, dns_server@),
{
    let usual = default_dns_server(address, gateway);
    if bytes_equal(&dns_server, &usual) {
        gateway
    } else {
        route_next_hop(address, subnet_mask, gateway, dns_server)
    }
}

} // verus!
