//! The little HTTP that the system speaks.

use vstd::prelude::*;
use crate::bytes::bytes_equal;
use crate::network::dns::{query_name, DNS_QUERY_NAME};
use crate::network::frame::NetworkError;

verus! {

/// `GET / HTTP/1.0` for `example.com`, with the connection to be closed.
pub const HTTP_REQUEST: [u8; 56] = [
    0x47, 0x45, 0x54, 0x20, 0x2f, 0x20, 0x48, 0x54, 0x54, 0x50, 0x2f, 0x31, 0x2e, 0x30, 0x0d, 0x0a,
    0x48, 0x6f, 0x73, 0x74, 0x3a, 0x20, 0x65, 0x78, 0x61, 0x6d, 0x70, 0x6c, 0x65, 0x2e, 0x63, 0x6f,
    0x6d, 0x0d, 0x0a, 0x43, 0x6f, 0x6e, 0x6e, 0x65, 0x63, 0x74, 0x69, 0x6f, 0x6e, 0x3a, 0x20, 0x63,
    0x6c, 0x6f, 0x73, 0x65, 0x0d, 0x0a, 0x0d, 0x0a,
];

/// `HTTP/1.1 200 OK` with the 24 bytes `codexOS listener online` and a newline.
pub const HTTP_LISTENER_RESPONSE: [u8; 108] = [
    0x48, 0x54, 0x54, 0x50, 0x2f, 0x31, 0x2e, 0x31, 0x20, 0x32, 0x30, 0x30, 0x20, 0x4f, 0x4b, 0x0d,
    0x0a, 0x43, 0x6f, 0x6e, 0x74, 0x65, 0x6e, 0x74, 0x2d, 0x54, 0x79, 0x70, 0x65, 0x3a, 0x20, 0x74,
    0x65, 0x78, 0x74, 0x2f, 0x70, 0x6c, 0x61, 0x69, 0x6e, 0x0d, 0x0a, 0x43, 0x6f, 0x6e, 0x74, 0x65,
    0x6e, 0x74, 0x2d, 0x4c, 0x65, 0x6e, 0x67, 0x74, 0x68, 0x3a, 0x20, 0x32, 0x34, 0x0d, 0x0a, 0x43,
    0x6f, 0x6e, 0x6e, 0x65, 0x63, 0x74, 0x69, 0x6f, 0x6e, 0x3a, 0x20, 0x63, 0x6c, 0x6f, 0x73, 0x65,
    0x0d, 0x0a, 0x0d, 0x0a, 0x63, 0x6f, 0x64, 0x65, 0x78, 0x4f, 0x53, 0x20, 0x6c, 0x69, 0x73, 0x74,
    0x65, 0x6e, 0x65, 0x72, 0x20, 0x6f, 0x6e, 0x6c, 0x69, 0x6e, 0x65, 0x0a,
];

/// `"GET /"`.
pub const GET_PREFIX: [u8; 5] = [0x47, 0x45, 0x54, 0x20, 0x2f];

/// `"HEAD /"`.
pub const HEAD_PREFIX: [u8; 6] = [0x48, 0x45, 0x41, 0x44, 0x20, 0x2f];

/// `"HTTP/"`.
pub const HTTP_PREFIX: [u8; 5] = [0x48, 0x54, 0x54, 0x50, 0x2f];

/// Whether `s` starts with `prefix`.
pub open spec fn begins_with(s: Seq<u8>, prefix: Seq<u8>) -> bool {
    prefix.len() <= s.len() && s.take(prefix.len() as int) == prefix
}

/// Whether the listener serves a request that starts like this.
pub open spec fn supported_request(payload: Seq<u8>) -> bool {
    begins_with(payload, GET_PREFIX@) || begins_with(payload, HEAD_PREFIX@)
}

/// A decimal digit.
pub open spec fn is_digit(byte: u8) -> bool {
    0x30 <= byte <= 0x39
}

/// The number that three digits from `at` on make.
pub open spec fn three_digits(s: Seq<u8>, at: int) -> int {
    (s[at] - 0x30) * 100 + (s[at + 1] - 0x30) * 10 + (s[at + 2] - 0x30)
}

/// The status that a response starts with, if it is one.
pub open spec fn status_of(payload: Seq<u8>) -> Option<u16> {
    if !begins_with(payload, HTTP_PREFIX@) || payload.len() < 12 || !is_digit(payload[9])
        || !is_digit(payload[10]) || !is_digit(payload[11]) {
        None
    } else if 100 <= three_digits(payload, 9) < 600 {
        Some(three_digits(payload, 9) as u16)
    } else {
        None
    }
}

/// Whether `bytes` starts with `prefix`.
fn starts_with(bytes: &[u8], prefix: &[u8]) -> (result: bool)
    ensures
        result == begins_with(bytes@, prefix@),
{
    if bytes.len() < prefix.len() {
        return false;
    }
    let head = &bytes[0..prefix.len()];
    assert(head@ =~= bytes@.take(prefix@.len() as int));
    bytes_equal(head, prefix)
}

/// Whether the listener serves this request.
pub fn is_supported_listener_request(payload: &[u8]) -> (result: bool)
    ensures
        result == supported_request(payload@),
{
    starts_with(payload, &GET_PREFIX) || starts_with(payload, &HEAD_PREFIX)
}

/// The status that a response starts with.
pub fn parse_http_status(payload: &[u8]) -> (status: Option<u16>)
    ensures
        status == status_of(payload@),
{
    if !starts_with(payload, &HTTP_PREFIX) || payload.len() < 12 {
        return None;
    }
    if payload[9] < 0x30 || payload[9] > 0x39 || payload[10] < 0x30 || payload[10] > 0x39
        || payload[11] < 0x30 || payload[11] > 0x39 {
        return None;
    }
    let value: u16 = (payload[9] - 0x30) as u16 * 100 + (payload[10] - 0x30) as u16 * 10 + (
    payload[11] - 0x30) as u16;
    if 100 <= value && value < 600 {
        Some(value)
    } else {
        None
    }
}

/// The request for a host; the system asks one host only.
pub fn http_request_for_host(host: &str) -> (result: Result<&'static [u8], NetworkError>)
    ensures
        match result {
            Ok(request) => vstd::utf8::encode_utf8(host@) == query_name() && request@ == HTTP_REQUEST@,
            Err(error) => vstd::utf8::encode_utf8(host@) != query_name() && error
                == NetworkError::HttpRejected,
        },
{
    if !bytes_equal(host.as_bytes(), &DNS_QUERY_NAME) {
        return Err(NetworkError::HttpRejected);
    }
    Ok(&HTTP_REQUEST)
}

/// What the listener sends is a response with status 200.
pub proof fn the_listener_answers_with_success()
    ensures
        status_of(HTTP_LISTENER_RESPONSE@) == Some(200u16),
{
    assert(HTTP_LISTENER_RESPONSE@.take(5) =~= HTTP_PREFIX@);
}

} // verus!
