//! Addresses of either family, alone and with a port.

use vstd::prelude::*;
use crate::addr::IpAddr;
use crate::ipv4::{ipv4_literal, parse_ipv4};
use crate::ipv6::{ipv6_literal, parse_ipv6};
use crate::number::{bounded_number, parse_number};
use crate::text::{head_to, last_index, last_index_of, tail_from};
use vstd::slice::slice_subrange;

verus! {

/// The port that `t` denotes: decimal digits that make a number up to 65535.
/// Zeros in front are accepted.
pub open spec fn port(t: Seq<char>) -> Option<u16> {
    match bounded_number(t, 10, 0xFFFF) {
        Some(n) => Some(n as u16),
        None => None,
    }
}

/// `t` begins with an opening and ends with a closing square bracket.
pub open spec fn is_bracketed(t: Seq<char>) -> bool {
    t.len() >= 2 && t[0] == '[' && t.last() == ']'
}

/// What stands between the first and the last character of `t`.
pub open spec fn inside(t: Seq<char>) -> Seq<char> {
    t.subrange(1, t.len() - 1)
}

/// The address that `t` denotes, whichever family it is of. A dotted quad is
/// an IPv4 address; anything else is read in colon-hexadecimal notation.
pub open spec fn ip_literal(t: Seq<char>) -> Option<IpAddr> {
    match ipv4_literal(t) {
        Some(a) => Some(IpAddr::V4(a)),
        None => match ipv6_literal(t) {
            Some(a) => Some(IpAddr::V6(a)),
            None => None,
        },
    }
}

/// The address that `t` denotes as the host of a socket address: a dotted
/// quad, or an IPv6 address in square brackets.
pub open spec fn host(t: Seq<char>) -> Option<IpAddr> {
    match ipv4_literal(t) {
        Some(a) => Some(IpAddr::V4(a)),
        None => if is_bracketed(t) {
            match ipv6_literal(inside(t)) {
                Some(a) => Some(IpAddr::V6(a)),
                None => None,
            }
        } else {
            None
        },
    }
}

/// The address and port that `t` denotes as a socket address: a host, a
/// colon and a port. Neither a dotted quad nor a port holds a colon, and a
/// bracketed address ends with its bracket, so the colon before the port is
/// the last one of `t`.
pub open spec fn socket_addr(t: Seq<char>) -> Option<(IpAddr, u16)> {
    match last_index(t, ':') {
        None => None,
        Some(i) => match (host(t.take(i)), port(t.skip(i + 1))) {
            (Some(a), Some(p)) => Some((a, p)),
            _ => None,
        },
    }
}

/// Reads a port.
pub fn parse_port(t: &[char]) -> (r: Option<u16>)
    ensures
        r == port(t@),
{
    match parse_number(t, 10, 0xFFFF) {
        Some(n) => Some(n as u16),
        None => None,
    }
}

/// Tells whether `t` stands in square brackets.
pub fn in_brackets(t: &[char]) -> (r: bool)
    ensures
        r == is_bracketed(t@),
{
    t.len() >= 2 && t[0] == '[' && t[t.len() - 1] == ']'
}

/// What stands between the brackets of `t`.
pub fn between_brackets(t: &[char]) -> (r: &[char])
    requires
        is_bracketed(t@),
    ensures
        r@ == inside(t@),
{
    slice_subrange(t, 1, t.len() - 1)
}

/// Reads an address of either family.
pub fn parse_ip(t: &[char]) -> (r: Option<IpAddr>)
    ensures
        r == ip_literal(t@),
{
    match parse_ipv4(t) {
        Some(a) => Some(IpAddr::V4(a)),
        None => match parse_ipv6(t) {
            Some(a) => Some(IpAddr::V6(a)),
            None => None,
        },
    }
}

/// Reads the host of a socket address.
pub fn parse_host(t: &[char]) -> (r: Option<IpAddr>)
    ensures
        r == host(t@),
{
    match parse_ipv4(t) {
        Some(a) => Some(IpAddr::V4(a)),
        None => {
            if in_brackets(t) {
                match parse_ipv6(between_brackets(t)) {
                    Some(a) => Some(IpAddr::V6(a)),
                    None => None,
                }
            } else {
                None
            }
        },
    }
}

/// Reads a socket address: an address with a port.
pub fn parse_socket_addr(t: &[char]) -> (r: Option<(IpAddr, u16)>)
    ensures
        r == socket_addr(t@),
{
    match last_index_of(t, ':') {
        None => None,
        Some(i) => {
            let a = parse_host(head_to(t, i));
            let p = parse_port(tail_from(t, i + 1));
            match (a, p) {
                (Some(a), Some(p)) => Some((a, p)),
                _ => None,
            }
        },
    }
}

} // verus!
