//! The endpoint parser: from loosely written text to an address and, where
//! one is given, a port.

use vstd::prelude::*;
use vstd::std_specs::convert::FromSpecImpl;
use crate::addr::{IpAddr, Ipv4Addr, Ipv6Addr};
use crate::chars::{char_is_tag, is_tag_char};
use crate::ipv4::{ipv4_text, push_ipv4};
use crate::ipv6::{ipv6_literal, ipv6_text, parse_ipv6, push_ipv6};
use crate::socket::{
    between_brackets,
    in_brackets,
    inside,
    ip_literal,
    is_bracketed,
    parse_ip,
    parse_socket_addr,
    socket_addr,
};
use crate::text::{
    find,
    find_in,
    first_index,
    has_char,
    head_to,
    index_of,
    string_of,
    strip_whitespace,
    tail_from,
    without_whitespace,
};

verus! {

/// An address, tagged by its family.
#[derive(Clone, Copy, Debug, PartialEq, Eq, Hash, Structural)]
pub enum IpVersion {
    V4(Ipv4Addr),
    V6(Ipv6Addr),
}

impl IpVersion {
    /// The address `addr`, tagged by its family.
    pub open spec fn of(addr: IpAddr) -> IpVersion {
        match addr {
            IpAddr::V4(v4) => IpVersion::V4(v4),
            IpAddr::V6(v6) => IpVersion::V6(v6),
        }
    }

    /// The address without its tag.
    pub open spec fn addr(self) -> IpAddr {
        match self {
            IpVersion::V4(v4) => IpAddr::V4(v4),
            IpVersion::V6(v6) => IpAddr::V6(v6),
        }
    }

    /// The canonical text of the address: a dotted quad for IPv4,
    /// colon-hexadecimal with the longest run of zeros left out for IPv6.
    /// It has no brackets, no port and no zone.
    pub open spec fn text(self) -> Seq<char> {
        match self {
            IpVersion::V4(v4) => ipv4_text(v4),
            IpVersion::V6(v6) => ipv6_text(v6),
        }
    }

    /// Writes the address in its canonical text.
    pub fn to_string(&self) -> (r: String)
        ensures
            r@ == self.text(),
    {
        let mut out: Vec<char> = Vec::new();
        match self {
            IpVersion::V4(v4) => push_ipv4(&mut out, v4),
            IpVersion::V6(v6) => push_ipv6(&mut out, v6),
        }
        let r = string_of("", out.as_slice());
        proof {
            reveal_strlit("");
            assert(""@ + out@ =~= out@);
        }
        r
    }
}

impl From<IpAddr> for IpVersion {
    /// Tags the address by its family.
    fn from(addr: IpAddr) -> (r: IpVersion) {
        match addr {
            IpAddr::V4(v4) => IpVersion::V4(v4),
            IpAddr::V6(v6) => IpVersion::V6(v6),
        }
    }
}

impl FromSpecImpl<IpAddr> for IpVersion {
    open spec fn obeys_from_spec() -> bool {
        true
    }

    open spec fn from_spec(addr: IpAddr) -> IpVersion {
        IpVersion::of(addr)
    }
}

impl From<IpVersion> for IpAddr {
    /// The address without the tag.
    fn from(version: IpVersion) -> (r: IpAddr) {
        match version {
            IpVersion::V4(v4) => IpAddr::V4(v4),
            IpVersion::V6(v6) => IpAddr::V6(v6),
        }
    }
}

impl FromSpecImpl<IpVersion> for IpAddr {
    open spec fn obeys_from_spec() -> bool {
        true
    }

    open spec fn from_spec(version: IpVersion) -> IpAddr {
        version.addr()
    }
}

/// What a parse gives: the address with its port, if it has one, or a
/// message that says why there is none.
pub type Parsed = Result<(IpVersion, Option<u16>), Seq<char>>;

/// The mark that ends a protocol scheme.
pub open spec fn scheme_mark() -> Seq<char> {
    seq![':', '/', '/']
}

/// `t` without a protocol scheme: what follows the first scheme mark, or all
/// of `t` where there is none. Nothing is asked of the scheme itself.
pub open spec fn without_scheme(t: Seq<char>) -> Seq<char> {
    match find(t, scheme_mark()) {
        Some(i) => t.skip(i + 3),
        None => t,
    }
}

/// `p` can be a socket-notation tag: one or more letters, digits and
/// underscores.
pub open spec fn is_tag(p: Seq<char>) -> bool {
    p.len() > 0 && forall|i: int| 0 <= i < p.len() ==> is_tag_char(#[trigger] p[i])
}

/// `a` looks like an address rather than a port: it holds a dot or a colon,
/// or begins with a square bracket.
pub open spec fn address_shaped(a: Seq<char>) -> bool {
    a.contains('.') || a.contains(':') || (a.len() > 0 && a[0] == '[')
}

/// `t` begins with a socket-notation tag: a tag stands before its first
/// colon, something address-shaped follows that colon, and `t` holds no
/// percent sign, which would make it a scoped address.
pub open spec fn has_tag(t: Seq<char>) -> bool {
    match first_index(t, ':') {
        Some(i) => is_tag(t.take(i)) && i < t.len() - 1 && !t.contains('%') && address_shaped(
            t.skip(i + 1),
        ),
        None => false,
    }
}

/// `t` without a socket-notation tag: what follows the first colon where `t`
/// begins with a tag, and all of `t` where it does not.
pub open spec fn without_tag(t: Seq<char>) -> Seq<char> {
    match first_index(t, ':') {
        Some(i) => if has_tag(t) {
            t.skip(i + 1)
        } else {
            t
        },
        None => t,
    }
}

/// The text that is read as an address: the input without white space,
/// without a protocol scheme and without a socket-notation tag, taken off in
/// this order.
pub open spec fn working_text(input: Seq<char>) -> Seq<char> {
    without_tag(without_scheme(without_whitespace(input)))
}

/// The message for text in brackets that is no IPv6 address.
pub open spec fn bracket_message(content: Seq<char>) -> Seq<char> {
    "Invalid IPv6 address in brackets: "@ + content
}

/// The message for text that is no address in any accepted form.
pub open spec fn invalid_message(text: Seq<char>) -> Seq<char> {
    "Invalid IP address: "@ + text
}

/// `t` is a scoped address: it holds a percent sign, and an IPv6 address
/// stands before the first one. What follows the sign names the zone, and
/// nothing is asked of it.
pub open spec fn scoped(t: Seq<char>) -> Option<Ipv6Addr> {
    match first_index(t, '%') {
        Some(i) => ipv6_literal(t.take(i)),
        None => None,
    }
}

/// What the working text `t` stands for. The forms are tried in this order,
/// and the first that fits decides:
/// a socket address gives its address and port;
/// text in square brackets gives the IPv6 address inside, and is an error
/// where there is none;
/// a scoped address gives the IPv6 address before the percent sign;
/// a bare address gives itself;
/// anything else is an error.
pub open spec fn resolved(t: Seq<char>) -> Parsed {
    match socket_addr(t) {
        Some((addr, port)) => Ok((IpVersion::of(addr), Some(port))),
        None => if is_bracketed(t) {
            match ipv6_literal(inside(t)) {
                Some(a) => Ok((IpVersion::V6(a), None)),
                None => Err(bracket_message(inside(t))),
            }
        } else {
            match scoped(t) {
                Some(a) => Ok((IpVersion::V6(a), None)),
                None => match ip_literal(t) {
                    Some(addr) => Ok((IpVersion::of(addr), None)),
                    None => Err(invalid_message(t)),
                },
            }
        },
    }
}

/// What `input` stands for: an address with its port, if it has one, or the
/// reason why it stands for none.
pub open spec fn parsed(input: Seq<char>) -> Parsed {
    resolved(working_text(input))
}

/// A result as the contracts speak of it, the message by its characters.
pub open spec fn outcome(r: Result<(IpVersion, Option<u16>), String>) -> Parsed {
    match r {
        Ok(v) => Ok(v),
        Err(e) => Err(e@),
    }
}

/// Takes a protocol scheme off the front of `t`, if there is one.
pub fn strip_scheme(t: &[char]) -> (r: &[char])
    ensures
        r@ == without_scheme(t@),
{
    let mark: [char; 3] = [':', '/', '/'];
    assert(mark@ =~= scheme_mark());
    match find_in(t, mark.as_slice()) {
        Some(i) => tail_from(t, i + 3),
        None => t,
    }
}

/// Tells whether `p` can be a socket-notation tag.
pub fn can_be_tag(p: &[char]) -> (r: bool)
    ensures
        r == is_tag(p@),
{
    if p.len() == 0 {
        return false;
    }
    let mut i: usize = 0;
    while i < p.len()
        invariant
            i <= p.len(),
            forall|j: int| 0 <= j < i ==> is_tag_char(#[trigger] p@[j]),
        decreases p.len() - i,
    {
        if !char_is_tag(p[i]) {
            return false;
        }
        i += 1;
    }
    true
}

/// Tells whether `a` looks like an address rather than a port.
pub fn looks_like_address(a: &[char]) -> (r: bool)
    ensures
        r == address_shaped(a@),
{
    has_char(a, '.') || has_char(a, ':') || (a.len() > 0 && a[0] == '[')
}

/// Takes a socket-notation tag off the front of `t`, if there is one.
pub fn strip_tag(t: &[char]) -> (r: &[char])
    ensures
        r@ == without_tag(t@),
{
    match index_of(t, ':') {
        Some(i) => {
            if can_be_tag(head_to(t, i)) && i < t.len() - 1 && !has_char(t, '%') {
                let rest = tail_from(t, i + 1);
                if looks_like_address(rest) {
                    return rest;
                }
            }
            t
        },
        None => t,
    }
}

/// Reads a scoped address: an IPv6 address, a percent sign and a zone.
pub fn parse_scoped(t: &[char]) -> (r: Option<Ipv6Addr>)
    ensures
        r == scoped(t@),
{
    match index_of(t, '%') {
        Some(i) => parse_ipv6(head_to(t, i)),
        None => None,
    }
}

/// Reads working text: text from which white space, scheme and tag have
/// been taken off.
pub fn resolve(t: &[char]) -> (r: Result<(IpVersion, Option<u16>), String>)
    ensures
        outcome(r) == resolved(t@),
{
    if let Some((addr, port)) = parse_socket_addr(t) {
        return Ok((IpVersion::from(addr), Some(port)));
    }
    if in_brackets(t) {
        let content = between_brackets(t);
        return match parse_ipv6(content) {
            Some(a) => Ok((IpVersion::V6(a), None)),
            None => Err(string_of("Invalid IPv6 address in brackets: ", content)),
        };
    }
    if let Some(a) = parse_scoped(t) {
        return Ok((IpVersion::V6(a), None));
    }
    match parse_ip(t) {
        Some(addr) => Ok((IpVersion::from(addr), None)),
        None => Err(string_of("Invalid IP address: ", t)),
    }
}

/// Reads an endpoint: an IP address, with a port where one is given.
///
/// White space anywhere in `input` is ignored. A protocol scheme in front
/// (`http://`) and a socket-notation tag (`tcp4:`) are taken off. What is
/// left is read as an address with a port (`10.0.0.1:80`, `[::1]:80`), as an
/// IPv6 address in brackets, as a scoped IPv6 address, whose zone is dropped,
/// or as a bare address. The port is `None` where the text gives none.
pub fn parse(input: &str) -> (r: Result<(IpVersion, Option<u16>), String>)
    ensures
        outcome(r) == parsed(input@),
{
    let nospace = strip_whitespace(input);
    let text = strip_tag(strip_scheme(nospace.as_slice()));
    resolve(text)
}

} // verus!
