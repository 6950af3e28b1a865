//! Address values: the four octets of an IPv4 address, the eight segments of
//! an IPv6 address, and an address of either family.

use vstd::prelude::*;

verus! {

/// An IPv4 address, by its four octets in the order in which they are
/// written.
#[derive(Clone, Copy, Debug, PartialEq, Eq, Hash, Structural)]
pub struct Ipv4Addr {
    pub a: u8,
    pub b: u8,
    pub c: u8,
    pub d: u8,
}

/// An IPv6 address, by its eight 16-bit segments in the order in which they
/// are written.
#[derive(Clone, Copy, Debug, PartialEq, Eq, Hash, Structural)]
pub struct Ipv6Addr {
    pub a: u16,
    pub b: u16,
    pub c: u16,
    pub d: u16,
    pub e: u16,
    pub f: u16,
    pub g: u16,
    pub h: u16,
}

/// An address of either family.
#[derive(Clone, Copy, Debug, PartialEq, Eq, Hash, Structural)]
pub enum IpAddr {
    V4(Ipv4Addr),
    V6(Ipv6Addr),
}

impl View for Ipv4Addr {
    type V = Seq<u8>;

    /// The four octets.
    open spec fn view(&self) -> Seq<u8> {
        seq![self.a, self.b, self.c, self.d]
    }
}

impl View for Ipv6Addr {
    type V = Seq<u16>;

    /// The eight segments.
    open spec fn view(&self) -> Seq<u16> {
        seq![self.a, self.b, self.c, self.d, self.e, self.f, self.g, self.h]
    }
}

impl Ipv4Addr {
    /// The address with the octets `o`, which are four.
    pub open spec fn of(o: Seq<u8>) -> Ipv4Addr {
        Ipv4Addr { a: o[0], b: o[1], c: o[2], d: o[3] }
    }

    /// The address `a.b.c.d`.
    pub fn new(a: u8, b: u8, c: u8, d: u8) -> (r: Ipv4Addr)
        ensures
            r == (Ipv4Addr { a, b, c, d }),
            r@ == seq![a, b, c, d],
    {
        Ipv4Addr { a, b, c, d }
    }

    /// The four octets, first to last.
    pub fn octets(&self) -> (r: [u8; 4])
        ensures
            r@ == self@,
    {
        let r = [self.a, self.b, self.c, self.d];
        assert(r@ =~= self@);
        r
    }
}

impl Ipv6Addr {
    /// The address with the segments `g`, which are eight.
    pub open spec fn of(g: Seq<u16>) -> Ipv6Addr {
        Ipv6Addr { a: g[0], b: g[1], c: g[2], d: g[3], e: g[4], f: g[5], g: g[6], h: g[7] }
    }

    /// The address with the segments `a` to `h`.
    pub fn new(a: u16, b: u16, c: u16, d: u16, e: u16, f: u16, g: u16, h: u16) -> (r: Ipv6Addr)
        ensures
            r == (Ipv6Addr { a, b, c, d, e, f, g, h }),
            r@ == seq![a, b, c, d, e, f, g, h],
    {
        Ipv6Addr { a, b, c, d, e, f, g, h }
    }

    /// The address with the eight segments of `g`.
    pub fn from_segments(g: &[u16; 8]) -> (r: Ipv6Addr)
        ensures
            r == Ipv6Addr::of(g@),
            r@ == g@,
    {
        let r = Ipv6Addr {
            a: g[0],
            b: g[1],
            c: g[2],
            d: g[3],
            e: g[4],
            f: g[5],
            g: g[6],
            h: g[7],
        };
        assert(r@ =~= g@);
        r
    }

    /// The eight segments, first to last.
    pub fn segments(&self) -> (r: [u16; 8])
        ensures
            r@ == self@,
    {
        let r = [self.a, self.b, self.c, self.d, self.e, self.f, self.g, self.h];
        assert(r@ =~= self@);
        r
    }
}

/// An address is the one that its own segments make.
pub proof fn lemma_ipv6_of_view(x: Ipv6Addr)
    ensures
        Ipv6Addr::of(x@) == x,
{
}

} // verus!
