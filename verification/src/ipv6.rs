//! IPv6 addresses in colon-hexadecimal notation.

use vstd::prelude::*;
use vstd::slice::slice_subrange;
use crate::addr::{Ipv4Addr, Ipv6Addr};
use crate::ipv4::{ipv4_literal, ipv4_text, parse_ipv4, push_ipv4};
use crate::number::{bounded_number, numeral, parse_number, push_numeral};
use crate::text::{
    find,
    find_in,
    head_to,
    index_of,
    lemma_split_at_first,
    lemma_split_pieces,
    lemma_split_whole,
    split,
    tail_from,
};

verus! {

/// The segment that `t` denotes: one to four hexadecimal digits.
pub open spec fn hex_group(t: Seq<char>) -> Option<u16> {
    if t.len() <= 4 {
        match bounded_number(t, 16, 0xFFFF) {
            Some(n) => Some(n as u16),
            None => None,
        }
    } else {
        None
    }
}

/// The pieces of `t` between its colons. Text of no characters has no piece.
pub open spec fn pieces(t: Seq<char>) -> Seq<Seq<char>> {
    if t.len() == 0 {
        Seq::empty()
    } else {
        split(t, ':')
    }
}

/// The segments that the pieces `p` denote, where each of them is a
/// hexadecimal group.
pub open spec fn hex_groups(p: Seq<Seq<char>>) -> Option<Seq<u16>>
    decreases p.len(),
{
    if p.len() == 0 {
        Some(Seq::empty())
    } else {
        match (hex_groups(p.drop_last()), hex_group(p.last())) {
            (Some(g), Some(x)) => Some(g.push(x)),
            _ => None,
        }
    }
}

/// The two segments that an embedded IPv4 address fills.
pub open spec fn v4_segments(q: Ipv4Addr) -> Seq<u16> {
    seq![(q.a as int * 256 + q.b as int) as u16, (q.c as int * 256 + q.d as int) as u16]
}

/// The segments that the pieces `p` denote. Each piece is a hexadecimal
/// group; where `v4_tail` allows it, the last piece may instead be a dotted
/// quad, which stands for two segments.
pub open spec fn segments(p: Seq<Seq<char>>, v4_tail: bool) -> Option<Seq<u16>> {
    if p.len() == 0 {
        Some(Seq::empty())
    } else {
        match hex_groups(p.drop_last()) {
            None => None,
            Some(g) => match hex_group(p.last()) {
                Some(x) => Some(g.push(x)),
                None => if v4_tail {
                    match ipv4_literal(p.last()) {
                        Some(q) => Some(g + v4_segments(q)),
                        None => None,
                    }
                } else {
                    None
                },
            },
        }
    }
}

/// `n` segments of zero.
pub open spec fn zeros(n: int) -> Seq<u16> {
    Seq::new(n as nat, |i: int| 0u16)
}

/// The two colons that stand for a run of zero segments.
pub open spec fn gap() -> Seq<char> {
    seq![':', ':']
}

/// The address that `s` denotes in colon-hexadecimal notation.
///
/// Without a double colon, `s` is eight segments with colons between them.
/// With one, the segments before the first double colon and those after it
/// are at most seven, and zero segments fill the place between them. In
/// either form a dotted quad may stand for the last two segments.
pub open spec fn ipv6_literal(s: Seq<char>) -> Option<Ipv6Addr> {
    match find(s, gap()) {
        None => match segments(pieces(s), true) {
            Some(g) => if g.len() == 8 {
                Some(Ipv6Addr::of(g))
            } else {
                None
            },
            None => None,
        },
        Some(i) => match (segments(pieces(s.take(i)), false), segments(pieces(s.skip(i + 2)), true)) {
            (Some(h), Some(t)) => if h.len() + t.len() <= 7 {
                Some(Ipv6Addr::of(h + zeros(8 - h.len() - t.len()) + t))
            } else {
                None
            },
            _ => None,
        },
    }
}

/// `hex_groups` succeeds where every piece is a group, and then gives their
/// values in order.
pub proof fn lemma_hex_groups(p: Seq<Seq<char>>)
    ensures
        match hex_groups(p) {
            Some(g) => g.len() == p.len() && forall|i: int|
                0 <= i < p.len() ==> hex_group(#[trigger] p[i]) == Some(g[i]),
            None => exists|i: int| 0 <= i < p.len() && hex_group(#[trigger] p[i]) is None,
        },
    decreases p.len(),
{
    if p.len() > 0 {
        let q = p.drop_last();
        lemma_hex_groups(q);
        match hex_groups(q) {
            Some(g) => {
                match hex_group(p.last()) {
                    Some(x) => {
                        assert forall|i: int| 0 <= i < p.len() implies hex_group(#[trigger] p[i])
                            == Some(g.push(x)[i]) by {
                            if i < q.len() {
                                assert(p[i] == q[i]);
                            }
                        }
                    },
                    None => {
                        assert(hex_group(p[p.len() - 1]) is None);
                    },
                }
            },
            None => {
                let i = choose|i: int| 0 <= i < q.len() && hex_group(#[trigger] q[i]) is None;
                assert(p[i] == q[i]);
            },
        }
    }
}

/// Where every piece is a group, `hex_groups` gives their values.
pub proof fn lemma_hex_groups_are(p: Seq<Seq<char>>, g: Seq<u16>)
    requires
        g.len() == p.len(),
        forall|i: int| 0 <= i < p.len() ==> hex_group(#[trigger] p[i]) == Some(g[i]),
    ensures
        hex_groups(p) == Some(g),
{
    lemma_hex_groups(p);
    match hex_groups(p) {
        Some(h) => {
            assert forall|i: int| 0 <= i < h.len() implies h[i] == g[i] by {
                assert(hex_group(p[i]) == Some(h[i]));
            }
            assert(h =~= g);
        },
        None => {},
    }
}

/// Reads one hexadecimal group.
pub fn parse_hex_group(t: &[char]) -> (r: Option<u16>)
    ensures
        r == hex_group(t@),
{
    if t.len() > 4 {
        return None;
    }
    match parse_number(t, 16, 0xFFFF) {
        Some(n) => Some(n as u16),
        None => None,
    }
}

/// Reads segments with colons between them.
pub fn parse_segments(t: &[char], v4_tail: bool) -> (r: Option<Vec<u16>>)
    ensures
        match r {
            Some(v) => segments(pieces(t@), v4_tail) == Some(v@),
            None => segments(pieces(t@), v4_tail) is None,
        },
{
    let mut out: Vec<u16> = Vec::new();
    if t.len() == 0 {
        return Some(out);
    }
    let ghost parts = split(t@, ':');
    let ghost mut done: Seq<Seq<char>> = Seq::empty();
    let mut rest: &[char] = t;
    proof {
        lemma_split_pieces(t@, ':');
        assert(parts =~= done + split(rest@, ':'));
    }
    loop
        invariant
            parts == pieces(t@),
            parts == done + split(rest@, ':'),
            done.len() == out@.len(),
            forall|i: int| 0 <= i < done.len() ==> hex_group(#[trigger] done[i]) == Some(out@[i]),
        decreases rest@.len(),
    {
        match index_of(rest, ':') {
            Some(i) => {
                let piece = head_to(rest, i);
                let after = tail_from(rest, i + 1);
                proof {
                    lemma_split_at_first(rest@, ':', i as int);
                    lemma_split_pieces(after@, ':');
                    assert(parts =~= done.push(piece@) + split(after@, ':'));
                    assert(parts[done.len() as int] == piece@);
                    assert(parts.drop_last()[done.len() as int] == piece@);
                }
                match parse_hex_group(piece) {
                    None => {
                        proof {
                            lemma_hex_groups(parts.drop_last());
                        }
                        return None;
                    },
                    Some(x) => {
                        out.push(x);
                    },
                }
                proof {
                    done = done.push(piece@);
                }
                rest = after;
            },
            None => {
                proof {
                    lemma_split_whole(rest@, ':');
                    assert(parts =~= done.push(rest@));
                    assert(parts.drop_last() =~= done);
                    lemma_hex_groups_are(done, out@);
                }
                match parse_hex_group(rest) {
                    Some(x) => {
                        out.push(x);
                        return Some(out);
                    },
                    None => {
                        if !v4_tail {
                            return None;
                        }
                        match parse_ipv4(rest) {
                            None => {
                                return None;
                            },
                            Some(q) => {
                                let hi: u16 = (q.a as u16) * 256 + (q.b as u16);
                                let lo: u16 = (q.c as u16) * 256 + (q.d as u16);
                                let ghost before = out@;
                                out.push(hi);
                                out.push(lo);
                                assert(out@ =~= before + v4_segments(q));
                                return Some(out);
                            },
                        }
                    },
                }
            },
        }
    }
}

/// Reads an address in colon-hexadecimal notation.
pub fn parse_ipv6(s: &[char]) -> (r: Option<Ipv6Addr>)
    ensures
        r == ipv6_literal(s@),
{
    let pat: [char; 2] = [':', ':'];
    assert(pat@ =~= gap());
    match find_in(s, pat.as_slice()) {
        None => {
            match parse_segments(s, true) {
                None => None,
                Some(g) => {
                    if g.len() == 8 {
                        let r = Ipv6Addr::new(g[0], g[1], g[2], g[3], g[4], g[5], g[6], g[7]);
                        Some(r)
                    } else {
                        None
                    }
                },
            }
        },
        Some(i) => {
            let head = parse_segments(head_to(s, i), false);
            let tail = parse_segments(tail_from(s, i + 2), true);
            match (head, tail) {
                (Some(h), Some(t)) => {
                    if h.len() > 7 || t.len() > 7 - h.len() {
                        return None;
                    }
                    let mut g: [u16; 8] = [0; 8];
                    let ghost want = h@ + zeros(8 - h@.len() - t@.len()) + t@;
                    let mut k: usize = 0;
                    while k < h.len()
                        invariant
                            k <= h.len(),
                            h.len() + t.len() <= 7,
                            want == h@ + zeros(8 - h@.len() - t@.len()) + t@,
                            forall|j: int| 0 <= j < k ==> g@[j] == want[j],
                            forall|j: int| k <= j < 8 ==> g@[j] == 0,
                        decreases h.len() - k,
                    {
                        g[k] = h[k];
                        k += 1;
                    }
                    let base: usize = 8 - t.len();
                    let mut m: usize = 0;
                    while m < t.len()
                        invariant
                            m <= t.len(),
                            h.len() + t.len() <= 7,
                            base == 8 - t.len(),
                            want == h@ + zeros(8 - h@.len() - t@.len()) + t@,
                            forall|j: int| 0 <= j < base + m ==> g@[j] == want[j],
                            forall|j: int| base + m <= j < 8 ==> g@[j] == 0,
                        decreases t.len() - m,
                    {
                        g[base + m] = t[m];
                        m += 1;
                    }
                    assert(g@ =~= want);
                    Some(Ipv6Addr::from_segments(&g))
                },
                _ => None,
            }
        },
    }
}

/// The segments `g` in hexadecimal, lower case and without zeros in front,
/// with colons between them.
pub open spec fn hex_join(g: Seq<u16>) -> Seq<char>
    decreases g.len(),
{
    if g.len() == 0 {
        Seq::empty()
    } else if g.len() == 1 {
        numeral(g[0] as nat, 16)
    } else {
        numeral(g[0] as nat, 16) + seq![':'] + hex_join(g.drop_first())
    }
}

/// How many zero segments follow one another in `g` from position `i` on.
pub open spec fn zeros_from(g: Seq<u16>, i: int) -> int
    decreases g.len() - i,
{
    if 0 <= i < g.len() && g[i] == 0 {
        1 + zeros_from(g, i + 1)
    } else {
        0
    }
}

/// Where the longest run of zero segments of `g` begins among the positions
/// from `i` on, and how long it is. Of several longest runs it is the first.
/// The length is 0 where no segment from `i` on is zero.
pub open spec fn longest_zeros(g: Seq<u16>, i: int) -> (int, int)
    decreases g.len() - i,
{
    if i < 0 || i >= g.len() {
        (0, 0)
    } else {
        let later = longest_zeros(g, i + 1);
        let here = zeros_from(g, i);
        if here > 0 && here >= later.1 {
            (i, here)
        } else {
            later
        }
    }
}

/// `x` is an IPv4 address mapped into IPv6: five zero segments, then `ffff`.
pub open spec fn is_v4_mapped(x: Ipv6Addr) -> bool {
    x.a == 0 && x.b == 0 && x.c == 0 && x.d == 0 && x.e == 0 && x.f == 0xFFFF
}

/// The IPv4 address in the last two segments of `x`.
pub open spec fn embedded_v4(x: Ipv6Addr) -> Ipv4Addr {
    Ipv4Addr {
        a: (x.g / 256) as u8,
        b: (x.g % 256) as u8,
        c: (x.h / 256) as u8,
        d: (x.h % 256) as u8,
    }
}

/// The canonical text for `x`.
///
/// A mapped IPv4 address is written as `::ffff:` and a dotted quad. Any
/// other address is written in hexadecimal segments, and the longest run of
/// two or more zero segments, the first of them where several are as long,
/// is written as a double colon.
pub open spec fn ipv6_text(x: Ipv6Addr) -> Seq<char> {
    if is_v4_mapped(x) {
        gap() + numeral(0xFFFF, 16) + seq![':'] + ipv4_text(embedded_v4(x))
    } else {
        let run = longest_zeros(x@, 0);
        if run.1 >= 2 {
            hex_join(x@.take(run.0)) + gap() + hex_join(x@.skip(run.0 + run.1))
        } else {
            hex_join(x@)
        }
    }
}

/// Appends the segments `g`, in hexadecimal with colons between them, to
/// `out`.
pub fn push_hex_join(out: &mut Vec<char>, g: &[u16])
    ensures
        final(out)@ == old(out)@ + hex_join(g@),
{
    let mut i: usize = 0;
    proof {
        assert(g@.skip(0) =~= g@);
        assert(out@ + hex_join(g@) =~= old(out)@ + hex_join(g@));
    }
    while i < g.len()
        invariant
            i <= g.len(),
            old(out)@ + hex_join(g@) == out@ + (if 0 < i < g.len() {
                seq![':']
            } else {
                Seq::<char>::empty()
            }) + hex_join(g@.skip(i as int)),
        decreases g.len() - i,
    {
        let ghost rest = g@.skip(i as int);
        let ghost before = out@;
        let ghost sep = if 0 < i {
            seq![':']
        } else {
            Seq::<char>::empty()
        };
        if i > 0 {
            out.push(':');
        }
        push_numeral(out, g[i] as u32, 16);
        proof {
            assert(rest.drop_first() =~= g@.skip(i + 1));
            assert(rest[0] == g@[i as int]);
            let word = numeral(g@[i as int] as nat, 16);
            assert(out@ =~= before + sep + word);
            if rest.len() == 1 {
                assert(hex_join(rest) == word);
                assert(hex_join(g@.skip(i + 1)) =~= Seq::<char>::empty());
                assert(before + sep + hex_join(rest) =~= out@ + Seq::<char>::empty() + hex_join(
                    g@.skip(i + 1),
                ));
            } else {
                assert(hex_join(rest) == word + seq![':'] + hex_join(g@.skip(i + 1)));
                assert(before + sep + hex_join(rest) =~= out@ + seq![':'] + hex_join(
                    g@.skip(i + 1),
                ));
            }
        }
        i += 1;
    }
    proof {
        assert(hex_join(g@.skip(g@.len() as int)) =~= Seq::<char>::empty());
        assert(out@ + Seq::<char>::empty() + Seq::<char>::empty() =~= out@);
    }
}

/// Finds the longest run of zero segments of `g`: where it begins and how
/// long it is.
pub fn find_longest_zeros(g: &[u16; 8]) -> (r: (usize, usize))
    ensures
        (r.0 as int, r.1 as int) == longest_zeros(g@, 0),
        r.0 + r.1 <= 8,
{
    let mut i: usize = 8;
    let mut here: usize = 0;
    let mut start: usize = 0;
    let mut len: usize = 0;
    while i > 0
        invariant
            i <= 8,
            here == zeros_from(g@, i as int),
            (start as int, len as int) == longest_zeros(g@, i as int),
            here <= 8 - i,
            start + len <= 8,
        decreases i,
    {
        i -= 1;
        if g[i] == 0 {
            here += 1;
        } else {
            here = 0;
        }
        if here > 0 && here >= len {
            start = i;
            len = here;
        }
    }
    (start, len)
}

/// Appends the canonical text for `x` to `out`.
pub fn push_ipv6(out: &mut Vec<char>, x: &Ipv6Addr)
    ensures
        final(out)@ == old(out)@ + ipv6_text(*x),
{
    let g = x.segments();
    if g[0] == 0 && g[1] == 0 && g[2] == 0 && g[3] == 0 && g[4] == 0 && g[5] == 0xFFFF {
        out.push(':');
        out.push(':');
        push_numeral(out, 0xFFFF, 16);
        out.push(':');
        let q = Ipv4Addr::new(
            (g[6] / 256) as u8,
            (g[6] % 256) as u8,
            (g[7] / 256) as u8,
            (g[7] % 256) as u8,
        );
        push_ipv4(out, &q);
        assert(out@ =~= old(out)@ + ipv6_text(*x));
    } else {
        let (start, len) = find_longest_zeros(&g);
        if len >= 2 {
            push_hex_join(out, slice_subrange(g.as_slice(), 0, start));
            out.push(':');
            out.push(':');
            push_hex_join(out, slice_subrange(g.as_slice(), start + len, 8));
            assert(out@ =~= old(out)@ + ipv6_text(*x));
        } else {
            push_hex_join(out, g.as_slice());
        }
    }
}

} // verus!
