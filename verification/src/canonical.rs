//! The canonical text of an address reads back as that address.

use vstd::prelude::*;
use crate::addr::{lemma_ipv6_of_view, Ipv4Addr, Ipv6Addr};
use crate::chars::is_digit;
use crate::ipv4::{ipv4_text, lemma_ipv4_text_reads_back};
use crate::ipv6::{
    embedded_v4,
    gap,
    hex_group,
    hex_groups,
    hex_join,
    ipv6_literal,
    ipv6_text,
    is_v4_mapped,
    lemma_hex_groups_are,
    longest_zeros,
    pieces,
    segments,
    v4_segments,
    zeros,
    zeros_from,
};
use crate::number::{lemma_numeral, lemma_numeral_len, numeral};
use crate::text::{
    find,
    lacks,
    lemma_find,
    lemma_find_is,
    lemma_split_joined,
    lemma_split_whole,
    occurs_at,
    split,
};

verus! {

/// A character that the canonical text of an address can hold: a
/// hexadecimal digit, a colon or a dot.
pub open spec fn is_address_char(c: char) -> bool {
    is_digit(c, 16) || c == ':' || c == '.'
}

/// Every character of `s` can stand in the canonical text of an address.
pub open spec fn is_address_text(s: Seq<char>) -> bool {
    forall|i: int| 0 <= i < s.len() ==> is_address_char(#[trigger] s[i])
}

/// Text of hexadecimal digits and single colons that begins and ends with a
/// digit.
pub open spec fn is_joined(s: Seq<char>) -> bool {
    &&& s.len() > 0
    &&& is_digit(s[0], 16)
    &&& is_digit(s.last(), 16)
    &&& forall|i: int| 0 <= i < s.len() ==> #[trigger] s[i] == ':' || is_digit(s[i], 16)
    &&& forall|i: int| 0 <= i < s.len() - 1 && #[trigger] s[i] == ':' ==> s[i + 1] != ':'
}

/// A segment written in hexadecimal reads back as itself.
pub proof fn lemma_hex_group_numeral(n: u16)
    ensures
        hex_group(numeral(n as nat, 16)) == Some(n),
        is_joined(numeral(n as nat, 16)),
        lacks(numeral(n as nat, 16), ':'),
{
    lemma_numeral(n as nat, 16);
    assert(vstd::arithmetic::power::pow(16, 4) == 65536) by {
        reveal_with_fuel(vstd::arithmetic::power::pow, 5);
    }
    lemma_numeral_len(n as nat, 16, 4);
}

/// A dotted quad is made of decimal digits and dots, and holds a dot.
pub proof fn lemma_ipv4_text_chars(q: Ipv4Addr)
    ensures
        is_address_text(ipv4_text(q)),
        lacks(ipv4_text(q), ':'),
        ipv4_text(q).contains('.'),
        ipv4_text(q).len() > 0,
        is_digit(ipv4_text(q)[0], 10),
{
    let a = numeral(q.a as nat, 10);
    let b = numeral(q.b as nat, 10);
    let c = numeral(q.c as nat, 10);
    let d = numeral(q.d as nat, 10);
    lemma_numeral(q.a as nat, 10);
    lemma_numeral(q.b as nat, 10);
    lemma_numeral(q.c as nat, 10);
    lemma_numeral(q.d as nat, 10);
    let s = ipv4_text(q);
    assert(s == a + seq!['.'] + b + seq!['.'] + c + seq!['.'] + d);
    assert forall|i: int| 0 <= i < s.len() implies (is_digit(#[trigger] s[i], 10) || s[i] == '.') by {
        if i < a.len() {
            assert(s[i] == a[i]);
        } else if i == a.len() {
        } else if i < a.len() + 1 + b.len() {
            assert(s[i] == b[i - a.len() - 1]);
        } else if i == a.len() + 1 + b.len() {
        } else if i < a.len() + 1 + b.len() + 1 + c.len() {
            assert(s[i] == c[i - a.len() - 1 - b.len() - 1]);
        } else if i == a.len() + 1 + b.len() + 1 + c.len() {
        } else {
            assert(s[i] == d[i - a.len() - 1 - b.len() - 1 - c.len() - 1]);
        }
    }
    assert(s[a.len() as int] == '.');
    assert(s[0] == a[0]);
}

/// The segments of `g` joined by colons: the pieces between the colons are
/// the segments in hexadecimal.
pub proof fn lemma_hex_join(g: Seq<u16>)
    requires
        g.len() >= 1,
    ensures
        is_joined(hex_join(g)),
        split(hex_join(g), ':').len() == g.len(),
        forall|i: int|
            0 <= i < g.len() ==> #[trigger] split(hex_join(g), ':')[i] == numeral(g[i] as nat, 16),
    decreases g.len(),
{
    let w = numeral(g[0] as nat, 16);
    lemma_hex_group_numeral(g[0]);
    lemma_numeral(g[0] as nat, 16);
    if g.len() == 1 {
        lemma_split_whole(w, ':');
    } else {
        let rest = g.drop_first();
        let r = hex_join(rest);
        lemma_hex_join(rest);
        lemma_split_joined(w, ':', r);
        let s = hex_join(g);
        assert(s == w + seq![':'] + r);
        assert forall|i: int| 0 <= i < g.len() implies #[trigger] split(s, ':')[i] == numeral(
            g[i] as nat,
            16,
        ) by {
            if i > 0 {
                assert(split(s, ':')[i] == split(r, ':')[i - 1]);
                assert(rest[i - 1] == g[i]);
            }
        }
        assert(s[0] == w[0]);
        assert(s.last() == r.last());
        assert forall|i: int| 0 <= i < s.len() implies #[trigger] s[i] == ':' || is_digit(
            s[i],
            16,
        ) by {
            if i < w.len() {
                assert(s[i] == w[i]);
            } else if i > w.len() {
                assert(s[i] == r[i - w.len() - 1]);
            }
        }
        assert forall|i: int| 0 <= i < s.len() - 1 && #[trigger] s[i] == ':' implies s[i + 1]
            != ':' by {
            if i < w.len() {
                assert(s[i] == w[i]);
            } else if i == w.len() {
                assert(s[i + 1] == r[0]);
            } else {
                assert(s[i] == r[i - w.len() - 1]);
                assert(s[i + 1] == r[i - w.len()]);
            }
        }
    }
}

/// Segments joined by colons read back as the same segments.
pub proof fn lemma_hex_join_segments(g: Seq<u16>, v4_tail: bool)
    ensures
        segments(pieces(hex_join(g)), v4_tail) == Some(g),
        g.len() == 0 ==> hex_join(g).len() == 0,
{
    if g.len() > 0 {
        lemma_hex_join(g);
        let p = split(hex_join(g), ':');
        assert(pieces(hex_join(g)) == p);
        let init = p.drop_last();
        let ginit = g.drop_last();
        assert forall|i: int| 0 <= i < init.len() implies hex_group(#[trigger] init[i]) == Some(
            ginit[i],
        ) by {
            assert(init[i] == p[i]);
            lemma_hex_group_numeral(g[i]);
        }
        lemma_hex_groups_are(init, ginit);
        assert(p.last() == p[g.len() - 1]);
        lemma_hex_group_numeral(g[g.len() - 1]);
        assert(ginit.push(g.last()) =~= g);
    }
}

/// Where the double colon stands in text, the two characters are colons.
pub proof fn lemma_gap_at(s: Seq<char>, j: int)
    ensures
        occurs_at(s, gap(), j) <==> (0 <= j && j + 2 <= s.len() && s[j] == ':' && s[j + 1] == ':'),
{
    if 0 <= j && j + 2 <= s.len() {
        let sub = s.subrange(j, j + 2);
        assert(sub[0] == s[j]);
        assert(sub[1] == s[j + 1]);
        assert(gap()[0] == ':');
        assert(gap()[1] == ':');
        if s[j] == ':' && s[j + 1] == ':' {
            assert(sub =~= gap());
        }
    }
}

/// Joined text holds no double colon.
pub proof fn lemma_joined_no_gap(s: Seq<char>)
    requires
        is_joined(s),
    ensures
        find(s, gap()) is None,
{
    lemma_find(s, gap());
    match find(s, gap()) {
        Some(j) => {
            lemma_gap_at(s, j);
        },
        None => {},
    }
}

/// A double colon behind joined text, or behind nothing, is the first one.
pub proof fn lemma_gap_found(h: Seq<char>, rest: Seq<char>)
    requires
        h.len() == 0 || is_joined(h),
    ensures
        find(h + gap() + rest, gap()) == Some(h.len() as int),
        (h + gap() + rest).take(h.len() as int) == h,
        (h + gap() + rest).skip(h.len() as int + 2) == rest,
{
    let s = h + gap() + rest;
    let n = h.len() as int;
    assert(s.take(n) =~= h);
    assert(s.skip(n + 2) =~= rest);
    assert(s[n] == ':');
    assert(s[n + 1] == ':');
    lemma_gap_at(s, n);
    assert forall|j: int| 0 <= j < n implies !occurs_at(s, gap(), j) by {
        lemma_gap_at(s, j);
        assert(s[j] == h[j]);
        if j + 1 < n {
            assert(s[j + 1] == h[j + 1]);
        }
    }
    lemma_find_is(s, gap(), n);
}

/// A run of zeros lies within the segments, and its segments are zero.
pub proof fn lemma_zeros_from(g: Seq<u16>, i: int)
    requires
        0 <= i,
    ensures
        0 <= zeros_from(g, i),
        zeros_from(g, i) > 0 ==> i + zeros_from(g, i) <= g.len(),
        forall|j: int| i <= j < i + zeros_from(g, i) ==> g[j] == 0,
    decreases g.len() - i,
{
    if i < g.len() && g[i] == 0 {
        lemma_zeros_from(g, i + 1);
    }
}

/// The longest run of zeros is a run of zeros.
pub proof fn lemma_longest_zeros(g: Seq<u16>, i: int)
    requires
        0 <= i,
    ensures
        longest_zeros(g, i).1 >= 0,
        longest_zeros(g, i).1 > 0 ==> i <= longest_zeros(g, i).0 && zeros_from(
            g,
            longest_zeros(g, i).0,
        ) == longest_zeros(g, i).1,
    decreases g.len() - i,
{
    if i < g.len() {
        lemma_longest_zeros(g, i + 1);
        lemma_zeros_from(g, i);
    }
}

/// What follows the double colon of a mapped address, `ffff` and a dotted
/// quad, reads as three segments.
proof fn lemma_mapped_tail(q: Ipv4Addr)
    ensures
        segments(pieces(numeral(0xFFFF, 16) + seq![':'] + ipv4_text(q)), true) == Some(
            seq![0xFFFFu16] + v4_segments(q),
        ),
{
    let w = numeral(0xFFFF, 16);
    let v = ipv4_text(q);
    let tail = w + seq![':'] + v;
    lemma_hex_group_numeral(0xFFFFu16);
    lemma_ipv4_text_chars(q);
    lemma_ipv4_text_reads_back(q);
    let p = split(tail, ':');
    assert(p =~= seq![w, v]) by {
        lemma_split_joined(w, ':', v);
        lemma_split_whole(v, ':');
    }
    assert(tail.len() > 0);
    assert(pieces(tail) == p);
    assert(p.drop_last() =~= seq![w]);
    assert(p.last() == v);
    assert(hex_groups(seq![w]) == Some(seq![0xFFFFu16])) by {
        lemma_hex_groups_are(seq![w], seq![0xFFFFu16]);
    }
    assert(hex_group(v) is None) by {
        let k = choose|k: int| 0 <= k < v.len() && v[k] == '.';
        assert(!is_digit(v[k], 16));
    }
}

/// Five zero segments, `ffff` and the two segments of the embedded address
/// make the mapped address.
proof fn lemma_mapped_segments(x: Ipv6Addr)
    requires
        is_v4_mapped(x),
    ensures
        Ipv6Addr::of(
            Seq::<u16>::empty() + zeros(5) + (seq![0xFFFFu16] + v4_segments(embedded_v4(x))),
        ) == x,
{
    let q = embedded_v4(x);
    let t = seq![0xFFFFu16] + v4_segments(q);
    let z = Seq::<u16>::empty() + zeros(5) + t;
    assert(z.len() == 8);
    assert(z[0] == 0 && z[1] == 0 && z[2] == 0 && z[3] == 0 && z[4] == 0);
    assert(z[5] == t[0]);
    assert(z[6] == t[1]);
    assert(z[7] == t[2]);
    assert(t[1] == v4_segments(q)[0]);
    assert(t[2] == v4_segments(q)[1]);
}

/// A mapped IPv4 address: its text reads back as the address.
proof fn lemma_mapped_reads_back(x: Ipv6Addr)
    requires
        is_v4_mapped(x),
    ensures
        ipv6_literal(ipv6_text(x)) == Some(x),
{
    let s = ipv6_text(x);
    let q = embedded_v4(x);
    let tail = numeral(0xFFFF, 16) + seq![':'] + ipv4_text(q);
    let none = Seq::<char>::empty();
    let h = Seq::<u16>::empty();
    let t = seq![0xFFFFu16] + v4_segments(q);
    assert(s =~= none + gap() + tail);
    lemma_gap_found(none, tail);
    assert(segments(pieces(none), false) == Some(h)) by {
        assert(pieces(none) =~= Seq::<Seq<char>>::empty());
    }
    lemma_mapped_tail(q);
    lemma_mapped_segments(x);
    assert(t.len() == 3);
    assert(h.len() == 0);
}

/// Segments with a run of zeros: what stands before the run, as many zeros
/// as the run is long, and what stands behind it make the segments again.
proof fn lemma_run_filled(g: Seq<u16>, start: int, len: int)
    requires
        0 <= start,
        0 <= len,
        start + len <= g.len(),
        forall|j: int| start <= j < start + len ==> g[j] == 0,
    ensures
        g.take(start) + zeros(len) + g.skip(start + len) == g,
{
    assert(g.take(start) + zeros(len) + g.skip(start + len) =~= g);
}

/// Text with a double colon between two joined lists of segments reads as
/// those segments with zeros between them.
proof fn lemma_gap_reads(a: Seq<u16>, b: Seq<u16>)
    requires
        a.len() + b.len() <= 7,
    ensures
        ipv6_literal(hex_join(a) + gap() + hex_join(b)) == Some(
            Ipv6Addr::of(a + zeros(8 - a.len() - b.len()) + b),
        ),
{
    let s = hex_join(a) + gap() + hex_join(b);
    lemma_hex_join_segments(a, false);
    lemma_hex_join_segments(b, true);
    if a.len() > 0 {
        lemma_hex_join(a);
    }
    lemma_gap_found(hex_join(a), hex_join(b));
    assert(find(s, gap()) == Some(hex_join(a).len() as int));
    assert(s.take(hex_join(a).len() as int) == hex_join(a));
    assert(s.skip(hex_join(a).len() as int + 2) == hex_join(b));
}

/// An address with a run of zeros that is written as a double colon: its
/// text reads back as the address.
proof fn lemma_compressed_reads_back(x: Ipv6Addr)
    requires
        !is_v4_mapped(x),
        longest_zeros(x@, 0).1 >= 2,
    ensures
        ipv6_literal(ipv6_text(x)) == Some(x),
{
    let g = x@;
    let run = longest_zeros(g, 0);
    lemma_longest_zeros(g, 0);
    lemma_zeros_from(g, run.0);
    let a = g.take(run.0);
    let b = g.skip(run.0 + run.1);
    lemma_gap_reads(a, b);
    lemma_run_filled(g, run.0, run.1);
    lemma_ipv6_of_view(x);
}

/// Eight segments joined by colons read as those segments.
proof fn lemma_joined_reads(g: Seq<u16>)
    requires
        g.len() == 8,
    ensures
        ipv6_literal(hex_join(g)) == Some(Ipv6Addr::of(g)),
{
    lemma_hex_join(g);
    lemma_joined_no_gap(hex_join(g));
    lemma_hex_join_segments(g, true);
}

/// An address that is written without a double colon: its text reads back
/// as the address.
proof fn lemma_plain_reads_back(x: Ipv6Addr)
    requires
        !is_v4_mapped(x),
        longest_zeros(x@, 0).1 < 2,
    ensures
        ipv6_literal(ipv6_text(x)) == Some(x),
{
    lemma_joined_reads(x@);
    lemma_ipv6_of_view(x);
}

/// The canonical text of an IPv6 address reads back as that address.
pub proof fn lemma_ipv6_text_reads_back(x: Ipv6Addr)
    ensures
        ipv6_literal(ipv6_text(x)) == Some(x),
{
    if is_v4_mapped(x) {
        lemma_mapped_reads_back(x);
    } else if longest_zeros(x@, 0).1 >= 2 {
        lemma_compressed_reads_back(x);
    } else {
        lemma_plain_reads_back(x);
    }
}

/// The canonical text holds hexadecimal digits, colons and dots alone. Dots
/// come only in a mapped IPv4 address, whose text begins with a colon.
pub proof fn lemma_ipv6_text_chars(x: Ipv6Addr)
    ensures
        is_address_text(ipv6_text(x)),
        ipv6_text(x).len() > 0,
        is_v4_mapped(x) ==> ipv6_text(x)[0] == ':',
        !is_v4_mapped(x) ==> lacks(ipv6_text(x), '.'),
{
    let s = ipv6_text(x);
    let g = x@;
    if is_v4_mapped(x) {
        let w = numeral(0xFFFF, 16);
        let v = ipv4_text(crate::ipv6::embedded_v4(x));
        lemma_numeral(0xFFFF, 16);
        lemma_ipv4_text_chars(crate::ipv6::embedded_v4(x));
        assert(s == gap() + w + seq![':'] + v);
        assert forall|i: int| 0 <= i < s.len() implies is_address_char(#[trigger] s[i]) by {
            if i < 2 {
            } else if i < 2 + w.len() {
                assert(s[i] == w[i - 2]);
            } else if i == 2 + w.len() {
            } else {
                assert(s[i] == v[i - 3 - w.len()]);
            }
        }
    } else {
        let run = longest_zeros(g, 0);
        if run.1 >= 2 {
            let a = g.take(run.0);
            let b = g.skip(run.0 + run.1);
            let ha = hex_join(a);
            let hb = hex_join(b);
            if a.len() > 0 {
                lemma_hex_join(a);
            }
            if b.len() > 0 {
                lemma_hex_join(b);
            }
            assert(s == ha + gap() + hb);
            assert forall|i: int| 0 <= i < s.len() implies #[trigger] s[i] == ':' || is_digit(
                s[i],
                16,
            ) by {
                if i < ha.len() {
                    assert(s[i] == ha[i]);
                } else if i < ha.len() + 2 {
                } else {
                    assert(s[i] == hb[i - ha.len() - 2]);
                }
            }
        } else {
            lemma_hex_join(g);
        }
    }
}

} // verus!
