//! What text must look like to be read as an address: which characters it
//! holds and how it begins.

use vstd::prelude::*;
use crate::chars::is_digit;
use crate::endpoint::{resolved, scoped};
use crate::ipv4::{ipv4_literal, octet};
use crate::ipv6::{gap, hex_group, ipv6_literal, lemma_hex_groups, pieces, segments};
use crate::canonical::lemma_gap_at;
use crate::socket::{host, ip_literal, is_bracketed, socket_addr};
use crate::text::{
    find,
    first_index,
    lacks,
    last_index,
    lemma_find,
    lemma_first_index,
    lemma_last_index,
    lemma_split_chars,
    lemma_split_first,
    lemma_split_whole,
    split,
};

verus! {

/// A dotted quad is not empty, begins with a digit, and holds digits and
/// dots alone.
pub proof fn lemma_ipv4_shape(s: Seq<char>)
    requires
        ipv4_literal(s) is Some,
    ensures
        s.len() > 0,
        is_digit(s[0], 10),
        forall|i: int| 0 <= i < s.len() ==> #[trigger] s[i] == '.' || is_digit(s[i], 10),
{
    let parts = split(s, '.');
    let p = |c: char| is_digit(c, 10);
    assert forall|k: int, j: int| 0 <= k < parts.len() && 0 <= j < parts[k].len() implies p(
        #[trigger] parts[k][j],
    ) by {
        assert(octet(parts[k]) is Some);
    }
    lemma_split_chars(s, '.', p);
    lemma_split_first(s, '.');
    assert(octet(parts[0]) is Some);
    assert(parts[0][0] == s[0]);
}

/// Where pieces are read as segments, the first piece begins with a
/// hexadecimal digit, and there are at most two segments more than pieces
/// less one.
pub proof fn lemma_segments_shape(p: Seq<Seq<char>>, v4_tail: bool)
    requires
        segments(p, v4_tail) is Some,
        p.len() > 0,
    ensures
        p[0].len() > 0,
        is_digit(p[0][0], 16),
        segments(p, v4_tail)->0.len() <= p.len() + 1,
{
    let init = p.drop_last();
    lemma_hex_groups(init);
    if p.len() == 1 {
        assert(p[0] == p.last());
        if hex_group(p.last()) is None {
            lemma_ipv4_shape(p.last());
        }
    } else {
        assert(init[0] == p[0]);
        assert(hex_group(init[0]) is Some);
    }
}

/// Text in colon-hexadecimal notation is not empty, begins with a colon or
/// a hexadecimal digit, and holds a colon.
pub proof fn lemma_ipv6_shape(s: Seq<char>)
    requires
        ipv6_literal(s) is Some,
    ensures
        s.len() > 0,
        s[0] == ':' || is_digit(s[0], 16),
        s.contains(':'),
{
    lemma_find(s, gap());
    match find(s, gap()) {
        Some(i) => {
            lemma_gap_at(s, i);
            assert(s[i] == ':');
            if i > 0 {
                let head = s.take(i);
                let p = split(head, ':');
                lemma_split_first(head, ':');
                lemma_segments_shape(p, false);
                assert(p[0][0] == head[0]);
            }
        },
        None => {
            if s.len() == 0 {
                assert(pieces(s) =~= Seq::<Seq<char>>::empty());
                assert(segments(pieces(s), true) == Some(Seq::<u16>::empty()));
            } else {
                let p = split(s, ':');
                lemma_split_first(s, ':');
                lemma_segments_shape(p, true);
                assert(p[0][0] == s[0]);
                if lacks(s, ':') {
                    lemma_split_whole(s, ':');
                    assert(false);
                }
                let j = choose|j: int| 0 <= j < s.len() && s[j] == ':';
                assert(s[j] == ':');
            }
        },
    }
}

/// No text is both a dotted quad and an address in colon-hexadecimal
/// notation.
pub proof fn lemma_families_apart(s: Seq<char>)
    ensures
        !(ipv4_literal(s) is Some && ipv6_literal(s) is Some),
{
    if ipv4_literal(s) is Some && ipv6_literal(s) is Some {
        lemma_ipv4_shape(s);
        lemma_ipv6_shape(s);
        let j = choose|j: int| 0 <= j < s.len() && s[j] == ':';
        assert(s[j] == '.' || is_digit(s[j], 10));
    }
}

/// Working text that stands for an address is not empty and begins with a
/// hexadecimal digit, a colon or an opening bracket.
pub proof fn lemma_resolved_shape(t: Seq<char>)
    requires
        resolved(t) is Ok,
    ensures
        t.len() > 0,
        is_digit(t[0], 16) || t[0] == ':' || t[0] == '[',
{
    if socket_addr(t) is Some {
        lemma_last_index(t, ':');
        let i = last_index(t, ':')->0;
        let h = t.take(i);
        assert(host(h) is Some);
        if ipv4_literal(h) is Some {
            lemma_ipv4_shape(h);
            assert(h[0] == t[0]);
        } else {
            assert(is_bracketed(h));
            assert(h[0] == t[0]);
        }
    } else if is_bracketed(t) {
    } else if scoped(t) is Some {
        lemma_first_index(t, '%');
        let i = first_index(t, '%')->0;
        let h = t.take(i);
        lemma_ipv6_shape(h);
        assert(h[0] == t[0]);
    } else {
        assert(ip_literal(t) is Some);
        if ipv4_literal(t) is Some {
            lemma_ipv4_shape(t);
        } else {
            lemma_ipv6_shape(t);
        }
    }
}

} // verus!
