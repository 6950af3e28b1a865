//! What holds of the parser on every input: white space, schemes and tags
//! change nothing, dotted quads are read exactly, and the canonical text of
//! an address reads back as that address.

use vstd::prelude::*;
use crate::addr::{IpAddr, Ipv4Addr, Ipv6Addr};
use crate::canonical::{
    is_address_char,
    lemma_ipv4_text_chars,
    lemma_ipv6_text_chars,
    lemma_ipv6_text_reads_back,
    lemma_longest_zeros,
    lemma_zeros_from,
};
use crate::chars::{is_digit, is_tag_char, is_whitespace};
use crate::endpoint::{
    address_shaped,
    has_tag,
    invalid_message,
    is_tag,
    parsed,
    scheme_mark,
    without_scheme,
    without_tag,
    working_text,
    IpVersion,
    Parsed,
};
use crate::ipv4::{ipv4_literal, ipv4_text, lemma_ipv4_text_reads_back, octet};
use crate::ipv6::{gap, hex_join, ipv6_literal, ipv6_text, is_v4_mapped, longest_zeros};
use crate::number::{lemma_numeral, number, numeral};
use crate::shape::{lemma_families_apart, lemma_ipv4_shape, lemma_ipv6_shape, lemma_resolved_shape};
use crate::socket::{host, ip_literal, is_bracketed, socket_addr};
use crate::stages::{
    lemma_colonless,
    lemma_no_slash_no_scheme,
    lemma_scheme_found,
    lemma_tagged_has_tag,
    lemma_tagged_no_scheme,
    lemma_without_tag_len,
};
use crate::text::{
    find,
    first_index,
    lacks,
    last_index,
    lemma_find,
    lemma_first_index,
    lemma_first_index_is,
    lemma_last_index,
    lemma_split_whole,
    lemma_without_whitespace_clean,
    lemma_without_whitespace_around,
    lemma_without_whitespace_concat,
    lemma_without_whitespace_none,
    lemma_without_whitespace_same,
    split,
    without_whitespace,
};

verus! {

/// `e` is a bare endpoint: it carries neither a protocol scheme nor a
/// socket-notation tag, so that nothing but white space is taken off it.
pub open spec fn is_bare(e: Seq<char>) -> bool {
    working_text(e) == without_whitespace(e)
}

/// A bare endpoint holds no scheme mark and no tag.
pub proof fn lemma_bare(e: Seq<char>)
    requires
        is_bare(e),
    ensures
        find(without_whitespace(e), scheme_mark()) is None,
        !has_tag(without_whitespace(e)),
{
    let t = without_whitespace(e);
    lemma_find(t, scheme_mark());
    lemma_without_tag_len(without_scheme(t));
    lemma_without_tag_len(t);
}

/// White space counts for nothing: text stands for what it stands for
/// without its white space.
pub proof fn law_whitespace_stripped(input: Seq<char>)
    ensures
        parsed(input) == parsed(without_whitespace(input)),
{
    lemma_without_whitespace_clean(input);
    lemma_without_whitespace_same(without_whitespace(input));
}

/// White space put into text at any place does not change what the text
/// stands for.
pub proof fn law_whitespace_ignored(before: Seq<char>, space: Seq<char>, after: Seq<char>)
    requires
        forall|i: int| 0 <= i < space.len() ==> is_whitespace(#[trigger] space[i]),
    ensures
        parsed(before + space + after) == parsed(before + after),
{
    lemma_without_whitespace_concat(before + space, after);
    lemma_without_whitespace_concat(before, space);
    lemma_without_whitespace_concat(before, after);
    lemma_without_whitespace_none(space);
    assert(without_whitespace(before) + Seq::<char>::empty() =~= without_whitespace(before));
}

/// Tagging an address by its family and taking the tag off again gives the
/// address back, and so does the other way round.
pub proof fn law_family_tag_round_trip(version: IpVersion, addr: IpAddr)
    ensures
        IpVersion::of(version.addr()) == version,
        IpVersion::of(addr).addr() == addr,
{
}

/// Every dotted quad, four octets from 0 to 255 with dots between them,
/// stands for the IPv4 address with exactly those octets, without a port.
pub proof fn law_dotted_quad_parses(s: Seq<char>, a: Ipv4Addr)
    requires
        ipv4_literal(s) == Some(a),
    ensures
        parsed(s) == Parsed::Ok((IpVersion::V4(a), None)),
        a.a == number(split(s, '.')[0], 10),
        a.b == number(split(s, '.')[1], 10),
        a.c == number(split(s, '.')[2], 10),
        a.d == number(split(s, '.')[3], 10),
{
    lemma_ipv4_shape(s);
    lemma_colonless(s);
}

/// Text of digits and dots holds no colon and no percent sign, and is no
/// address in colon-hexadecimal notation.
proof fn lemma_digits_and_dots(s: Seq<char>)
    requires
        forall|i: int| 0 <= i < s.len() ==> #[trigger] s[i] == '.' || is_digit(s[i], 10),
    ensures
        lacks(s, ':'),
        lacks(s, '%'),
        forall|i: int| 0 <= i < s.len() ==> !is_whitespace(#[trigger] s[i]),
        s.len() == 0 || s[0] != '[',
        ipv6_literal(s) is None,
{
    assert forall|j: int| 0 <= j < s.len() implies s[j] != ':' && s[j] != '%' && s[j] != '['
        && !is_whitespace(#[trigger] s[j]) by {
        assert(s[j] == '.' || is_digit(s[j], 10));
    }
    if ipv6_literal(s) is Some {
        lemma_ipv6_shape(s);
    }
}

/// Text with a part that makes a number over 255, or with more or fewer
/// than four parts, is no dotted quad.
proof fn lemma_octet_too_high(s: Seq<char>)
    requires
        split(s, '.').len() != 4 || exists|k: int|
            0 <= k < 4 && number(#[trigger] split(s, '.')[k], 10) > 255,
    ensures
        ipv4_literal(s) is None,
{
    let parts = split(s, '.');
    if parts.len() == 4 {
        let k = choose|k: int| 0 <= k < 4 && number(#[trigger] parts[k], 10) > 255;
        assert(octet(parts[k]) is None);
    }
}

/// Text of digits and dots with an octet over 255, or with more or fewer
/// than four parts, stands for no address.
pub proof fn law_bad_dotted_quad_fails(s: Seq<char>)
    requires
        forall|i: int| 0 <= i < s.len() ==> #[trigger] s[i] == '.' || is_digit(s[i], 10),
        split(s, '.').len() != 4 || exists|k: int|
            0 <= k < 4 && number(#[trigger] split(s, '.')[k], 10) > 255,
    ensures
        parsed(s) == Parsed::Err(invalid_message(s)),
{
    lemma_digits_and_dots(s);
    lemma_octet_too_high(s);
    assert(ip_literal(s) is None);
    lemma_colonless(s);
}

/// A protocol scheme in front changes nothing: for any scheme that holds no
/// scheme mark of its own, and any endpoint that carries no scheme, the
/// endpoint behind the scheme and its mark stands for what it stands for
/// alone.
pub proof fn law_scheme_ignored(scheme: Seq<char>, e: Seq<char>)
    requires
        find(without_whitespace(scheme), scheme_mark()) is None,
        find(without_whitespace(e), scheme_mark()) is None,
    ensures
        parsed(scheme + scheme_mark() + e) == parsed(e),
{
    let s = without_whitespace(scheme);
    let t = without_whitespace(e);
    lemma_without_whitespace_around(scheme, scheme_mark(), e);
    lemma_scheme_found(s, t);
    assert(working_text(scheme + scheme_mark() + e) == without_tag(t));
    assert(working_text(e) == without_tag(t));
}

/// A socket-notation tag in front changes nothing: for any tag of letters,
/// digits and underscores, and any valid bare endpoint that is not scoped
/// and looks like an address, the endpoint behind the tag and a colon stands
/// for what it stands for alone. White space in the tag counts no more than
/// it does elsewhere.
pub proof fn law_tag_ignored(tag: Seq<char>, e: Seq<char>)
    requires
        is_tag(without_whitespace(tag)),
        is_bare(e),
        parsed(e) is Ok,
        !without_whitespace(e).contains('%'),
        address_shaped(without_whitespace(e)),
    ensures
        parsed(tag + seq![':'] + e) == parsed(e),
{
    let g = without_whitespace(tag);
    let t = without_whitespace(e);
    let c = seq![':'];
    lemma_without_whitespace_around(tag, c, e);
    lemma_bare(e);
    assert(working_text(e) == t);
    assert(t.len() > 0 && t[0] != '/') by {
        lemma_resolved_shape(t);
    }
    lemma_tagged_no_scheme(g, t);
    lemma_tagged_has_tag(g, t);
    assert(working_text(tag + c + e) == t);
}

/// The canonical text of an address, read as a bare literal, is that
/// address again.
pub proof fn law_text_reads_back(version: IpVersion)
    ensures
        ip_literal(version.text()) == Some(version.addr()),
{
    match version {
        IpVersion::V4(a) => {
            lemma_ipv4_text_reads_back(a);
        },
        IpVersion::V6(x) => {
            lemma_ipv6_text_reads_back(x);
            lemma_families_apart(ipv6_text(x));
        },
    }
}

/// The text of an IPv4 address begins with no socket-notation tag.
pub proof fn law_ipv4_text_is_bare(a: Ipv4Addr)
    ensures
        !has_tag(ipv4_text(a)),
{
    lemma_ipv4_text_chars(a);
    lemma_first_index(ipv4_text(a), ':');
}

/// A hexadecimal numeral can be a tag.
proof fn lemma_numeral_is_tag(n: u16)
    ensures
        is_tag(numeral(n as nat, 16)),
{
    lemma_numeral(n as nat, 16);
    let w = numeral(n as nat, 16);
    assert forall|i: int| 0 <= i < w.len() implies is_tag_char(#[trigger] w[i]) by {
        assert(is_digit(w[i], 16));
    }
}

/// Canonical text that begins with a segment: the segment, a colon, and
/// more that holds a colon.
proof fn lemma_ipv6_text_head(x: Ipv6Addr) -> (r: Seq<char>)
    requires
        ipv6_text(x)[0] != ':',
    ensures
        ipv6_text(x) == numeral(x.a as nat, 16) + seq![':'] + r,
        r.contains(':'),
        !r.contains('%'),
{
    let g = x@;
    let t = ipv6_text(x);
    let w = numeral(x.a as nat, 16);
    lemma_ipv6_text_chars(x);
    let run = longest_zeros(g, 0);
    let r = if run.1 >= 2 {
        lemma_longest_zeros(g, 0);
        lemma_zeros_from(g, run.0);
        let a = g.take(run.0);
        let b = g.skip(run.0 + run.1);
        if a.len() == 0 {
            assert(hex_join(a) =~= Seq::<char>::empty());
            assert(t[0] == ':');
            Seq::<char>::empty()
        } else if a.len() == 1 {
            let r = seq![':'] + hex_join(b);
            assert(t =~= w + seq![':'] + r);
            assert(r[0] == ':');
            r
        } else {
            let r = hex_join(a.drop_first()) + gap() + hex_join(b);
            assert(t =~= w + seq![':'] + r);
            assert(r[hex_join(a.drop_first()).len() as int] == ':');
            r
        }
    } else {
        let rest = g.drop_first();
        let r = hex_join(rest);
        assert(t == w + seq![':'] + r);
        let v = numeral(rest[0] as nat, 16);
        assert(r == v + seq![':'] + hex_join(rest.drop_first()));
        assert(r[v.len() as int] == ':');
        r
    };
    assert(!r.contains('%')) by {
        if r.contains('%') {
            let j = choose|j: int| 0 <= j < r.len() && r[j] == '%';
            assert(t[w.len() + 1 + j] == '%');
            assert(is_address_char(t[w.len() + 1 + j]));
        }
    }
    r
}

/// The canonical text of an IPv6 address begins with what is taken for a
/// socket-notation tag exactly where it does not begin with a colon: its
/// first segment then reads as a tag.
pub proof fn law_ipv6_text_tag(x: Ipv6Addr)
    ensures
        has_tag(ipv6_text(x)) <==> ipv6_text(x)[0] != ':',
{
    let t = ipv6_text(x);
    lemma_ipv6_text_chars(x);
    if t[0] == ':' {
        lemma_first_index_is(t, ':', 0);
        assert(t.take(0).len() == 0);
    } else {
        let r = lemma_ipv6_text_head(x);
        lemma_numeral_is_tag(x.a);
        lemma_tagged_has_tag(numeral(x.a as nat, 16), r);
    }
}

/// The canonical text of an IPv6 address is no socket address.
proof fn lemma_ipv6_text_no_socket(x: Ipv6Addr)
    ensures
        socket_addr(ipv6_text(x)) is None,
{
    let t = ipv6_text(x);
    lemma_ipv6_text_chars(x);
    lemma_last_index(t, ':');
    match last_index(t, ':') {
        Some(i) => {
            let h = t.take(i);
            assert(host(h) is None) by {
                if ipv4_literal(h) is Some {
                    lemma_ipv4_shape(h);
                    assert(h[0] == t[0]);
                    assert(is_address_char(t[0]));
                    if !is_v4_mapped(x) {
                        assert forall|j: int| 0 <= j < h.len() implies h[j] != '.' by {
                            assert(h[j] == t[j]);
                        }
                        lemma_split_whole(h, '.');
                    }
                }
                if is_bracketed(h) {
                    assert(h[0] == t[0]);
                    assert(is_address_char(t[0]));
                }
            }
        },
        None => {},
    }
}

/// The canonical text of an IPv6 address is working text as it stands,
/// unless a tag is taken off it.
proof fn lemma_ipv6_text_working(x: Ipv6Addr)
    requires
        !has_tag(ipv6_text(x)),
    ensures
        working_text(ipv6_text(x)) == ipv6_text(x),
        first_index(ipv6_text(x), '%') is None,
        !is_bracketed(ipv6_text(x)),
{
    let t = ipv6_text(x);
    lemma_ipv6_text_chars(x);
    assert forall|i: int| 0 <= i < t.len() implies !is_whitespace(#[trigger] t[i]) && t[i] != '/'
        && t[i] != '%' && t[i] != '[' by {
        assert(is_address_char(t[i]));
    }
    lemma_without_whitespace_same(t);
    lemma_no_slash_no_scheme(t);
    lemma_without_tag_len(t);
    lemma_first_index(t, '%');
}

/// The canonical text of an address stands for that address, without a
/// port, wherever it does not begin with what is taken for a
/// socket-notation tag. For an IPv4 address it never does.
pub proof fn law_text_parses_back(version: IpVersion)
    requires
        !has_tag(version.text()),
    ensures
        parsed(version.text()) == Parsed::Ok((version, None)),
{
    let t = version.text();
    law_text_reads_back(version);
    match version {
        IpVersion::V4(a) => {
            lemma_ipv4_text_chars(a);
            assert forall|i: int| 0 <= i < t.len() implies !is_whitespace(#[trigger] t[i]) && t[i]
                != '%' by {
                assert(is_address_char(t[i]));
            }
            lemma_colonless(t);
        },
        IpVersion::V6(x) => {
            lemma_ipv6_text_no_socket(x);
            lemma_ipv6_text_working(x);
        },
    }
}

} // verus!
