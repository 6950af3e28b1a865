//! What the stages that take off scheme and tag do to text of a known
//! shape.

use vstd::prelude::*;
use crate::chars::{is_tag_char, is_whitespace};
use crate::endpoint::{
    address_shaped,
    has_tag,
    invalid_message,
    is_tag,
    parsed,
    scheme_mark,
    without_scheme,
    without_tag,
    working_text,
    IpVersion,
    Parsed,
};
use crate::socket::ip_literal;
use crate::text::{
    find,
    lacks,
    lemma_find,
    lemma_find_is,
    lemma_first_index,
    lemma_first_index_is,
    lemma_last_index,
    lemma_without_whitespace_same,
    occurs_at,
};

verus! {

/// Where the scheme mark stands in text, its three characters stand there.
pub proof fn lemma_mark_at(s: Seq<char>, j: int)
    ensures
        occurs_at(s, scheme_mark(), j) <==> (0 <= j && j + 3 <= s.len() && s[j] == ':' && s[j + 1]
            == '/' && s[j + 2] == '/'),
{
    if 0 <= j && j + 3 <= s.len() {
        let sub = s.subrange(j, j + 3);
        assert(sub[0] == s[j]);
        assert(sub[1] == s[j + 1]);
        assert(sub[2] == s[j + 2]);
        assert(scheme_mark()[0] == ':');
        assert(scheme_mark()[1] == '/');
        assert(scheme_mark()[2] == '/');
        if s[j] == ':' && s[j + 1] == '/' && s[j + 2] == '/' {
            assert(sub =~= scheme_mark());
        }
    }
}

/// Text without a slash holds no scheme mark.
pub proof fn lemma_no_slash_no_scheme(s: Seq<char>)
    requires
        lacks(s, '/'),
    ensures
        without_scheme(s) == s,
{
    lemma_find(s, scheme_mark());
    match find(s, scheme_mark()) {
        Some(j) => {
            lemma_mark_at(s, j);
        },
        None => {},
    }
}

/// Behind text that holds no scheme mark, the first scheme mark is the one
/// that follows it.
pub proof fn lemma_scheme_found(s: Seq<char>, t: Seq<char>)
    requires
        find(s, scheme_mark()) is None,
    ensures
        without_scheme(s + scheme_mark() + t) == t,
{
    let m = scheme_mark();
    let x = s + m + t;
    let n = s.len() as int;
    assert(x[n] == ':' && x[n + 1] == '/' && x[n + 2] == '/');
    lemma_mark_at(x, n);
    lemma_find(s, m);
    assert forall|j: int| 0 <= j < n implies !occurs_at(x, m, j) by {
        lemma_mark_at(x, j);
        lemma_mark_at(s, j);
        if j + 3 <= n {
            assert(x[j] == s[j] && x[j + 1] == s[j + 1] && x[j + 2] == s[j + 2]);
        } else if j + 2 == n {
            assert(x[j + 2] == ':');
        } else {
            assert(x[j + 1] == ':');
        }
    }
    lemma_find_is(x, m, n);
    assert(x.skip(n + 3) =~= t);
}

/// Taking a tag off never makes text longer, and where it changes the text
/// it makes it shorter.
pub proof fn lemma_without_tag_len(t: Seq<char>)
    ensures
        without_tag(t).len() <= t.len(),
        without_tag(t) != t ==> without_tag(t).len() < t.len(),
        !has_tag(t) ==> without_tag(t) == t,
        has_tag(t) ==> without_tag(t).len() < t.len(),
{
    lemma_first_index(t, ':');
}

/// A tag holds no colon, no percent sign and no slash.
pub proof fn lemma_tag_chars(tag: Seq<char>)
    requires
        is_tag(tag),
    ensures
        lacks(tag, ':'),
        lacks(tag, '%'),
        lacks(tag, '/'),
{
    assert forall|j: int| 0 <= j < tag.len() implies tag[j] != ':' && tag[j] != '%' && tag[j]
        != '/' by {
        assert(is_tag_char(tag[j]));
    }
}

/// Behind a tag and a colon, text that holds no scheme mark and does not
/// begin with a slash still holds none.
pub proof fn lemma_tagged_no_scheme(tag: Seq<char>, t: Seq<char>)
    requires
        is_tag(tag),
        find(t, scheme_mark()) is None,
        t.len() > 0,
        t[0] != '/',
    ensures
        without_scheme(tag + seq![':'] + t) == tag + seq![':'] + t,
{
    let x = tag + seq![':'] + t;
    let n = tag.len() as int;
    lemma_tag_chars(tag);
    lemma_find(t, scheme_mark());
    lemma_find(x, scheme_mark());
    match find(x, scheme_mark()) {
        Some(j) => {
            lemma_mark_at(x, j);
            if j < n {
                assert(x[j] == tag[j]);
            } else if j == n {
                assert(x[j + 1] == t[0]);
            } else {
                lemma_mark_at(t, j - n - 1);
                assert(x[j] == t[j - n - 1]);
                assert(x[j + 1] == t[j - n]);
                assert(x[j + 2] == t[j - n + 1]);
            }
        },
        None => {},
    }
}

/// A tag and a colon in front of address-shaped text without a percent sign
/// are taken off as a tag.
pub proof fn lemma_tagged_has_tag(tag: Seq<char>, t: Seq<char>)
    requires
        is_tag(tag),
        !t.contains('%'),
        address_shaped(t),
    ensures
        has_tag(tag + seq![':'] + t),
        without_tag(tag + seq![':'] + t) == t,
{
    let x = tag + seq![':'] + t;
    let n = tag.len() as int;
    lemma_tag_chars(tag);
    assert(x[n] == ':');
    assert forall|j: int| 0 <= j < n implies x[j] != ':' by {
        assert(x[j] == tag[j]);
    }
    lemma_first_index_is(x, ':', n);
    assert(x.take(n) =~= tag);
    assert(x.skip(n + 1) =~= t);
    assert(t.len() > 0);
    assert(!x.contains('%')) by {
        if x.contains('%') {
            let j = choose|j: int| 0 <= j < x.len() && x[j] == '%';
            if j < n {
                assert(x[j] == tag[j]);
            } else if j > n {
                assert(t[j - n - 1] == '%');
            }
        }
    }
    assert(has_tag(x));
}

/// Text without white space, colons, percent signs and brackets in front is
/// read as a bare address or not at all.
pub proof fn lemma_colonless(s: Seq<char>)
    requires
        forall|i: int| 0 <= i < s.len() ==> !is_whitespace(#[trigger] s[i]),
        lacks(s, ':'),
        lacks(s, '%'),
        s.len() == 0 || s[0] != '[',
    ensures
        working_text(s) == s,
        parsed(s) == match ip_literal(s) {
            Some(addr) => Parsed::Ok((IpVersion::of(addr), None)),
            None => Parsed::Err(invalid_message(s)),
        },
{
    lemma_without_whitespace_same(s);
    lemma_find(s, scheme_mark());
    match find(s, scheme_mark()) {
        Some(j) => {
            lemma_mark_at(s, j);
        },
        None => {},
    }
    lemma_first_index(s, ':');
    lemma_last_index(s, ':');
    lemma_first_index(s, '%');
}

} // verus!
