//! Searching and cutting sequences of characters.

use vstd::prelude::*;
use vstd::slice::slice_subrange;
use crate::chars::{char_is_whitespace, is_whitespace};

verus! {

/// The position of the first `c` in `s`.
pub open spec fn first_index(s: Seq<char>, c: char) -> Option<int>
    decreases s.len(),
{
    if s.len() == 0 {
        None
    } else if s[0] == c {
        Some(0int)
    } else {
        match first_index(s.drop_first(), c) {
            Some(i) => Some(i + 1),
            None => None,
        }
    }
}

/// The position of the last `c` in `s`.
pub open spec fn last_index(s: Seq<char>, c: char) -> Option<int>
    decreases s.len(),
{
    if s.len() == 0 {
        None
    } else if s.last() == c {
        Some(s.len() - 1)
    } else {
        last_index(s.drop_last(), c)
    }
}

/// `c` does not occur in `s`.
pub open spec fn lacks(s: Seq<char>, c: char) -> bool {
    forall|j: int| 0 <= j < s.len() ==> s[j] != c
}

/// `pat` stands in `s` at position `i`.
pub open spec fn occurs_at(s: Seq<char>, pat: Seq<char>, i: int) -> bool {
    &&& 0 <= i
    &&& i + pat.len() <= s.len()
    &&& s.subrange(i, i + pat.len()) == pat
}

/// The first position at or after `from` where `pat` stands in `s`.
pub open spec fn find_from(s: Seq<char>, pat: Seq<char>, from: int) -> Option<int>
    decreases s.len() - from + 1,
{
    if from < 0 || from + pat.len() > s.len() {
        None
    } else if occurs_at(s, pat, from) {
        Some(from)
    } else {
        find_from(s, pat, from + 1)
    }
}

/// The first position where `pat` stands in `s`.
pub open spec fn find(s: Seq<char>, pat: Seq<char>) -> Option<int> {
    find_from(s, pat, 0)
}

/// The pieces of `s` between the occurrences of `sep`, in order. There is one
/// piece more than there are separators, and a piece may be empty.
pub open spec fn split(s: Seq<char>, sep: char) -> Seq<Seq<char>>
    decreases s.len(),
{
    match first_index(s, sep) {
        Some(i) => {
            proof {
                lemma_first_index(s, sep);
            }
            seq![s.take(i)] + split(s.skip(i + 1), sep)
        },
        None => seq![s],
    }
}

/// `s` without its white space.
pub open spec fn without_whitespace(s: Seq<char>) -> Seq<char> {
    s.filter(|c: char| !is_whitespace(c))
}

/// Finds the first `c` in `s`.
pub fn index_of(s: &[char], c: char) -> (r: Option<usize>)
    ensures
        match r {
            Some(i) => first_index(s@, c) == Some(i as int) && i < s.len() && s@[i as int] == c,
            None => first_index(s@, c) is None && lacks(s@, c),
        },
{
    let mut i: usize = 0;
    while i < s.len()
        invariant
            i <= s.len(),
            forall|j: int| 0 <= j < i ==> s@[j] != c,
        decreases s.len() - i,
    {
        if s[i] == c {
            proof {
                lemma_first_index_is(s@, c, i as int);
            }
            return Some(i);
        }
        i += 1;
    }
    proof {
        lemma_first_index_none(s@, c);
    }
    None
}

/// Finds the last `c` in `s`.
pub fn last_index_of(s: &[char], c: char) -> (r: Option<usize>)
    ensures
        match r {
            Some(i) => last_index(s@, c) == Some(i as int) && i < s.len() && s@[i as int] == c,
            None => last_index(s@, c) is None && lacks(s@, c),
        },
{
    let mut i: usize = s.len();
    while i > 0
        invariant
            i <= s.len(),
            forall|j: int| i <= j < s.len() ==> s@[j] != c,
        decreases i,
    {
        i -= 1;
        if s[i] == c {
            proof {
                lemma_last_index_is(s@, c, i as int);
            }
            return Some(i);
        }
    }
    proof {
        lemma_last_index(s@, c);
    }
    None
}

/// Tells whether `c` occurs in `s`.
pub fn has_char(s: &[char], c: char) -> (r: bool)
    ensures
        r == s@.contains(c),
{
    let found = index_of(s, c);
    proof {
        lemma_first_index(s@, c);
    }
    found.is_some()
}

/// Tells whether `pat` stands in `s` at position `i`.
pub fn matches_at(s: &[char], pat: &[char], i: usize) -> (r: bool)
    ensures
        r == occurs_at(s@, pat@, i as int),
{
    if pat.len() > s.len() || i > s.len() - pat.len() {
        return false;
    }
    let mut k: usize = 0;
    while k < pat.len()
        invariant
            k <= pat.len(),
            i + pat.len() <= s.len(),
            forall|j: int| 0 <= j < k ==> s@[i + j] == pat@[j],
        decreases pat.len() - k,
    {
        if s[i + k] != pat[k] {
            proof {
                let sub = s@.subrange(i as int, i + pat@.len());
                assert(sub[k as int] == s@[i + k]);
            }
            return false;
        }
        k += 1;
    }
    assert(s@.subrange(i as int, i + pat@.len()) =~= pat@);
    true
}

/// Finds the first place where `pat` stands in `s`.
pub fn find_in(s: &[char], pat: &[char]) -> (r: Option<usize>)
    ensures
        match r {
            Some(i) => find(s@, pat@) == Some(i as int) && i + pat.len() <= s.len(),
            None => find(s@, pat@) is None,
        },
{
    let mut i: usize = 0;
    while i < s.len()
        invariant
            i <= s.len(),
            forall|j: int| 0 <= j < i ==> !occurs_at(s@, pat@, j),
        decreases s.len() - i,
    {
        if matches_at(s, pat, i) {
            proof {
                lemma_find_is(s@, pat@, i as int);
            }
            return Some(i);
        }
        i += 1;
    }
    if matches_at(s, pat, i) {
        proof {
            lemma_find_is(s@, pat@, i as int);
        }
        return Some(i);
    }
    proof {
        lemma_find(s@, pat@);
    }
    None
}

/// The part of `s` before position `to`.
pub fn head_to(s: &[char], to: usize) -> (r: &[char])
    requires
        to <= s@.len(),
    ensures
        r@ == s@.take(to as int),
{
    slice_subrange(s, 0, to)
}

/// The part of `s` from position `from` to its end.
pub fn tail_from(s: &[char], from: usize) -> (r: &[char])
    requires
        from <= s@.len(),
    ensures
        r@ == s@.skip(from as int),
{
    slice_subrange(s, from, s.len())
}

/// The characters of `input` that are not white space, in order.
pub fn strip_whitespace(input: &str) -> (r: Vec<char>)
    ensures
        r@ == without_whitespace(input@),
{
    let mut out: Vec<char> = Vec::new();
    let ghost keep = |c: char| !is_whitespace(c);
    proof {
        reveal(Seq::filter);
        assert(input@.take(0) =~= Seq::<char>::empty());
    }
    for c in it: input.chars()
        invariant
            it.seq() == input@,
            keep == (|c: char| !is_whitespace(c)),
            out@ == input@.take(it.index() as int).filter(keep),
    {
        proof {
            let done = input@.take(it.index() as int);
            assert(input@.take(it.index() + 1) =~= done.push(c));
            done.lemma_filter_push(c, keep);
        }
        if !char_is_whitespace(c) {
            out.push(c);
        }
    }
    proof {
        assert(input@.take(input@.len() as int) =~= input@);
    }
    out
}

/// `String::push` of the standard library: it puts `c` behind the characters
/// that `s` holds and leaves those as they are.
pub assume_specification[ String::push ](s: &mut String, c: char)
    ensures
        final(s)@ == old(s)@.push(c),
;

/// The text of `head` followed by the characters of `rest`.
pub fn string_of(head: &str, rest: &[char]) -> (r: String)
    ensures
        r@ == head@ + rest@,
{
    let mut out: String = head.to_owned();
    let mut i: usize = 0;
    while i < rest.len()
        invariant
            i <= rest.len(),
            out@ == head@ + rest@.take(i as int),
        decreases rest.len() - i,
    {
        out.push(rest[i]);
        proof {
            assert(rest@.take(i + 1) =~= rest@.take(i as int).push(rest@[i as int]));
        }
        i += 1;
    }
    proof {
        assert(rest@.take(rest@.len() as int) =~= rest@);
    }
    out
}

/// `first_index` finds an occurrence, none stands before it, and where it
/// finds nothing there is none.
pub proof fn lemma_first_index(s: Seq<char>, c: char)
    ensures
        match first_index(s, c) {
            Some(i) => 0 <= i < s.len() && s[i] == c && forall|j: int| 0 <= j < i ==> s[j] != c,
            None => forall|j: int| 0 <= j < s.len() ==> s[j] != c,
        },
    decreases s.len(),
{
    if s.len() > 0 && s[0] != c {
        let t = s.drop_first();
        lemma_first_index(t, c);
        match first_index(t, c) {
            Some(i) => {
                assert forall|j: int| 0 <= j < i + 1 implies s[j] != c by {
                    if j > 0 {
                        assert(s[j] == t[j - 1]);
                    }
                }
            },
            None => {
                assert forall|j: int| 0 <= j < s.len() implies s[j] != c by {
                    if j > 0 {
                        assert(s[j] == t[j - 1]);
                    }
                }
            },
        }
    }
}

/// An occurrence with none before it is the one that `first_index` finds.
pub proof fn lemma_first_index_is(s: Seq<char>, c: char, i: int)
    requires
        0 <= i < s.len(),
        s[i] == c,
        forall|j: int| 0 <= j < i ==> s[j] != c,
    ensures
        first_index(s, c) == Some(i),
{
    lemma_first_index(s, c);
}

/// Where `c` does not occur, `first_index` finds nothing.
pub proof fn lemma_first_index_none(s: Seq<char>, c: char)
    requires
        forall|j: int| 0 <= j < s.len() ==> s[j] != c,
    ensures
        first_index(s, c) is None,
{
    lemma_first_index(s, c);
}

/// `last_index` finds an occurrence, none stands behind it, and where it
/// finds nothing there is none.
pub proof fn lemma_last_index(s: Seq<char>, c: char)
    ensures
        match last_index(s, c) {
            Some(i) => 0 <= i < s.len() && s[i] == c && forall|j: int|
                i < j < s.len() ==> s[j] != c,
            None => forall|j: int| 0 <= j < s.len() ==> s[j] != c,
        },
    decreases s.len(),
{
    if s.len() > 0 && s.last() != c {
        let t = s.drop_last();
        lemma_last_index(t, c);
        assert(forall|j: int| 0 <= j < t.len() ==> t[j] == s[j]);
    }
}

/// An occurrence with none behind it is the one that `last_index` finds.
pub proof fn lemma_last_index_is(s: Seq<char>, c: char, i: int)
    requires
        0 <= i < s.len(),
        s[i] == c,
        forall|j: int| i < j < s.len() ==> s[j] != c,
    ensures
        last_index(s, c) == Some(i),
{
    lemma_last_index(s, c);
}

/// `find_from` finds an occurrence at or after `from`, none stands between,
/// and where it finds nothing there is none from `from` on.
pub proof fn lemma_find_from(s: Seq<char>, pat: Seq<char>, from: int)
    requires
        0 <= from,
    ensures
        match find_from(s, pat, from) {
            Some(i) => from <= i && occurs_at(s, pat, i) && forall|j: int|
                from <= j < i ==> !occurs_at(s, pat, j),
            None => forall|j: int| from <= j ==> !occurs_at(s, pat, j),
        },
    decreases s.len() - from + 1,
{
    if from + pat.len() <= s.len() && !occurs_at(s, pat, from) {
        lemma_find_from(s, pat, from + 1);
    }
}

/// `find` finds the first occurrence, and where it finds nothing there is
/// none.
pub proof fn lemma_find(s: Seq<char>, pat: Seq<char>)
    ensures
        match find(s, pat) {
            Some(i) => occurs_at(s, pat, i) && forall|j: int| j < i ==> !occurs_at(s, pat, j),
            None => forall|j: int| !occurs_at(s, pat, j),
        },
{
    lemma_find_from(s, pat, 0);
}

/// An occurrence with none before it is the one that `find` finds.
pub proof fn lemma_find_is(s: Seq<char>, pat: Seq<char>, i: int)
    requires
        occurs_at(s, pat, i),
        forall|j: int| 0 <= j < i ==> !occurs_at(s, pat, j),
    ensures
        find(s, pat) == Some(i),
{
    lemma_find(s, pat);
}

/// Splitting at the first separator: the piece before it, then the pieces
/// of what follows it.
pub proof fn lemma_split_at_first(s: Seq<char>, sep: char, i: int)
    requires
        first_index(s, sep) == Some(i),
    ensures
        0 <= i < s.len(),
        split(s, sep) == seq![s.take(i)] + split(s.skip(i + 1), sep),
        split(s, sep).len() == 1 + split(s.skip(i + 1), sep).len(),
        split(s, sep)[0] == s.take(i),
{
    lemma_first_index(s, sep);
}

/// A sequence without the separator is its own single piece.
pub proof fn lemma_split_whole(s: Seq<char>, sep: char)
    requires
        lacks(s, sep),
    ensures
        split(s, sep) == seq![s],
{
    lemma_first_index(s, sep);
}

/// A piece without the separator, then the separator, then more: the first
/// piece of the whole is that piece, and the others are the pieces of the
/// rest.
pub proof fn lemma_split_joined(a: Seq<char>, sep: char, rest: Seq<char>)
    requires
        lacks(a, sep),
    ensures
        split(a + seq![sep] + rest, sep) == seq![a] + split(rest, sep),
{
    let s = a + seq![sep] + rest;
    lemma_first_index_is(s, sep, a.len() as int);
    assert(s.take(a.len() as int) =~= a);
    assert(s.skip(a.len() as int + 1) =~= rest);
}

/// There is always at least one piece, and no piece holds the separator.
pub proof fn lemma_split_pieces(s: Seq<char>, sep: char)
    ensures
        split(s, sep).len() >= 1,
        forall|k: int| 0 <= k < split(s, sep).len() ==> lacks(#[trigger] split(s, sep)[k], sep),
    decreases s.len(),
{
    lemma_first_index(s, sep);
    match first_index(s, sep) {
        Some(i) => {
            lemma_split_pieces(s.skip(i + 1), sep);
            let rest = split(s.skip(i + 1), sep);
            assert forall|k: int| 0 <= k < split(s, sep).len() implies lacks(
                #[trigger] split(s, sep)[k],
                sep,
            ) by {
                if k > 0 {
                    assert(split(s, sep)[k] == rest[k - 1]);
                }
            }
        },
        None => {},
    }
}

/// The first piece of a split is the beginning of the text.
pub proof fn lemma_split_first(s: Seq<char>, sep: char)
    ensures
        split(s, sep).len() >= 1,
        split(s, sep)[0].len() <= s.len(),
        split(s, sep)[0] == s.take(split(s, sep)[0].len() as int),
{
    lemma_first_index(s, sep);
    match first_index(s, sep) {
        Some(i) => {
            assert(s.take(i).len() == i);
        },
        None => {
            assert(s.take(s.len() as int) =~= s);
        },
    }
}

/// Where every character of every piece has the property `p`, every
/// character of the text is the separator or has that property.
pub proof fn lemma_split_chars(s: Seq<char>, sep: char, p: spec_fn(char) -> bool)
    requires
        forall|k: int, j: int|
            0 <= k < split(s, sep).len() && 0 <= j < split(s, sep)[k].len() ==> p(
                #[trigger] split(s, sep)[k][j],
            ),
    ensures
        forall|i: int| 0 <= i < s.len() ==> #[trigger] s[i] == sep || p(s[i]),
    decreases s.len(),
{
    lemma_first_index(s, sep);
    let parts = split(s, sep);
    match first_index(s, sep) {
        Some(n) => {
            let rest = s.skip(n + 1);
            let more = split(rest, sep);
            assert forall|k: int, j: int|
                0 <= k < more.len() && 0 <= j < more[k].len() implies p(#[trigger] more[k][j]) by {
                assert(parts[k + 1] == more[k]);
                assert(p(parts[k + 1][j]));
            }
            lemma_split_chars(rest, sep, p);
            assert forall|i: int| 0 <= i < s.len() implies #[trigger] s[i] == sep || p(s[i]) by {
                if i < n {
                    assert(parts[0] == s.take(n));
                    assert(p(parts[0][i]));
                } else if i > n {
                    assert(rest[i - n - 1] == s[i]);
                }
            }
        },
        None => {
            assert(parts[0] == s);
            assert forall|i: int| 0 <= i < s.len() implies #[trigger] s[i] == sep || p(s[i]) by {
                assert(p(parts[0][i]));
            }
        },
    }
}

/// Text without white space holds none.
pub proof fn lemma_without_whitespace_clean(s: Seq<char>)
    ensures
        forall|i: int|
            0 <= i < without_whitespace(s).len() ==> !is_whitespace(
                #[trigger] without_whitespace(s)[i],
            ),
        without_whitespace(s).len() <= s.len(),
{
    let keep = |c: char| !is_whitespace(c);
    s.lemma_filter_len(keep);
    assert forall|i: int| 0 <= i < without_whitespace(s).len() implies !is_whitespace(
        #[trigger] without_whitespace(s)[i],
    ) by {
        s.lemma_filter_pred(keep, i);
    }
}

/// Text that holds no white space is left as it is.
pub proof fn lemma_without_whitespace_same(s: Seq<char>)
    requires
        forall|i: int| 0 <= i < s.len() ==> !is_whitespace(#[trigger] s[i]),
    ensures
        without_whitespace(s) == s,
    decreases s.len(),
{
    let keep = |c: char| !is_whitespace(c);
    if s.len() == 0 {
        reveal(Seq::filter);
        assert(s.filter(keep) =~= s);
    } else {
        let init = s.drop_last();
        lemma_without_whitespace_same(init);
        init.lemma_filter_push(s.last(), keep);
        assert(init.push(s.last()) =~= s);
    }
}

/// Text made of white space alone leaves nothing.
pub proof fn lemma_without_whitespace_none(s: Seq<char>)
    requires
        forall|i: int| 0 <= i < s.len() ==> is_whitespace(#[trigger] s[i]),
    ensures
        without_whitespace(s) == Seq::<char>::empty(),
    decreases s.len(),
{
    let keep = |c: char| !is_whitespace(c);
    if s.len() == 0 {
        reveal(Seq::filter);
        assert(s.filter(keep) =~= Seq::<char>::empty());
    } else {
        let init = s.drop_last();
        lemma_without_whitespace_none(init);
        init.lemma_filter_push(s.last(), keep);
        assert(init.push(s.last()) =~= s);
    }
}

/// White space is taken out of each part of a text by itself.
pub proof fn lemma_without_whitespace_concat(a: Seq<char>, b: Seq<char>)
    ensures
        without_whitespace(a + b) == without_whitespace(a) + without_whitespace(b),
{
    Seq::filter_distributes_over_add(a, b, |c: char| !is_whitespace(c));
}

/// White space is taken out on both sides of text that holds none.
pub proof fn lemma_without_whitespace_around(a: Seq<char>, m: Seq<char>, b: Seq<char>)
    requires
        forall|i: int| 0 <= i < m.len() ==> !is_whitespace(#[trigger] m[i]),
    ensures
        without_whitespace(a + m + b) == without_whitespace(a) + m + without_whitespace(b),
{
    lemma_without_whitespace_concat(a + m, b);
    lemma_without_whitespace_concat(a, m);
    lemma_without_whitespace_same(m);
}

} // verus!
