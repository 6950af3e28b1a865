//! IPv4 addresses in dotted-quad notation.

use vstd::prelude::*;
use crate::addr::Ipv4Addr;
use crate::number::{
    bounded_number,
    lemma_numeral,
    lemma_numeral_len,
    numeral,
    parse_number,
    push_numeral,
};
use crate::text::{
    head_to,
    index_of,
    lemma_split_at_first,
    lemma_split_joined,
    lemma_split_pieces,
    lemma_split_whole,
    split,
    tail_from,
};

verus! {

/// The octet that `t` denotes: one to three decimal digits, with no zero in
/// front of other digits, that make a number up to 255.
pub open spec fn octet(t: Seq<char>) -> Option<u8> {
    if t.len() <= 3 && (t.len() > 1 ==> t[0] != '0') {
        match bounded_number(t, 10, 255) {
            Some(n) => Some(n as u8),
            None => None,
        }
    } else {
        None
    }
}

/// The address that `s` denotes as a dotted quad: exactly four octets with
/// dots between them.
pub open spec fn ipv4_literal(s: Seq<char>) -> Option<Ipv4Addr> {
    let parts = split(s, '.');
    if parts.len() == 4 {
        match (octet(parts[0]), octet(parts[1]), octet(parts[2]), octet(parts[3])) {
            (Some(a), Some(b), Some(c), Some(d)) => Some(Ipv4Addr { a, b, c, d }),
            _ => None,
        }
    } else {
        None
    }
}

/// The dotted quad for `x`.
pub open spec fn ipv4_text(x: Ipv4Addr) -> Seq<char> {
    numeral(x.a as nat, 10) + seq!['.'] + numeral(x.b as nat, 10) + seq!['.'] + numeral(
        x.c as nat,
        10,
    ) + seq!['.'] + numeral(x.d as nat, 10)
}

/// Reads one octet of a dotted quad.
pub fn parse_octet(t: &[char]) -> (r: Option<u8>)
    ensures
        r == octet(t@),
{
    if t.len() > 3 {
        return None;
    }
    if t.len() > 1 && t[0] == '0' {
        return None;
    }
    match parse_number(t, 10, 255) {
        Some(n) => Some(n as u8),
        None => None,
    }
}

/// Reads a dotted quad.
pub fn parse_ipv4(s: &[char]) -> (r: Option<Ipv4Addr>)
    ensures
        r == ipv4_literal(s@),
{
    let ghost parts = split(s@, '.');
    let ghost mut done: Seq<Seq<char>> = Seq::empty();
    let mut o: [u8; 3] = [0; 3];
    let mut rest: &[char] = s;
    let mut k: usize = 0;
    proof {
        lemma_split_pieces(s@, '.');
        assert(parts =~= done + split(rest@, '.'));
    }
    while k < 3
        invariant
            k <= 3,
            parts == split(s@, '.'),
            parts == done + split(rest@, '.'),
            done.len() == k,
            forall|i: int| 0 <= i < k ==> octet(#[trigger] done[i]) == Some(o@[i]),
        decreases 3 - k,
    {
        match index_of(rest, '.') {
            None => {
                proof {
                    lemma_split_whole(rest@, '.');
                }
                return None;
            },
            Some(i) => {
                let piece = head_to(rest, i);
                let after = tail_from(rest, i + 1);
                proof {
                    lemma_split_at_first(rest@, '.', i as int);
                    lemma_split_pieces(after@, '.');
                    assert(parts =~= done.push(piece@) + split(after@, '.'));
                    assert(parts[k as int] == piece@);
                }
                match parse_octet(piece) {
                    None => {
                        return None;
                    },
                    Some(v) => {
                        o[k] = v;
                    },
                }
                proof {
                    done = done.push(piece@);
                }
                rest = after;
            },
        }
        k += 1;
    }
    match index_of(rest, '.') {
        Some(i) => {
            proof {
                lemma_split_at_first(rest@, '.', i as int);
                lemma_split_pieces(rest@.skip(i + 1), '.');
            }
            None
        },
        None => {
            proof {
                lemma_split_whole(rest@, '.');
                assert(parts[0] == done[0]);
                assert(parts[1] == done[1]);
                assert(parts[2] == done[2]);
                assert(parts[3] == rest@);
            }
            match parse_octet(rest) {
                None => None,
                Some(d) => Some(Ipv4Addr::new(o[0], o[1], o[2], d)),
            }
        },
    }
}

/// Appends the dotted quad for `x` to `out`.
pub fn push_ipv4(out: &mut Vec<char>, x: &Ipv4Addr)
    ensures
        final(out)@ == old(out)@ + ipv4_text(*x),
{
    push_numeral(out, x.a as u32, 10);
    out.push('.');
    push_numeral(out, x.b as u32, 10);
    out.push('.');
    push_numeral(out, x.c as u32, 10);
    out.push('.');
    push_numeral(out, x.d as u32, 10);
    assert(out@ =~= old(out)@ + ipv4_text(*x));
}

/// An octet written in decimal reads back as itself.
pub proof fn lemma_octet_numeral(n: u8)
    ensures
        octet(numeral(n as nat, 10)) == Some(n),
{
    lemma_numeral(n as nat, 10);
    assert(vstd::arithmetic::power::pow(10, 3) == 1000) by {
        reveal_with_fuel(vstd::arithmetic::power::pow, 4);
    }
    lemma_numeral_len(n as nat, 10, 3);
}

/// The dotted quad that is written for an address reads back as that address.
pub proof fn lemma_ipv4_text_reads_back(x: Ipv4Addr)
    ensures
        ipv4_literal(ipv4_text(x)) == Some(x),
{
    let a = numeral(x.a as nat, 10);
    let b = numeral(x.b as nat, 10);
    let c = numeral(x.c as nat, 10);
    let d = numeral(x.d as nat, 10);
    lemma_octet_numeral(x.a);
    lemma_octet_numeral(x.b);
    lemma_octet_numeral(x.c);
    lemma_octet_numeral(x.d);
    lemma_numeral(x.a as nat, 10);
    lemma_numeral(x.b as nat, 10);
    lemma_numeral(x.c as nat, 10);
    lemma_numeral(x.d as nat, 10);
    let r3 = d;
    let r2 = c + seq!['.'] + r3;
    let r1 = b + seq!['.'] + r2;
    assert(ipv4_text(x) =~= a + seq!['.'] + r1);
    lemma_split_joined(a, '.', r1);
    lemma_split_joined(b, '.', r2);
    lemma_split_joined(c, '.', r3);
    lemma_split_whole(d, '.');
    assert(split(ipv4_text(x), '.') =~= seq![a, b, c, d]);
}

} // verus!
