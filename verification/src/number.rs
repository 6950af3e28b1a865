//! Numbers written in digits: reading them and writing them, in base ten and
//! base sixteen.

use vstd::prelude::*;
use crate::chars::{char_digit, digit, is_digit};

verus! {

/// Every character of `s` is a digit of the base `radix`.
pub open spec fn is_numeral(s: Seq<char>, radix: nat) -> bool {
    forall|i: int| 0 <= i < s.len() ==> is_digit(#[trigger] s[i], radix)
}

/// The number that the digits of `s` denote in the base `radix`, the first
/// digit counting most.
pub open spec fn number(s: Seq<char>, radix: nat) -> nat
    decreases s.len(),
{
    if s.len() == 0 {
        0
    } else {
        number(s.drop_last(), radix) * radix + match digit(s.last()) {
            Some(d) => d,
            None => 0,
        }
    }
}

/// The number that `s` denotes, where `s` is one or more digits of the base
/// `radix` and the number is at most `limit`. Leading zeros are accepted.
pub open spec fn bounded_number(s: Seq<char>, radix: nat, limit: nat) -> Option<nat> {
    if s.len() >= 1 && is_numeral(s, radix) && number(s, radix) <= limit {
        Some(number(s, radix))
    } else {
        None
    }
}

/// The character for the digit `d`, letters in lower case.
pub open spec fn digit_char(d: nat) -> char {
    if d < 10 {
        (0x30 + d) as char
    } else {
        (0x61 + d - 10) as char
    }
}

/// `n` written in the base `radix`, without leading zeros; zero is written
/// as a single `0`.
pub open spec fn numeral(n: nat, radix: nat) -> Seq<char>
    decreases n,
{
    if radix < 2 || n < radix {
        seq![digit_char(n)]
    } else {
        proof {
            assert(n / radix < n) by (nonlinear_arith)
                requires
                    radix >= 2,
                    n >= radix,
            ;
        }
        numeral(n / radix, radix).push(digit_char(n % radix))
    }
}

/// A numeral denotes at least what any of its prefixes denotes.
pub proof fn lemma_number_prefix(s: Seq<char>, radix: nat, k: int)
    requires
        0 <= k <= s.len(),
        radix >= 1,
    ensures
        number(s.take(k), radix) <= number(s, radix),
    decreases s.len(),
{
    if k == s.len() {
        assert(s.take(k) =~= s);
    } else {
        assert(s.drop_last().take(k) =~= s.take(k));
        lemma_number_prefix(s.drop_last(), radix, k);
        let m = number(s.drop_last(), radix);
        assert(m <= m * radix) by (nonlinear_arith)
            requires
                radix >= 1,
                m >= 0,
        ;
    }
}

/// Reading one digit more multiplies by the base and adds the digit.
pub proof fn lemma_number_push(s: Seq<char>, c: char, radix: nat)
    ensures
        number(s.push(c), radix) == number(s, radix) * radix + match digit(c) {
            Some(d) => d,
            None => 0,
        },
{
    assert(s.push(c).drop_last() =~= s);
}

/// The characters that `digit_char` gives are digits with the value asked
/// for.
pub proof fn lemma_digit_char(d: nat)
    requires
        d < 16,
    ensures
        digit(digit_char(d)) == Some(d),
        d < 10 ==> is_digit(digit_char(d), 10),
        is_digit(digit_char(d), 16),
        (digit_char(d) == '0') == (d == 0),
{
}

/// What is written by `numeral` reads back as the same number, is made of
/// digits alone, and begins with a zero only where the number is zero.
pub proof fn lemma_numeral(n: nat, radix: nat)
    requires
        radix == 10 || radix == 16,
    ensures
        numeral(n, radix).len() >= 1,
        is_numeral(numeral(n, radix), radix),
        number(numeral(n, radix), radix) == n,
        (numeral(n, radix)[0] == '0') == (n == 0),
        n < radix <==> numeral(n, radix).len() == 1,
    decreases n,
{
    if n < radix {
        lemma_digit_char(n);
        let s = numeral(n, radix);
        assert(s.drop_last() =~= Seq::<char>::empty());
        assert(number(s.drop_last(), radix) == 0);
    } else {
        let q = n / radix;
        let r = n % radix;
        lemma_numeral(q, radix);
        lemma_digit_char(r);
        lemma_number_push(numeral(q, radix), digit_char(r), radix);
        assert(q * radix + r == n) by (nonlinear_arith)
            requires
                q == n / radix,
                r == n % radix,
                radix > 0,
        ;
        assert(q > 0) by (nonlinear_arith)
            requires
                q == n / radix,
                n >= radix,
                radix > 0,
        ;
    }
}

/// A number below `radix * bound` takes at most one digit more than a number
/// below `bound` does.
pub proof fn lemma_numeral_len(n: nat, radix: nat, digits: nat)
    requires
        radix == 10 || radix == 16,
        digits >= 1,
        n < vstd::arithmetic::power::pow(radix as int, digits),
    ensures
        numeral(n, radix).len() <= digits,
    decreases digits,
{
    vstd::arithmetic::power::lemma_pow1(radix as int);
    if n < radix {
    } else {
        let p = vstd::arithmetic::power::pow(radix as int, (digits - 1) as nat);
        assert(vstd::arithmetic::power::pow(radix as int, digits) == radix * p) by {
            reveal(vstd::arithmetic::power::pow);
        }
        if digits == 1 {
            assert(p == 1) by {
                reveal(vstd::arithmetic::power::pow);
            }
            assert(false);
        }
        assert(n / radix < p) by (nonlinear_arith)
            requires
                n < radix * p,
                radix > 0,
        ;
        lemma_numeral_len(n / radix, radix, (digits - 1) as nat);
    }
}

/// Reads `s` as a number in the base `radix` that is at most `limit`.
pub fn parse_number(s: &[char], radix: u32, limit: u32) -> (r: Option<u32>)
    ensures
        match r {
            Some(v) => bounded_number(s@, radix as nat, limit as nat) == Some(v as nat),
            None => bounded_number(s@, radix as nat, limit as nat) is None,
        },
{
    if s.len() == 0 {
        return None;
    }
    let mut value: u64 = 0;
    let mut i: usize = 0;
    proof {
        assert(s@.take(0) =~= Seq::<char>::empty());
    }
    while i < s.len()
        invariant
            i <= s.len(),
            is_numeral(s@.take(i as int), radix as nat),
            value == number(s@.take(i as int), radix as nat),
            value <= limit,
        decreases s.len() - i,
    {
        match char_digit(s[i], radix) {
            None => {
                return None;
            },
            Some(d) => {
                proof {
                    assert(s@.take(i + 1) =~= s@.take(i as int).push(s@[i as int]));
                    lemma_number_push(s@.take(i as int), s@[i as int], radix as nat);
                    assert(value * radix <= 0xFFFF_FFFF * 0xFFFF_FFFF) by (nonlinear_arith)
                        requires
                            value <= 0xFFFF_FFFF,
                            radix <= 0xFFFF_FFFF,
                    ;
                }
                value = value * (radix as u64) + (d as u64);
                if value > limit as u64 {
                    proof {
                        lemma_number_prefix(s@, radix as nat, i + 1);
                    }
                    return None;
                }
            },
        }
        i += 1;
    }
    proof {
        assert(s@.take(s@.len() as int) =~= s@);
    }
    Some(value as u32)
}

/// The character for a digit below sixteen.
pub fn digit_to_char(d: u32) -> (c: char)
    requires
        d < 16,
    ensures
        c == digit_char(d as nat),
{
    if d < 10 {
        ((0x30 + d) as u8) as char
    } else {
        ((0x61 + d - 10) as u8) as char
    }
}

/// Appends `n` to `out`, written in the base `radix`, which is one from two
/// to sixteen.
pub fn push_numeral(out: &mut Vec<char>, n: u32, radix: u32)
    requires
        2 <= radix <= 16,
    ensures
        final(out)@ == old(out)@ + numeral(n as nat, radix as nat),
    decreases n,
{
    if n >= radix {
        proof {
            assert(n / radix < n) by (nonlinear_arith)
                requires
                    radix >= 2,
                    n >= radix,
            ;
        }
        push_numeral(out, n / radix, radix);
    }
    proof {
        assert(n % radix < radix) by (nonlinear_arith)
            requires
                radix >= 2,
        ;
        if n < radix {
            assert(n % radix == n) by (nonlinear_arith)
                requires
                    0 <= n < radix,
            ;
        }
    }
    out.push(digit_to_char(n % radix));
    assert(out@ =~= old(out)@ + numeral(n as nat, radix as nat));
}

} // verus!
