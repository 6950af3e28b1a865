//! Character classes that the endpoint grammar is built from.

use vstd::prelude::*;

verus! {

/// The characters that carry Unicode's `White_Space` property.
pub open spec fn is_whitespace(c: char) -> bool {
    let n = c as u32;
    ||| 0x09 <= n <= 0x0D
    ||| n == 0x20
    ||| n == 0x85
    ||| n == 0xA0
    ||| n == 0x1680
    ||| 0x2000 <= n <= 0x200A
    ||| n == 0x2028
    ||| n == 0x2029
    ||| n == 0x202F
    ||| n == 0x205F
    ||| n == 0x3000
}

/// Tells whether `c` is white space.
pub fn char_is_whitespace(c: char) -> (r: bool)
    ensures
        r == is_whitespace(c),
{
    let n: u32 = c as u32;
    (0x09 <= n && n <= 0x0D) || n == 0x20 || n == 0x85 || n == 0xA0 || n == 0x1680 || (0x2000 <= n
        && n <= 0x200A) || n == 0x2028 || n == 0x2029 || n == 0x202F || n == 0x205F || n == 0x3000
}

/// The value of `c` read as a digit in base sixteen, if it is one. Both cases
/// of the letters `a` to `f` are digits.
pub open spec fn digit(c: char) -> Option<nat> {
    if '0' <= c <= '9' {
        Some((c as u32 - '0' as u32) as nat)
    } else if 'a' <= c <= 'f' {
        Some((c as u32 - 'a' as u32 + 10) as nat)
    } else if 'A' <= c <= 'F' {
        Some((c as u32 - 'A' as u32 + 10) as nat)
    } else {
        None
    }
}

/// `c` is a digit of the base `radix`.
pub open spec fn is_digit(c: char, radix: nat) -> bool {
    digit(c) matches Some(d) && d < radix
}

/// The value of `c` as a digit of the base `radix`, or `None` where it is no
/// digit of that base.
pub fn char_digit(c: char, radix: u32) -> (r: Option<u32>)
    ensures
        match r {
            Some(d) => is_digit(c, radix as nat) && digit(c) == Some(d as nat),
            None => !is_digit(c, radix as nat),
        },
{
    let n: u32 = c as u32;
    let value: u32 = if '0' <= c && c <= '9' {
        n - 0x30
    } else if 'a' <= c && c <= 'f' {
        n - 0x61 + 10
    } else if 'A' <= c && c <= 'F' {
        n - 0x41 + 10
    } else {
        return None;
    };
    if value < radix {
        Some(value)
    } else {
        None
    }
}

/// What `char::is_alphanumeric` answers for `c`: whether Unicode classes it as
/// alphabetic or numeric.
pub uninterp spec fn unicode_alphanumeric(c: char) -> bool;

/// Asks `char::is_alphanumeric` of the standard library. Nothing is proved of
/// the answer: the contract gives it a name and claims no more, so that the
/// same character always gets the same answer.
#[verifier::external_body]
fn char_is_alphanumeric(c: char) -> (r: bool)
    ensures
        r == unicode_alphanumeric(c),
{
    c.is_alphanumeric()
}

/// A character that may stand in a socket-notation tag: a letter, a digit or
/// an underscore. Within ASCII these are the Latin letters and the ten digits;
/// beyond it Unicode's own classification decides.
pub open spec fn is_tag_char(c: char) -> bool {
    if c == '_' {
        true
    } else if (c as u32) < 0x80 {
        ('0' <= c <= '9') || ('a' <= c <= 'z') || ('A' <= c <= 'Z')
    } else {
        unicode_alphanumeric(c)
    }
}

/// Tells whether `c` may stand in a socket-notation tag.
pub fn char_is_tag(c: char) -> (r: bool)
    ensures
        r == is_tag_char(c),
{
    if c == '_' {
        true
    } else if (c as u32) < 0x80 {
        ('0' <= c && c <= '9') || ('a' <= c && c <= 'z') || ('A' <= c && c <= 'Z')
    } else {
        char_is_alphanumeric(c)
    }
}

} // verus!
