//! The key normalizer: canonicalizes free-text product names into the join
//! keys that coverage matching runs on.
//!
//! The rule, stated by [`norm_key`] and implemented by [`normalize`]: ASCII
//! letters are lowercased, digits are kept, runs of whitespace collapse to a
//! single space, everything else (punctuation, non-ASCII) is stripped, and
//! the result carries no leading or trailing space. The rule is a pure
//! function of the characters alone, so equal inputs always give equal keys.

use vstd::prelude::*;

verus! {

/// An ASCII lowercase letter.
pub open spec fn is_lower(c: char) -> bool {
    'a' <= c && c <= 'z'
}

/// An ASCII uppercase letter.
pub open spec fn is_upper(c: char) -> bool {
    'A' <= c && c <= 'Z'
}

/// An ASCII digit.
pub open spec fn is_digit(c: char) -> bool {
    '0' <= c && c <= '9'
}

/// The whitespace characters that collapse to a single space.
pub open spec fn is_space(c: char) -> bool {
    c == ' ' || c == '\t' || c == '\n' || c == '\r'
}

/// Lowercases an ASCII uppercase letter and leaves every other character
/// unchanged.
pub open spec fn to_lower(c: char) -> char {
    if is_upper(c) {
        (((c as u8) + 32) as u8) as char
    } else {
        c
    }
}

/// One step of normalization: how a partial key grows by one input
/// character. Letters and digits are appended lowercased; whitespace
/// appends one separating space unless the key is empty or already ends in
/// one; anything else is dropped.
pub open spec fn norm_step(acc: Seq<char>, c: char) -> Seq<char> {
    if is_lower(c) || is_digit(c) {
        acc.push(c)
    } else if is_upper(c) {
        acc.push(to_lower(c))
    } else if is_space(c) {
        if acc.len() > 0 && acc.last() != ' ' {
            acc.push(' ')
        } else {
            acc
        }
    } else {
        acc
    }
}

/// The key built from the first `n` characters of `s`.
pub open spec fn norm_prefix(s: Seq<char>, n: int) -> Seq<char>
    decreases n,
{
    if n <= 0 {
        Seq::empty()
    } else {
        norm_step(norm_prefix(s, n - 1), s[n - 1])
    }
}

/// The canonical key of a text: every character folded in, then a trailing
/// separator (left by trailing whitespace) removed.
pub open spec fn norm_key(s: Seq<char>) -> Seq<char> {
    let t = norm_prefix(s, s.len() as int);
    if t.len() > 0 && t.last() == ' ' {
        t.drop_last()
    } else {
        t
    }
}

/// Relies on `String`'s `FromIterator<char>`: collecting an iterator of
/// characters yields the string of exactly those characters, in order.
#[verifier::external_body]
fn chars_to_string(v: Vec<char>) -> (r: String)
    ensures
        r@ == v@,
{
    v.into_iter().collect()
}

/// Canonicalizes a free-text product name into its coverage key.
pub fn normalize(text: &str) -> (r: String)
    ensures
        r@ == norm_key(text@),
{
    let n = text.unicode_len();
    let mut out: Vec<char> = Vec::new();
    let mut i: usize = 0;
    while i < n
        invariant
            n == text@.len(),
            i <= n,
            out@ == norm_prefix(text@, i as int),
        decreases n - i,
    {
        let c = text.get_char(i);
        if ('a' <= c && c <= 'z') || ('0' <= c && c <= '9') {
            out.push(c);
        } else if 'A' <= c && c <= 'Z' {
            let b = (c as u8) + 32;
            out.push(b as char);
        } else if c == ' ' || c == '\t' || c == '\n' || c == '\r' {
            if out.len() > 0 && out[out.len() - 1] != ' ' {
                out.push(' ');
            }
        }
        i = i + 1;
    }
    if out.len() > 0 && out[out.len() - 1] == ' ' {
        let _ = out.pop();
    }
    chars_to_string(out)
}

} // verus!
