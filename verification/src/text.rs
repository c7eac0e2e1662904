//! String primitives for the query operators, and the number renderings
//! the document model stores, specified over character sequences.

use vstd::prelude::*;
use vstd::string::StrSliceExecFns;

verus! {

/// String equality, specified over the character sequences.
pub fn str_eq(a: &str, b: &str) -> (r: bool)
    ensures
        r == (a@ == b@),
{
    let sa: String = a.to_owned();
    let sb: String = b.to_owned();
    sa == sb
}

/// Whether `sub` occurs as a contiguous substring of `s`.
pub open spec fn contains_seq(s: Seq<char>, sub: Seq<char>) -> bool {
    exists|i: int| 0 <= i && i + sub.len() <= s.len() && #[trigger] s.subrange(i, i + sub.len())
        == sub
}

/// Whether `sub` occurs as a contiguous substring of `s`.
pub(crate) fn str_contains(s: &str, sub: &str) -> (r: bool)
    ensures
        r == contains_seq(s@, sub@),
{
    let m = sub.unicode_len();
    let n = s.unicode_len();
    if m > n {
        return false;
    }
    if m == 0 {
        proof {
            assert(s@.subrange(0, 0 + sub@.len() as int) =~= sub@);
            assert(contains_seq(s@, sub@));
        }
        return true;
    }
    let mut i: usize = 0;
    while i <= n - m
        invariant
            m == sub@.len(),
            n == s@.len(),
            1 <= m <= n,
            i <= n - m + 1,
            forall|j: int| 0 <= j < i ==> #[trigger] s@.subrange(j, j + m) != sub@,
        decreases n - m + 1 - i,
    {
        let window = s.substring_char(i, i + m);
        if str_eq(window, sub) {
            assert(s@.subrange(i as int, i + m) == sub@);
            return true;
        }
        i += 1;
    }
    false
}

/// Whether `pre` is a prefix of `s`.
pub(crate) fn str_starts_with(s: &str, pre: &str) -> (r: bool)
    ensures
        r == pre@.is_prefix_of(s@),
{
    let m = pre.unicode_len();
    if m > s.unicode_len() {
        return false;
    }
    let head = s.substring_char(0, m);
    str_eq(head, pre)
}

/// Whether `suf` is a suffix of `s`.
pub(crate) fn str_ends_with(s: &str, suf: &str) -> (r: bool)
    ensures
        r == suf@.is_suffix_of(s@),
{
    let m = suf.unicode_len();
    let n = s.unicode_len();
    if m > n {
        return false;
    }
    let tail = s.substring_char(n - m, n);
    str_eq(tail, suf)
}

/// A canonical number rendering: a string that serde_json reads as a
/// JSON number and renders back to itself. Every number the store loads
/// from a file or writes to one carries its value in this form, so
/// rendering and reparsing a document leaves it unchanged.
pub uninterp spec fn num_canonical(s: Seq<char>) -> bool;

/// Relies on serde_json::Number's `FromStr` and `Display`: whether this
/// string is exactly a JSON number's rendering, that is, reparses as a
/// number and re-renders to itself.
#[verifier::external_body]
pub(crate) fn num_canonical_check(s: &str) -> (r: bool)
    ensures
        r == num_canonical(s@),
{
    match s.parse::<serde_json::Number>() {
        Ok(n) => n.to_string() == s,
        Err(_) => false,
    }
}

/// The character of one decimal digit.
pub open spec fn digit_char(d: nat) -> char
    recommends
        d < 10,
{
    (('0' as u8) + d as u8) as char
}

/// The decimal digits of a non-negative integer, most significant
/// first, with no leading zeros.
pub open spec fn dec_digits(n: nat) -> Seq<char>
    decreases n,
{
    if n < 10 {
        seq![digit_char(n)]
    } else {
        dec_digits(n / 10).push(digit_char(n % 10))
    }
}

/// The decimal rendering of an integer: a leading minus sign when
/// negative, then the digits.
pub open spec fn dec_of(n: int) -> Seq<char> {
    if n < 0 {
        seq!['-'] + dec_digits((-n) as nat)
    } else {
        dec_digits(n as nat)
    }
}

/// Relies on i64's `to_string`: the decimal rendering of the number,
/// which serde_json reads back as the same integer and re-renders the
/// same way.
#[verifier::external_body]
pub(crate) fn i64_to_string(n: i64) -> (r: String)
    ensures
        r@ == dec_of(n as int),
        num_canonical(r@),
{
    n.to_string()
}

} // verus!
