//! What the library asks of strings: whether one holds, begins or ends with
//! another, and what is left of it without an ending.

use vstd::prelude::*;

verus! {

/// Whether `s` begins with `prefix`.
pub open spec fn begins_with(s: Seq<char>, prefix: Seq<char>) -> bool {
    prefix.len() <= s.len() && s.subrange(0, prefix.len() as int) == prefix
}

/// Whether `s` ends with `suffix`.
pub open spec fn finishes_with(s: Seq<char>, suffix: Seq<char>) -> bool {
    suffix.len() <= s.len() && s.subrange(s.len() - suffix.len(), s.len() as int) == suffix
}

/// Whether `part` stands somewhere in `s`.
pub open spec fn holds(s: Seq<char>, part: Seq<char>) -> bool {
    exists|i: int| 0 <= i <= s.len() - part.len() && #[trigger] s.subrange(i, i + part.len()) == part
}

/// `s` without `suffix` at its end, taken off as often as it stands there.
pub open spec fn without_suffix(s: Seq<char>, suffix: Seq<char>) -> Seq<char>
    decreases s.len(),
{
    if suffix.len() > 0 && finishes_with(s, suffix) {
        without_suffix(s.subrange(0, s.len() - suffix.len()), suffix)
    } else {
        s
    }
}

/// Calls `str::contains` with a string as the pattern.
///
/// Trusted: the result tells whether the pattern matches a part of the
/// string.
#[verifier::external_body]
pub(crate) fn contains(s: &str, part: &str) -> (r: bool)
    ensures
        r == holds(s@, part@),
{
    s.contains(part)
}

/// Calls `str::starts_with` with a string as the pattern.
///
/// Trusted: the result tells whether the pattern matches at the start of
/// the string.
#[verifier::external_body]
pub(crate) fn starts_with(s: &str, prefix: &str) -> (r: bool)
    ensures
        r == begins_with(s@, prefix@),
{
    s.starts_with(prefix)
}

/// Calls `str::ends_with` with a string as the pattern.
///
/// Trusted: the result tells whether the pattern matches at the end of the
/// string.
#[verifier::external_body]
pub(crate) fn ends_with(s: &str, suffix: &str) -> (r: bool)
    ensures
        r == finishes_with(s@, suffix@),
{
    s.ends_with(suffix)
}

/// Calls `str::trim_end_matches` with a string as the pattern.
///
/// Trusted: the result is the string with all suffixes that match the
/// pattern removed, one after the other.
#[verifier::external_body]
pub(crate) fn trim_end_matches<'a>(s: &'a str, suffix: &str) -> (r: &'a str)
    ensures
        r@ == without_suffix(s@, suffix@),
{
    s.trim_end_matches(suffix)
}

} // verus!
