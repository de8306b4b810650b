//! The caller-supplied UPC pattern, matched through the `fancy_regex` crate.
//!
//! Matching is deterministic in the pattern and the text, so its outcome is
//! given a name, `regex_match`, that the catalog filter's contract speaks of.

use vstd::prelude::*;

verus! {

/// Whether `pattern` is a regular expression that `fancy_regex` accepts.
pub uninterp spec fn regex_ok(pattern: Seq<char>) -> bool;

/// Whether the regular expression `pattern` matches anywhere in `text`;
/// false whenever `pattern` is not accepted.
pub uninterp spec fn regex_match(pattern: Seq<char>, text: Seq<char>) -> bool;

/// Relies on `fancy_regex::Regex::new`: whether a pattern compiles depends
/// on the pattern string alone.
#[verifier::external_body]
pub fn regex_valid(pattern: &str) -> (r: bool)
    ensures
        r == regex_ok(pattern@),
{
    fancy_regex::Regex::new(pattern).is_ok()
}

/// Relies on `fancy_regex::Regex::new` and `fancy_regex::Regex::is_match`:
/// `is_match` returns true if and only if the compiled pattern matches
/// anywhere in the text, a function of the two strings alone. A pattern that
/// does not compile, or a match attempt that exceeds the crate's backtrack
/// limit, matches nothing.
#[verifier::external_body]
pub fn regex_is_match(pattern: &str, text: &str) -> (r: bool)
    ensures
        r == regex_match(pattern@, text@),
        r ==> regex_ok(pattern@),
{
    match fancy_regex::Regex::new(pattern) {
        Ok(re) => re.is_match(text).unwrap_or(false),
        Err(_) => false,
    }
}

} // verus!
