//! Searching tool output with regular expressions of the `regex` crate.
use vstd::prelude::*;

verus! {

/// What the `regex` crate finds for capture group `group`: the text of that
/// group in the leftmost-first match of the regular expression `pattern` in
/// `haystack`; `None` if `pattern` does not compile, if there is no match,
/// or if the group took no part in the match.
pub uninterp spec fn regex_capture(pattern: Seq<char>, haystack: Seq<char>, group: usize) -> Option<
    Seq<char>,
>;

/// What the `regex` crate counts: the number of successive non-overlapping
/// matches of `pattern` in `haystack`; `None` if `pattern` does not compile.
pub uninterp spec fn regex_match_count(pattern: Seq<char>, haystack: Seq<char>) -> Option<usize>;

/// Calls `regex::Regex::new(pattern)`, then `Regex::captures(haystack)`,
/// `Captures::get(group)` and `Match::as_str`. Trusted: the result is the
/// named `regex_capture` of the arguments; nothing more is claimed of the
/// regular-expression semantics.
#[verifier::external_body]
pub(crate) fn capture_group(pattern: &str, haystack: &str, group: usize) -> (r: Option<String>)
    ensures
        r is Some <==> regex_capture(pattern@, haystack@, group) is Some,
        r matches Some(text) ==> regex_capture(pattern@, haystack@, group) == Some(text@),
{
    let re = match regex::Regex::new(pattern) {
        Ok(re) => re,
        Err(_) => return None,
    };
    let caps = match re.captures(haystack) {
        Some(caps) => caps,
        None => return None,
    };
    match caps.get(group) {
        Some(m) => Some(m.as_str().to_string()),
        None => None,
    }
}

/// Calls `regex::Regex::new(pattern)`, then `Regex::find_iter(haystack)` and
/// counts the matches. Trusted: the result is the named `regex_match_count`
/// of the arguments.
#[verifier::external_body]
pub(crate) fn count_matches(pattern: &str, haystack: &str) -> (r: Option<usize>)
    ensures
        r == regex_match_count(pattern@, haystack@),
{
    match regex::Regex::new(pattern) {
        Ok(re) => Some(re.find_iter(haystack).count()),
        Err(_) => None,
    }
}

} // verus!
