//! The pattern compiler and counter: a concrete pattern is anchored with word
//! boundaries, compiled case-insensitively, and its non-overlapping matches in
//! the corpus are counted.

use vstd::prelude::*;
use vstd::string::*;

verus! {

/// Whether the regular-expression source `src` is a well-formed expression,
/// as `regex::RegexBuilder::build` decides it.
pub uninterp spec fn regex_ok(src: Seq<char>) -> bool;

/// The number of successive non-overlapping matches of the case-insensitive
/// regular expression built from `src` in `haystack`, as
/// `regex::Regex::find_iter` yields them.
pub uninterp spec fn regex_match_total(src: Seq<char>, haystack: Seq<char>) -> nat;

/// Relies on `regex::RegexBuilder::build` and `regex::Regex::find_iter`:
/// building an expression from a source string succeeds or fails
/// deterministically on the source alone, and `find_iter` yields the
/// successive non-overlapping matches in the haystack, so with
/// case-insensitive matching enabled the match count is a function of the
/// source and the haystack alone.
#[verifier::external_body]
fn build_and_count(src: &str, haystack: &str) -> (r: Option<usize>)
    ensures
        r is Some <==> regex_ok(src@),
        r matches Some(n) ==> n as nat == regex_match_total(src@, haystack@),
{
    match regex::RegexBuilder::new(src).case_insensitive(true).build() {
        Ok(re) => Some(re.find_iter(haystack).count()),
        Err(_) => None,
    }
}

/// The matching expression built from a pattern: the pattern's characters
/// between two word-boundary anchors, with no escaping of the pattern itself.
pub open spec fn anchored_source(pattern: Seq<char>) -> Seq<char> {
    "\\b"@ + pattern + "\\b"@
}

/// Whether a pattern compiles into a matcher once anchored.
pub open spec fn pattern_ok(pattern: Seq<char>) -> bool {
    regex_ok(anchored_source(pattern))
}

/// The count of non-overlapping, case-insensitive, word-boundary-delimited
/// occurrences of `pattern` in `text`.
pub open spec fn pattern_count(pattern: Seq<char>, text: Seq<char>) -> nat {
    regex_match_total(anchored_source(pattern), text)
}

fn anchored(pattern: &str) -> (r: String)
    ensures
        r@ == anchored_source(pattern@),
{
    let mut src: String = "\\b".to_owned();
    src.append(pattern);
    src.append("\\b");
    src
}

/// The counter: compiles `pattern` anchored and case-insensitive, and counts
/// its non-overlapping matches in `text`, left to right. Returns `None`
/// exactly when the anchored pattern is not a well-formed expression.
pub fn count_occurrences(pattern: &str, text: &str) -> (r: Option<usize>)
    ensures
        r is Some <==> pattern_ok(pattern@),
        r matches Some(n) ==> n as nat == pattern_count(pattern@, text@),
{
    let src = anchored(pattern);
    build_and_count(src.as_str(), text)
}

} // verus!
