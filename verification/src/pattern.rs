//! Compiled request matchers, built on the `regex` crate.
//!
//! The compiled matcher is opaque here; what it computes is given names:
//! `pattern_ok` (whether a pattern compiles), `regex_source` (the pattern a
//! compiled matcher was built from) and `regex_match` (whether a text
//! matches a pattern). Both depend on their arguments alone.

use vstd::prelude::*;

verus! {

/// Whether `pattern` compiles as a regular expression (with the default
/// size limit); decided by the pattern alone.
pub uninterp spec fn pattern_ok(pattern: Seq<char>) -> bool;

/// The pattern a compiled matcher was built from.
pub uninterp spec fn regex_source(re: regex::Regex) -> Seq<char>;

/// Whether `text` contains a match of `pattern`; decided by the two alone.
pub uninterp spec fn regex_match(pattern: Seq<char>, text: Seq<char>) -> bool;

#[verifier::external_type_specification]
#[verifier::external_body]
pub struct ExRegex(regex::Regex);

#[verifier::external_type_specification]
#[verifier::external_body]
pub struct ExRegexError(regex::Error);

/// Relies on `regex::Regex::new`: compilation succeeds exactly when the
/// pattern is valid (it depends on the pattern alone), and the compiled
/// matcher remembers the pattern it was built from (`regex::Regex::as_str`
/// returns it).
#[verifier::external_body]
pub(crate) fn compile(pattern: &str) -> (r: Result<regex::Regex, regex::Error>)
    ensures
        r is Ok <==> pattern_ok(pattern@),
        r is Ok ==> regex_source(r->Ok_0) == pattern@,
{
    regex::Regex::new(pattern)
}

/// Relies on `regex::Regex::is_match`: whether the haystack contains a match
/// depends only on the compiled pattern and the haystack.
#[verifier::external_body]
pub(crate) fn is_match(re: &regex::Regex, text: &str) -> (r: bool)
    ensures
        r == regex_match(regex_source(*re), text@),
{
    re.is_match(text)
}

} // verus!
