//! Trusted surface over the `regex` crate: pattern compilation and
//! search-anywhere matching.
//!
//! A compiled regex is opaque here; what matters to the contracts is the
//! pattern string it was compiled from and whether it matches a given text.
//! Both are deterministic functions of plain string values, so they are given
//! names that the rest of the library reasons with.

use vstd::prelude::*;

verus! {

#[verifier::external_type_specification]
#[verifier::external_body]
pub struct ExRegex(regex::Regex);

#[verifier::external_type_specification]
#[verifier::external_body]
pub struct ExRegexError(regex::Error);

/// Whether `regex::Regex::new` accepts the pattern `pat`.
pub uninterp spec fn regex_ok(pat: Seq<char>) -> bool;

/// The pattern string a compiled regex was built from, as
/// `regex::Regex::as_str` returns it.
pub uninterp spec fn regex_pattern(re: regex::Regex) -> Seq<char>;

/// Whether the regex compiled from `pat` matches anywhere in `text`, as
/// `regex::Regex::is_match` decides it.
pub uninterp spec fn regex_match(pat: Seq<char>, text: Seq<char>) -> bool;

/// Relies on `regex::Regex::new`: compilation succeeds or fails depending on
/// the pattern alone, and `regex::Regex::as_str` returns exactly the pattern
/// the regex was compiled from.
#[verifier::external_body]
pub(crate) fn compile_regex(pat: &str) -> (r: Result<regex::Regex, regex::Error>)
    ensures
        r is Ok <==> regex_ok(pat@),
        r is Ok ==> regex_pattern(r->Ok_0) == pat@,
{
    regex::Regex::new(pat)
}

/// Relies on `regex::Regex::is_match`: the outcome depends only on the
/// pattern the regex was compiled from and on the text searched.
#[verifier::external_body]
pub(crate) fn regex_is_match(re: &regex::Regex, text: &str) -> (r: bool)
    ensures
        r == regex_match(regex_pattern(*re), text@),
{
    re.is_match(text)
}

/// Relies on `regex::Error`'s `Display` implementation for a readable
/// account of a failed compilation.
#[verifier::external_body]
pub(crate) fn describe_regex_error(err: &regex::Error) -> String {
    format!("{}", err)
}

} // verus!
