//! Pattern matching for the tokenizer's rules, done by the `regex` crate.
//!
//! What a pattern matches is the regex engine's business; this module only
//! gives its answers names, so that the tokenizer's contracts can say
//! exactly which answer leads to which token.

use regex::Regex;
use vstd::prelude::*;

verus! {

/// The error with which `Regex::new` rejects a pattern.
#[verifier::external_type_specification]
#[verifier::external_body]
pub struct ExRegexError(regex::Error);

/// Whether `Regex::new` compiles the pattern, under the engine's default
/// settings.
pub uninterp spec fn pattern_accepted(pattern: Seq<char>) -> bool;

/// The byte offsets, start and end, of the match that `Regex::find` reports
/// in the haystack for the pattern compiled by `Regex::new`, if it reports
/// one.
pub uninterp spec fn first_match(pattern: Seq<char>, haystack: Seq<char>) -> Option<(int, int)>;

/// Compiles the pattern with `Regex::new` and searches the haystack with
/// `Regex::find`. Nothing is proved of either. The contract claims only
/// that their answers depend on the pattern and the haystack alone: the
/// error comes exactly when the pattern is rejected, and otherwise the
/// result holds the offsets `Match::start` and `Match::end` of the match
/// found, or nothing when there is none. It claims nothing about which
/// patterns are accepted, nor about where a pattern matches.
#[verifier::external_body]
pub(crate) fn find_first(pattern: &str, haystack: &str) -> (found: Result<
    Option<(usize, usize)>,
    regex::Error,
>)
    ensures
        found is Ok <==> pattern_accepted(pattern@),
        found matches Ok(Some(span)) ==> first_match(pattern@, haystack@) == Some(
            (span.0 as int, span.1 as int),
        ),
        found matches Ok(None) ==> first_match(pattern@, haystack@) is None,
{
    let regex = Regex::new(pattern)?;
    Ok(regex.find(haystack).map(|m| (m.start(), m.end())))
}

} // verus!
