//! Regular expressions, as the `regex` crate compiles and matches them.

use vstd::prelude::*;

verus! {

#[verifier::external_type_specification]
#[verifier::external_body]
pub struct ExRegex(regex::Regex);

#[verifier::external_type_specification]
#[verifier::external_body]
pub struct ExRegexError(regex::Error);

/// Whether `pattern` compiles to a regular expression under the default
/// settings of the `regex` crate, in this build of it. The settings limit
/// the size of what is compiled, and that size is counted in the words of
/// the machine the crate was built for: a pattern near the limit may compile
/// in one build and not in another.
pub uninterp spec fn pattern_compiles(pattern: Seq<char>) -> bool;

/// Whether the regular expression that `pattern` compiles to under the
/// default settings matches anywhere in `haystack`.
pub uninterp spec fn pattern_matches(pattern: Seq<char>, haystack: Seq<char>) -> bool;

/// A pattern with the regular expression that it compiles to. A `Pattern` is
/// made by `compile` alone, so its regular expression is always the one that
/// was compiled from its source.
pub(crate) struct Pattern {
    source: String,
    regex: regex::Regex,
}

impl View for Pattern {
    type V = Seq<char>;

    closed spec fn view(&self) -> Seq<char> {
        self.source@
    }
}

/// Compiles `pattern` with `Regex::new`, which uses the default settings.
/// Within one build, whether that succeeds depends on the pattern alone.
#[verifier::external_body]
pub(crate) fn compile(pattern: &str) -> (r: Result<Pattern, regex::Error>)
    ensures
        r is Ok == pattern_compiles(pattern@),
        r matches Ok(compiled) ==> compiled@ == pattern@,
{
    match regex::Regex::new(pattern) {
        Ok(regex) => Ok(Pattern { source: pattern.to_string(), regex }),
        Err(error) => Err(error),
    }
}

/// Asks `Regex::is_match` whether the regular expression of `pattern` has a
/// match anywhere in `haystack`. The answer depends on the source of the
/// pattern and on the haystack alone.
#[verifier::external_body]
pub(crate) fn is_match(pattern: &Pattern, haystack: &str) -> (b: bool)
    ensures
        b == pattern_matches(pattern@, haystack@),
{
    pattern.regex.is_match(haystack)
}

} // verus!
