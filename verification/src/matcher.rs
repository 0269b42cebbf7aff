//! The pattern matcher: a compiled regular expression and the trusted
//! boundary to the regex engine.
//!
//! Compilation and matching are deterministic functions of the pattern and
//! the haystack alone, so the contracts below name their results with the
//! uninterpreted functions [`regex_valid`] and [`regex_matches`].

use vstd::prelude::*;
use grep_matcher::Matcher;

verus! {

/// Whether `p` is a valid regular expression: whether
/// `grep_regex::RegexMatcher::new` accepts it.
pub uninterp spec fn regex_valid(p: Seq<char>) -> bool;

/// Whether the regular expression `p` matches anywhere within `hay`: what
/// `grep_matcher::Matcher::is_match` returns for the matcher compiled from
/// `p`.
pub uninterp spec fn regex_matches(p: Seq<char>, hay: Seq<u8>) -> bool;

/// A matcher compiled from one pattern, reusable across many lines.
///
/// Built only by [`compile_pattern`], so `matcher` is always the compiled
/// form of `pattern`; the contracts of the trusted functions below rest on
/// that invariant.
pub(crate) struct CompiledPattern {
    matcher: grep_regex::RegexMatcher,
    pattern: String,
}

impl CompiledPattern {
    /// The pattern this matcher was compiled from.
    pub(crate) closed spec fn pat(self) -> Seq<char> {
        self.pattern@
    }
}

#[verifier::external_type_specification]
#[verifier::external_body]
pub struct ExRegexMatcher(grep_regex::RegexMatcher);

#[verifier::external_type_specification]
#[verifier::external_body]
pub struct ExRegexError(grep_regex::Error);

/// Relies on `grep_regex::RegexMatcher::new`: it compiles the pattern with
/// the default configuration, returns `Ok` exactly when the pattern is a
/// well-formed regular expression, and is deterministic and side-effect
/// free.
#[verifier::external_body]
pub(crate) fn compile_pattern(pattern: &str) -> (r: Result<CompiledPattern, grep_regex::Error>)
    ensures
        r is Ok <==> regex_valid(pattern@),
        r is Ok ==> r->Ok_0.pat() == pattern@,
{
    match grep_regex::RegexMatcher::new(pattern) {
        Ok(matcher) => Ok(CompiledPattern { matcher, pattern: pattern.to_string() }),
        Err(e) => Err(e),
    }
}

/// Relies on `grep_matcher::Matcher::is_match` as implemented by
/// `grep_regex::RegexMatcher`: it returns true if and only if the regex
/// matches anywhere within the haystack, here the first `n` bytes of `hay`,
/// and its error type `NoError` never occurs (`RegexMatcher::find_at` always
/// returns `Ok`).
#[verifier::external_body]
pub(crate) fn regex_match_within(cp: &CompiledPattern, hay: &Vec<u8>, n: usize) -> (r: bool)
    requires
        n <= hay@.len(),
    ensures
        r == regex_matches(cp.pat(), hay@.subrange(0, n as int)),
{
    cp.matcher.is_match(&hay[..n]).unwrap()
}

} // verus!
