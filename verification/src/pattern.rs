//! Regular expressions, through the `regex` crate.
//!
//! What a regular expression matches is the `regex` crate's business: this
//! module names the results of its calls and states that each call returns
//! the named result for its arguments.
use vstd::prelude::*;
use crate::text::collapse_dashes;

verus! {

#[verifier::external_type_specification]
#[verifier::external_body]
pub struct ExRegex(regex::Regex);

#[verifier::external_type_specification]
#[verifier::external_body]
pub struct ExRegexError(regex::Error);

/// A compiled regular expression together with the pattern it came from.
pub struct Pattern {
    source: String,
    compiled: regex::Regex,
}

impl Pattern {
    /// The pattern text this regular expression was compiled from.
    pub closed spec fn source(&self) -> Seq<char> {
        self.source@
    }
}

/// `regex::Regex::new` accepts the pattern.
pub uninterp spec fn regex_compiles(pattern: Seq<char>) -> bool;

/// What `regex::Regex::replace_all` returns for a regular expression compiled
/// from `pattern`, a haystack and a replacement string.
pub uninterp spec fn regex_replace_all(
    pattern: Seq<char>,
    haystack: Seq<char>,
    replacement: Seq<char>,
) -> Seq<char>;

/// The text of capture group 1 of the leftmost match of `pattern` in the
/// haystack (`regex::Regex::captures`, then `Captures::get(1)`); `None` when
/// there is no match or the group took no part in it.
pub uninterp spec fn regex_group_one(pattern: Seq<char>, haystack: Seq<char>) -> Option<
    Seq<char>,
>;

/// `regex::Regex::new`: compiles `pattern`. Claimed: it succeeds exactly when
/// `regex_compiles(pattern)` (a fixed property of the pattern text), and the
/// result remembers its pattern.
#[verifier::external_body]
pub fn compile(pattern: &str) -> (r: Result<Pattern, regex::Error>)
    ensures
        r is Ok <==> regex_compiles(pattern@),
        r matches Ok(p) ==> p.source() == pattern@,
{
    match regex::Regex::new(pattern) {
        Ok(compiled) => Ok(Pattern { source: pattern.to_string(), compiled }),
        Err(e) => Err(e),
    }
}

/// `regex::Regex::replace_all` with a string replacement. Claimed: the
/// result is `regex_replace_all` of the pattern, the haystack and the
/// replacement; for the pattern `-+` and the replacement `-` (no `$`
/// group reference) every leftmost, longest, non-overlapping match is a
/// maximal run of dashes, so each such run becomes one `-`.
#[verifier::external_body]
pub fn replace_all(p: &Pattern, haystack: &str, replacement: &str) -> (r: String)
    ensures
        r@ == regex_replace_all(p.source(), haystack@, replacement@),
        p.source() == "-+"@ && replacement@ == "-"@ ==> r@ == collapse_dashes(haystack@),
{
    p.compiled.replace_all(haystack, replacement).into_owned()
}

/// `regex::Regex::captures` followed by `Captures::get(1)`. Claimed: the
/// result is `regex_group_one` of the pattern and the haystack.
#[verifier::external_body]
pub fn capture_group_one(p: &Pattern, haystack: &str) -> (r: Option<String>)
    ensures
        match r {
            Some(s) => regex_group_one(p.source(), haystack@) == Some(s@),
            None => regex_group_one(p.source(), haystack@) is None,
        },
{
    match p.compiled.captures(haystack) {
        Some(caps) => match caps.get(1) {
            Some(m) => Some(m.as_str().to_string()),
            None => None,
        },
        None => None,
    }
}

} // verus!
