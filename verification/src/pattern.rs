//! Regular expressions, from the `regex` crate.

use vstd::prelude::*;

verus! {

#[verifier::external_type_specification]
#[verifier::external_body]
pub struct ExRegex(regex::Regex);

/// Whether `regex::Regex::new` accepts a pattern (it is valid and within
/// the default size limit).
pub uninterp spec fn regex_compiles(pattern: Seq<char>) -> bool;

/// What `regex::Regex::is_match` answers for the regex compiled from
/// `pattern` and the haystack: whether it matches anywhere in it.
pub uninterp spec fn regex_is_match(pattern: Seq<char>, haystack: Seq<char>) -> bool;

/// A compiled regular expression together with the pattern it came from.
pub struct RegexFilter {
    re: regex::Regex,
    source: String,
}

impl RegexFilter {
    /// The pattern this filter was compiled from.
    pub closed spec fn pattern(&self) -> Seq<char> {
        self.source@
    }

    /// `regex::Regex::new`: compiles `pattern`, or `None` where the crate
    /// refuses it.  The pattern is kept beside the compiled regex.
    #[verifier::external_body]
    pub(crate) fn compile(pattern: &str) -> (r: Option<RegexFilter>)
        ensures
            r is Some <==> regex_compiles(pattern@),
            r matches Some(f) ==> f.pattern() == pattern@,
    {
        match regex::Regex::new(pattern) {
            Ok(re) => Some(RegexFilter { re, source: pattern.to_string() }),
            Err(_) => None,
        }
    }

    /// `regex::Regex::is_match`: whether the regex matches anywhere in `haystack`.
    #[verifier::external_body]
    pub(crate) fn is_match(&self, haystack: &str) -> (b: bool)
        ensures
            b == regex_is_match(self.pattern(), haystack@),
    {
        self.re.is_match(haystack)
    }
}

} // verus!
