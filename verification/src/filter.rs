//! The name filter: a compiled pattern over file base names, shared
//! read-only by the whole run; the regex engine is an outside collaborator
//! and its verdicts are taken as an opaque predicate.

use vstd::prelude::*;

verus! {

#[verifier::external_type_specification]
#[verifier::external_body]
pub struct ExRegex(regex::Regex);

#[verifier::external_type_specification]
#[verifier::external_body]
pub struct ExRegexError(regex::Error);

/// Whether the regex engine accepts `pattern` as a valid pattern.
pub uninterp spec fn pattern_compiles(pattern: Seq<char>) -> bool;

/// Whether the regex compiled from `pattern` matches somewhere in `text`.
pub uninterp spec fn pattern_matches(pattern: Seq<char>, text: Seq<char>) -> bool;

/// Building a matcher from an invalid pattern fails with this error.
#[derive(Clone, Copy, Debug, PartialEq, Eq, Structural)]
pub enum FilterError {
    InvalidPattern,
}

/// A compiled name filter: the regex paired with the pattern it was built
/// from, which is what its contracts speak of.
pub struct Matcher {
    re: regex::Regex,
    pattern: String,
}

impl View for Matcher {
    type V = Seq<char>;

    closed spec fn view(&self) -> Seq<char> {
        self.pattern@
    }
}

impl Matcher {
    /// Relies on regex::Regex::new: it returns Ok exactly when the pattern
    /// is valid, and the matcher keeps the compiled regex paired with the
    /// pattern it came from.
    #[verifier::external_body]
    fn compile(pattern: &str) -> (r: Result<Matcher, regex::Error>)
        ensures
            r is Ok <==> pattern_compiles(pattern@),
            r matches Ok(m) ==> m@ == pattern@,
    {
        match regex::Regex::new(pattern) {
            Ok(re) => Ok(Matcher { re, pattern: pattern.to_owned() }),
            Err(e) => Err(e),
        }
    }

    /// Compile a pattern, reporting an invalid one as a library error.
    pub fn new(pattern: &str) -> (r: Result<Matcher, FilterError>)
        ensures
            r is Ok <==> pattern_compiles(pattern@),
            r matches Ok(m) ==> m@ == pattern@,
    {
        match Self::compile(pattern) {
            Ok(m) => Ok(m),
            Err(_) => Err(FilterError::InvalidPattern),
        }
    }

    /// Relies on regex::Regex::is_match: whether the pattern matches
    /// somewhere in `name`, a function of pattern and name alone.
    #[verifier::external_body]
    pub fn is_match(&self, name: &str) -> (r: bool)
        ensures
            r == pattern_matches(self@, name@),
    {
        self.re.is_match(name)
    }
}

} // verus!
