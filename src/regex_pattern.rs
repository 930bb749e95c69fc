//! Compiled regular expressions, paired with the pattern text they were
//! compiled from. Only the two functions here build or read a
//! `CompiledPattern`: its fields are private to this module.

use vstd::prelude::*;

verus! {

/// Whether a text matches a regular expression, as the regex crate decides;
/// false for a pattern that does not compile.
pub uninterp spec fn regex_matches(pattern: Seq<char>, text: Seq<char>) -> bool;

#[verifier::external_type_specification]
#[verifier::external_body]
pub struct ExRegex(regex::Regex);

/// A regular expression and the pattern text it was compiled from.
pub struct CompiledPattern {
    re: regex::Regex,
    source: String,
}

impl CompiledPattern {
    /// The pattern text the expression was compiled from.
    pub closed spec fn source(&self) -> Seq<char> {
        self.source@
    }

    /// Relies on regex's `Regex::new`: compiles `pattern` and keeps its text
    /// beside it, or fails; a pattern that does not compile matches nothing.
    #[verifier::external_body]
    pub fn compile(pattern: &str) -> (r: Option<CompiledPattern>)
        ensures
            r matches Some(p) ==> p.source() == pattern@,
            r is None ==> forall|t: Seq<char>| !#[trigger] regex_matches(pattern@, t),
    {
        regex::Regex::new(pattern).ok().map(|re| CompiledPattern { re, source: pattern.to_string() })
    }

    /// Relies on regex's `Regex::is_match` on the expression that `compile`
    /// made from `source()`.
    #[verifier::external_body]
    pub fn is_match(&self, text: &str) -> (r: bool)
        ensures
            r == regex_matches(self.source(), text@),
    {
        self.re.is_match(text)
    }
}

} // verus!
