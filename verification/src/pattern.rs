//! Regular-expression search, done by the `regex` crate.

use crate::text::contains_text;
use vstd::prelude::*;

verus! {

/// A compiled regular expression of `regex`.
#[verifier::external_type_specification]
#[verifier::external_body]
pub struct ExRegex(regex::Regex);

/// The error with which `regex` refuses a pattern.
#[verifier::external_type_specification]
#[verifier::external_body]
pub struct ExPatternError(regex::Error);

/// Whether `regex::Regex::new` accepts the pattern.
pub uninterp spec fn pattern_compiles(pattern: Seq<char>) -> bool;

/// The part of `text` that `regex::Regex::find` reports for the pattern: the
/// leftmost match, if there is any.
pub uninterp spec fn first_match(pattern: Seq<char>, text: Seq<char>) -> Option<Seq<char>>;

/// A pattern together with what it was compiled to. Only `compile` makes
/// one, so the two always belong together.
pub struct Pattern {
    source: String,
    compiled: regex::Regex,
}

impl View for Pattern {
    type V = Seq<char>;

    /// The pattern's text.
    closed spec fn view(&self) -> Seq<char> {
        self.source@
    }
}

impl Pattern {
    /// Compiles the pattern with `regex::Regex::new`. Whether a pattern is
    /// accepted depends on the pattern alone.
    #[verifier::external_body]
    pub(crate) fn compile(source: &str) -> (r: Result<Pattern, regex::Error>)
        ensures
            r is Ok <==> pattern_compiles(source@),
            r matches Ok(pattern) ==> pattern@ == source@,
    {
        let compiled = regex::Regex::new(source)?;
        Ok(Pattern { source: source.to_string(), compiled })
    }

    /// Searches the text with `regex::Regex::find` and copies the match
    /// out. The match depends on pattern and text alone, and is a part of
    /// the text.
    #[verifier::external_body]
    pub(crate) fn find(&self, text: &str) -> (r: Option<String>)
        ensures
            match r {
                Some(m) => first_match(self@, text@) == Some(m@) && contains_text(text@, m@),
                None => first_match(self@, text@) is None,
            },
    {
        self.compiled.find(text).map(|m| m.as_str().to_string())
    }

    /// Whether the pattern matches somewhere in the text.
    pub fn is_match(&self, text: &str) -> (r: bool)
        ensures
            r == first_match(self@, text@) is Some,
    {
        self.find(text).is_some()
    }
}

/// Says in words why `regex` refused a pattern, by the error's `Display`.
#[verifier::external_body]
pub(crate) fn refusal_text(error: &regex::Error) -> (text: String) {
    error.to_string()
}

/// The match that a search with `pattern` gives on `text`: none where the
/// pattern does not compile.
pub open spec fn search(pattern: Seq<char>, text: Seq<char>) -> Option<Seq<char>> {
    if pattern_compiles(pattern) {
        first_match(pattern, text)
    } else {
        None
    }
}

/// Searches `text` for `pattern`. A pattern that does not compile finds
/// nothing.
pub fn find_first(pattern: &str, text: &str) -> (found: Option<String>)
    ensures
        match found {
            Some(m) => search(pattern@, text@) == Some(m@) && contains_text(text@, m@),
            None => search(pattern@, text@) is None,
        },
{
    match Pattern::compile(pattern) {
        Ok(compiled) => compiled.find(text),
        Err(_) => None,
    }
}

} // verus!
