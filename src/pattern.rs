use vstd::prelude::*;

use crate::error::GrepError;

verus! {

#[verifier::external_type_specification]
#[verifier::external_body]
pub struct ExRegex(regex::Regex);

#[verifier::external_type_specification]
#[verifier::external_body]
pub struct ExRegexError(regex::Error);

/// Whether the regular-expression text compiles, in the given case mode.
pub uninterp spec fn regex_compiles(source: Seq<char>, case_insensitive: bool) -> bool;

/// Whether the compiled text, in the given case mode, finds a match
/// anywhere in `line`.
pub uninterp spec fn regex_finds(source: Seq<char>, case_insensitive: bool, line: Seq<char>) -> bool;

/// Relies on regex::RegexBuilder (new, case_insensitive, build): compiles
/// `source`; whether it succeeds depends on the text and the case mode alone.
#[verifier::external_body]
fn build_regex(source: &str, case_insensitive: bool) -> (r: Result<regex::Regex, regex::Error>)
    ensures
        r is Ok <==> regex_compiles(source@, case_insensitive),
{
    regex::RegexBuilder::new(source).case_insensitive(case_insensitive).build()
}

/// A compiled search pattern, with the text and the case mode it was
/// compiled from.
///
/// The fields are private and only `Pattern::new` fills them, so `regex`
/// is always the compilation of `source` in the mode `case_insensitive`.
#[derive(Debug)]
pub struct Pattern {
    regex: regex::Regex,
    source: String,
    case_insensitive: bool,
}

/// Relies on regex::Regex::is_match: whether the regex finds a match in
/// `line`; the regex is the one compiled from `p`'s text and case mode.
#[verifier::external_body]
fn regex_is_match(p: &Pattern, line: &str) -> (r: bool)
    ensures
        r == regex_finds(p.source_text(), p.is_case_insensitive(), line@),
{
    p.regex.is_match(line)
}

impl Pattern {
    /// The regular-expression text.
    pub closed spec fn source_text(&self) -> Seq<char> {
        self.source@
    }

    /// Whether letters match regardless of case.
    pub closed spec fn is_case_insensitive(&self) -> bool {
        self.case_insensitive
    }

    /// Whether the pattern finds a match in `line`.
    pub open spec fn finds(&self, line: Seq<char>) -> bool {
        regex_finds(self.source_text(), self.is_case_insensitive(), line)
    }

    /// Compiles `source`; an invalid pattern is refused with an error that
    /// names it.
    pub fn new(source: &str, case_insensitive: bool) -> (r: Result<Pattern, GrepError>)
        ensures
            r is Ok <==> regex_compiles(source@, case_insensitive),
            r matches Ok(p) ==> p.source_text() == source@ && p.is_case_insensitive()
                == case_insensitive,
            r is Err ==> (r matches Err(GrepError::InvalidPattern(t)) && t@ == source@),
    {
        match build_regex(source, case_insensitive) {
            Ok(regex) => Ok(Pattern { regex, source: String::from_str(source), case_insensitive }),
            Err(_) => Err(GrepError::InvalidPattern(String::from_str(source))),
        }
    }

    /// Whether the pattern finds a match in `line`.
    pub fn is_match(&self, line: &str) -> (r: bool)
        ensures
            r == self.finds(line@),
    {
        regex_is_match(self, line)
    }

    /// The regular-expression text.
    pub fn as_str(&self) -> (r: &str)
        ensures
            r@ == self.source_text(),
    {
        self.source.as_str()
    }

    /// Whether letters match regardless of case.
    pub fn case_insensitive(&self) -> (r: bool)
        ensures
            r == self.is_case_insensitive(),
    {
        self.case_insensitive
    }
}

} // verus!
