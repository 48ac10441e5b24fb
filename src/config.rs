use vstd::prelude::*;

use crate::error::GrepError;
use crate::pattern::{regex_compiles, Pattern};

verus! {

/// The path that stands for standard input.
pub open spec fn stdin_path() -> Seq<char> {
    seq!['-']
}

/// The settings of one search: the compiled pattern, the input paths in
/// order (never empty), and the recursive, count and invert-match flags.
#[derive(Debug)]
pub struct Config {
    pattern: Pattern,
    files: Vec<String>,
    recursive: bool,
    count: bool,
    invert_match: bool,
}

impl Config {
    /// The input paths, in order.
    pub closed spec fn file_list(&self) -> Seq<String> {
        self.files@
    }

    /// The compiled pattern.
    pub closed spec fn spec_pattern(&self) -> Pattern {
        self.pattern
    }

    /// Whether directories are searched recursively.
    pub closed spec fn is_recursive(&self) -> bool {
        self.recursive
    }

    /// Whether only the number of selected lines is reported.
    pub closed spec fn counts(&self) -> bool {
        self.count
    }

    /// Whether the lines without a match are selected.
    pub closed spec fn inverts(&self) -> bool {
        self.invert_match
    }

    /// Compiles the pattern and gathers the settings; no input paths means
    /// standard input alone. An invalid pattern is refused, with an error that
    /// names it.
    pub fn new(
        pattern: &str,
        case_insensitive: bool,
        files: Vec<String>,
        recursive: bool,
        count: bool,
        invert_match: bool,
    ) -> (r: Result<Config, GrepError>)
        ensures
            r is Ok <==> regex_compiles(pattern@, case_insensitive),
            r is Err ==> (r matches Err(GrepError::InvalidPattern(t)) && t@ == pattern@),
            r matches Ok(c) ==> {
                &&& c.spec_pattern().source_text() == pattern@
                &&& c.spec_pattern().is_case_insensitive() == case_insensitive
                &&& files@.len() > 0 ==> c.file_list() == files@
                &&& files@.len() == 0 ==> c.file_list().len() == 1 && c.file_list()[0]@ == stdin_path()
                &&& c.is_recursive() == recursive
                &&& c.counts() == count
                &&& c.inverts() == invert_match
            },
    {
        let pattern = match Pattern::new(pattern, case_insensitive) {
            Ok(p) => p,
            Err(e) => return Err(e),
        };
        let files = if files.len() == 0 {
            proof {
                reveal_strlit("-");
            }
            let stdin = String::from_str("-");
            assert(stdin@ =~= stdin_path());
            vec![stdin]
        } else {
            files
        };
        Ok(Config { pattern, files, recursive, count, invert_match })
    }

    /// The compiled pattern.
    pub fn pattern(&self) -> (r: &Pattern)
        ensures
            *r == self.spec_pattern(),
    {
        &self.pattern
    }

    /// The input paths, in order.
    pub fn files(&self) -> (r: &Vec<String>)
        ensures
            r@ == self.file_list(),
    {
        &self.files
    }

    /// Whether directories are searched recursively.
    pub fn recursive(&self) -> (r: bool)
        ensures
            r == self.is_recursive(),
    {
        self.recursive
    }

    /// Whether only the number of selected lines is reported.
    pub fn count(&self) -> (r: bool)
        ensures
            r == self.counts(),
    {
        self.count
    }

    /// Whether the lines without a match are selected.
    pub fn invert_match(&self) -> (r: bool)
        ensures
            r == self.inverts(),
    {
        self.invert_match
    }
}

} // verus!
