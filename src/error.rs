use vstd::prelude::*;

verus! {

/// What can go wrong while searching: at startup (the pattern), or for one
/// entry (walking the file tree, or reading a file that was found).
#[derive(Debug)]
pub enum GrepError {
    /// The pattern is not a valid regular expression.
    InvalidPattern(String),
    /// The walk could not access an entry; carries the walk's own description.
    Access(String),
    /// A directory was given while recursion is off.
    IsDirectory(String),
    /// A file that was found could not be opened or read.
    Read { path: String, cause: String },
}

impl GrepError {
    /// The text reported for this error.
    pub open spec fn message(self) -> Seq<char> {
        match self {
            GrepError::InvalidPattern(p) => "Invalid pattern \""@ + p@ + "\""@,
            GrepError::Access(m) => m@,
            GrepError::IsDirectory(p) => p@ + " is a directory"@,
            GrepError::Read { path, cause } => path@ + ": "@ + cause@,
        }
    }

    /// Renders the error as the text reported for it.
    pub fn to_string(&self) -> (r: String)
        ensures
            r@ == self.message(),
    {
        match self {
            GrepError::InvalidPattern(p) => {
                let s = String::from_str("Invalid pattern \"");
                s.concat(p.as_str()).concat("\"")
            },
            GrepError::Access(m) => m.clone(),
            GrepError::IsDirectory(p) => p.clone().concat(" is a directory"),
            GrepError::Read { path, cause } => path.clone().concat(": ").concat(cause.as_str()),
        }
    }
}

} // verus!
