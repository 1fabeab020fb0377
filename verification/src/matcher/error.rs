//! Errors of the matcher.

use vstd::prelude::*;
use vstd::string::StringExecFns;

verus! {

/// Errors produced while matching a pattern against observations.
#[derive(Debug, Clone, PartialEq, Eq)]
pub enum MatchError {
    /// A pattern feature is parsed but not supported by the matcher
    /// (`FOLLOWEDBY` sequencing or temporal qualifiers).
    Unsupported(String),
}

/// The text of a matcher error.
pub open spec fn match_error_text(e: MatchError) -> Seq<char> {
    match e {
        MatchError::Unsupported(m) => "unsupported pattern feature: "@ + m@,
    }
}

impl MatchError {
    /// The error's text, as it is displayed.
    pub fn to_string(&self) -> (s: String)
        ensures
            s@ == match_error_text(*self),
    {
        match self {
            MatchError::Unsupported(m) => {
                let mut s = String::from_str("unsupported pattern feature: ");
                s.append(m.as_str());
                s
            },
        }
    }
}

} // verus!
