//! The library's error type.

use vstd::prelude::*;
#[allow(unused_imports)]
use vstd::string::*;

verus! {

/// Why a request was not carried out.
#[derive(Debug, PartialEq, Eq)]
pub enum Error {
    /// What was asked for does not exist.
    NotFound(String),
    /// The request breaks a rule.
    ValidationError(String),
}

impl Error {
    /// The text of the error.
    pub open spec fn text(self) -> Seq<char> {
        match self {
            Error::NotFound(s) => s@,
            Error::ValidationError(s) => s@,
        }
    }

    /// The text of the error.
    pub fn message(&self) -> (s: &str)
        ensures
            s@ == self.text(),
    {
        match self {
            Error::NotFound(s) => s.as_str(),
            Error::ValidationError(s) => s.as_str(),
        }
    }
}

} // verus!
