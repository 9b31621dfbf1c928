//! The ways a store lookup can fail.

use vstd::prelude::*;

verus! {

/// Why an operation on the store returned no value.
#[derive(Clone, Copy, Debug, PartialEq, Eq, Structural)]
pub enum Error {
    /// No stored system has the address or the name that was asked for.
    NotFound,
}

impl Error {
    /// A short description, fit for a log line.
    pub fn message(&self) -> (text: &'static str)
        ensures
            text@ == "no such system"@,
    {
        match self {
            Error::NotFound => "no such system",
        }
    }
}

} // verus!
