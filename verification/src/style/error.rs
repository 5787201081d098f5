//! The error of the style sheet parser.
use vstd::prelude::*;

verus! {

/// A style sheet could not be parsed; the message says why.
#[derive(Debug, Clone)]
pub struct ParseStyleError(pub String);

impl ParseStyleError {
    /// The message of the error.
    pub fn message(&self) -> (m: &String)
        ensures
            m@ == self.0@,
    {
        &self.0
    }
}

} // verus!
