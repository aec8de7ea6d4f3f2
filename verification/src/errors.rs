//! The library's error type.

use vstd::prelude::*;

verus! {

/// An error carrying a one-line message.
#[derive(Debug)]
pub struct GenericError(pub String);

impl GenericError {
    /// The message, for display by the surrounding program.
    pub fn message(&self) -> (r: &str)
        ensures
            r@ == self.0@,
    {
        self.0.as_str()
    }
}

} // verus!
