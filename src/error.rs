//! The error type of the scheduler and its collaborators.
use vstd::prelude::*;

verus! {

/// An error raised by a timer action or a module, with a readable message.
#[derive(Clone, Debug)]
pub struct Error {
    /// What went wrong.
    pub message: String,
}

impl Error {
    /// An error carrying `message`.
    pub fn new(message: String) -> (r: Self)
        ensures
            r.message@ == message@,
    {
        Error { message }
    }

    /// The error's message.
    pub fn message(&self) -> (r: &String)
        ensures
            r@ == self.message@,
    {
        &self.message
    }
}

} // verus!
