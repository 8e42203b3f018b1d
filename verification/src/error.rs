//! The error type of the engine.
use vstd::prelude::*;

verus! {

/// An engine failure, described by a message.
#[derive(Debug, Clone)]
pub struct EngineError {
    pub message: String,
}

impl EngineError {
    /// An error with the given message.
    pub fn new(message: String) -> (r: Self)
        ensures
            r.message@ == message@,
    {
        EngineError { message }
    }

    /// An error whose message is a copy of `message`.
    pub fn from_str(message: &str) -> (r: Self)
        ensures
            r.message@ == message@,
    {
        EngineError { message: message.to_string() }
    }

    /// The message of the error.
    pub fn message(&self) -> (r: String)
        ensures
            r@ == self.message@,
    {
        self.message.clone()
    }
}

} // verus!
