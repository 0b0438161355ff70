//! The error that the agent reports to its callers.

use vstd::prelude::*;

verus! {

/// A refusal or failure, with the text that explains it.
#[derive(Debug)]
pub struct Failure {
    pub message: String,
}

impl Failure {
    /// A failure with the given text.
    pub fn new(message: &str) -> (r: Failure)
        ensures
            r.message@ == message@,
    {
        Failure { message: message.to_owned() }
    }
}

} // verus!
