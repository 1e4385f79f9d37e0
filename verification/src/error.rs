//! The error that a tool call hands back.
use vstd::prelude::*;

verus! {

/// Why a tool call failed.
#[derive(Debug, PartialEq, Eq)]
pub enum FunctionCallError {
    /// The message is sent back to the model, which may try again.
    RespondToModel(String),
    /// The turn cannot go on.
    Fatal(String),
}

impl FunctionCallError {
    /// Whether this error tells the model exactly `message`.
    pub open spec fn says(self, message: Seq<char>) -> bool {
        self matches FunctionCallError::RespondToModel(text) && text@ == message
    }
}

/// Whether a result is the one that `model` gives: the same value, or an error that tells the model
/// the same message.
pub open spec fn agrees<T>(r: Result<T, FunctionCallError>, model: Result<T, Seq<char>>) -> bool {
    match model {
        Ok(value) => r matches Ok(got) && got == value,
        Err(message) => r matches Err(error) && error.says(message),
    }
}

/// An error that tells the model `message`.
pub fn respond(message: &str) -> (r: FunctionCallError)
    ensures
        r.says(message@),
{
    FunctionCallError::RespondToModel(message.to_owned())
}

} // verus!
