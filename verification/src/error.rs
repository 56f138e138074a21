//! Error taxonomy of the selection-and-interpolation engine.

use vstd::prelude::*;

verus! {

/// Everything that can go wrong between the engine and its collaborators.
#[derive(Debug)]
pub enum NaviError {
    /// The selector reported the cancellation exit status; the whole
    /// invocation must stop with that status and run nothing further.
    Cancelled,
    /// The selector exited with an unexpected status; carries its raw
    /// standard error bytes.
    FinderFailed { stderr: Vec<u8> },
    /// Captured subprocess output was not valid UTF-8.
    InvalidUtf8,
    /// The selector's output held fewer lines than the protocol requires.
    MalformedOutput,
    /// A suggestion's delimiter was not a valid pattern.
    InvalidDelimiter,
    /// A suggestion asked for a column the chosen line does not have.
    ColumnOutOfRange,
}

impl NaviError {
    /// Whether this error is the user-cancellation signal.
    pub fn is_cancelled(&self) -> (r: bool)
        ensures
            r == (self is Cancelled),
    {
        match self {
            NaviError::Cancelled => true,
            _ => false,
        }
    }
}

} // verus!
