//! The ways in which the engine refuses.

use vstd::prelude::*;

verus! {

/// Why the engine refused.
#[derive(Clone, Copy, Debug, PartialEq, Eq, Structural)]
pub enum EngineError {
    /// The inode is unknown, the node is of the wrong kind for the
    /// operation, or the write was not accepted.
    NotFound,
    /// The nodes handed in do not make a table: two of them share an inode.
    InvariantViolation,
}

impl EngineError {
    /// A short description of the error.
    pub fn message(&self) -> (text: &'static str)
        ensures
            text@ == match *self {
                EngineError::NotFound => "not found"@,
                EngineError::InvariantViolation => "invariant violation"@,
            },
    {
        match self {
            EngineError::NotFound => "not found",
            EngineError::InvariantViolation => "invariant violation",
        }
    }
}

} // verus!
