//! Errors surfaced by the queue engine and the store.

use vstd::prelude::*;

verus! {

/// Why an operation was refused.
///
/// `Validation` rejects an empty (or whitespace-only) required field;
/// `NotFound` an unknown task or list id; `InvalidTransition` an attempt
/// to complete a task that is not completable (already completed, or not
/// the first active task under the strict policy); `Store` a constraint
/// failure in the persistent record, such as a colliding id.
#[derive(Clone, Copy, Debug, PartialEq, Eq, Structural)]
pub enum TaskError {
    Validation,
    NotFound,
    InvalidTransition,
    Store,
}

impl TaskError {
    /// A short human-readable description, for the presentation layer.
    pub fn message(&self) -> (m: &'static str)
        ensures
            m@.len() > 0,
    {
        let m = match self {
            TaskError::Validation => "a required field is empty",
            TaskError::NotFound => "task not found",
            TaskError::InvalidTransition => "task cannot be completed",
            TaskError::Store => "store constraint failure",
        };
        proof {
            reveal_strlit("a required field is empty");
            reveal_strlit("task not found");
            reveal_strlit("task cannot be completed");
            reveal_strlit("store constraint failure");
        }
        m
    }
}

} // verus!
