//! Why a task has no output.

use vstd::prelude::*;

use tokio::task::JoinError as TokioJoinError;

use crate::tokio_tasks::was_cancelled;

verus! {

/// Why joining a task brought no output.
#[derive(Debug)]
pub enum JoinError {
    /// The task was cancelled.
    Cancelled,
    /// The task panicked. The error carries what it panicked with.
    Panicked(TokioJoinError),
}

impl JoinError {
    /// Tells why a task has no output, from what Tokio says of `error`: that it
    /// stems from a cancellation, and that it stems from a panic. An error that
    /// stems from neither counts as a cancellation.
    pub fn from_reason(
        is_cancelled: bool,
        is_panic: bool,
        error: TokioJoinError,
    ) -> (res: Self)
        ensures
            res == (if !is_cancelled && is_panic {
                JoinError::Panicked(error)
            } else {
                JoinError::Cancelled
            }),
    {
        if is_cancelled {
            JoinError::Cancelled
        } else if is_panic {
            JoinError::Panicked(error)
        } else {
            JoinError::Cancelled
        }
    }

    /// The words for a task that has no output, by whether it panicked.
    pub fn message(panicked: bool) -> (message: String)
        ensures
            message@ == (if panicked {
                "task panicked"@
            } else {
                "task was cancelled"@
            }),
    {
        if panicked {
            "task panicked".to_owned()
        } else {
            "task was cancelled".to_owned()
        }
    }

    /// The error in words.
    pub fn to_string(&self) -> (message: String)
        ensures
            message@ == (match self {
                JoinError::Cancelled => "task was cancelled"@,
                JoinError::Panicked(_) => "task panicked"@,
            }),
    {
        match self {
            JoinError::Cancelled => JoinError::message(false),
            JoinError::Panicked(_) => JoinError::message(true),
        }
    }
}

impl From<TokioJoinError> for JoinError {
    fn from(error: TokioJoinError) -> (res: Self) {
        let is_cancelled = error.is_cancelled();
        let is_panic = error.is_panic();
        JoinError::from_reason(is_cancelled, is_panic, error)
    }
}

impl vstd::std_specs::convert::FromSpecImpl<TokioJoinError> for JoinError {
    open spec fn obeys_from_spec() -> bool {
        true
    }

    open spec fn from_spec(error: TokioJoinError) -> Self {
        if was_cancelled(error) {
            JoinError::Cancelled
        } else {
            JoinError::Panicked(error)
        }
    }
}

} // verus!
