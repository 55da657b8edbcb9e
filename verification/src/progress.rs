//! The outcome of polling.

use vstd::prelude::*;

verus! {

/// What polling an operation has brought about.
#[derive(Debug)]
pub enum Progress<T> {
    /// The operation has to be polled again later.
    Pending,
    /// The operation is complete.
    Ready(T),
}

} // verus!
