//! A scoped set of Tokio tasks.
//!
//! A task set holds the tasks that were spawned on it until each of them has
//! been joined. A task does not hand its output over directly: it writes the
//! output into a heap slot that was reserved for it, and yields the address of
//! that slot. Whoever joins the task reads the output back from the slot and
//! frees it; a task that is dropped unfinished frees the slot itself. A scope
//! closes by aborting what is still running and joining every task, so that
//! nothing outlives it.
//!
//! Waiting is expressed by polling: an operation that may have to wait takes
//! the [`Context`](std::task::Context) of the surrounding future and reports
//! its [`Progress`].

pub mod future_wrappers;
pub mod join_error;
pub mod laws;
pub mod lifecycle;
pub mod lifetime_obfuscation;
pub mod progress;
pub mod scope;
pub mod scoped_join_set;
pub mod tasks;
pub mod tokio_tasks;

pub use future_wrappers::{OutputSlot, SendPtr, WriteOutput};
pub use join_error::JoinError;
pub use progress::Progress;
pub use scope::{scope, Scope, ScopePhase};
pub use scoped_join_set::ScopedJoinSet;
