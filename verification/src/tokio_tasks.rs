//! The parts of Tokio that the task set is built on.
//!
//! Which task completes, and with what outcome, is up to Tokio. A set therefore
//! comes with a record of what Tokio has given, attempt by attempt. The record
//! exists in contracts only, and nothing but an attempt to join adds to it.

use std::future::Future;
use std::task::{Context, Poll};

use tokio::runtime::Handle;
use tokio::task::{JoinError as TokioJoinError, JoinSet};
use vstd::future::FutureAdditionalSpecFns;
use vstd::multiset::Multiset;
use vstd::prelude::*;

use crate::future_wrappers::SendPtr;
use crate::progress::Progress;
use crate::tasks::Tasks;

verus! {

/// Tokio's set of spawned tasks.
#[verifier::external_type_specification]
#[verifier::external_body]
#[verifier::reject_recursive_types(T)]
pub struct ExJoinSet<T>(tokio::task::JoinSet<T>);

/// Tokio's account of why a task did not run to completion.
#[verifier::external_type_specification]
#[verifier::external_body]
pub struct ExTokioJoinError(TokioJoinError);

/// A handle to a Tokio runtime, through which tasks are started on it.
#[verifier::external_type_specification]
#[verifier::external_body]
pub struct ExHandle(tokio::runtime::Handle);

/// The context that a future is polled in.
#[verifier::external_type_specification]
#[verifier::external_body]
pub struct ExContext<'a>(std::task::Context<'a>);

/// The tasks in a `tokio::task::JoinSet`, from when they are spawned until they
/// are joined: for each of them, the address that its future yields when it
/// runs to completion. That a task completes changes nothing here.
pub uninterp spec fn task_outputs(set: JoinSet<SendPtr>) -> Multiset<usize>;

/// The same as [`task_outputs`], for those tasks in the set only on which
/// `abort` has not been called.
pub uninterp spec fn unaborted_outputs(set: JoinSet<SendPtr>) -> Multiset<usize>;

/// Whether whoever polled a `tokio::task::JoinSet` last with `cx` is called back:
/// the waker of `cx` has been woken since, or it is registered with the set and
/// will be woken when one of its tasks completes.
pub uninterp spec fn wakes(set: JoinSet<SendPtr>, cx: Context<'_>) -> bool;

/// What `tokio::task::JoinError::is_cancelled` says of an error.
pub uninterp spec fn was_cancelled(error: TokioJoinError) -> bool;

/// `tokio::task::JoinError::is_cancelled`: whether the task was cancelled. The
/// answer depends on the error alone.
pub assume_specification[ TokioJoinError::is_cancelled ](
    error: &TokioJoinError,
) -> (res: bool)
    ensures
        res == was_cancelled(*error),
;

/// `tokio::task::JoinError::is_panic`: whether the task panicked. An error
/// stems either from a cancellation or from a panic.
pub assume_specification[ TokioJoinError::is_panic ](
    error: &TokioJoinError,
) -> (res: bool)
    ensures
        res == !was_cancelled(*error),
;

/// The tasks in a Tokio set.
pub open spec fn tasks_in(set: JoinSet<SendPtr>) -> Tasks {
    Tasks { outputs: task_outputs(set), unaborted: unaborted_outputs(set) }
}

/// An attempt to join a task, with what Tokio has given.
pub enum Attempt {
    /// The set was polled for a task.
    Polled(Progress<Option<Result<SendPtr, TokioJoinError>>>),
    /// The set was asked for a task that has completed.
    Tried(Option<Result<SendPtr, TokioJoinError>>),
}

/// A Tokio set, and the record of the attempts that were made to join its tasks.
pub struct RecordedSet {
    join_set: JoinSet<SendPtr>,
    attempts: Ghost<Seq<Attempt>>,
}

impl RecordedSet {
    /// The Tokio set.
    pub closed spec fn tokio_set(&self) -> JoinSet<SendPtr> {
        self.join_set
    }

    /// The attempts that were made to join a task of this set, in their order.
    pub closed spec fn attempts(&self) -> Seq<Attempt> {
        self.attempts@
    }
}

impl View for RecordedSet {
    type V = Tasks;

    open spec fn view(&self) -> Tasks {
        tasks_in(self.tokio_set())
    }
}

/// `tokio::task::JoinSet::new`: a set without tasks. No attempt was made to join
/// any.
#[verifier::external_body]
pub(crate) fn join_set_new() -> (set: RecordedSet)
    ensures
        task_outputs(set.tokio_set()) == Multiset::<usize>::empty(),
        unaborted_outputs(set.tokio_set()) == Multiset::<usize>::empty(),
        set.attempts() == Seq::<Attempt>::empty(),
{
    RecordedSet { join_set: JoinSet::new(), attempts: Ghost(Seq::empty()) }
}

/// `tokio::task::JoinSet::spawn_on`: starts `task` on `runtime` and adds it to
/// the set, not told to abort. The number of tasks has to fit in a `usize`.
/// When and where the runtime runs the task is left unsaid. What the task yields
/// is taken to be the view that `vstd` gives a future, which depends on the
/// future's value alone: of two futures with the same value, both are taken to
/// yield the same address, as they are when they are awaited.
#[verifier::external_body]
pub(crate) fn join_set_spawn<F>(set: &mut RecordedSet, task: F, runtime: &Handle) where
    F: Future<Output = SendPtr> + Send + 'static,

    requires
        old(set)@.outputs.len() < usize::MAX,
    ensures
        final(set)@ == old(set)@.spawned(task@@),
        final(set).attempts() == old(set).attempts(),
{
    set.join_set.spawn_on(task, runtime);
}

/// `tokio::task::JoinSet::poll_join_next`: joins a task that has completed, and
/// takes it out of the set. An empty set is ready with nothing; one with tasks,
/// none of which is available, is pending and stays as it is. A task that ran
/// to completion gives what its future yields; one that was aborted or panicked
/// gives an error. Which task is joined depends on which have completed. While it
/// is pending, the waker of `cx` has been woken already or is registered to be
/// woken when a task completes. `cx` itself is only read. The attempt is recorded
/// with what it gave.
#[verifier::external_body]
pub(crate) fn join_set_poll_join_next(set: &mut RecordedSet, cx: &mut Context<'_>) -> (res:
    Progress<Option<Result<SendPtr, TokioJoinError>>>)
    ensures
        *final(cx) == *old(cx),
        final(set).attempts() == old(set).attempts().push(Attempt::Polled(res)),
        match res {
            Progress::Pending => old(set)@.outputs.len() > 0 && final(set)@ == old(set)@ && wakes(
                final(set).tokio_set(),
                *old(cx),
            ),
            Progress::Ready(None) => old(set)@.outputs.len() == 0 && final(set)@ == old(set)@,
            Progress::Ready(Some(Ok(ptr))) => old(set)@.left_by(ptr@, final(set)@),
            Progress::Ready(Some(Err(_))) => exists|output: usize| #[trigger]
                old(set)@.left_by(output, final(set)@),
        },
{
    match set.join_set.poll_join_next(cx) {
        Poll::Pending => Progress::Pending,
        Poll::Ready(joined) => Progress::Ready(joined),
    }
}

/// `tokio::task::JoinSet::try_join_next`: joins a task that has completed, if
/// there is one, and takes it out of the set; otherwise the set stays as it is.
/// A task that ran to completion gives what its future yields; one that was
/// aborted or panicked gives an error. Whether a task has completed depends on
/// how far the runtime has come. The attempt is recorded with what it gave.
#[verifier::external_body]
pub(crate) fn join_set_try_join_next(set: &mut RecordedSet) -> (res: Option<
    Result<SendPtr, TokioJoinError>,
>)
    ensures
        final(set).attempts() == old(set).attempts().push(Attempt::Tried(res)),
        match res {
            None => final(set)@ == old(set)@,
            Some(Ok(ptr)) => old(set)@.left_by(ptr@, final(set)@),
            Some(Err(_)) => exists|output: usize| #[trigger]
                old(set)@.left_by(output, final(set)@),
        },
{
    set.join_set.try_join_next()
}

/// `tokio::task::JoinSet::len`: the number of tasks in the set.
#[verifier::external_body]
pub(crate) fn join_set_len(set: &RecordedSet) -> (len: usize)
    ensures
        len == task_outputs(set.tokio_set()).len(),
{
    set.join_set.len()
}

/// `tokio::task::JoinSet::is_empty`: whether the set has no tasks.
#[verifier::external_body]
pub(crate) fn join_set_is_empty(set: &RecordedSet) -> (empty: bool)
    ensures
        empty == (task_outputs(set.tokio_set()).len() == 0),
{
    set.join_set.is_empty()
}

/// `tokio::task::JoinSet::abort_all`: calls `abort` on every task in the set.
/// The tasks stay in the set.
#[verifier::external_body]
pub(crate) fn join_set_abort_all(set: &mut RecordedSet)
    ensures
        final(set)@ == old(set)@.aborted(),
        final(set).attempts() == old(set).attempts(),
{
    set.join_set.abort_all()
}

} // verus!
