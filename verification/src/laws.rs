//! What the functions of the library do, told by what their calls have to do with
//! each other and with what Tokio has given.
//!
//! Each law speaks of calls and their results: of what a function returns and
//! leaves behind, for whatever it is given.

use std::future::Future;
use std::ops::Deref;
use std::task::Context;

use tokio::runtime::Handle;
use tokio::task::JoinError as TokioJoinError;
use vstd::future::FutureAdditionalSpecFns;
use vstd::layout::size_of;
use vstd::multiset::Multiset;
use vstd::prelude::*;

use crate::future_wrappers::{OutputSlot, SendPtr, WriteOutput};
use crate::join_error::JoinError;
use crate::lifecycle::{law_join_finished, Lifecycle};
use crate::lifetime_obfuscation::obfuscate_lifetime;
use crate::progress::Progress;
use crate::scope::{
    finish_closing, scope, scope_polled, to_close, Scope, ScopePhase, ScopePoll, ScopeState,
};
use crate::scoped_join_set::{
    drained, finish_join, finish_join_all, finish_join_next, finish_try_join, finished,
    joined_in_order, outcome_of, recovers_all, ScopedJoinSet,
};
use crate::tasks::law_joining_keeps_the_rest;
use crate::tokio_tasks::{wakes, was_cancelled, Attempt};

verus! {

/// A slot gives back what was written to it, and says that something was.
pub proof fn law_slot_gives_back<T>(slot: &mut OutputSlot<T>, value: T, written: bool, output: T)
    requires
        call_ensures(OutputSlot::<T>::write, (slot, value), ()),
        call_ensures(OutputSlot::<T>::is_written, (&*final(slot),), written),
        call_ensures(OutputSlot::<T>::into_output, (*final(slot),), output),
    ensures
        written,
        output == value,
{
}

/// A new slot says that nothing was written to it.
pub proof fn law_new_slot_is_empty<T>(slot: OutputSlot<T>, written: bool)
    requires
        call_ensures(OutputSlot::<T>::empty, (), slot),
        call_ensures(OutputSlot::<T>::is_written, (&slot,), written),
    ensures
        !written,
{
}

/// An address comes out of its wrapper as it went in.
pub proof fn law_address_is_kept(address: usize, ptr: SendPtr, kept: &usize)
    requires
        call_ensures(SendPtr::new, (address,), ptr),
        call_ensures(<SendPtr as Deref>::deref, (&ptr,), kept),
    ensures
        *kept == address,
        ptr@ == address,
{
}

/// A new wrapper writes to the slot that it was made for, and releases that slot
/// when it is dropped.
pub proof fn law_new_wrapper_owns_its_slot<T>(
    address: usize,
    wrapper: WriteOutput<T>,
    output_ptr: usize,
    released: Option<SendPtr>,
)
    requires
        call_ensures(WriteOutput::<T>::new, (address,), wrapper),
        call_ensures(WriteOutput::<T>::output_ptr, (&wrapper,), output_ptr),
        call_ensures(WriteOutput::<T>::drop, (&wrapper,), released),
    ensures
        output_ptr == address,
        released matches Some(ptr) && ptr@ == address,
{
}

/// A pending future changes nothing: the task is pending, and its wrapper has the
/// same slot and would release the same as before. The slot is as it was.
pub proof fn law_pending_future_changes_nothing<T>(
    wrapper: &mut WriteOutput<T>,
    slot: &mut OutputSlot<T>,
    res: Progress<SendPtr>,
    before: usize,
    after: usize,
    released_before: Option<SendPtr>,
    released_after: Option<SendPtr>,
)
    requires
        call_ensures(WriteOutput::<T>::output_ptr, (&*old(wrapper),), before),
        call_ensures(WriteOutput::<T>::drop, (&*old(wrapper),), released_before),
        call_ensures(WriteOutput::<T>::poll, (wrapper, Progress::Pending, slot), res),
        call_ensures(WriteOutput::<T>::output_ptr, (&*final(wrapper),), after),
        call_ensures(WriteOutput::<T>::drop, (&*final(wrapper),), released_after),
    ensures
        res is Pending,
        after == before,
        released_after is Some <==> released_before is Some,
        released_before is Some ==> released_after->0@ == released_before->0@,
        final(slot)@ == old(slot)@,
{
}

/// When the future is ready, its output is in the slot, the task yields the
/// slot's address, and the wrapper releases nothing any more.
pub proof fn law_ready_future_delivers<T>(
    wrapper: &mut WriteOutput<T>,
    slot: &mut OutputSlot<T>,
    value: T,
    res: Progress<SendPtr>,
    output_ptr: usize,
    output: T,
    released: Option<SendPtr>,
)
    requires
        call_ensures(WriteOutput::<T>::output_ptr, (&*old(wrapper),), output_ptr),
        call_ensures(WriteOutput::<T>::poll, (wrapper, Progress::Ready(value), slot), res),
        call_ensures(OutputSlot::<T>::into_output, (*final(slot),), output),
        call_ensures(WriteOutput::<T>::drop, (&*final(wrapper),), released),
    ensures
        res matches Progress::Ready(ptr) && ptr@ == output_ptr,
        output == value,
        released is None,
{
}

/// The bytes that are made of a value are its memory.
pub proof fn law_bytes_are_the_memory<T>(value: &[u8], bytes: Vec<u8>)
    requires
        call_ensures(obfuscate_lifetime::<T>, (value,), bytes),
    ensures
        bytes@ == value@,
{
}

/// An error of Tokio's is told for what it is, and a panic keeps its own error.
pub proof fn law_errors_are_told_apart(error: TokioJoinError, told: JoinError)
    requires
        call_ensures(<JoinError as From<TokioJoinError>>::from, (error,), told),
    ensures
        was_cancelled(error) <==> told is Cancelled,
        !was_cancelled(error) <==> told == JoinError::Panicked(error),
{
}

/// Only an error that stems from a panic and not from a cancellation is told as
/// a panic, with that very error.
pub proof fn law_reasons_are_told_apart(
    is_cancelled: bool,
    is_panic: bool,
    error: TokioJoinError,
    told: JoinError,
)
    requires
        call_ensures(JoinError::from_reason, (is_cancelled, is_panic, error), told),
    ensures
        !is_cancelled && is_panic ==> told == JoinError::Panicked(error),
        is_cancelled || !is_panic ==> told is Cancelled,
{
}

/// What is made of an outcome of Tokio's is made of that very outcome: an output
/// is what is read at the address that Tokio has given, and an error tells why
/// there is none.
pub proof fn law_outcome_is_handed_on<T, R: FnOnce(SendPtr) -> T>(
    recover: R,
    outcome: Result<SendPtr, TokioJoinError>,
    joined: Result<T, JoinError>,
)
    requires
        call_ensures(finish_join::<T, R>, (outcome, recover), joined),
    ensures
        match outcome {
            Ok(ptr) => joined matches Ok(value) && call_ensures(recover, (ptr,), value),
            Err(error) => joined == Err::<T, JoinError>(
                if was_cancelled(error) {
                    JoinError::Cancelled
                } else {
                    JoinError::Panicked(error)
                },
            ),
        },
{
}

/// The same, for an attempt that may have brought no task.
pub proof fn law_attempt_is_handed_on<T, R: FnOnce(SendPtr) -> T>(
    recover: R,
    given: Option<Result<SendPtr, TokioJoinError>>,
    res: Option<Result<T, JoinError>>,
)
    requires
        call_ensures(finish_try_join::<T, R>, (given, recover), res),
    ensures
        given is None <==> res is None,
        given matches Some(outcome) ==> match outcome {
            Ok(ptr) => res->0 matches Ok(value) && call_ensures(recover, (ptr,), value),
            Err(error) => res->0 == Err::<T, JoinError>(
                if was_cancelled(error) {
                    JoinError::Cancelled
                } else {
                    JoinError::Panicked(error)
                },
            ),
        },
{
}

/// The same, for a poll.
pub proof fn law_poll_is_handed_on<T, R: FnOnce(SendPtr) -> T>(
    recover: R,
    polled: Progress<Option<Result<SendPtr, TokioJoinError>>>,
    res: Progress<Option<Result<T, JoinError>>>,
)
    requires
        call_ensures(finish_join_next::<T, R>, (polled, recover), res),
    ensures
        polled is Pending <==> res is Pending,
        polled == Progress::Ready(None::<Result<SendPtr, TokioJoinError>>) <==> res
            == Progress::Ready(None::<Result<T, JoinError>>),
        polled matches Progress::Ready(Some(outcome)) ==> match outcome {
            Ok(ptr) => res->Ready_0->0 matches Ok(value) && call_ensures(recover, (ptr,), value),
            Err(error) => res->Ready_0->0 == Err::<T, JoinError>(
                if was_cancelled(error) {
                    JoinError::Cancelled
                } else {
                    JoinError::Panicked(error)
                },
            ),
        },
{
}

/// The same, for a poll where all tasks are to be joined: what was collected
/// before stays, and one more result is there just when a task was joined. It
/// goes on just as long.
pub proof fn law_poll_is_collected<T, R: FnOnce(SendPtr) -> T>(
    recover: R,
    polled: Progress<Option<Result<SendPtr, TokioJoinError>>>,
    results: &mut Vec<Result<T, JoinError>>,
    res: Option<Progress<()>>,
)
    requires
        call_ensures(finish_join_all::<T, R>, (polled, results, recover), res),
    ensures
        match polled {
            Progress::Pending => res == Some(Progress::<()>::Pending)
                && final(results)@ == old(results)@,
            Progress::Ready(None) => res == Some(Progress::Ready(()))
                && final(results)@ == old(results)@,
            Progress::Ready(Some(outcome)) => {
                &&& res is None
                &&& final(results)@.len() == old(results)@.len() + 1
                &&& final(results)@.take(old(results)@.len() as int) == old(results)@
                &&& match outcome {
                    Ok(ptr) => final(results)@.last() matches Ok(value)
                        && call_ensures(recover, (ptr,), value),
                    Err(error) => final(results)@.last() == Err::<T, JoinError>(
                        if was_cancelled(error) {
                            JoinError::Cancelled
                        } else {
                            JoinError::Panicked(error)
                        },
                    ),
                }
            },
        },
{
    if polled matches Progress::Ready(Some(_)) {
        assert(final(results)@.take(old(results)@.len() as int) =~= final(results)@.drop_last());
    }
}

/// A new set has no task, and no attempt was made to join one.
pub proof fn law_set_starts_empty<T>(set: ScopedJoinSet<T>, len: usize, empty: bool)
    requires
        call_ensures(ScopedJoinSet::<T>::new, (), set),
        call_ensures(ScopedJoinSet::<T>::len, (&set,), len),
        call_ensures(ScopedJoinSet::<T>::is_empty, (&set,), empty),
    ensures
        len == 0,
        empty,
        set.record().attempts().len() == 0,
        set.record()@.unaborted.len() == 0,
{
}

/// The number of tasks is that of the Tokio set, and there is none just when the
/// set is empty.
pub proof fn law_set_counts_its_tasks<T>(set: ScopedJoinSet<T>, len: usize, empty: bool)
    requires
        call_ensures(ScopedJoinSet::<T>::len, (&set,), len),
        call_ensures(ScopedJoinSet::<T>::is_empty, (&set,), empty),
    ensures
        len == set.record()@.outputs.len(),
        empty <==> len == 0,
        set@ == set.record()@,
{
}

/// Spawning adds one task, which is not told to abort. Its future is made from a
/// new wrapper for the slot at `output_ptr`, and where it yields that address,
/// so does the task. The other tasks stay as they are, and nothing is joined.
pub proof fn law_set_spawn<
    T,
    F: Future<Output = SendPtr> + Send + 'static,
    IntoStatic: FnOnce(WriteOutput<T>) -> F,
>(
    set: &mut ScopedJoinSet<T>,
    runtime: &Handle,
    output_ptr: usize,
    into_static: IntoStatic,
    before: usize,
    after: usize,
)
    requires
        call_ensures(ScopedJoinSet::<T>::len, (&*old(set),), before),
        call_ensures(
            ScopedJoinSet::<T>::spawn::<F, IntoStatic>,
            (set, runtime, output_ptr, into_static),
            (),
        ),
        call_ensures(ScopedJoinSet::<T>::len, (&*final(set),), after),
    ensures
        after == before + 1,
        final(set).record().attempts() == old(set).record().attempts(),
        exists|wrapper: WriteOutput<T>, task: F| #[trigger]
            call_ensures(into_static, (wrapper,), task) && wrapper@.output_ptr == output_ptr
                && !wrapper@.success && final(set).record()@.outputs
                == old(set).record()@.outputs.insert(task@@) && final(set).record()@.unaborted
                == old(set).record()@.unaborted.insert(task@@),
        (forall|wrapper: WriteOutput<T>, task: F| #[trigger]
            call_ensures(into_static, (wrapper,), task) ==> task@@ == wrapper@.output_ptr) ==> {
            &&& final(set).record()@.outputs == old(set).record()@.outputs.insert(output_ptr)
            &&& final(set).record()@.unaborted == old(set).record()@.unaborted.insert(output_ptr)
        },
{
    let (wrapper, task) = choose|wrapper: WriteOutput<T>, task: F| #[trigger]
        call_ensures(into_static, (wrapper,), task) && wrapper@.output_ptr == output_ptr
            && !wrapper@.success && final(set)@ == old(set)@.spawned(task@@);
    assert(call_ensures(into_static, (wrapper,), task));
}

/// Aborting tells every task, and takes none out. Nothing is joined by it.
pub proof fn law_set_abort_all<T>(set: &mut ScopedJoinSet<T>, before: usize, after: usize)
    requires
        call_ensures(ScopedJoinSet::<T>::len, (&*old(set),), before),
        call_ensures(ScopedJoinSet::<T>::abort_all, (set,), ()),
        call_ensures(ScopedJoinSet::<T>::len, (&*final(set),), after),
    ensures
        after == before,
        final(set).record()@.outputs == old(set).record()@.outputs,
        final(set).record()@.unaborted == Multiset::<usize>::empty(),
        final(set).record().attempts() == old(set).record().attempts(),
{
}

/// Waiting for the next task polls Tokio once, and what is returned is what that
/// poll gave: pending, with a wake-up to come, just when Tokio is pending;
/// nothing just when there is no task; the output that is read at the address
/// that Tokio gave; or the reason that Tokio gave. Just the task that was joined
/// leaves, and none is told to abort.
pub proof fn law_set_join_next<T, R: FnOnce(SendPtr) -> T>(
    set: &mut ScopedJoinSet<T>,
    cx: &mut Context<'_>,
    recover: R,
    res: Progress<Option<Result<T, JoinError>>>,
    before: usize,
    after: usize,
)
    requires
        call_ensures(ScopedJoinSet::<T>::len, (&*old(set),), before),
        call_ensures(ScopedJoinSet::<T>::join_next::<R>, (set, cx, recover), res),
        call_ensures(ScopedJoinSet::<T>::len, (&*final(set),), after),
    ensures
        final(set).record().attempts().len() == old(set).record().attempts().len() + 1,
        final(set).record().attempts().drop_last() == old(set).record().attempts(),
        match final(set).record().attempts().last() {
            Attempt::Polled(Progress::Pending) => {
                &&& res is Pending
                &&& before > 0
                &&& after == before
                &&& final(set).record()@ == old(set).record()@
                &&& wakes(final(set).record().tokio_set(), *old(cx))
            },
            Attempt::Polled(Progress::Ready(None)) => {
                &&& res == Progress::Ready(None::<Result<T, JoinError>>)
                &&& before == 0
                &&& after == 0
                &&& final(set).record()@ == old(set).record()@
            },
            Attempt::Polled(Progress::Ready(Some(outcome))) => res is Ready && res->Ready_0 is Some
                && {
                &&& before == after + 1
                &&& final(set).record()@.unaborted.subset_of(old(set).record()@.unaborted)
                &&& match outcome {
                    Ok(ptr) => {
                        &&& res->Ready_0->0 matches Ok(value)
                        &&& call_ensures(recover, (ptr,), value)
                        &&& old(set).record()@.outputs.contains(ptr@)
                        &&& final(set).record()@.outputs == old(set).record()@.outputs.remove(ptr@)
                        &&& old(set).record()@.unaborted.subset_of(
                            final(set).record()@.unaborted.insert(ptr@),
                        )
                    },
                    Err(error) => {
                        &&& res->Ready_0->0 == Err::<T, JoinError>(
                            if was_cancelled(error) {
                                JoinError::Cancelled
                            } else {
                                JoinError::Panicked(error)
                            },
                        )
                        &&& exists|output: usize|
                            #![trigger old(set).record()@.outputs.remove(output)]
                            old(set).record()@.outputs.contains(output)
                                && final(set).record()@.outputs == old(set).record()@.outputs.remove(output)
                                && old(set).record()@.unaborted.subset_of(
                                final(set).record()@.unaborted.insert(output),
                            )
                    },
                }
            },
            Attempt::Tried(_) => false,
        },
{
    if res matches Progress::Ready(Some(_)) {
        let outcome = final(set).record().attempts().last()->Polled_0->Ready_0->0;
        let output = choose|output: usize| #[trigger]
            old(set)@.left_by(output, final(set)@) && outcome_of(output, outcome);
        assert(old(set)@.left_by(output, final(set)@));
        assert(old(set).record()@.outputs.remove(output) == final(set).record()@.outputs);
    }
}

/// Trying to join asks Tokio once, and what is returned is what Tokio gave:
/// nothing just when Tokio had no task that has completed, and else the output
/// that is read at the address that Tokio gave, or the reason that Tokio gave.
/// Just the task that was joined leaves, and none is told to abort.
pub proof fn law_set_try_join_next<T, R: FnOnce(SendPtr) -> T>(
    set: &mut ScopedJoinSet<T>,
    recover: R,
    res: Option<Result<T, JoinError>>,
    before: usize,
    after: usize,
)
    requires
        call_ensures(ScopedJoinSet::<T>::len, (&*old(set),), before),
        call_ensures(ScopedJoinSet::<T>::try_join_next::<R>, (set, recover), res),
        call_ensures(ScopedJoinSet::<T>::len, (&*final(set),), after),
    ensures
        final(set).record().attempts().len() == old(set).record().attempts().len() + 1,
        final(set).record().attempts().drop_last() == old(set).record().attempts(),
        match final(set).record().attempts().last() {
            Attempt::Tried(None) => {
                &&& res is None
                &&& after == before
                &&& final(set).record()@ == old(set).record()@
            },
            Attempt::Tried(Some(outcome)) => res is Some && {
                &&& before == after + 1
                &&& final(set).record()@.unaborted.subset_of(old(set).record()@.unaborted)
                &&& match outcome {
                    Ok(ptr) => {
                        &&& res->0 matches Ok(value) && call_ensures(recover, (ptr,), value)
                        &&& old(set).record()@.outputs.contains(ptr@)
                        &&& final(set).record()@.outputs == old(set).record()@.outputs.remove(ptr@)
                        &&& old(set).record()@.unaborted.subset_of(
                            final(set).record()@.unaborted.insert(ptr@),
                        )
                    },
                    Err(error) => {
                        &&& res->0 == Err::<T, JoinError>(
                            if was_cancelled(error) {
                                JoinError::Cancelled
                            } else {
                                JoinError::Panicked(error)
                            },
                        )
                        &&& exists|output: usize|
                            #![trigger old(set).record()@.outputs.remove(output)]
                            old(set).record()@.outputs.contains(output)
                                && final(set).record()@.outputs == old(set).record()@.outputs.remove(output)
                                && old(set).record()@.unaborted.subset_of(
                                final(set).record()@.unaborted.insert(output),
                            )
                    },
                }
            },
            Attempt::Polled(_) => false,
        },
{
    if res matches Some(_) {
        let outcome = final(set).record().attempts().last()->Tried_0->0;
        let output = choose|output: usize| #[trigger]
            old(set)@.left_by(output, final(set)@) && outcome_of(output, outcome);
        assert(old(set)@.left_by(output, final(set)@));
        assert(old(set).record()@.outputs.remove(output) == final(set).record()@.outputs);
    }
}

/// Joining all tasks polls Tokio until it gives no task any more. There is one
/// result for each task that was joined, in the order in which Tokio gave them,
/// and each is made of what Tokio gave for that very task: what is read at its
/// address, or its own reason. Just these tasks leave, none is told to abort, and
/// it is done just when no task is left. Until then there is a wake-up to come.
pub proof fn law_set_join_all<T, R: FnOnce(SendPtr) -> T + Copy>(
    set: &mut ScopedJoinSet<T>,
    cx: &mut Context<'_>,
    results: &mut Vec<Result<T, JoinError>>,
    recover: R,
    res: Progress<()>,
    before: usize,
    after: usize,
)
    requires
        call_ensures(ScopedJoinSet::<T>::len, (&*old(set),), before),
        call_ensures(ScopedJoinSet::<T>::join_all::<R>, (set, cx, results, recover), res),
        call_ensures(ScopedJoinSet::<T>::len, (&*final(set),), after),
    ensures
        final(results)@.len() >= old(results)@.len(),
        final(results)@.take(old(results)@.len() as int) == old(results)@,
        before - after == final(results)@.len() - old(results)@.len(),
        final(set).record().attempts().len() == old(set).record().attempts().len() + before - after
            + 1,
        final(set).record().attempts().take(old(set).record().attempts().len() as int)
            == old(set).record().attempts(),
        forall|i: int|
            0 <= i < before - after ==> {
                &&& final(set).record().attempts()[old(set).record().attempts().len()
                    + i] matches Attempt::Polled(Progress::Ready(Some(outcome)))
                &&& match outcome {
                    Ok(ptr) => (#[trigger] final(results)@[old(results)@.len() + i]) matches Ok(value)
                        && call_ensures(recover, (ptr,), value),
                    Err(error) => (#[trigger] final(results)@[old(results)@.len() + i]) == Err::<T, JoinError>(
                        if was_cancelled(error) {
                            JoinError::Cancelled
                        } else {
                            JoinError::Panicked(error)
                        },
                    ),
                }
            },
        match res {
            Progress::Pending => {
                &&& final(set).record().attempts().last() == Attempt::Polled(Progress::Pending)
                &&& after > 0
                &&& wakes(final(set).record().tokio_set(), *old(cx))
            },
            Progress::Ready(()) => {
                &&& final(set).record().attempts().last() == Attempt::Polled(Progress::Ready(None))
                &&& after == 0
            },
        },
        exists|outputs: Seq<usize>| #[trigger]
            final(set).record()@.outputs.add(outputs.to_multiset()) == old(set).record()@.outputs
                && outputs.len() == before - after && final(set).record()@.unaborted.subset_of(
                old(set).record()@.unaborted,
            ) && old(set).record()@.unaborted.subset_of(
                final(set).record()@.unaborted.add(outputs.to_multiset()),
            ),
{
    let joined = final(results)@.skip(old(results)@.len() as int);
    let (outputs, outcomes) = choose|
        outputs: Seq<usize>,
        outcomes: Seq<Result<SendPtr, TokioJoinError>>,
    | #[trigger]
        joined_in_order(recover, old(set)@, final(set)@, outputs, outcomes, joined) && drained(
            old(set).attempts(),
            outcomes,
            final(set).attempts(),
            res,
        );
    law_joining_keeps_the_rest(old(set)@, outputs, final(set)@);
    assert(final(set).record()@.outputs.add(outputs.to_multiset()) == old(set).record()@.outputs);
    assert forall|i: int| 0 <= i < before - after implies {
        &&& final(set).record().attempts()[old(set).record().attempts().len()
            + i] matches Attempt::Polled(Progress::Ready(Some(outcome)))
        &&& match outcome {
            Ok(ptr) => (#[trigger] final(results)@[old(results)@.len() + i]) matches Ok(value)
                && call_ensures(recover, (ptr,), value),
            Err(error) => (#[trigger] final(results)@[old(results)@.len() + i]) == Err::<T, JoinError>(
                if was_cancelled(error) {
                    JoinError::Cancelled
                } else {
                    JoinError::Panicked(error)
                },
            ),
        }
    } by {
        assert(joined[i] == final(results)@[old(results)@.len() + i]);
        let outcome = outcomes[i];
        assert(finished(recover, outcome, joined[i]));
    }
    assert(final(results)@.take(old(results)@.len() as int) =~= old(results)@);
}

/// A new scope has no task, and no attempt was made to join one.
pub proof fn law_scope_starts_empty<T>(set: Scope<T>, len: usize, empty: bool)
    requires
        call_ensures(Scope::<T>::new, (), set),
        call_ensures(Scope::<T>::len, (&set,), len),
        call_ensures(Scope::<T>::is_empty, (&set,), empty),
    ensures
        len == 0,
        empty,
        set.record().attempts().len() == 0,
        set.record()@.unaborted.len() == 0,
{
}

/// The number of tasks is that of the Tokio set, and there is none just when the
/// scope is empty.
pub proof fn law_scope_counts_its_tasks<T>(set: Scope<T>, len: usize, empty: bool)
    requires
        call_ensures(Scope::<T>::len, (&set,), len),
        call_ensures(Scope::<T>::is_empty, (&set,), empty),
    ensures
        len == set.record()@.outputs.len(),
        empty <==> len == 0,
        set@ == set.record()@,
{
}

/// Spawning adds one task, which is not told to abort. Its future is made from a
/// new wrapper for the slot at `output_ptr`, and where it yields that address,
/// so does the task. The other tasks stay as they are, and nothing is joined.
pub proof fn law_scope_spawn<
    T,
    F: Future<Output = SendPtr> + Send + 'static,
    IntoStatic: FnOnce(WriteOutput<T>) -> F,
>(
    set: &mut Scope<T>,
    runtime: &Handle,
    output_ptr: usize,
    into_static: IntoStatic,
    before: usize,
    after: usize,
)
    requires
        call_ensures(Scope::<T>::len, (&*old(set),), before),
        call_ensures(Scope::<T>::spawn::<F, IntoStatic>, (set, runtime, output_ptr, into_static), ()),
        call_ensures(Scope::<T>::len, (&*final(set),), after),
    ensures
        after == before + 1,
        final(set).record().attempts() == old(set).record().attempts(),
        exists|wrapper: WriteOutput<T>, task: F| #[trigger]
            call_ensures(into_static, (wrapper,), task) && wrapper@.output_ptr == output_ptr
                && !wrapper@.success && final(set).record()@.outputs
                == old(set).record()@.outputs.insert(task@@) && final(set).record()@.unaborted
                == old(set).record()@.unaborted.insert(task@@),
        (forall|wrapper: WriteOutput<T>, task: F| #[trigger]
            call_ensures(into_static, (wrapper,), task) ==> task@@ == wrapper@.output_ptr) ==> {
            &&& final(set).record()@.outputs == old(set).record()@.outputs.insert(output_ptr)
            &&& final(set).record()@.unaborted == old(set).record()@.unaborted.insert(output_ptr)
        },
{
    let (wrapper, task) = choose|wrapper: WriteOutput<T>, task: F| #[trigger]
        call_ensures(into_static, (wrapper,), task) && wrapper@.output_ptr == output_ptr
            && !wrapper@.success && final(set)@ == old(set)@.spawned(task@@);
    assert(call_ensures(into_static, (wrapper,), task));
}

/// Aborting tells every task, and takes none out. Nothing is joined by it.
pub proof fn law_scope_abort_all<T>(set: &mut Scope<T>, before: usize, after: usize)
    requires
        call_ensures(Scope::<T>::len, (&*old(set),), before),
        call_ensures(Scope::<T>::abort_all, (set,), ()),
        call_ensures(Scope::<T>::len, (&*final(set),), after),
    ensures
        after == before,
        final(set).record()@.outputs == old(set).record()@.outputs,
        final(set).record()@.unaborted == Multiset::<usize>::empty(),
        final(set).record().attempts() == old(set).record().attempts(),
{
}

/// Waiting for the next task polls Tokio once, and what is returned is what that
/// poll gave: pending, with a wake-up to come, just when Tokio is pending;
/// nothing just when there is no task; the output that is read at the address
/// that Tokio gave; or the reason that Tokio gave. Just the task that was joined
/// leaves, and none is told to abort.
pub proof fn law_scope_join_next<T, R: FnOnce(SendPtr) -> T>(
    set: &mut Scope<T>,
    cx: &mut Context<'_>,
    recover: R,
    res: Progress<Option<Result<T, JoinError>>>,
    before: usize,
    after: usize,
)
    requires
        call_ensures(Scope::<T>::len, (&*old(set),), before),
        call_ensures(Scope::<T>::join_next::<R>, (set, cx, recover), res),
        call_ensures(Scope::<T>::len, (&*final(set),), after),
    ensures
        final(set).record().attempts().len() == old(set).record().attempts().len() + 1,
        final(set).record().attempts().drop_last() == old(set).record().attempts(),
        match final(set).record().attempts().last() {
            Attempt::Polled(Progress::Pending) => {
                &&& res is Pending
                &&& before > 0
                &&& after == before
                &&& final(set).record()@ == old(set).record()@
                &&& wakes(final(set).record().tokio_set(), *old(cx))
            },
            Attempt::Polled(Progress::Ready(None)) => {
                &&& res == Progress::Ready(None::<Result<T, JoinError>>)
                &&& before == 0
                &&& after == 0
                &&& final(set).record()@ == old(set).record()@
            },
            Attempt::Polled(Progress::Ready(Some(outcome))) => res is Ready && res->Ready_0 is Some
                && {
                &&& before == after + 1
                &&& final(set).record()@.unaborted.subset_of(old(set).record()@.unaborted)
                &&& match outcome {
                    Ok(ptr) => {
                        &&& res->Ready_0->0 matches Ok(value)
                        &&& call_ensures(recover, (ptr,), value)
                        &&& old(set).record()@.outputs.contains(ptr@)
                        &&& final(set).record()@.outputs == old(set).record()@.outputs.remove(ptr@)
                        &&& old(set).record()@.unaborted.subset_of(
                            final(set).record()@.unaborted.insert(ptr@),
                        )
                    },
                    Err(error) => {
                        &&& res->Ready_0->0 == Err::<T, JoinError>(
                            if was_cancelled(error) {
                                JoinError::Cancelled
                            } else {
                                JoinError::Panicked(error)
                            },
                        )
                        &&& exists|output: usize|
                            #![trigger old(set).record()@.outputs.remove(output)]
                            old(set).record()@.outputs.contains(output)
                                && final(set).record()@.outputs == old(set).record()@.outputs.remove(output)
                                && old(set).record()@.unaborted.subset_of(
                                final(set).record()@.unaborted.insert(output),
                            )
                    },
                }
            },
            Attempt::Tried(_) => false,
        },
{
    if res matches Progress::Ready(Some(_)) {
        let outcome = final(set).record().attempts().last()->Polled_0->Ready_0->0;
        let output = choose|output: usize| #[trigger]
            old(set)@.left_by(output, final(set)@) && outcome_of(output, outcome);
        assert(old(set)@.left_by(output, final(set)@));
        assert(old(set).record()@.outputs.remove(output) == final(set).record()@.outputs);
    }
}

/// Trying to join asks Tokio once, and what is returned is what Tokio gave:
/// nothing just when Tokio had no task that has completed, and else the output
/// that is read at the address that Tokio gave, or the reason that Tokio gave.
/// Just the task that was joined leaves, and none is told to abort.
pub proof fn law_scope_try_join_next<T, R: FnOnce(SendPtr) -> T>(
    set: &mut Scope<T>,
    recover: R,
    res: Option<Result<T, JoinError>>,
    before: usize,
    after: usize,
)
    requires
        call_ensures(Scope::<T>::len, (&*old(set),), before),
        call_ensures(Scope::<T>::try_join_next::<R>, (Some(set), recover), res),
        call_ensures(Scope::<T>::len, (&*final(set),), after),
    ensures
        final(set).record().attempts().len() == old(set).record().attempts().len() + 1,
        final(set).record().attempts().drop_last() == old(set).record().attempts(),
        match final(set).record().attempts().last() {
            Attempt::Tried(None) => {
                &&& res is None
                &&& after == before
                &&& final(set).record()@ == old(set).record()@
            },
            Attempt::Tried(Some(outcome)) => res is Some && {
                &&& before == after + 1
                &&& final(set).record()@.unaborted.subset_of(old(set).record()@.unaborted)
                &&& match outcome {
                    Ok(ptr) => {
                        &&& res->0 matches Ok(value) && call_ensures(recover, (ptr,), value)
                        &&& old(set).record()@.outputs.contains(ptr@)
                        &&& final(set).record()@.outputs == old(set).record()@.outputs.remove(ptr@)
                        &&& old(set).record()@.unaborted.subset_of(
                            final(set).record()@.unaborted.insert(ptr@),
                        )
                    },
                    Err(error) => {
                        &&& res->0 == Err::<T, JoinError>(
                            if was_cancelled(error) {
                                JoinError::Cancelled
                            } else {
                                JoinError::Panicked(error)
                            },
                        )
                        &&& exists|output: usize|
                            #![trigger old(set).record()@.outputs.remove(output)]
                            old(set).record()@.outputs.contains(output)
                                && final(set).record()@.outputs == old(set).record()@.outputs.remove(output)
                                && old(set).record()@.unaborted.subset_of(
                                final(set).record()@.unaborted.insert(output),
                            )
                    },
                }
            },
            Attempt::Polled(_) => false,
        },
{
    if res matches Some(_) {
        let outcome = final(set).record().attempts().last()->Tried_0->0;
        let output = choose|output: usize| #[trigger]
            old(set)@.left_by(output, final(set)@) && outcome_of(output, outcome);
        assert(old(set)@.left_by(output, final(set)@));
        assert(old(set).record()@.outputs.remove(output) == final(set).record()@.outputs);
    }
}

/// Joining all tasks polls Tokio until it gives no task any more. There is one
/// result for each task that was joined, in the order in which Tokio gave them,
/// and each is made of what Tokio gave for that very task: what is read at its
/// address, or its own reason. Just these tasks leave, none is told to abort, and
/// it is done just when no task is left. Until then there is a wake-up to come.
pub proof fn law_scope_join_all<T, R: FnOnce(SendPtr) -> T + Copy>(
    set: &mut Scope<T>,
    cx: &mut Context<'_>,
    results: &mut Vec<Result<T, JoinError>>,
    recover: R,
    res: Progress<()>,
    before: usize,
    after: usize,
)
    requires
        call_ensures(Scope::<T>::len, (&*old(set),), before),
        call_ensures(Scope::<T>::join_all::<R>, (set, cx, results, recover), res),
        call_ensures(Scope::<T>::len, (&*final(set),), after),
    ensures
        final(results)@.len() >= old(results)@.len(),
        final(results)@.take(old(results)@.len() as int) == old(results)@,
        before - after == final(results)@.len() - old(results)@.len(),
        final(set).record().attempts().len() == old(set).record().attempts().len() + before - after
            + 1,
        final(set).record().attempts().take(old(set).record().attempts().len() as int)
            == old(set).record().attempts(),
        forall|i: int|
            0 <= i < before - after ==> {
                &&& final(set).record().attempts()[old(set).record().attempts().len()
                    + i] matches Attempt::Polled(Progress::Ready(Some(outcome)))
                &&& match outcome {
                    Ok(ptr) => (#[trigger] final(results)@[old(results)@.len() + i]) matches Ok(value)
                        && call_ensures(recover, (ptr,), value),
                    Err(error) => (#[trigger] final(results)@[old(results)@.len() + i]) == Err::<T, JoinError>(
                        if was_cancelled(error) {
                            JoinError::Cancelled
                        } else {
                            JoinError::Panicked(error)
                        },
                    ),
                }
            },
        match res {
            Progress::Pending => {
                &&& final(set).record().attempts().last() == Attempt::Polled(Progress::Pending)
                &&& after > 0
                &&& wakes(final(set).record().tokio_set(), *old(cx))
            },
            Progress::Ready(()) => {
                &&& final(set).record().attempts().last() == Attempt::Polled(Progress::Ready(None))
                &&& after == 0
            },
        },
        exists|outputs: Seq<usize>| #[trigger]
            final(set).record()@.outputs.add(outputs.to_multiset()) == old(set).record()@.outputs
                && outputs.len() == before - after && final(set).record()@.unaborted.subset_of(
                old(set).record()@.unaborted,
            ) && old(set).record()@.unaborted.subset_of(
                final(set).record()@.unaborted.add(outputs.to_multiset()),
            ),
{
    let joined = final(results)@.skip(old(results)@.len() as int);
    let (outputs, outcomes) = choose|
        outputs: Seq<usize>,
        outcomes: Seq<Result<SendPtr, TokioJoinError>>,
    | #[trigger]
        joined_in_order(recover, old(set)@, final(set)@, outputs, outcomes, joined) && drained(
            old(set).attempts(),
            outcomes,
            final(set).attempts(),
            res,
        );
    law_joining_keeps_the_rest(old(set)@, outputs, final(set)@);
    assert(final(set).record()@.outputs.add(outputs.to_multiset()) == old(set).record()@.outputs);
    assert forall|i: int| 0 <= i < before - after implies {
        &&& final(set).record().attempts()[old(set).record().attempts().len()
            + i] matches Attempt::Polled(Progress::Ready(Some(outcome)))
        &&& match outcome {
            Ok(ptr) => (#[trigger] final(results)@[old(results)@.len() + i]) matches Ok(value)
                && call_ensures(recover, (ptr,), value),
            Err(error) => (#[trigger] final(results)@[old(results)@.len() + i]) == Err::<T, JoinError>(
                if was_cancelled(error) {
                    JoinError::Cancelled
                } else {
                    JoinError::Panicked(error)
                },
            ),
        }
    } by {
        assert(joined[i] == final(results)@[old(results)@.len() + i]);
        let outcome = outcomes[i];
        assert(finished(recover, outcome, joined[i]));
    }
    assert(final(results)@.take(old(results)@.len() as int) =~= old(results)@);
}

/// Without its handle, trying to join in a scope brings nothing.
pub proof fn law_scope_try_join_next_without_handle<T, R: FnOnce(SendPtr) -> T>(
    recover: R,
    res: Option<Result<T, JoinError>>,
)
    requires
        call_ensures(Scope::<T>::try_join_next::<R>, (None, recover), res),
    ensures
        res is None,
{
}

/// Polling a scope whose closure has not returned leaves everything as it is,
/// however many tasks there are: none is told to abort, none is joined, Tokio is
/// not asked, and nothing is given out.
pub proof fn law_scope_runs<T, C, R: FnOnce(SendPtr) -> T + Copy>(
    phase: &mut ScopePhase<T, C>,
    handle: &mut Scope<T>,
    cx: &mut Context<'_>,
    recover: R,
    res: Progress<C>,
    before: usize,
    after: usize,
    aborts: bool,
)
    requires
        *old(phase) is Running,
        call_ensures(Scope::<T>::len, (&*old(handle),), before),
        call_ensures(scope::<T, C, R>, (phase, handle, Progress::Pending, cx, recover), res),
        call_ensures(Scope::<T>::len, (&*final(handle),), after),
        call_ensures(ScopePhase::<T, C>::aborts_on_drop, (&*final(phase),), aborts),
    ensures
        res is Pending,
        *final(phase) is Running,
        aborts,
        after == before,
        final(handle).record()@.outputs == old(handle).record()@.outputs,
        final(handle).record()@.unaborted == old(handle).record()@.unaborted,
        final(handle).record().attempts() == old(handle).record().attempts(),
{
}

/// When its closure returns, a scope tells every task to abort and joins what has
/// completed. The result is given out just when Tokio has no task left; else it
/// is kept, with what Tokio gave for each task that was joined, there is a wake-up
/// to come, and the scope must not be dropped.
pub proof fn law_scope_starts_closing<T, C, R: FnOnce(SendPtr) -> T + Copy>(
    phase: &mut ScopePhase<T, C>,
    handle: &mut Scope<T>,
    result: C,
    cx: &mut Context<'_>,
    recover: R,
    res: Progress<C>,
    before: usize,
    after: usize,
    aborts: bool,
)
    requires
        *old(phase) is Running,
        call_ensures(Scope::<T>::len, (&*old(handle),), before),
        call_ensures(scope::<T, C, R>, (phase, handle, Progress::Ready(result), cx, recover), res),
        call_ensures(Scope::<T>::len, (&*final(handle),), after),
        call_ensures(ScopePhase::<T, C>::aborts_on_drop, (&*final(phase),), aborts),
    ensures
        after <= before,
        final(handle).record()@.unaborted == Multiset::<usize>::empty(),
        final(handle).record().attempts().len() == old(handle).record().attempts().len() + before
            - after + 1,
        final(handle).record().attempts().take(old(handle).record().attempts().len() as int)
            == old(handle).record().attempts(),
        match final(handle).record().attempts().last() {
            Attempt::Polled(Progress::Ready(None)) => {
                &&& after == 0
                &&& res == Progress::Ready(result)
                &&& *final(phase) is Closed
                &&& !aborts
            },
            Attempt::Polled(Progress::Pending) => {
                &&& after > 0
                &&& res is Pending
                &&& aborts
                &&& wakes(final(handle).record().tokio_set(), *old(cx))
                &&& *final(phase) matches ScopePhase::Closing { result: kept, joined: all }
                &&& kept == result
                &&& all@.len() == before - after
                &&& forall|i: int|
                    0 <= i < before - after ==> {
                        &&& final(handle).record().attempts()[old(handle).record().attempts().len()
                            + i] matches Attempt::Polled(Progress::Ready(Some(outcome)))
                        &&& match outcome {
                            Ok(ptr) => (#[trigger] all@[i]) matches Ok(value)
                                && call_ensures(recover, (ptr,), value),
                            Err(error) => (#[trigger] all@[i]) == Err::<T, JoinError>(
                                if was_cancelled(error) {
                                    JoinError::Cancelled
                                } else {
                                    JoinError::Panicked(error)
                                },
                            ),
                        }
                    }
            },
            _ => false,
        },
{
    let poll = choose|poll: ScopePoll<T, C>| #[trigger]
        scope_polled(
            recover,
            ScopeState {
                phase: *old(phase),
                tasks: old(handle)@,
                attempts: old(handle).attempts(),
            },
            poll,
            ScopeState {
                phase: *final(phase),
                tasks: final(handle)@,
                attempts: final(handle).attempts(),
            },
        ) && poll.closure == Progress::Ready(result) && poll.res == res
            && poll.waits == final(handle).waits(*old(cx));
    let closing = to_close(*old(phase), old(handle)@, Progress::Ready(result))->0;
    law_joining_keeps_the_rest(closing.tasks, poll.outputs, final(handle)@);
    assert(closing.joined =~= Seq::<Result<T, JoinError>>::empty());
    if let ScopePhase::Closing { result: _, joined: all } = *final(phase) {
        assert forall|i: int| 0 <= i < before - after implies {
            &&& final(handle).record().attempts()[old(handle).record().attempts().len()
                + i] matches Attempt::Polled(Progress::Ready(Some(outcome)))
            &&& match outcome {
                Ok(ptr) => (#[trigger] all@[i]) matches Ok(value)
                    && call_ensures(recover, (ptr,), value),
                Err(error) => (#[trigger] all@[i]) == Err::<T, JoinError>(
                    if was_cancelled(error) {
                        JoinError::Cancelled
                    } else {
                        JoinError::Panicked(error)
                    },
                ),
            }
        } by {
            let outcome = poll.outcomes[i];
            assert(poll.joined[i] == all@[i]);
            assert(finished(recover, outcome, poll.joined[i]));
        }
    }
    assert(final(handle).record()@.unaborted =~= Multiset::<usize>::empty());
}

/// A closing scope goes on joining, whatever is said of its closure, until Tokio
/// has no task left. Then it gives out the result that it has kept, and no other.
pub proof fn law_scope_goes_on_closing<T, C, R: FnOnce(SendPtr) -> T + Copy>(
    phase: &mut ScopePhase<T, C>,
    handle: &mut Scope<T>,
    held: C,
    joined: Vec<Result<T, JoinError>>,
    closure: Progress<C>,
    cx: &mut Context<'_>,
    recover: R,
    res: Progress<C>,
    before: usize,
    after: usize,
    aborts: bool,
)
    requires
        *old(phase) == (ScopePhase::Closing { result: held, joined }),
        call_ensures(Scope::<T>::len, (&*old(handle),), before),
        call_ensures(scope::<T, C, R>, (phase, handle, closure, cx, recover), res),
        call_ensures(Scope::<T>::len, (&*final(handle),), after),
        call_ensures(ScopePhase::<T, C>::aborts_on_drop, (&*final(phase),), aborts),
    ensures
        after <= before,
        final(handle).record()@.unaborted.subset_of(old(handle).record()@.unaborted),
        final(handle).record().attempts().len() == old(handle).record().attempts().len() + before
            - after + 1,
        final(handle).record().attempts().take(old(handle).record().attempts().len() as int)
            == old(handle).record().attempts(),
        match final(handle).record().attempts().last() {
            Attempt::Polled(Progress::Ready(None)) => {
                &&& after == 0
                &&& res == Progress::Ready(held)
                &&& *final(phase) is Closed
                &&& !aborts
            },
            Attempt::Polled(Progress::Pending) => {
                &&& after > 0
                &&& res is Pending
                &&& aborts
                &&& wakes(final(handle).record().tokio_set(), *old(cx))
                &&& *final(phase) matches ScopePhase::Closing { result: kept, joined: all }
                &&& kept == held
                &&& all@.len() == joined@.len() + before - after
                &&& all@.take(joined@.len() as int) == joined@
                &&& forall|i: int|
                    0 <= i < before - after ==> {
                        &&& final(handle).record().attempts()[old(handle).record().attempts().len()
                            + i] matches Attempt::Polled(Progress::Ready(Some(outcome)))
                        &&& match outcome {
                            Ok(ptr) => (#[trigger] all@[joined@.len() + i]) matches Ok(value)
                                && call_ensures(recover, (ptr,), value),
                            Err(error) => (#[trigger] all@[joined@.len() + i]) == Err::<T, JoinError>(
                                if was_cancelled(error) {
                                    JoinError::Cancelled
                                } else {
                                    JoinError::Panicked(error)
                                },
                            ),
                        }
                    }
            },
            _ => false,
        },
{
    let poll = choose|poll: ScopePoll<T, C>| #[trigger]
        scope_polled(
            recover,
            ScopeState {
                phase: *old(phase),
                tasks: old(handle)@,
                attempts: old(handle).attempts(),
            },
            poll,
            ScopeState {
                phase: *final(phase),
                tasks: final(handle)@,
                attempts: final(handle).attempts(),
            },
        ) && poll.closure == closure && poll.res == res
            && poll.waits == final(handle).waits(*old(cx));
    let closing = to_close(*old(phase), old(handle)@, closure)->0;
    law_joining_keeps_the_rest(closing.tasks, poll.outputs, final(handle)@);
    assert(closing.joined == joined@);
    if let ScopePhase::Closing { result: _, joined: all } = *final(phase) {
        assert(all@.take(joined@.len() as int) =~= joined@);
        assert forall|i: int| 0 <= i < before - after implies {
            &&& final(handle).record().attempts()[old(handle).record().attempts().len()
                + i] matches Attempt::Polled(Progress::Ready(Some(outcome)))
            &&& match outcome {
                Ok(ptr) => (#[trigger] all@[joined@.len() + i]) matches Ok(value)
                    && call_ensures(recover, (ptr,), value),
                Err(error) => (#[trigger] all@[joined@.len() + i]) == Err::<T, JoinError>(
                    if was_cancelled(error) {
                        JoinError::Cancelled
                    } else {
                        JoinError::Panicked(error)
                    },
                ),
            }
        } by {
            let outcome = poll.outcomes[i];
            assert(poll.joined[i] == all@[joined@.len() + i]);
            assert(finished(recover, outcome, poll.joined[i]));
        }
    }
}

/// The result of a closing scope is given out just when all tasks are joined, and
/// is kept with what was collected until then.
pub proof fn law_result_is_kept_or_given_out<T, C>(
    polled: Progress<()>,
    result: C,
    joined: Vec<Result<T, JoinError>>,
    phase: ScopePhase<T, C>,
    res: Progress<C>,
)
    requires
        call_ensures(finish_closing::<T, C>, (polled, result, joined), (phase, res)),
    ensures
        match polled {
            Progress::Ready(()) => res == Progress::Ready(result) && phase is Closed,
            Progress::Pending => res is Pending && phase == (ScopePhase::Closing { result, joined }),
        },
{
}

/// Waiting for a task that has finished brings the output that its future
/// returned, wherever its slot is, once Tokio gives that task. What is left is as
/// it should be.
pub proof fn law_waiting_brings_the_output<T, R: FnOnce(SendPtr) -> T>(
    set: &mut ScopedJoinSet<T>,
    cx: &mut Context<'_>,
    recover: R,
    res: Progress<Option<Result<T, JoinError>>>,
    scope: Lifecycle<T>,
    task: int,
    ptr: SendPtr,
)
    requires
        call_ensures(ScopedJoinSet::<T>::join_next::<R>, (set, cx, recover), res),
        final(set).record().attempts().last() == Attempt::Polled(Progress::Ready(Some(Ok(ptr)))),
        scope.inv(),
        scope.set == old(set).record()@,
        scope.tasks.contains_key(task),
        scope.tasks[task] is Finished,
        scope.yields(task) == ptr@,
        forall|slot: SendPtr, value: T| #[trigger]
            call_ensures(recover, (slot,), value) ==> scope.slots[slot@] == Some(value),
    ensures
        res == Progress::Ready(Some(Ok::<T, JoinError>(scope.tasks[task]->Finished_output))),
        scope.joined(task, final(set).record()@).inv(),
{
    law_join_finished(scope, task, final(set).record()@);
}

/// The same, for trying to join.
pub proof fn law_trying_brings_the_output<T, R: FnOnce(SendPtr) -> T>(
    set: &mut ScopedJoinSet<T>,
    recover: R,
    res: Option<Result<T, JoinError>>,
    scope: Lifecycle<T>,
    task: int,
    ptr: SendPtr,
)
    requires
        call_ensures(ScopedJoinSet::<T>::try_join_next::<R>, (set, recover), res),
        final(set).record().attempts().last() == Attempt::Tried(Some(Ok(ptr))),
        scope.inv(),
        scope.set == old(set).record()@,
        scope.tasks.contains_key(task),
        scope.tasks[task] is Finished,
        scope.yields(task) == ptr@,
        forall|slot: SendPtr, value: T| #[trigger]
            call_ensures(recover, (slot,), value) ==> scope.slots[slot@] == Some(value),
    ensures
        res == Some(Ok::<T, JoinError>(scope.tasks[task]->Finished_output)),
        scope.joined(task, final(set).record()@).inv(),
{
    law_join_finished(scope, task, final(set).record()@);
}

/// The same, for each task that is joined where all are.
pub proof fn law_joining_all_brings_each_output<T, R: FnOnce(SendPtr) -> T + Copy>(
    set: &mut ScopedJoinSet<T>,
    cx: &mut Context<'_>,
    results: &mut Vec<Result<T, JoinError>>,
    recover: R,
    res: Progress<()>,
    before: usize,
    after: usize,
    scope: Lifecycle<T>,
    task: int,
    ptr: SendPtr,
    i: int,
)
    requires
        call_ensures(ScopedJoinSet::<T>::len, (&*old(set),), before),
        call_ensures(ScopedJoinSet::<T>::join_all::<R>, (set, cx, results, recover), res),
        call_ensures(ScopedJoinSet::<T>::len, (&*final(set),), after),
        0 <= i < before - after,
        final(set).record().attempts()[old(set).record().attempts().len() + i] == Attempt::Polled(
            Progress::Ready(Some(Ok(ptr))),
        ),
        scope.inv(),
        scope.tasks.contains_key(task),
        scope.tasks[task] is Finished,
        scope.yields(task) == ptr@,
        forall|slot: SendPtr, value: T| #[trigger]
            call_ensures(recover, (slot,), value) ==> scope.slots[slot@] == Some(value),
    ensures
        final(results)@[old(results)@.len() + i] == Ok::<T, JoinError>(
            scope.tasks[task]->Finished_output,
        ),
{
    law_set_join_all(set, cx, results, recover, res, before, after);
    let joined = final(results)@[old(results)@.len() + i];
}

/// What may be called on slots, addresses and wrappers: everything, but that an
/// address must not be null, and that only a slot that was written to has an
/// output to give.
pub proof fn law_slots_take_calls<T>(
    slot: &mut OutputSlot<T>,
    wrapper: &mut WriteOutput<T>,
    address: usize,
    value: T,
    output: Progress<T>,
)
    ensures
        call_requires(OutputSlot::<T>::empty, ()),
        call_requires(OutputSlot::<T>::write, (slot, value)),
        call_requires(OutputSlot::<T>::is_written, (&*old(slot),)),
        call_ensures(OutputSlot::<T>::write, (slot, value), ()) ==> call_requires(
            OutputSlot::<T>::into_output,
            (*final(slot),),
        ),
        address != 0 ==> call_requires(SendPtr::new, (address,)),
        address != 0 ==> call_requires(WriteOutput::<T>::new, (address,)),
        call_requires(WriteOutput::<T>::output_ptr, (&*old(wrapper),)),
        call_requires(WriteOutput::<T>::poll, (wrapper, output, slot)),
        call_requires(WriteOutput::<T>::drop, (&*old(wrapper),)),
{
}

/// The memory of any value can be turned into bytes.
pub proof fn law_bytes_take_calls<T>(value: &[u8])
    requires
        value@.len() == size_of::<T>(),
    ensures
        call_requires(obfuscate_lifetime::<T>, (value,)),
{
}

/// Any outcome can be handed on, provided that the slot can be read whose address
/// Tokio has given.
pub proof fn law_outcomes_take_calls<T, C, R: FnOnce(SendPtr) -> T>(
    recover: R,
    outcome: Result<SendPtr, TokioJoinError>,
    results: &mut Vec<Result<T, JoinError>>,
    polled: Progress<()>,
    result: C,
    joined: Vec<Result<T, JoinError>>,
    error: TokioJoinError,
)
    requires
        outcome matches Ok(ptr) ==> call_requires(recover, (ptr,)),
    ensures
        call_requires(finish_join::<T, R>, (outcome, recover)),
        call_requires(finish_try_join::<T, R>, (Some(outcome), recover)),
        call_requires(finish_try_join::<T, R>, (None, recover)),
        call_requires(finish_join_next::<T, R>, (Progress::Ready(Some(outcome)), recover)),
        call_requires(finish_join_next::<T, R>, (Progress::Ready(None), recover)),
        call_requires(finish_join_next::<T, R>, (Progress::Pending, recover)),
        call_requires(finish_join_all::<T, R>, (Progress::Ready(Some(outcome)), results, recover)),
        call_requires(finish_join_all::<T, R>, (Progress::Ready(None), results, recover)),
        call_requires(finish_join_all::<T, R>, (Progress::Pending, results, recover)),
        call_requires(finish_closing::<T, C>, (polled, result, joined)),
        call_requires(<JoinError as From<TokioJoinError>>::from, (error,)),
{
}

/// A set made by default is like a new one.
pub proof fn law_set_default<T>(set: ScopedJoinSet<T>, len: usize)
    requires
        call_ensures(<ScopedJoinSet<T> as Default>::default, (), set),
        call_ensures(ScopedJoinSet::<T>::len, (&set,), len),
    ensures
        len == 0,
        set.record().attempts().len() == 0,
        set.record()@.unaborted.len() == 0,
{
}

/// What may be called on a set: everything, provided that the slots of its tasks
/// can be read. A task can be spawned as long as their number can be counted, with
/// a slot that is not at the null address.
pub proof fn law_set_takes_calls<
    T,
    R: FnOnce(SendPtr) -> T + Copy,
    F: Future<Output = SendPtr> + Send + 'static,
    IntoStatic: FnOnce(WriteOutput<T>) -> F,
>(
    set: &mut ScopedJoinSet<T>,
    cx: &mut Context<'_>,
    results: &mut Vec<Result<T, JoinError>>,
    recover: R,
    runtime: &Handle,
    output_ptr: usize,
    into_static: IntoStatic,
)
    requires
        forall|ptr: SendPtr| #[trigger]
            old(set).record()@.outputs.contains(ptr@) ==> call_requires(recover, (ptr,)),
        forall|wrapper: WriteOutput<T>|
            wrapper@.output_ptr == output_ptr && !wrapper@.success ==> #[trigger] call_requires(
                into_static,
                (wrapper,),
            ),
    ensures
        call_requires(ScopedJoinSet::<T>::new, ()),
        call_requires(ScopedJoinSet::<T>::len, (&*old(set),)),
        call_requires(ScopedJoinSet::<T>::is_empty, (&*old(set),)),
        call_requires(ScopedJoinSet::<T>::abort_all, (set,)),
        call_requires(ScopedJoinSet::<T>::join_next::<R>, (set, cx, recover)),
        call_requires(ScopedJoinSet::<T>::try_join_next::<R>, (set, recover)),
        call_requires(ScopedJoinSet::<T>::join_all::<R>, (set, cx, results, recover)),
        output_ptr != 0 && old(set).record()@.outputs.len() < usize::MAX ==> call_requires(
            ScopedJoinSet::<T>::spawn::<F, IntoStatic>,
            (set, runtime, output_ptr, into_static),
        ),
{
    assert(old(set)@ == old(set).record()@);
    assert forall|ptr: SendPtr| #[trigger] old(set)@.outputs.contains(ptr@) implies call_requires(
        recover,
        (ptr,),
    ) by {
        assert(old(set).record()@.outputs.contains(ptr@));
    }
    assert(recovers_all(recover, old(set)@));
}

/// What may be called on a scope: everything, provided that the slots of its tasks
/// can be read. A task can be spawned as long as their number can be counted, with
/// a slot that is not at the null address.
pub proof fn law_scope_takes_calls<
    T,
    R: FnOnce(SendPtr) -> T + Copy,
    F: Future<Output = SendPtr> + Send + 'static,
    IntoStatic: FnOnce(WriteOutput<T>) -> F,
>(
    set: &mut Scope<T>,
    cx: &mut Context<'_>,
    results: &mut Vec<Result<T, JoinError>>,
    recover: R,
    runtime: &Handle,
    output_ptr: usize,
    into_static: IntoStatic,
)
    requires
        forall|ptr: SendPtr| #[trigger]
            old(set).record()@.outputs.contains(ptr@) ==> call_requires(recover, (ptr,)),
        forall|wrapper: WriteOutput<T>|
            wrapper@.output_ptr == output_ptr && !wrapper@.success ==> #[trigger] call_requires(
                into_static,
                (wrapper,),
            ),
    ensures
        call_requires(Scope::<T>::new, ()),
        call_requires(Scope::<T>::len, (&*old(set),)),
        call_requires(Scope::<T>::is_empty, (&*old(set),)),
        call_requires(Scope::<T>::abort_all, (set,)),
        call_requires(Scope::<T>::join_next::<R>, (set, cx, recover)),
        call_requires(Scope::<T>::try_join_next::<R>, (Some(set), recover)),
        call_requires(Scope::<T>::join_all::<R>, (set, cx, results, recover)),
        output_ptr != 0 && old(set).record()@.outputs.len() < usize::MAX ==> call_requires(
            Scope::<T>::spawn::<F, IntoStatic>,
            (set, runtime, output_ptr, into_static),
        ),
{
    assert(old(set)@ == old(set).record()@);
    assert forall|ptr: SendPtr| #[trigger] old(set)@.outputs.contains(ptr@) implies call_requires(
        recover,
        (ptr,),
    ) by {
        assert(old(set).record()@.outputs.contains(ptr@));
    }
    assert(recovers_all(recover, old(set)@));
}

/// A scope can be polled until it is closed, provided that the slots of its tasks
/// can be read.
pub proof fn law_scope_takes_polls<T, C, R: FnOnce(SendPtr) -> T + Copy>(
    phase: &mut ScopePhase<T, C>,
    handle: &mut Scope<T>,
    closure: Progress<C>,
    cx: &mut Context<'_>,
    recover: R,
)
    requires
        forall|ptr: SendPtr| #[trigger]
            old(handle).record()@.outputs.contains(ptr@) ==> call_requires(recover, (ptr,)),
        !(*old(phase) is Closed),
    ensures
        call_requires(scope::<T, C, R>, (phase, handle, closure, cx, recover)),
        call_requires(ScopePhase::<T, C>::aborts_on_drop, (&*old(phase),)),
{
    assert(old(handle)@ == old(handle).record()@);
    assert forall|ptr: SendPtr| #[trigger] old(handle)@.outputs.contains(ptr@) implies call_requires(
        recover,
        (ptr,),
    ) by {
        assert(old(handle).record()@.outputs.contains(ptr@));
    }
    assert(recovers_all(recover, old(handle)@));
}

} // verus!
