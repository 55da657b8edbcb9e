//! Scopes: a task set that is closed before its owner goes on.

use std::future::Future;
use std::task::Context;

use tokio::runtime::Handle;
use tokio::task::{JoinError as TokioJoinError, JoinSet};
use vstd::future::FutureAdditionalSpecFns;
use vstd::multiset::Multiset;
use vstd::prelude::*;

use crate::future_wrappers::{SendPtr, WriteOutput, WriteState};
use crate::join_error::JoinError;
use crate::progress::Progress;
use crate::scoped_join_set::{
    drained, finished_if_any, finished_when_ready, joined_as, joined_in_order, recovers_all,
    ScopedJoinSet,
};
use crate::tasks::{law_joining_keeps_the_rest, Tasks};
use crate::tokio_tasks::{tasks_in, wakes, Attempt, RecordedSet};

verus! {

/// The handle through which the tasks of a scope are spawned and joined.
pub struct Scope<TaskResult> {
    task_set: ScopedJoinSet<TaskResult>,
}

impl<TaskResult> View for Scope<TaskResult> {
    type V = Tasks;

    open spec fn view(&self) -> Tasks {
        tasks_in(self.tokio_set())
    }
}

impl<TaskResult> Scope<TaskResult> {
    /// Whether whoever polled the scope's tasks last with `cx` is called back: it
    /// has been woken already, or will be when one of the tasks completes.
    pub open spec fn waits(&self, cx: Context<'_>) -> bool {
        wakes(self.tokio_set(), cx)
    }

    /// The Tokio set that holds the tasks, with its record.
    pub closed spec fn record(&self) -> RecordedSet {
        self.task_set.record()
    }

    /// The Tokio set that holds the tasks.
    pub open spec fn tokio_set(&self) -> JoinSet<SendPtr> {
        self.record().tokio_set()
    }

    /// The attempts that were made to join tasks, with what Tokio has given.
    pub open spec fn attempts(&self) -> Seq<Attempt> {
        self.record().attempts()
    }

    /// A handle to a scope without tasks.
    pub fn new() -> (scope: Self)
        ensures
            scope@ == Tasks::empty(),
            scope.attempts() == Seq::<Attempt>::empty(),
    {
        Scope { task_set: ScopedJoinSet::new() }
    }

    /// Spawns a task into the scope, on `runtime`. Its output will go to the slot at
    /// `output_ptr`; `into_static` makes the task's future from the wrapper that
    /// follows it.
    pub fn spawn<F, IntoStatic>(
        &mut self,
        runtime: &Handle,
        output_ptr: usize,
        into_static: IntoStatic,
    ) where
        F: Future<Output = SendPtr> + Send + 'static,
        IntoStatic: FnOnce(WriteOutput<TaskResult>) -> F,

        requires
            output_ptr != 0,
            old(self)@.outputs.len() < usize::MAX,
            forall|wrapper: WriteOutput<TaskResult>|
                wrapper@ == (WriteState { output_ptr, success: false })
                    ==> #[trigger] call_requires(into_static, (wrapper,)),
        ensures
            exists|wrapper: WriteOutput<TaskResult>, task: F| #[trigger]
                call_ensures(into_static, (wrapper,), task) && wrapper@ == (WriteState {
                    output_ptr,
                    success: false,
                }) && final(self)@ == old(self)@.spawned(task@@),
            (forall|wrapper: WriteOutput<TaskResult>, task: F| #[trigger]
                call_ensures(into_static, (wrapper,), task) ==> task@@ == wrapper@.output_ptr)
                ==> final(self)@ == old(self)@.spawned(output_ptr),
            final(self).attempts() == old(self).attempts(),
    {
        self.task_set.spawn(runtime, output_ptr, into_static)
    }

    /// Polls for a task to complete, and joins it.
    pub fn join_next<R: FnOnce(SendPtr) -> TaskResult>(
        &mut self,
        cx: &mut Context<'_>,
        recover: R,
    ) -> (res: Progress<Option<Result<TaskResult, JoinError>>>)
        requires
            recovers_all(recover, old(self)@),
        ensures
            *final(cx) == *old(cx),
            final(self).attempts().len() == old(self).attempts().len() + 1,
            final(self).attempts().drop_last() == old(self).attempts(),
            final(self).attempts().last() matches Attempt::Polled(polled) && finished_when_ready(
                recover,
                polled,
                res,
            ),
            match res {
                Progress::Pending => {
                    &&& old(self)@.outputs.len() > 0
                    &&& final(self)@ == old(self)@
                    &&& final(self).waits(*old(cx))
                },
                Progress::Ready(None) => {
                    &&& old(self)@.outputs.len() == 0
                    &&& final(self)@ == old(self)@
                },
                Progress::Ready(Some(joined)) => {
                    &&& final(self).attempts().last() matches Attempt::Polled(
                        Progress::Ready(Some(outcome)),
                    )
                    &&& joined_as(recover, old(self)@, final(self)@, outcome, joined)
                },
            },
    {
        self.task_set.join_next(cx, recover)
    }

    /// Joins a task that has completed, if there is one. `scope` is the handle,
    /// where it could be had without waiting; otherwise no task is joined.
    pub fn try_join_next<R: FnOnce(SendPtr) -> TaskResult>(
        scope: Option<&mut Self>,
        recover: R,
    ) -> (res: Option<Result<TaskResult, JoinError>>)
        requires
            scope matches Some(scope) ==> recovers_all(recover, scope@),
        ensures
            match (scope, res) {
                (None, res) => res is None,
                (Some(scope), None) => final(scope)@ == scope@,
                (Some(scope), Some(joined)) => {
                    &&& final(scope).attempts().last() matches Attempt::Tried(Some(outcome))
                    &&& joined_as(recover, scope@, final(scope)@, outcome, joined)
                },
            },
            scope matches Some(scope) ==> {
                &&& final(scope).attempts().len() == scope.attempts().len() + 1
                &&& final(scope).attempts().drop_last() == scope.attempts()
                &&& final(scope).attempts().last() matches Attempt::Tried(given)
                &&& finished_if_any(recover, given, res)
            },
    {
        if let Some(scope) = scope {
            scope.task_set.try_join_next(recover)
        } else {
            None
        }
    }

    /// Whether the scope has no tasks.
    pub fn is_empty(&self) -> (empty: bool)
        ensures
            empty == (self@.outputs.len() == 0),
    {
        self.task_set.is_empty()
    }

    /// The number of tasks in the scope.
    pub fn len(&self) -> (len: usize)
        ensures
            len == self@.outputs.len(),
    {
        self.task_set.len()
    }

    /// Tells every task in the scope to abort. They stay in the scope until
    /// they are joined.
    pub fn abort_all(&mut self)
        ensures
            final(self)@ == old(self)@.aborted(),
            final(self).attempts() == old(self).attempts(),
    {
        self.task_set.abort_all()
    }

    /// Polls until every task has been joined, and appends what joining them
    /// brings to `results`, in the order in which they complete.
    pub fn join_all<R: FnOnce(SendPtr) -> TaskResult + Copy>(
        &mut self,
        cx: &mut Context<'_>,
        results: &mut Vec<Result<TaskResult, JoinError>>,
        recover: R,
    ) -> (res: Progress<()>)
        requires
            recovers_all(recover, old(self)@),
        ensures
            *final(cx) == *old(cx),
            res is Ready <==> final(self)@.outputs.len() == 0,
            res is Pending ==> final(self).waits(*old(cx)),
            old(results)@.is_prefix_of(final(results)@),
            final(results)@.len() + final(self)@.outputs.len() == old(results)@.len() + old(self)@.outputs.len(),
            exists|outputs: Seq<usize>, outcomes: Seq<Result<SendPtr, TokioJoinError>>| #[trigger]
                joined_in_order(
                    recover,
                    old(self)@,
                    final(self)@,
                    outputs,
                    outcomes,
                    final(results)@.skip(old(results)@.len() as int),
                ) && drained(old(self).attempts(), outcomes, final(self).attempts(), res),
    {
        let res = self.task_set.join_all(cx, results, recover);
        proof {
            let joined = results@.skip(old(results)@.len() as int);
            let (outputs, outcomes) = choose|
                outputs: Seq<usize>,
                outcomes: Seq<Result<SendPtr, TokioJoinError>>,
            | #[trigger]
                joined_in_order(recover, old(self)@, self@, outputs, outcomes, joined) && drained(
                    old(self).attempts(),
                    outcomes,
                    self.attempts(),
                    res,
                );
            assert(joined_in_order(recover, old(self)@, self@, outputs, outcomes, joined));
        }
        res
    }
}

/// How far a scope has come.
pub enum ScopePhase<TaskResult, ClosureResult> {
    /// The closure that the scope was opened for has not returned yet.
    Running,
    /// The closure has returned `result` and the tasks have been told to abort.
    /// `joined` is what joining them has brought so far.
    Closing { result: ClosureResult, joined: Vec<Result<TaskResult, JoinError>> },
    /// Every task has been joined and the closure's result has been given out.
    Closed,
}

impl<TaskResult, ClosureResult> ScopePhase<TaskResult, ClosureResult> {
    /// Whether the process has to be aborted if the scope is dropped now. That
    /// is so until the scope is closed: a task that is still running may use
    /// what is about to go away.
    pub fn aborts_on_drop(&self) -> (aborts: bool)
        ensures
            aborts == !(self is Closed),
    {
        match self {
            ScopePhase::Closed => false,
            _ => true,
        }
    }
}

/// What closing a scope has to do: the result that is held back, the tasks that
/// have to be joined, and what joining has brought so far.
pub struct Closing<TaskResult, ClosureResult> {
    pub result: ClosureResult,
    pub tasks: Tasks,
    pub joined: Seq<Result<TaskResult, JoinError>>,
}

/// What there is to close when a scope is polled: nothing while its closure
/// runs. When the closure has just returned, every task is told to abort first.
pub open spec fn to_close<TaskResult, ClosureResult>(
    phase: ScopePhase<TaskResult, ClosureResult>,
    tasks: Tasks,
    closure: Progress<ClosureResult>,
) -> Option<Closing<TaskResult, ClosureResult>> {
    match (phase, closure) {
        (ScopePhase::Running, Progress::Ready(result)) => Some(
            Closing { result, tasks: tasks.aborted(), joined: Seq::empty() },
        ),
        (ScopePhase::Closing { result, joined }, _) => Some(
            Closing { result, tasks, joined: joined@ },
        ),
        _ => None,
    }
}

/// A scope as a whole: how far it has come, its tasks, and the attempts that were
/// made to join them.
pub struct ScopeState<TaskResult, ClosureResult> {
    pub phase: ScopePhase<TaskResult, ClosureResult>,
    pub tasks: Tasks,
    pub attempts: Seq<Attempt>,
}

/// One poll of a scope: what polling the closure has brought about, the outcome,
/// whether whoever polled is called back when a task completes, what joining
/// tasks has brought, the addresses that the futures of these tasks yield, and
/// what Tokio has given for them.
pub struct ScopePoll<TaskResult, ClosureResult> {
    pub closure: Progress<ClosureResult>,
    pub res: Progress<ClosureResult>,
    pub waits: bool,
    pub joined: Seq<Result<TaskResult, JoinError>>,
    pub outputs: Seq<usize>,
    pub outcomes: Seq<Result<SendPtr, TokioJoinError>>,
}

/// Whether `poll` can lead from `before` to `after`.
pub open spec fn scope_polled<TaskResult, ClosureResult, R: FnOnce(SendPtr) -> TaskResult>(
    recover: R,
    before: ScopeState<TaskResult, ClosureResult>,
    poll: ScopePoll<TaskResult, ClosureResult>,
    after: ScopeState<TaskResult, ClosureResult>,
) -> bool {
    match to_close(before.phase, before.tasks, poll.closure) {
        None => {
            &&& poll.res is Pending
            &&& after.phase is Running
            &&& after.tasks == before.tasks
            &&& after.attempts == before.attempts
        },
        Some(closing) => {
            &&& joined_in_order(
                recover,
                closing.tasks,
                after.tasks,
                poll.outputs,
                poll.outcomes,
                poll.joined,
            )
            &&& drained(
                before.attempts,
                poll.outcomes,
                after.attempts,
                if poll.res is Ready {
                    Progress::Ready(())
                } else {
                    Progress::Pending
                },
            )
            &&& if after.tasks.outputs.len() == 0 {
                &&& poll.res == Progress::Ready(closing.result)
                &&& after.phase is Closed
            } else {
                &&& poll.res is Pending
                &&& poll.waits
                &&& after.phase matches ScopePhase::Closing { result, joined }
                &&& result == closing.result
                &&& joined@ == closing.joined + poll.joined
            }
        },
    }
}

/// Whether `states` are what a scope goes through before, between and after
/// `polls`. It is not polled any more once it is closed.
pub open spec fn scope_history<TaskResult, ClosureResult, R: FnOnce(SendPtr) -> TaskResult>(
    recover: R,
    states: Seq<ScopeState<TaskResult, ClosureResult>>,
    polls: Seq<ScopePoll<TaskResult, ClosureResult>>,
) -> bool {
    &&& states.len() == polls.len() + 1
    &&& forall|i: int| 0 <= i < polls.len() ==> !((#[trigger] states[i]).phase is Closed)
    &&& forall|i: int|
        0 <= i < polls.len() ==> scope_polled(
            recover,
            states[i],
            #[trigger] polls[i],
            states[i + 1],
        )
}

/// While its closure has not returned, polling a scope does nothing to its tasks,
/// however many there are and however often it is polled: none is told to abort,
/// none is joined, and no attempt is made. Nothing is given out.
pub proof fn law_running<TaskResult, ClosureResult, R: FnOnce(SendPtr) -> TaskResult>(
    recover: R,
    states: Seq<ScopeState<TaskResult, ClosureResult>>,
    polls: Seq<ScopePoll<TaskResult, ClosureResult>>,
)
    requires
        scope_history(recover, states, polls),
        states.first().phase is Running,
        forall|i: int| 0 <= i < polls.len() ==> (#[trigger] polls[i]).closure is Pending,
    ensures
        states.last().phase is Running,
        states.last().tasks.outputs == states.first().tasks.outputs,
        states.last().tasks.unaborted == states.first().tasks.unaborted,
        states.last().attempts == states.first().attempts,
        polls.len() > 0 ==> polls.last().res is Pending,
    decreases polls.len(),
{
    if polls.len() > 0 {
        let last = polls.len() - 1;
        lemma_shorter_scope_history(recover, states, polls);
        law_running(recover, states.drop_last(), polls.drop_last());
        assert(scope_polled(recover, states[last], polls[last], states[last + 1]));
    }
}

/// From when its closure returns, a scope only closes, however often it is
/// polled: every task in it has been told to abort, each of them has been joined
/// or is still there, the outcome is given out just when none is there any more,
/// and it is the very result that the closure returned. While it is held back,
/// whoever polls the scope is called back when a task completes.
pub proof fn law_closing<TaskResult, ClosureResult, R: FnOnce(SendPtr) -> TaskResult>(
    recover: R,
    states: Seq<ScopeState<TaskResult, ClosureResult>>,
    polls: Seq<ScopePoll<TaskResult, ClosureResult>>,
    result: ClosureResult,
)
    requires
        scope_history(recover, states, polls),
        polls.len() > 0,
        states.first().phase is Running,
        polls.first().closure == Progress::Ready(result),
    ensures
        states.last().tasks.unaborted == Multiset::<usize>::empty(),
        match polls.last().res {
            Progress::Ready(given_out) => {
                &&& given_out == result
                &&& states.last().phase is Closed
                &&& states.last().tasks.outputs.len() == 0
            },
            Progress::Pending => {
                &&& states.last().phase matches ScopePhase::Closing { result: held, joined }
                &&& held == result
                &&& states.last().tasks.outputs.len() > 0
                &&& joined@.len() + states.last().tasks.outputs.len()
                    == states.first().tasks.outputs.len()
                &&& polls.last().waits
            },
        },
    decreases polls.len(),
{
    let last = polls.len() - 1;
    let poll = polls[last];
    assert(scope_polled(recover, states[last], poll, states[last + 1]));
    if last > 0 {
        lemma_shorter_scope_history(recover, states, polls);
        law_closing(recover, states.drop_last(), polls.drop_last(), result);
    }
    let closing = to_close(states[last].phase, states[last].tasks, poll.closure)->0;
    law_joining_keeps_the_rest(closing.tasks, poll.outputs, states.last().tasks);
    assert(states.last().tasks.unaborted =~= Multiset::<usize>::empty());
}

/// A history of polls without the last one is one.
proof fn lemma_shorter_scope_history<TaskResult, ClosureResult, R: FnOnce(SendPtr) -> TaskResult>(
    recover: R,
    states: Seq<ScopeState<TaskResult, ClosureResult>>,
    polls: Seq<ScopePoll<TaskResult, ClosureResult>>,
)
    requires
        scope_history(recover, states, polls),
        polls.len() > 0,
    ensures
        scope_history(recover, states.drop_last(), polls.drop_last()),
{
    assert forall|i: int| 0 <= i < polls.drop_last().len() implies scope_polled(
        recover,
        states.drop_last()[i],
        #[trigger] polls.drop_last()[i],
        states.drop_last()[i + 1],
    ) by {
        assert(scope_polled(recover, states[i], polls[i], states[i + 1]));
    }
}

/// Takes note of the outcome of polling for all tasks of a closing scope to be
/// joined, where `joined` is what joining has brought so far. The closure's
/// result is held back while tasks are left; otherwise it is given out and the
/// scope is closed.
pub fn finish_closing<TaskResult, ClosureResult>(
    polled: Progress<()>,
    result: ClosureResult,
    joined: Vec<Result<TaskResult, JoinError>>,
) -> (res: (ScopePhase<TaskResult, ClosureResult>, Progress<ClosureResult>))
    ensures
        match polled {
            Progress::Pending => {
                &&& res.0 == (ScopePhase::Closing { result, joined })
                &&& res.1 is Pending
            },
            Progress::Ready(()) => {
                &&& res.0 is Closed
                &&& res.1 == Progress::Ready(result)
            },
        },
{
    match polled {
        Progress::Pending => (ScopePhase::Closing { result, joined }, Progress::Pending),
        Progress::Ready(()) => (ScopePhase::Closed, Progress::Ready(result)),
    }
}

/// Polls a scope. `closure` is what polling the closure's future has brought
/// about; it is not looked at once the closure has returned.
///
/// When the closure returns, every task is told to abort. The closure's result
/// is given out once all of them have been joined, and not before. Until then,
/// `cx` is woken when it is time to poll again.
pub fn scope<TaskResult, ClosureResult, R: FnOnce(SendPtr) -> TaskResult + Copy>(
    phase: &mut ScopePhase<TaskResult, ClosureResult>,
    scope_handle: &mut Scope<TaskResult>,
    closure: Progress<ClosureResult>,
    cx: &mut Context<'_>,
    recover: R,
) -> (res: Progress<ClosureResult>)
    requires
        !(*old(phase) is Closed),
        recovers_all(recover, old(scope_handle)@),
    ensures
        *final(cx) == *old(cx),
        res is Ready ==> final(scope_handle)@.outputs.len() == 0,
        res is Ready <==> *final(phase) is Closed,
        final(scope_handle)@.outputs.len() <= old(scope_handle)@.outputs.len(),
        *final(phase) is Closing ==> final(scope_handle).waits(*old(cx)),
        exists|poll: ScopePoll<TaskResult, ClosureResult>| #[trigger]
            scope_polled(
                recover,
                ScopeState {
                    phase: *old(phase),
                    tasks: old(scope_handle)@,
                    attempts: old(scope_handle).attempts(),
                },
                poll,
                ScopeState {
                    phase: *final(phase),
                    tasks: final(scope_handle)@,
                    attempts: final(scope_handle).attempts(),
                },
            ) && poll.closure == closure && poll.res == res
                && poll.waits == final(scope_handle).waits(*old(cx)),
{
    let ghost before = ScopeState {
        phase: *phase,
        tasks: scope_handle@,
        attempts: scope_handle.attempts(),
    };
    // Should anything unwind from here on, the scope counts as not closed.
    let mut current = ScopePhase::Running;
    core::mem::swap(phase, &mut current);
    let (result, mut joined) = match current {
        ScopePhase::Running => {
            match closure {
                Progress::Pending => {
                    proof {
                        let poll = ScopePoll {
                            closure,
                            res: Progress::Pending,
                            waits: scope_handle.waits(*cx),
                            joined: Seq::empty(),
                            outputs: Seq::empty(),
                            outcomes: Seq::empty(),
                        };
                        let after = ScopeState {
                            phase: *phase,
                            tasks: scope_handle@,
                            attempts: scope_handle.attempts(),
                        };
                        assert(scope_polled(recover, before, poll, after));
                    }
                    return Progress::Pending;
                },
                Progress::Ready(result) => {
                    scope_handle.abort_all();
                    (result, Vec::with_capacity(scope_handle.len()))
                },
            }
        },
        ScopePhase::Closing { result, joined } => (result, joined),
        ScopePhase::Closed => vstd::pervasive::unreached(),
    };
    let ghost joined_before = joined@;
    let ghost closing = to_close(before.phase, before.tasks, closure)->0;
    assert(closing.tasks == scope_handle@ && closing.joined =~= joined_before);
    let polled = scope_handle.join_all(cx, &mut joined, recover);
    let ghost more = joined@.skip(joined_before.len() as int);
    assert(joined@ =~= joined_before + more);
    let (next, res) = finish_closing(polled, result, joined);
    *phase = next;
    proof {
        let (outputs, outcomes) = choose|
            outputs: Seq<usize>,
            outcomes: Seq<Result<SendPtr, TokioJoinError>>,
        | #[trigger]
            joined_in_order(recover, closing.tasks, scope_handle@, outputs, outcomes, more)
                && drained(before.attempts, outcomes, scope_handle.attempts(), polled);
        let waits = scope_handle.waits(*cx);
        let poll = ScopePoll { closure, res, waits, joined: more, outputs, outcomes };
        let after = ScopeState {
            phase: *phase,
            tasks: scope_handle@,
            attempts: scope_handle.attempts(),
        };
        assert(scope_polled(recover, before, poll, after));
    }
    res
}

} // verus!
