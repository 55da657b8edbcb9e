//! The task set.

use std::future::Future;
use std::marker::PhantomData;
use std::task::Context;

use tokio::runtime::Handle;
use tokio::task::{JoinError as TokioJoinError, JoinSet};
use vstd::future::FutureAdditionalSpecFns;
use vstd::prelude::*;
use vstd::std_specs::convert::FromSpec;

use crate::future_wrappers::{SendPtr, WriteOutput, WriteState};
use crate::join_error::JoinError;
use crate::progress::Progress;
use crate::tasks::{
    join_events, law_joining_keeps_the_rest, leads_through, lemma_join_one_more,
    lemma_nothing_joined, Tasks,
};
use crate::tokio_tasks::{
    join_set_abort_all, join_set_is_empty, join_set_len, join_set_new, join_set_poll_join_next,
    join_set_spawn, join_set_try_join_next, tasks_in, wakes, was_cancelled, Attempt, RecordedSet,
};

verus! {

/// A set of tasks, each of which leaves an output of type `TaskResult` in its
/// own slot.
pub struct ScopedJoinSet<TaskResult> {
    join_set: RecordedSet,
    _marker: PhantomData<TaskResult>,
}

impl<TaskResult> View for ScopedJoinSet<TaskResult> {
    type V = Tasks;

    open spec fn view(&self) -> Tasks {
        tasks_in(self.tokio_set())
    }
}

impl<TaskResult> Default for ScopedJoinSet<TaskResult> {
    fn default() -> (set: Self)
        ensures
            set@ == Tasks::empty(),
            set.attempts() == Seq::<Attempt>::empty(),
    {
        ScopedJoinSet::new()
    }
}

/// Whether `recover` can read the output back from the slot of each of `tasks`.
pub open spec fn recovers_all<TaskResult, R: FnOnce(SendPtr) -> TaskResult>(
    recover: R,
    tasks: Tasks,
) -> bool {
    forall|ptr: SendPtr| #[trigger]
        tasks.outputs.contains(ptr@) ==> call_requires(recover, (ptr,))
}

/// Whether `joined` is what is made of `outcome`, which Tokio has given for a
/// task: the output that `recover` reads from the slot, or the reason why there
/// is none.
pub open spec fn finished<TaskResult, R: FnOnce(SendPtr) -> TaskResult>(
    recover: R,
    outcome: Result<SendPtr, TokioJoinError>,
    joined: Result<TaskResult, JoinError>,
) -> bool {
    match outcome {
        Ok(ptr) => joined matches Ok(value) && call_ensures(recover, (ptr,), value),
        Err(error) => joined == Err::<TaskResult, JoinError>(JoinError::from_spec(error)),
    }
}

/// The same as [`finished`], where there may be no task that has completed.
pub open spec fn finished_if_any<TaskResult, R: FnOnce(SendPtr) -> TaskResult>(
    recover: R,
    outcome: Option<Result<SendPtr, TokioJoinError>>,
    joined: Option<Result<TaskResult, JoinError>>,
) -> bool {
    match outcome {
        None => joined is None,
        Some(outcome) => joined matches Some(joined) && finished(recover, outcome, joined),
    }
}

/// The same as [`finished_if_any`], where it may be necessary to wait.
pub open spec fn finished_when_ready<TaskResult, R: FnOnce(SendPtr) -> TaskResult>(
    recover: R,
    polled: Progress<Option<Result<SendPtr, TokioJoinError>>>,
    res: Progress<Option<Result<TaskResult, JoinError>>>,
) -> bool {
    match polled {
        Progress::Pending => res is Pending,
        Progress::Ready(outcome) => res matches Progress::Ready(joined) && finished_if_any(
            recover,
            outcome,
            joined,
        ),
    }
}

/// Whether `after` is what becomes of the results `before` when all tasks are to
/// be joined and a poll for one of them has brought `polled`, and `res` is how it
/// goes on: with another poll where a task was joined, and not at all, for now
/// or for good, where none was.
pub open spec fn collected<TaskResult, R: FnOnce(SendPtr) -> TaskResult>(
    recover: R,
    polled: Progress<Option<Result<SendPtr, TokioJoinError>>>,
    before: Seq<Result<TaskResult, JoinError>>,
    after: Seq<Result<TaskResult, JoinError>>,
    res: Option<Progress<()>>,
) -> bool {
    match polled {
        Progress::Pending => res == Some(Progress::<()>::Pending) && after == before,
        Progress::Ready(None) => res == Some(Progress::Ready(())) && after == before,
        Progress::Ready(Some(outcome)) => {
            &&& res is None
            &&& after.len() == before.len() + 1
            &&& after.drop_last() == before
            &&& finished(recover, outcome, after.last())
        },
    }
}

/// Whether `outcome` can be that of a task whose future yields `output`.
pub open spec fn outcome_of(output: usize, outcome: Result<SendPtr, TokioJoinError>) -> bool {
    outcome matches Ok(ptr) ==> ptr@ == output
}

/// Whether `joined` is what joining a task brings that left `before`, so that
/// `after` remains, and for which Tokio has given `outcome`.
pub open spec fn joined_as<TaskResult, R: FnOnce(SendPtr) -> TaskResult>(
    recover: R,
    before: Tasks,
    after: Tasks,
    outcome: Result<SendPtr, TokioJoinError>,
    joined: Result<TaskResult, JoinError>,
) -> bool {
    &&& exists|output: usize| #[trigger]
        before.left_by(output, after) && outcome_of(output, outcome)
    &&& finished(recover, outcome, joined)
}

/// Whether `joined` is what joining a task can bring that left `before`, so
/// that `after` remains.
pub open spec fn joined_one<TaskResult, R: FnOnce(SendPtr) -> TaskResult>(
    recover: R,
    before: Tasks,
    after: Tasks,
    joined: Result<TaskResult, JoinError>,
) -> bool {
    exists|outcome: Result<SendPtr, TokioJoinError>| #[trigger]
        joined_as(recover, before, after, outcome, joined)
}

/// Whether joining tasks one after the other, and nothing else, leads from
/// `before` to `after` and brings `joined`, where `outputs` are the addresses
/// that the joined tasks' futures yield and `outcomes` is what Tokio has given
/// for them, in the same order.
pub open spec fn joined_in_order<TaskResult, R: FnOnce(SendPtr) -> TaskResult>(
    recover: R,
    before: Tasks,
    after: Tasks,
    outputs: Seq<usize>,
    outcomes: Seq<Result<SendPtr, TokioJoinError>>,
    joined: Seq<Result<TaskResult, JoinError>>,
) -> bool {
    &&& leads_through(before, join_events(outputs), after)
    &&& outputs.len() == joined.len()
    &&& outcomes.len() == joined.len()
    &&& forall|i: int| 0 <= i < joined.len() ==> outcome_of(outputs[i], #[trigger] outcomes[i])
    &&& forall|i: int|
        0 <= i < joined.len() ==> finished(recover, outcomes[i], #[trigger] joined[i])
}

/// Whether joining all tasks, as far as they have completed, has added to the
/// record `before` so that it is `after`: one poll for each of `outcomes`, which
/// gave it, and a last one that gave no task, because there was none or because
/// none had completed. `res` says which.
pub open spec fn drained(
    before: Seq<Attempt>,
    outcomes: Seq<Result<SendPtr, TokioJoinError>>,
    after: Seq<Attempt>,
    res: Progress<()>,
) -> bool {
    &&& after.len() == before.len() + outcomes.len() + 1
    &&& after.take(before.len() as int) == before
    &&& forall|i: int|
        0 <= i < outcomes.len() ==> after[before.len() + i] == Attempt::Polled(
            Progress::Ready(Some(#[trigger] outcomes[i])),
        )
    &&& after.last() == Attempt::Polled(
        match res {
            Progress::Pending => Progress::Pending,
            Progress::Ready(()) => Progress::Ready(None),
        },
    )
}

/// Turns the outcome of joining a task into the task's output or the reason why
/// it has none.
pub fn finish_join<TaskResult, R: FnOnce(SendPtr) -> TaskResult>(
    joined: Result<SendPtr, TokioJoinError>,
    recover: R,
) -> (res: Result<TaskResult, JoinError>)
    requires
        joined matches Ok(ptr) ==> call_requires(recover, (ptr,)),
    ensures
        finished(recover, joined, res),
{
    match joined {
        Ok(output_ptr) => Ok(recover(output_ptr)),
        Err(join_error) => Err(JoinError::from(join_error)),
    }
}

/// Turns the outcome of trying to join a task into what is returned of it:
/// nothing where no task has completed, and the task's output or the reason why
/// it has none where one has.
pub fn finish_try_join<TaskResult, R: FnOnce(SendPtr) -> TaskResult>(
    joined: Option<Result<SendPtr, TokioJoinError>>,
    recover: R,
) -> (res: Option<Result<TaskResult, JoinError>>)
    requires
        joined matches Some(Ok(ptr)) ==> call_requires(recover, (ptr,)),
    ensures
        finished_if_any(recover, joined, res),
{
    match joined {
        None => None,
        Some(joined) => Some(finish_join(joined, recover)),
    }
}

/// Turns the outcome of polling for a task into what is returned of it.
pub fn finish_join_next<TaskResult, R: FnOnce(SendPtr) -> TaskResult>(
    polled: Progress<Option<Result<SendPtr, TokioJoinError>>>,
    recover: R,
) -> (res: Progress<Option<Result<TaskResult, JoinError>>>)
    requires
        polled matches Progress::Ready(Some(Ok(ptr))) ==> call_requires(recover, (ptr,)),
    ensures
        finished_when_ready(recover, polled, res),
{
    match polled {
        Progress::Pending => Progress::Pending,
        Progress::Ready(joined) => Progress::Ready(finish_try_join(joined, recover)),
    }
}

/// Takes note of the outcome of polling for one of the tasks that are all to be
/// joined. What joining it has brought is appended to `results`, and there is
/// nothing to return yet; where no task was joined, this is what to return.
pub fn finish_join_all<TaskResult, R: FnOnce(SendPtr) -> TaskResult>(
    polled: Progress<Option<Result<SendPtr, TokioJoinError>>>,
    results: &mut Vec<Result<TaskResult, JoinError>>,
    recover: R,
) -> (res: Option<Progress<()>>)
    requires
        polled matches Progress::Ready(Some(Ok(ptr))) ==> call_requires(recover, (ptr,)),
    ensures
        collected(recover, polled, old(results)@, final(results)@, res),
{
    match polled {
        Progress::Pending => Some(Progress::Pending),
        Progress::Ready(None) => Some(Progress::Ready(())),
        Progress::Ready(Some(joined)) => {
            results.push(finish_join(joined, recover));
            assert(results@.drop_last() =~= old(results)@);
            None
        },
    }
}

/// Joining until no task is left brings one result for each task, and recovers
/// each task's slot at most once.
pub proof fn law_join_all_is_complete<TaskResult, R: FnOnce(SendPtr) -> TaskResult>(
    recover: R,
    before: Tasks,
    after: Tasks,
    outputs: Seq<usize>,
    outcomes: Seq<Result<SendPtr, TokioJoinError>>,
    joined: Seq<Result<TaskResult, JoinError>>,
)
    requires
        joined_in_order(recover, before, after, outputs, outcomes, joined),
        after.outputs.len() == 0,
    ensures
        joined.len() == before.outputs.len(),
        outputs.to_multiset() == before.outputs,
{
    law_joining_keeps_the_rest(before, outputs, after);
    assert(before.outputs =~= outputs.to_multiset());
}

/// Waiting for a task and trying to join one report the same outcome alike,
/// provided that reading a slot gives one value only.
pub proof fn law_joins_report_alike<TaskResult, R: FnOnce(SendPtr) -> TaskResult>(
    recover: R,
    outcome: Result<SendPtr, TokioJoinError>,
    waited: Progress<Option<Result<TaskResult, JoinError>>>,
    tried: Option<Result<TaskResult, JoinError>>,
)
    requires
        forall|ptr: SendPtr, one: TaskResult, other: TaskResult|
            #![trigger call_ensures(recover, (ptr,), one), call_ensures(recover, (ptr,), other)]
            call_ensures(recover, (ptr,), one) && call_ensures(recover, (ptr,), other) ==> one
                == other,
        finished_when_ready(recover, Progress::Ready(Some(outcome)), waited),
        finished_if_any(recover, Some(outcome), tried),
    ensures
        tried is Some,
        waited == Progress::Ready(tried),
{
}

/// Joining the only task of a set leaves the set empty.
pub proof fn law_only_task_is_joined<TaskResult, R: FnOnce(SendPtr) -> TaskResult>(
    recover: R,
    before: Tasks,
    after: Tasks,
    joined: Result<TaskResult, JoinError>,
)
    requires
        before.outputs.len() == 1,
        joined_one(recover, before, after, joined),
    ensures
        after.outputs.len() == 0,
{
}

/// What joining a task brings has a ground: an output was read from a slot whose
/// task has left the set, and where there is none, Tokio has given an error that
/// says so.
pub proof fn law_joined_has_a_ground<TaskResult, R: FnOnce(SendPtr) -> TaskResult>(
    recover: R,
    before: Tasks,
    after: Tasks,
    joined: Result<TaskResult, JoinError>,
)
    requires
        joined_one(recover, before, after, joined),
    ensures
        match joined {
            Ok(value) => exists|ptr: SendPtr| #[trigger]
                call_ensures(recover, (ptr,), value) && before.outputs.contains(ptr@)
                    && after.outputs == before.outputs.remove(ptr@),
            Err(JoinError::Cancelled) => exists|error: TokioJoinError| #[trigger]
                was_cancelled(error),
            Err(JoinError::Panicked(error)) => !was_cancelled(error),
        },
{
    let outcome = choose|outcome: Result<SendPtr, TokioJoinError>| #[trigger]
        joined_as(recover, before, after, outcome, joined);
    assert(finished(recover, outcome, joined));
}

/// A call on a task set, with what it brought.
pub enum SetCall<TaskResult> {
    /// A task was spawned whose future yields this address.
    Spawned(usize),
    /// Every task was told to abort.
    AbortedAll,
    /// A task was to be joined, and none was.
    JoinedNone,
    /// A task was joined, by waiting or by trying.
    JoinedOne(Result<TaskResult, JoinError>),
    /// All tasks were to be joined, and these results were appended.
    JoinedAll(Seq<Result<TaskResult, JoinError>>),
}

/// Whether `call` can lead from `before` to `after`.
pub open spec fn call_leads_to<TaskResult, R: FnOnce(SendPtr) -> TaskResult>(
    recover: R,
    before: Tasks,
    call: SetCall<TaskResult>,
    after: Tasks,
) -> bool {
    match call {
        SetCall::Spawned(output) => after == before.spawned(output),
        SetCall::AbortedAll => after == before.aborted(),
        SetCall::JoinedNone => after == before,
        SetCall::JoinedOne(joined) => joined_one(recover, before, after, joined),
        SetCall::JoinedAll(joined) => exists|
            outputs: Seq<usize>,
            outcomes: Seq<Result<SendPtr, TokioJoinError>>,
        | #[trigger] joined_in_order(recover, before, after, outputs, outcomes, joined),
    }
}

/// How many of `calls` spawn a task.
pub open spec fn spawn_calls<TaskResult>(calls: Seq<SetCall<TaskResult>>) -> nat
    decreases calls.len(),
{
    if calls.len() == 0 {
        0
    } else {
        spawn_calls(calls.drop_last()) + if calls.last() is Spawned {
            1nat
        } else {
            0nat
        }
    }
}

/// How many results `calls` bring.
pub open spec fn results_of<TaskResult>(calls: Seq<SetCall<TaskResult>>) -> nat
    decreases calls.len(),
{
    if calls.len() == 0 {
        0
    } else {
        results_of(calls.drop_last()) + match calls.last() {
            SetCall::JoinedOne(_) => 1nat,
            SetCall::JoinedAll(joined) => joined.len(),
            _ => 0nat,
        }
    }
}

/// Of a set that was new, the number of tasks is how many were spawned less how
/// many results the joins have brought, whichever way they joined. Telling tasks
/// to abort and joins that bring nothing change nothing about it.
pub proof fn law_len<TaskResult, R: FnOnce(SendPtr) -> TaskResult>(
    recover: R,
    tasks: Seq<Tasks>,
    calls: Seq<SetCall<TaskResult>>,
)
    requires
        tasks.len() == calls.len() + 1,
        tasks.first() == Tasks::empty(),
        forall|i: int|
            0 <= i < calls.len() ==> call_leads_to(
                recover,
                tasks[i],
                #[trigger] calls[i],
                tasks[i + 1],
            ),
    ensures
        tasks.last().outputs.len() == spawn_calls(calls) - results_of(calls),
    decreases calls.len(),
{
    if calls.len() > 0 {
        let before = tasks.drop_last().last();
        let after = tasks.last();
        let last = calls.len() - 1;
        assert(call_leads_to(recover, tasks[last], calls[last], tasks[last + 1]));
        assert forall|i: int| 0 <= i < calls.drop_last().len() implies call_leads_to(
            recover,
            tasks.drop_last()[i],
            #[trigger] calls.drop_last()[i],
            tasks.drop_last()[i + 1],
        ) by {
            assert(call_leads_to(recover, tasks[i], calls[i], tasks[i + 1]));
        }
        law_len(recover, tasks.drop_last(), calls.drop_last());
        if let SetCall::JoinedAll(joined) = calls.last() {
            let (outputs, outcomes) = choose|
                outputs: Seq<usize>,
                outcomes: Seq<Result<SendPtr, TokioJoinError>>,
            | #[trigger] joined_in_order(recover, before, after, outputs, outcomes, joined);
            law_joining_keeps_the_rest(before, outputs, after);
        }
    }
}

/// The tasks that remain are among those that were there.
proof fn lemma_joined_within<TaskResult, R: FnOnce(SendPtr) -> TaskResult>(
    recover: R,
    before: Tasks,
    outputs: Seq<usize>,
    after: Tasks,
)
    requires
        leads_through(before, join_events(outputs), after),
        recovers_all(recover, before),
    ensures
        recovers_all(recover, after),
{
    law_joining_keeps_the_rest(before, outputs, after);
    assert forall|ptr: SendPtr| #[trigger] after.outputs.contains(ptr@) implies call_requires(
        recover,
        (ptr,),
    ) by {
        assert(before.outputs.contains(ptr@));
    }
}

impl<TaskResult> ScopedJoinSet<TaskResult> {
    /// Whether whoever polled the set last with `cx` is called back: it has been
    /// woken already, or will be when one of the tasks completes.
    pub open spec fn waits(&self, cx: Context<'_>) -> bool {
        wakes(self.tokio_set(), cx)
    }

    /// The Tokio set that holds the tasks, with its record.
    pub closed spec fn record(&self) -> RecordedSet {
        self.join_set
    }

    /// The Tokio set that holds the tasks.
    pub open spec fn tokio_set(&self) -> JoinSet<SendPtr> {
        self.record().tokio_set()
    }

    /// The attempts that were made to join tasks, with what Tokio has given.
    pub open spec fn attempts(&self) -> Seq<Attempt> {
        self.record().attempts()
    }

    /// A set without tasks.
    pub fn new() -> (set: Self)
        ensures
            set@ == Tasks::empty(),
            set.attempts() == Seq::<Attempt>::empty(),
    {
        ScopedJoinSet { join_set: join_set_new(), _marker: PhantomData }
    }

    /// Spawns a task on `runtime`. Its output will go to the slot at `output_ptr`.
    ///
    /// `into_static` makes the task's future from the wrapper that follows it.
    pub fn spawn<F, IntoStatic>(
        &mut self,
        runtime: &Handle,
        output_ptr: usize,
        into_static: IntoStatic,
    ) where
        F: Future<Output = SendPtr> + Send + 'static,
        IntoStatic: FnOnce(WriteOutput<TaskResult>) -> F,

        requires
            output_ptr != 0,
            old(self)@.outputs.len() < usize::MAX,
            forall|wrapper: WriteOutput<TaskResult>|
                wrapper@ == (WriteState { output_ptr, success: false })
                    ==> #[trigger] call_requires(into_static, (wrapper,)),
        ensures
            exists|wrapper: WriteOutput<TaskResult>, task: F| #[trigger]
                call_ensures(into_static, (wrapper,), task) && wrapper@ == (WriteState {
                    output_ptr,
                    success: false,
                }) && final(self)@ == old(self)@.spawned(task@@),
            (forall|wrapper: WriteOutput<TaskResult>, task: F| #[trigger]
                call_ensures(into_static, (wrapper,), task) ==> task@@ == wrapper@.output_ptr)
                ==> final(self)@ == old(self)@.spawned(output_ptr),
            final(self).attempts() == old(self).attempts(),
    {
        let wrapped_task = WriteOutput::new(output_ptr);
        let static_task = into_static(wrapped_task);
        join_set_spawn(&mut self.join_set, static_task, runtime);
    }

    /// Whether the set has no tasks.
    pub fn is_empty(&self) -> (empty: bool)
        ensures
            empty == (self@.outputs.len() == 0),
    {
        join_set_is_empty(&self.join_set)
    }

    /// The number of tasks in the set.
    pub fn len(&self) -> (len: usize)
        ensures
            len == self@.outputs.len(),
    {
        join_set_len(&self.join_set)
    }

    /// Polls for a task to complete, and joins it.
    ///
    /// There is nothing to wait for in an empty set. Otherwise one task leaves
    /// the set as soon as it has completed; `recover` reads its output back
    /// from its slot. Until then, `cx` is woken when it is time to poll again.
    pub fn join_next<R: FnOnce(SendPtr) -> TaskResult>(
        &mut self,
        cx: &mut Context<'_>,
        recover: R,
    ) -> (res: Progress<Option<Result<TaskResult, JoinError>>>)
        requires
            recovers_all(recover, old(self)@),
        ensures
            *final(cx) == *old(cx),
            final(self).attempts().len() == old(self).attempts().len() + 1,
            final(self).attempts().drop_last() == old(self).attempts(),
            final(self).attempts().last() matches Attempt::Polled(polled) && finished_when_ready(
                recover,
                polled,
                res,
            ),
            match res {
                Progress::Pending => {
                    &&& old(self)@.outputs.len() > 0
                    &&& final(self)@ == old(self)@
                    &&& final(self).waits(*old(cx))
                },
                Progress::Ready(None) => {
                    &&& old(self)@.outputs.len() == 0
                    &&& final(self)@ == old(self)@
                },
                Progress::Ready(Some(joined)) => {
                    &&& final(self).attempts().last() matches Attempt::Polled(
                        Progress::Ready(Some(outcome)),
                    )
                    &&& joined_as(recover, old(self)@, final(self)@, outcome, joined)
                },
            },
    {
        let polled = join_set_poll_join_next(&mut self.join_set, cx);
        let res = finish_join_next(polled, recover);
        assert(self.attempts().drop_last() =~= old(self).attempts());
        res
    }

    /// Joins a task that has completed, if there is one.
    pub fn try_join_next<R: FnOnce(SendPtr) -> TaskResult>(&mut self, recover: R) -> (res: Option<
        Result<TaskResult, JoinError>,
    >)
        requires
            recovers_all(recover, old(self)@),
        ensures
            final(self).attempts().len() == old(self).attempts().len() + 1,
            final(self).attempts().drop_last() == old(self).attempts(),
            final(self).attempts().last() matches Attempt::Tried(given) && finished_if_any(
                recover,
                given,
                res,
            ),
            match res {
                None => final(self)@ == old(self)@,
                Some(joined) => {
                    &&& final(self).attempts().last() matches Attempt::Tried(Some(outcome))
                    &&& joined_as(recover, old(self)@, final(self)@, outcome, joined)
                },
            },
    {
        let joined = join_set_try_join_next(&mut self.join_set);
        let res = finish_try_join(joined, recover);
        assert(self.attempts().drop_last() =~= old(self).attempts());
        res
    }

    /// Tells every task in the set to abort. They stay in the set until they
    /// are joined.
    pub fn abort_all(&mut self)
        ensures
            final(self)@ == old(self)@.aborted(),
            final(self).attempts() == old(self).attempts(),
    {
        join_set_abort_all(&mut self.join_set)
    }

    /// Polls until every task has been joined, and appends what joining them
    /// brings to `results`, in the order in which they complete.
    ///
    /// While the set still has tasks that have not completed, it has to be
    /// polled again, with the same `results`; `cx` is woken when it is time.
    pub fn join_all<R: FnOnce(SendPtr) -> TaskResult + Copy>(
        &mut self,
        cx: &mut Context<'_>,
        results: &mut Vec<Result<TaskResult, JoinError>>,
        recover: R,
    ) -> (res: Progress<()>)
        requires
            recovers_all(recover, old(self)@),
        ensures
            *final(cx) == *old(cx),
            res is Ready <==> final(self)@.outputs.len() == 0,
            res is Pending ==> final(self).waits(*old(cx)),
            old(results)@.is_prefix_of(final(results)@),
            final(results)@.len() + final(self)@.outputs.len() == old(results)@.len() + old(self)@.outputs.len(),
            exists|outputs: Seq<usize>, outcomes: Seq<Result<SendPtr, TokioJoinError>>| #[trigger]
                joined_in_order(
                    recover,
                    old(self)@,
                    final(self)@,
                    outputs,
                    outcomes,
                    final(results)@.skip(old(results)@.len() as int),
                ) && drained(old(self).attempts(), outcomes, final(self).attempts(), res),
    {
        let ghost start = results@.len();
        let ghost mut outputs: Seq<usize> = Seq::empty();
        let ghost mut outcomes: Seq<Result<SendPtr, TokioJoinError>> = Seq::empty();
        proof {
            lemma_nothing_joined(self@);
            assert(results@.skip(start as int) =~= Seq::empty());
        }
        loop
            invariant
                recovers_all(recover, old(self)@),
                *cx == *old(cx),
                start == old(results)@.len(),
                old(results)@.is_prefix_of(results@),
                joined_in_order(
                    recover,
                    old(self)@,
                    self@,
                    outputs,
                    outcomes,
                    results@.skip(start as int),
                ),
                self.attempts().len() == old(self).attempts().len() + outcomes.len(),
                self.attempts().take(old(self).attempts().len() as int) == old(self).attempts(),
                forall|i: int|
                    0 <= i < outcomes.len() ==> self.attempts()[old(self).attempts().len() + i]
                        == Attempt::Polled(Progress::Ready(Some(#[trigger] outcomes[i]))),
            decreases self@.outputs.len(),
        {
            let ghost before = self@;
            let ghost joined_so_far = results@.skip(start as int);
            proof {
                lemma_joined_within(recover, old(self)@, outputs, before);
            }
            let polled = join_set_poll_join_next(&mut self.join_set, cx);
            let ghost brought = polled;
            assert(self.attempts().take(old(self).attempts().len() as int) =~= old(self).attempts());
            if let Some(res) = finish_join_all(polled, results, recover) {
                proof {
                    law_joining_keeps_the_rest(old(self)@, outputs, self@);
                    assert(drained(old(self).attempts(), outcomes, self.attempts(), res));
                }
                return res;
            }
            proof {
                let outcome = brought->Ready_0->0;
                let output = match outcome {
                    Ok(ptr) => ptr@,
                    Err(_) => choose|output: usize| before.left_by(output, self@),
                };
                lemma_join_one_more(old(self)@, outputs, before, output, self@);
                outputs = outputs.push(output);
                outcomes = outcomes.push(outcome);
                assert(results@.skip(start as int) =~= joined_so_far.push(results@.last()));
            }
        }
    }
}

} // verus!
