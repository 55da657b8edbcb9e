//! The life of a slot, from the spawning of its task to the joining.
//!
//! Tasks run and are dropped on their own, at any moment between two calls on
//! the task set. What follows is a model of a scope as a whole: its tasks, each
//! at its own stage, what the task set holds of them, and the slots that are
//! allocated. Whatever the order in which tasks are spawned, polled, dropped,
//! told to abort and joined, every slot is freed exactly once, and an output is
//! read only where it was written.

use vstd::prelude::*;

use crate::future_wrappers::{poll_step, released_on_drop, SendPtr, WriteState};
use crate::join_error::JoinError;
use crate::progress::Progress;
use crate::scope::{scope_polled, ScopePoll, ScopeState};
use crate::scoped_join_set::finished;
use crate::tasks::Tasks;

verus! {

/// How far a task has come.
pub enum Stage<TaskOutput> {
    /// The task's future has not completed.
    Running(WriteState),
    /// The task's future has returned `output`, and the task has yielded
    /// `output_ptr`.
    Finished { output_ptr: usize, output: TaskOutput },
    /// The task's future was dropped before it completed. It would have yielded
    /// `output_ptr`.
    Dropped { output_ptr: usize },
}

/// The tasks that have not been joined yet, by some number of each; the same
/// tasks as the task set knows them; and the slots that are allocated, by their
/// addresses, with what they hold.
pub struct Lifecycle<TaskOutput> {
    pub set: Tasks,
    pub tasks: Map<int, Stage<TaskOutput>>,
    pub slots: Map<usize, Option<TaskOutput>>,
}

/// The slots that remain when the one at `released` has been freed.
pub open spec fn free<TaskOutput>(
    slots: Map<usize, Option<TaskOutput>>,
    released: Option<usize>,
) -> Map<usize, Option<TaskOutput>> {
    match released {
        Some(output_ptr) => slots.remove(output_ptr),
        None => slots,
    }
}

impl<TaskOutput> Lifecycle<TaskOutput> {
    /// A scope that nothing has been spawned into.
    pub open spec fn new() -> Self {
        Lifecycle { set: Tasks::empty(), tasks: Map::empty(), slots: Map::empty() }
    }

    /// The address that a task's future yields when it runs to completion.
    pub open spec fn yields(self, task: int) -> usize {
        match self.tasks[task] {
            Stage::Running(state) => state.output_ptr,
            Stage::Finished { output_ptr, .. } => output_ptr,
            Stage::Dropped { output_ptr } => output_ptr,
        }
    }

    /// The tasks whose futures yield `output`.
    pub open spec fn yielding(self, output: usize) -> Set<int> {
        self.tasks.dom().filter(|task: int| self.yields(task) == output)
    }

    /// The address of the slot that belongs to a task, if it still has one.
    pub open spec fn slot_of(self, task: int) -> Option<usize> {
        match self.tasks[task] {
            Stage::Running(state) => Some(state.output_ptr),
            Stage::Finished { output_ptr, .. } => Some(output_ptr),
            Stage::Dropped { .. } => None,
        }
    }

    /// Whether the slots are what the tasks' stages call for: the slot of a
    /// running task is allocated and empty, that of a finished task holds the
    /// task's output, no two tasks share a slot, every slot belongs to a task,
    /// and the task set holds the tasks that have not been joined.
    pub open spec fn inv(self) -> bool {
        &&& self.tasks.dom().finite()
        &&& forall|output: usize| #[trigger]
            self.set.outputs.count(output) == self.yielding(output).len()
        &&& forall|task: int| #[trigger]
            self.tasks.contains_key(task) ==> match self.tasks[task] {
                Stage::Running(state) => {
                    &&& !state.success
                    &&& self.slots.contains_key(state.output_ptr)
                    &&& self.slots[state.output_ptr] == None::<TaskOutput>
                },
                Stage::Finished { output_ptr, output } => {
                    &&& self.slots.contains_key(output_ptr)
                    &&& self.slots[output_ptr] == Some(output)
                },
                Stage::Dropped { .. } => true,
            }
        &&& forall|task: int, other: int|
            #![trigger self.tasks.contains_key(task), self.tasks.contains_key(other)]
            self.tasks.contains_key(task) && self.tasks.contains_key(other) && task != other
                && self.slot_of(task) is Some ==> self.slot_of(task) != self.slot_of(other)
        &&& forall|output_ptr: usize| #[trigger]
            self.slots.contains_key(output_ptr) ==> self.has_owner(output_ptr)
    }

    /// Whether the slot at `output_ptr` belongs to a task.
    pub open spec fn has_owner(self, output_ptr: usize) -> bool {
        exists|task: int| #[trigger]
            self.tasks.contains_key(task) && self.slot_of(task) == Some(output_ptr)
    }

    /// After a task has been spawned whose output goes to a new slot.
    pub open spec fn spawned(self, task: int, output_ptr: usize) -> Self {
        Lifecycle {
            set: self.set.spawned(output_ptr),
            tasks: self.tasks.insert(
                task,
                Stage::Running(WriteState { output_ptr, success: false }),
            ),
            slots: self.slots.insert(output_ptr, None),
        }
    }

    /// After a running task's future has been polled, with `output` as the
    /// outcome. A task that yields its slot's address is done, and its wrapper
    /// is dropped.
    pub open spec fn polled(self, task: int, output: Progress<TaskOutput>) -> Self {
        let state = self.tasks[task]->Running_0;
        let (state, slot, given) = poll_step(state, self.slots[state.output_ptr], output);
        let slots = self.slots.insert(state.output_ptr, slot);
        match given {
            None => Lifecycle {
                set: self.set,
                tasks: self.tasks.insert(task, Stage::Running(state)),
                slots,
            },
            Some(output_ptr) => Lifecycle {
                set: self.set,
                tasks: self.tasks.insert(
                    task,
                    Stage::Finished { output_ptr, output: output->Ready_0 },
                ),
                slots: free(slots, released_on_drop(state)),
            },
        }
    }

    /// After a running task has been dropped, because it was aborted or because
    /// it panicked.
    pub open spec fn dropped(self, task: int) -> Self {
        let state = self.tasks[task]->Running_0;
        Lifecycle {
            set: self.set,
            tasks: self.tasks.insert(task, Stage::Dropped { output_ptr: state.output_ptr }),
            slots: free(self.slots, released_on_drop(state)),
        }
    }

    /// After every task has been told to abort. They are dropped later, if they
    /// do not finish before.
    pub open spec fn aborted(self) -> Self {
        Lifecycle { set: self.set.aborted(), tasks: self.tasks, slots: self.slots }
    }

    /// What joining a finished task reads from its slot.
    pub open spec fn read(self, task: int) -> Option<TaskOutput> {
        self.slots[self.tasks[task]->Finished_output_ptr]
    }

    /// After a task has been joined, which has left `set` in the task set. The
    /// slot of a finished task is freed once its output has been read.
    pub open spec fn joined(self, task: int, set: Tasks) -> Self {
        Lifecycle {
            set,
            tasks: self.tasks.remove(task),
            slots: match self.tasks[task] {
                Stage::Finished { output_ptr, .. } => self.slots.remove(output_ptr),
                _ => self.slots,
            },
        }
    }
}

/// The slots of a new scope are as they should be.
pub proof fn law_new_scope<TaskOutput>()
    ensures
        Lifecycle::<TaskOutput>::new().inv(),
{
    let scope = Lifecycle::<TaskOutput>::new();
    assert forall|output: usize| #[trigger] scope.set.outputs.count(output) == scope.yielding(
        output,
    ).len() by {
        assert(scope.yielding(output) =~= Set::<int>::empty());
    }
}

/// Spawning a task with a slot that was not allocated before keeps all slots as
/// they should be.
pub proof fn law_spawn<TaskOutput>(scope: Lifecycle<TaskOutput>, task: int, output_ptr: usize)
    requires
        scope.inv(),
        !scope.tasks.contains_key(task),
        !scope.slots.contains_key(output_ptr),
    ensures
        scope.spawned(task, output_ptr).inv(),
{
    let after = scope.spawned(task, output_ptr);
    assert forall|ptr: usize| #[trigger] after.slots.contains_key(ptr) implies after.has_owner(
        ptr,
    ) by {
        if ptr == output_ptr {
            assert(after.tasks.contains_key(task) && after.slot_of(task) == Some(ptr));
        } else {
            lemma_owner_stays(scope, after, ptr);
        }
    }
    assert forall|output: usize| #[trigger] after.set.outputs.count(output) == after.yielding(
        output,
    ).len() by {
        assert(scope.set.outputs.count(output) == scope.yielding(output).len());
        if output == output_ptr {
            assert(after.yielding(output) =~= scope.yielding(output).insert(task));
        } else {
            assert(after.yielding(output) =~= scope.yielding(output));
        }
    }
}

/// Polling a running task keeps all slots as they should be. When its future
/// returns, the task is finished with just that output, in the slot that it was
/// spawned with, and the slot is not freed.
pub proof fn law_poll<TaskOutput>(
    scope: Lifecycle<TaskOutput>,
    task: int,
    output: Progress<TaskOutput>,
)
    requires
        scope.inv(),
        scope.tasks.contains_key(task),
        scope.tasks[task] is Running,
    ensures
        scope.polled(task, output).inv(),
        scope.polled(task, output).slots.dom() == scope.slots.dom(),
        output matches Progress::Ready(value) ==> scope.polled(task, output).tasks[task] == (
        Stage::Finished { output_ptr: scope.yields(task), output: value }),
{
    let after = scope.polled(task, output);
    assert(after.slots.dom() =~= scope.slots.dom());
    lemma_same_tasks(scope, after);
    assert forall|ptr: usize| #[trigger] after.slots.contains_key(ptr) implies after.has_owner(
        ptr,
    ) by {
        lemma_owner_stays(scope, after, ptr);
    }
}

/// Dropping a running task frees its slot, and no other.
pub proof fn law_drop<TaskOutput>(scope: Lifecycle<TaskOutput>, task: int)
    requires
        scope.inv(),
        scope.tasks.contains_key(task),
        scope.tasks[task] is Running,
    ensures
        scope.dropped(task).inv(),
        scope.slots.contains_key(scope.yields(task)),
        scope.dropped(task).slots == scope.slots.remove(scope.yields(task)),
{
    let after = scope.dropped(task);
    lemma_same_tasks(scope, after);
    assert forall|ptr: usize| #[trigger] after.slots.contains_key(ptr) implies after.has_owner(
        ptr,
    ) by {
        lemma_owner_stays(scope, after, ptr);
    }
}

/// Telling every task to abort frees nothing by itself. A task that has finished
/// is still to be joined with the output that its future returned.
pub proof fn law_abort<TaskOutput>(scope: Lifecycle<TaskOutput>)
    requires
        scope.inv(),
    ensures
        scope.aborted().inv(),
        scope.aborted().slots == scope.slots,
        forall|task: int| #[trigger]
            scope.tasks.contains_key(task) && scope.tasks[task] is Finished ==> {
                &&& scope.aborted().tasks.contains_key(task)
                &&& scope.aborted().tasks[task] == scope.tasks[task]
                &&& scope.aborted().read(task) == Some(scope.tasks[task]->Finished_output)
            },
{
    let after = scope.aborted();
    lemma_same_tasks(scope, after);
    assert forall|ptr: usize| #[trigger] after.slots.contains_key(ptr) implies after.has_owner(
        ptr,
    ) by {
        lemma_owner_stays(scope, after, ptr);
    }
}

/// Joining a finished task reads the output that its future returned, and frees
/// its slot, and no other.
pub proof fn law_join_finished<TaskOutput>(
    scope: Lifecycle<TaskOutput>,
    task: int,
    set: Tasks,
)
    requires
        scope.inv(),
        scope.tasks.contains_key(task),
        scope.tasks[task] is Finished,
        scope.set.left_by(scope.yields(task), set),
    ensures
        scope.joined(task, set).inv(),
        scope.read(task) == Some(scope.tasks[task]->Finished_output),
        scope.slots.contains_key(scope.yields(task)),
        scope.joined(task, set).slots == scope.slots.remove(scope.yields(task)),
{
    lemma_join_keeps(scope, task, set);
}

/// What joining a finished task brings is the output that its future returned,
/// provided that `recover` reads a slot as it is.
pub proof fn law_join_gives_output<TaskOutput, R: FnOnce(SendPtr) -> TaskOutput>(
    recover: R,
    scope: Lifecycle<TaskOutput>,
    task: int,
    ptr: SendPtr,
    joined: Result<TaskOutput, JoinError>,
)
    requires
        scope.inv(),
        scope.tasks.contains_key(task),
        scope.tasks[task] is Finished,
        ptr@ == scope.yields(task),
        forall|slot: SendPtr, value: TaskOutput| #[trigger]
            call_ensures(recover, (slot,), value) ==> scope.slots[slot@] == Some(value),
        finished(recover, Ok(ptr), joined),
    ensures
        joined == Ok::<TaskOutput, JoinError>(scope.tasks[task]->Finished_output),
{
}

/// Joining a task that was dropped frees nothing: its slot is gone already.
pub proof fn law_join_dropped<TaskOutput>(scope: Lifecycle<TaskOutput>, task: int, set: Tasks)
    requires
        scope.inv(),
        scope.tasks.contains_key(task),
        scope.tasks[task] is Dropped,
        scope.set.left_by(scope.yields(task), set),
    ensures
        scope.joined(task, set).inv(),
        scope.joined(task, set).slots == scope.slots,
{
    lemma_join_keeps(scope, task, set);
}

/// Once the task set is empty, as it is when a scope is closed, no slot is left
/// allocated and no task is left running.
pub proof fn law_nothing_is_left<TaskOutput>(scope: Lifecycle<TaskOutput>)
    requires
        scope.inv(),
        scope.set.outputs.len() == 0,
    ensures
        scope.tasks.dom() == Set::<int>::empty(),
        scope.slots.dom() == Set::<usize>::empty(),
{
    assert forall|task: int| !scope.tasks.dom().contains(task) by {
        if scope.tasks.contains_key(task) {
            let output = scope.yields(task);
            assert(scope.set.outputs.count(output) == scope.yielding(output).len());
            assert(scope.yielding(output).contains(task));
        }
    }
    assert forall|ptr: usize| !scope.slots.dom().contains(ptr) by {
        if scope.slots.contains_key(ptr) {
            assert(scope.has_owner(ptr));
        }
    }
    assert(scope.tasks.dom() =~= Set::<int>::empty());
    assert(scope.slots.dom() =~= Set::<usize>::empty());
}

/// When a scope gives its closure's result out, every task that was spawned into
/// it has been joined and every slot has been freed.
pub proof fn law_closed_scope<TaskOutput, ClosureResult, R: FnOnce(SendPtr) -> TaskOutput>(
    recover: R,
    before: ScopeState<TaskOutput, ClosureResult>,
    poll: ScopePoll<TaskOutput, ClosureResult>,
    after: ScopeState<TaskOutput, ClosureResult>,
    scope: Lifecycle<TaskOutput>,
)
    requires
        scope_polled(recover, before, poll, after),
        poll.res is Ready,
        scope.inv(),
        scope.set == after.tasks,
    ensures
        scope.tasks.dom() == Set::<int>::empty(),
        scope.slots.dom() == Set::<usize>::empty(),
{
    law_nothing_is_left(scope);
}

/// Something that happens in a scope.
pub enum Step<TaskOutput> {
    /// A task is spawned, with a slot that is allocated at this address.
    Spawned { task: int, output_ptr: usize },
    /// A running task's future is polled, with this outcome.
    Polled { task: int, output: Progress<TaskOutput> },
    /// A running task is dropped.
    Dropped { task: int },
    /// Every task is told to abort.
    AbortedAll,
    /// A task that is not running any more is joined, which leaves this in the
    /// task set.
    Joined { task: int, set: Tasks },
}

/// Whether `step` can lead from `before` to `after`. The slot of a new task is
/// at an address where none is allocated.
pub open spec fn step_leads_to<TaskOutput>(
    before: Lifecycle<TaskOutput>,
    step: Step<TaskOutput>,
    after: Lifecycle<TaskOutput>,
) -> bool {
    match step {
        Step::Spawned { task, output_ptr } => {
            &&& !before.tasks.contains_key(task)
            &&& !before.slots.contains_key(output_ptr)
            &&& after == before.spawned(task, output_ptr)
        },
        Step::Polled { task, output } => {
            &&& before.tasks.contains_key(task)
            &&& before.tasks[task] is Running
            &&& after == before.polled(task, output)
        },
        Step::Dropped { task } => {
            &&& before.tasks.contains_key(task)
            &&& before.tasks[task] is Running
            &&& after == before.dropped(task)
        },
        Step::AbortedAll => after == before.aborted(),
        Step::Joined { task, set } => {
            &&& before.tasks.contains_key(task)
            &&& !(before.tasks[task] is Running)
            &&& before.set.left_by(before.yields(task), set)
            &&& after == before.joined(task, set)
        },
    }
}

/// The address of the slot that `step` allocates, if it does.
pub open spec fn allocated_by<TaskOutput>(step: Step<TaskOutput>) -> Option<usize> {
    match step {
        Step::Spawned { output_ptr, .. } => Some(output_ptr),
        _ => None,
    }
}

/// The address of the slot that `step` frees, if it does: that of a task whose
/// wrapper is dropped with the slot still its own, and that of a finished task
/// that is joined.
pub open spec fn freed_by<TaskOutput>(
    before: Lifecycle<TaskOutput>,
    step: Step<TaskOutput>,
) -> Option<usize> {
    match step {
        Step::Polled { task, output } => {
            let state = before.tasks[task]->Running_0;
            let (state, _, given) = poll_step(state, before.slots[state.output_ptr], output);
            if given is Some {
                released_on_drop(state)
            } else {
                None
            }
        },
        Step::Dropped { task } => released_on_drop(before.tasks[task]->Running_0),
        Step::Joined { task, .. } => match before.tasks[task] {
            Stage::Finished { output_ptr, .. } => Some(output_ptr),
            _ => None,
        },
        _ => None,
    }
}

/// Whether `states` are what a new scope goes through before, between and after
/// `steps`.
pub open spec fn life<TaskOutput>(
    states: Seq<Lifecycle<TaskOutput>>,
    steps: Seq<Step<TaskOutput>>,
) -> bool {
    &&& states.len() == steps.len() + 1
    &&& states.first() == Lifecycle::<TaskOutput>::new()
    &&& forall|i: int|
        0 <= i < steps.len() ==> step_leads_to(states[i], #[trigger] steps[i], states[i + 1])
}

/// How often `steps` allocate a slot at `output_ptr`.
pub open spec fn allocations_of<TaskOutput>(
    steps: Seq<Step<TaskOutput>>,
    output_ptr: usize,
) -> nat
    decreases steps.len(),
{
    if steps.len() == 0 {
        0
    } else {
        allocations_of(steps.drop_last(), output_ptr) + if allocated_by(steps.last()) == Some(
            output_ptr,
        ) {
            1nat
        } else {
            0nat
        }
    }
}

/// How often `steps`, the first of which is taken in the first of `states`, free
/// the slot at `output_ptr`.
pub open spec fn frees_of<TaskOutput>(
    states: Seq<Lifecycle<TaskOutput>>,
    steps: Seq<Step<TaskOutput>>,
    output_ptr: usize,
) -> nat
    decreases steps.len(),
{
    if steps.len() == 0 {
        0
    } else {
        frees_of(states, steps.drop_last(), output_ptr) + if freed_by(
            states[steps.len() - 1],
            steps.last(),
        ) == Some(output_ptr) {
            1nat
        } else {
            0nat
        }
    }
}

/// Whatever happens in a scope, its slots stay as they should be, and what a
/// step frees is allocated until then.
pub proof fn law_step<TaskOutput>(
    before: Lifecycle<TaskOutput>,
    step: Step<TaskOutput>,
    after: Lifecycle<TaskOutput>,
)
    requires
        before.inv(),
        step_leads_to(before, step, after),
    ensures
        after.inv(),
        after.slots.dom() == (match (allocated_by(step), freed_by(before, step)) {
            (Some(output_ptr), _) => before.slots.dom().insert(output_ptr),
            (None, Some(output_ptr)) => before.slots.dom().remove(output_ptr),
            (None, None) => before.slots.dom(),
        }),
        allocated_by(step) matches Some(output_ptr) ==> !before.slots.contains_key(output_ptr)
            && freed_by(before, step) is None,
        freed_by(before, step) matches Some(output_ptr) ==> before.slots.contains_key(output_ptr),
{
    match step {
        Step::Spawned { task, output_ptr } => law_spawn(before, task, output_ptr),
        Step::Polled { task, output } => law_poll(before, task, output),
        Step::Dropped { task } => law_drop(before, task),
        Step::AbortedAll => law_abort(before),
        Step::Joined { task, set } => {
            if before.tasks[task] is Finished {
                law_join_finished(before, task, set);
            } else {
                law_join_dropped(before, task, set);
            }
        },
    }
}

/// Whatever the order in which things happen in a scope, every slot is freed
/// exactly once. Of each address: a slot was allocated there as often as it was
/// freed, and once more if it is still allocated. Once the task set is empty, all
/// have been freed.
pub proof fn law_slots_are_freed_once<TaskOutput>(
    states: Seq<Lifecycle<TaskOutput>>,
    steps: Seq<Step<TaskOutput>>,
    output_ptr: usize,
)
    requires
        life(states, steps),
    ensures
        states.last().inv(),
        allocations_of(steps, output_ptr) == frees_of(states, steps, output_ptr) + (
        if states.last().slots.contains_key(output_ptr) {
            1nat
        } else {
            0nat
        }),
        states.last().set.outputs.len() == 0 ==> allocations_of(steps, output_ptr) == frees_of(
            states,
            steps,
            output_ptr,
        ),
    decreases steps.len(),
{
    if steps.len() == 0 {
        law_new_scope::<TaskOutput>();
    } else {
        lemma_shorter_life(states, steps);
        law_slots_are_freed_once(states.drop_last(), steps.drop_last(), output_ptr);
        lemma_same_frees(states, states.drop_last(), steps.drop_last(), output_ptr);
        law_step(states.drop_last().last(), steps.last(), states.last());
    }
    if states.last().set.outputs.len() == 0 {
        law_nothing_is_left(states.last());
        assert(!states.last().slots.dom().contains(output_ptr));
    }
}

/// Whatever has happened in a scope before, no step frees a slot that is not
/// allocated, and joining a finished task reads the output that its future
/// returned.
pub proof fn law_slots_are_used_while_allocated<TaskOutput>(
    states: Seq<Lifecycle<TaskOutput>>,
    steps: Seq<Step<TaskOutput>>,
    step: int,
)
    requires
        life(states, steps),
        0 <= step < steps.len(),
    ensures
        freed_by(states[step], steps[step]) matches Some(output_ptr)
            ==> states[step].slots.contains_key(output_ptr),
        steps[step] matches Step::Joined { task, .. } ==> states[step].tasks[task] is Finished
            ==> states[step].read(task) == Some(states[step].tasks[task]->Finished_output),
    decreases steps.len(),
{
    lemma_shorter_life(states, steps);
    if step < steps.len() - 1 {
        law_slots_are_used_while_allocated(states.drop_last(), steps.drop_last(), step);
    } else {
        law_slots_are_freed_once(states.drop_last(), steps.drop_last(), 0);
        law_step(states[step], steps[step], states[step + 1]);
        if let Step::Joined { task, set } = steps[step] {
            if states[step].tasks[task] is Finished {
                law_join_finished(states[step], task, set);
            }
        }
    }
}

/// A life without its last step is one, and its last step leads to where it
/// ends.
proof fn lemma_shorter_life<TaskOutput>(
    states: Seq<Lifecycle<TaskOutput>>,
    steps: Seq<Step<TaskOutput>>,
)
    requires
        life(states, steps),
        steps.len() > 0,
    ensures
        life(states.drop_last(), steps.drop_last()),
        step_leads_to(states.drop_last().last(), steps.last(), states.last()),
{
    assert(step_leads_to(states[steps.len() - 1], steps[steps.len() - 1], states[steps.len() as int]));
    assert forall|i: int| 0 <= i < steps.drop_last().len() implies step_leads_to(
        states.drop_last()[i],
        #[trigger] steps.drop_last()[i],
        states.drop_last()[i + 1],
    ) by {
        assert(step_leads_to(states[i], steps[i], states[i + 1]));
    }
}

/// What steps free depends on the states that they are taken in, and not on
/// what comes later.
proof fn lemma_same_frees<TaskOutput>(
    states: Seq<Lifecycle<TaskOutput>>,
    others: Seq<Lifecycle<TaskOutput>>,
    steps: Seq<Step<TaskOutput>>,
    output_ptr: usize,
)
    requires
        forall|i: int| 0 <= i < steps.len() ==> #[trigger] states[i] == others[i],
    ensures
        frees_of(states, steps, output_ptr) == frees_of(others, steps, output_ptr),
    decreases steps.len(),
{
    if steps.len() > 0 {
        lemma_same_frees(states, others, steps.drop_last(), output_ptr);
        assert(states[steps.len() - 1] == others[steps.len() - 1]);
    }
}

/// A slot whose owner keeps it still has an owner.
proof fn lemma_owner_stays<TaskOutput>(
    before: Lifecycle<TaskOutput>,
    after: Lifecycle<TaskOutput>,
    ptr: usize,
)
    requires
        before.has_owner(ptr),
        forall|task: int| #[trigger]
            before.tasks.contains_key(task) && before.slot_of(task) == Some(ptr)
                ==> after.tasks.contains_key(task) && after.slot_of(task) == Some(ptr),
    ensures
        after.has_owner(ptr),
{
    let owner = choose|owner: int| #[trigger]
        before.tasks.contains_key(owner) && before.slot_of(owner) == Some(ptr);
    assert(after.tasks.contains_key(owner) && after.slot_of(owner) == Some(ptr));
}

/// The task set need not change while the same tasks yield the same addresses.
proof fn lemma_same_tasks<TaskOutput>(
    before: Lifecycle<TaskOutput>,
    after: Lifecycle<TaskOutput>,
)
    requires
        before.inv(),
        after.set.outputs == before.set.outputs,
        after.tasks.dom() =~= before.tasks.dom(),
        forall|task: int| #[trigger]
            before.tasks.contains_key(task) ==> after.yields(task) == before.yields(task),
    ensures
        forall|output: usize| #[trigger]
            after.set.outputs.count(output) == after.yielding(output).len(),
{
    assert forall|output: usize| #[trigger] after.set.outputs.count(output) == after.yielding(
        output,
    ).len() by {
        assert(before.set.outputs.count(output) == before.yielding(output).len());
        assert(after.yielding(output) =~= before.yielding(output));
    }
}

/// Joining a task that is not running keeps all slots as they should be.
proof fn lemma_join_keeps<TaskOutput>(scope: Lifecycle<TaskOutput>, task: int, set: Tasks)
    requires
        scope.inv(),
        scope.tasks.contains_key(task),
        !(scope.tasks[task] is Running),
        scope.set.left_by(scope.yields(task), set),
    ensures
        scope.joined(task, set).inv(),
{
    let after = scope.joined(task, set);
    assert forall|ptr: usize| #[trigger] after.slots.contains_key(ptr) implies after.has_owner(
        ptr,
    ) by {
        lemma_owner_stays(scope, after, ptr);
    }
    assert forall|output: usize| #[trigger] after.set.outputs.count(output) == after.yielding(
        output,
    ).len() by {
        assert(scope.set.outputs.count(output) == scope.yielding(output).len());
        if output == scope.yields(task) {
            assert(after.yielding(output) =~= scope.yielding(output).remove(task));
            assert(scope.yielding(output).contains(task));
        } else {
            assert(after.yielding(output) =~= scope.yielding(output));
        }
    }
}

} // verus!
