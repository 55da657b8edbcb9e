//! What a set of tasks amounts to.

use vstd::multiset::Multiset;
use vstd::prelude::*;

verus! {

/// The tasks of a set.
pub struct Tasks {
    /// For each task in the set, the address that its future yields when it
    /// runs to completion.
    pub outputs: Multiset<usize>,
    /// The same, for the tasks that have not been told to abort.
    pub unaborted: Multiset<usize>,
}

impl Tasks {
    /// No task.
    pub open spec fn empty() -> Self {
        Tasks { outputs: Multiset::empty(), unaborted: Multiset::empty() }
    }

    /// These tasks and one more, whose future yields `output`.
    pub open spec fn spawned(self, output: usize) -> Self {
        Tasks { outputs: self.outputs.insert(output), unaborted: self.unaborted.insert(output) }
    }

    /// These tasks, all of them told to abort.
    pub open spec fn aborted(self) -> Self {
        Tasks { outputs: self.outputs, unaborted: Multiset::empty() }
    }

    /// Whether `after` is what remains of these tasks when one whose future
    /// yields `output` has left. It may have been told to abort or not.
    pub open spec fn left_by(self, output: usize, after: Self) -> bool {
        &&& self.outputs.contains(output)
        &&& after.outputs == self.outputs.remove(output)
        &&& {
            ||| self.unaborted.contains(output) && after.unaborted == self.unaborted.remove(output)
            ||| self.unaborted.count(output) < self.outputs.count(output) && after.unaborted
                == self.unaborted
        }
    }
}

/// Something that is done to a set of tasks.
pub enum TaskEvent {
    /// A task is spawned whose future yields this address.
    Spawned(usize),
    /// Every task is told to abort.
    AbortedAll,
    /// A task is joined whose future yields this address.
    Joined(usize),
}

/// Whether `event` leads from `before` to `after`.
pub open spec fn leads_to(before: Tasks, event: TaskEvent, after: Tasks) -> bool {
    match event {
        TaskEvent::Spawned(output) => after == before.spawned(output),
        TaskEvent::AbortedAll => after == before.aborted(),
        TaskEvent::Joined(output) => before.left_by(output, after),
    }
}

/// Whether `tasks` are what a set holds before, between and after `events`.
pub open spec fn history(tasks: Seq<Tasks>, events: Seq<TaskEvent>) -> bool {
    &&& tasks.len() == events.len() + 1
    &&& forall|i: int|
        0 <= i < events.len() ==> leads_to(tasks[i], #[trigger] events[i], tasks[i + 1])
}

/// Whether `events`, one after the other, lead from `before` to `after`.
pub open spec fn leads_through(before: Tasks, events: Seq<TaskEvent>, after: Tasks) -> bool {
    exists|tasks: Seq<Tasks>| #[trigger]
        history(tasks, events) && tasks.first() == before && tasks.last() == after
}

/// The joining of tasks, one after the other, whose futures yield `outputs`.
pub open spec fn join_events(outputs: Seq<usize>) -> Seq<TaskEvent> {
    Seq::new(outputs.len(), |i: int| TaskEvent::Joined(outputs[i]))
}

/// How many tasks `events` spawn.
pub open spec fn spawns(events: Seq<TaskEvent>) -> nat
    decreases events.len(),
{
    if events.len() == 0 {
        0
    } else {
        spawns(events.drop_last()) + if events.last() is Spawned {
            1nat
        } else {
            0nat
        }
    }
}

/// How many tasks `events` join.
pub open spec fn joins(events: Seq<TaskEvent>) -> nat
    decreases events.len(),
{
    if events.len() == 0 {
        0
    } else {
        joins(events.drop_last()) + if events.last() is Joined {
            1nat
        } else {
            0nat
        }
    }
}

/// How many tasks `events` spawn whose futures yield `output`.
pub open spec fn spawns_of(events: Seq<TaskEvent>, output: usize) -> nat
    decreases events.len(),
{
    if events.len() == 0 {
        0
    } else {
        spawns_of(events.drop_last(), output) + if events.last() == TaskEvent::Spawned(output) {
            1nat
        } else {
            0nat
        }
    }
}

/// How many tasks `events` join whose futures yield `output`.
pub open spec fn joins_of(events: Seq<TaskEvent>, output: usize) -> nat
    decreases events.len(),
{
    if events.len() == 0 {
        0
    } else {
        joins_of(events.drop_last(), output) + if events.last() == TaskEvent::Joined(output) {
            1nat
        } else {
            0nat
        }
    }
}

/// A task stays in the set from when it is spawned until it is joined: the set
/// holds as many tasks as were spawned and have not been joined.
pub proof fn law_number_of_tasks(tasks: Seq<Tasks>, events: Seq<TaskEvent>)
    requires
        history(tasks, events),
    ensures
        tasks.last().outputs.len() + joins(events) == tasks.first().outputs.len() + spawns(events),
    decreases events.len(),
{
    if events.len() > 0 {
        lemma_shorter_history(tasks, events);
        law_number_of_tasks(tasks.drop_last(), events.drop_last());
    }
}

/// No slot is recovered more often than it was handed to a task: of each
/// address, the set holds as many as were spawned with and have not been
/// joined.
pub proof fn law_addresses_of_tasks(tasks: Seq<Tasks>, events: Seq<TaskEvent>, output: usize)
    requires
        history(tasks, events),
    ensures
        tasks.last().outputs.count(output) + joins_of(events, output)
            == tasks.first().outputs.count(output) + spawns_of(events, output),
    decreases events.len(),
{
    if events.len() > 0 {
        lemma_shorter_history(tasks, events);
        law_addresses_of_tasks(tasks.drop_last(), events.drop_last(), output);
    }
}

/// Only tasks of the set are counted among those that were not told to abort,
/// whatever is done to the set.
pub proof fn law_unaborted_are_tasks(tasks: Seq<Tasks>, events: Seq<TaskEvent>)
    requires
        history(tasks, events),
        tasks.first().unaborted.subset_of(tasks.first().outputs),
    ensures
        tasks.last().unaborted.subset_of(tasks.last().outputs),
    decreases events.len(),
{
    if events.len() > 0 {
        lemma_shorter_history(tasks, events);
        law_unaborted_are_tasks(tasks.drop_last(), events.drop_last());
    }
}

/// Once every task has been told to abort, and until another is spawned, there
/// is no task in the set that has not been told.
pub proof fn law_abort_reaches_all(tasks: Seq<Tasks>, events: Seq<TaskEvent>)
    requires
        history(tasks, events),
        events.len() > 0,
        events.first() is AbortedAll,
        spawns(events) == 0,
    ensures
        tasks.last().unaborted == Multiset::<usize>::empty(),
    decreases events.len(),
{
    lemma_shorter_history(tasks, events);
    if events.len() > 1 {
        law_abort_reaches_all(tasks.drop_last(), events.drop_last());
    }
}

/// Telling every task to abort takes none out of the set, and doing it twice
/// has the effect of doing it once.
pub proof fn law_abort_keeps_tasks(tasks: Tasks)
    ensures
        tasks.aborted().outputs == tasks.outputs,
        tasks.aborted().aborted() == tasks.aborted(),
{
}

/// What leads from one set to a second, and from there to a third, leads from
/// the first to the third.
pub proof fn law_one_after_the_other(
    before: Tasks,
    earlier: Seq<TaskEvent>,
    middle: Tasks,
    later: Seq<TaskEvent>,
    after: Tasks,
)
    requires
        leads_through(before, earlier, middle),
        leads_through(middle, later, after),
    ensures
        leads_through(before, earlier + later, after),
{
    let first = choose|tasks: Seq<Tasks>| #[trigger]
        history(tasks, earlier) && tasks.first() == before && tasks.last() == middle;
    let second = choose|tasks: Seq<Tasks>| #[trigger]
        history(tasks, later) && tasks.first() == middle && tasks.last() == after;
    let events = earlier + later;
    let tasks = first + second.drop_first();
    assert forall|i: int| 0 <= i < events.len() implies leads_to(
        tasks[i],
        #[trigger] events[i],
        tasks[i + 1],
    ) by {
        if i < earlier.len() {
            assert(leads_to(first[i], earlier[i], first[i + 1]));
        } else {
            let j = i - earlier.len();
            assert(leads_to(second[j], later[j], second[j + 1]));
        }
    }
    assert(history(tasks, events) && tasks.first() == before && tasks.last() == after);
}

/// Joining tasks takes just these out of the set. It tells none to abort: what
/// was not told before is among those that were joined, or is still not told.
pub proof fn law_joining_keeps_the_rest(before: Tasks, outputs: Seq<usize>, after: Tasks)
    requires
        leads_through(before, join_events(outputs), after),
    ensures
        before.outputs == after.outputs.add(outputs.to_multiset()),
        before.outputs.len() == after.outputs.len() + outputs.len(),
        after.unaborted.subset_of(before.unaborted),
        before.unaborted.subset_of(after.unaborted.add(outputs.to_multiset())),
    decreases outputs.len(),
{
    broadcast use vstd::seq_lib::group_to_multiset_ensures;

    let events = join_events(outputs);
    let tasks = choose|tasks: Seq<Tasks>| #[trigger]
        history(tasks, events) && tasks.first() == before && tasks.last() == after;
    if outputs.len() == 0 {
        assert(before.outputs =~= after.outputs.add(outputs.to_multiset()));
    } else {
        let earlier = outputs.drop_last();
        lemma_shorter_history(tasks, events);
        assert(join_events(earlier) =~= events.drop_last());
        assert(leads_through(before, join_events(earlier), tasks.drop_last().last()));
        law_joining_keeps_the_rest(before, earlier, tasks.drop_last().last());
        assert(outputs =~= earlier.push(outputs.last()));
        assert(outputs.to_multiset() =~= earlier.to_multiset().insert(outputs.last()));
        assert(before.outputs =~= after.outputs.add(outputs.to_multiset()));
    }
}

/// Joining one more task extends an order of joining.
pub(crate) proof fn lemma_join_one_more(
    before: Tasks,
    outputs: Seq<usize>,
    middle: Tasks,
    output: usize,
    after: Tasks,
)
    requires
        leads_through(before, join_events(outputs), middle),
        middle.left_by(output, after),
    ensures
        leads_through(before, join_events(outputs.push(output)), after),
{
    let one = seq![TaskEvent::Joined(output)];
    assert(history(seq![middle, after], one));
    law_one_after_the_other(before, join_events(outputs), middle, one, after);
    assert(join_events(outputs.push(output)) =~= join_events(outputs) + one);
}

/// Nothing has to happen for a set to stay as it is.
pub(crate) proof fn lemma_nothing_joined(tasks: Tasks)
    ensures
        leads_through(tasks, join_events(Seq::empty()), tasks),
{
    assert(history(seq![tasks], join_events(Seq::empty())));
}

/// A history without its last event is one, and its last event leads to where
/// it ends.
proof fn lemma_shorter_history(tasks: Seq<Tasks>, events: Seq<TaskEvent>)
    requires
        history(tasks, events),
        events.len() > 0,
    ensures
        history(tasks.drop_last(), events.drop_last()),
        leads_to(tasks.drop_last().last(), events.last(), tasks.last()),
        tasks.drop_last().first() == tasks.first(),
        events.len() > 1 ==> events.drop_last().first() == events.first(),
{
    assert(leads_to(tasks[events.len() - 1], events[events.len() - 1], tasks[events.len() as int]));
    assert forall|i: int| 0 <= i < events.drop_last().len() implies leads_to(
        tasks.drop_last()[i],
        #[trigger] events.drop_last()[i],
        tasks.drop_last()[i + 1],
    ) by {
        assert(leads_to(tasks[i], events[i], tasks[i + 1]));
    }
}

} // verus!
