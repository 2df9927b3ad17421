//! The queue of pending load tasks, kept in the order in which they are served.

use crate::task::LoadTask;
use crate::task::LoadTaskView;
use vstd::prelude::*;

verus! {

/// Whether `tasks` is in the order of service: no task stands behind one that it is served
/// before.
pub open spec fn in_service_order(tasks: Seq<LoadTaskView>) -> bool {
    forall|i: int, j: int|
        0 <= i < j < tasks.len() ==> !(#[trigger] tasks[j]).served_before(#[trigger] tasks[i])
}

/// Where a new task goes in a queue: the first position held by a task that the new one is
/// served before, or the end of the queue where there is none.
pub open spec fn arrival_slot(tasks: Seq<LoadTaskView>, task: LoadTaskView) -> int
    decreases tasks.len(),
{
    if tasks.len() == 0 {
        0
    } else if task.served_before(tasks[0]) {
        0
    } else {
        1 + arrival_slot(tasks.skip(1), task)
    }
}

/// The slot of a new task lies within the queue; every task before it is not served after the
/// new one, and the task at the slot, if there is one, is.
pub proof fn lemma_arrival_slot(tasks: Seq<LoadTaskView>, task: LoadTaskView)
    ensures
        0 <= arrival_slot(tasks, task) <= tasks.len(),
        forall|i: int|
            0 <= i < arrival_slot(tasks, task) ==> !task.served_before(#[trigger] tasks[i]),
        arrival_slot(tasks, task) < tasks.len() ==> task.served_before(
            tasks[arrival_slot(tasks, task)],
        ),
    decreases tasks.len(),
{
    if tasks.len() > 0 && !task.served_before(tasks[0]) {
        let rest = tasks.skip(1);
        lemma_arrival_slot(rest, task);
        assert forall|i: int| 0 <= i < arrival_slot(tasks, task) implies !task.served_before(
            #[trigger] tasks[i],
        ) by {
            if i > 0 {
                assert(tasks[i] == rest[i - 1]);
            }
        }
        if arrival_slot(tasks, task) < tasks.len() {
            assert(tasks[arrival_slot(tasks, task)] == rest[arrival_slot(rest, task)]);
        }
    }
}

/// A position up to which no task is served after the new one, and at which one is (or the
/// queue ends), is the slot of the new task.
pub proof fn lemma_arrival_slot_is(tasks: Seq<LoadTaskView>, task: LoadTaskView, at: int)
    requires
        0 <= at <= tasks.len(),
        forall|i: int| 0 <= i < at ==> !task.served_before(#[trigger] tasks[i]),
        at < tasks.len() ==> task.served_before(tasks[at]),
    ensures
        arrival_slot(tasks, task) == at,
    decreases tasks.len(),
{
    if tasks.len() > 0 && at > 0 {
        let rest = tasks.skip(1);
        assert forall|i: int| 0 <= i < at - 1 implies !task.served_before(
            #[trigger] rest[i],
        ) by {
            assert(rest[i] == tasks[i + 1]);
        }
        if at < tasks.len() {
            assert(rest[at - 1] == tasks[at]);
        }
        lemma_arrival_slot_is(rest, task, at - 1);
    }
}

/// Putting a task at its slot keeps a queue in the order of service.
pub proof fn lemma_arrival_keeps_order(tasks: Seq<LoadTaskView>, task: LoadTaskView)
    requires
        in_service_order(tasks),
    ensures
        in_service_order(tasks.insert(arrival_slot(tasks, task), task)),
{
    lemma_arrival_slot(tasks, task);
    let at = arrival_slot(tasks, task);
    let after = tasks.insert(at, task);
    assert forall|i: int, j: int| 0 <= i < j < after.len() implies {
        !(#[trigger] after[j]).served_before(#[trigger] after[i])
    } by {
        if j == at {
            assert(after[i] == tasks[i]);
        } else if i == at {
            assert(after[j] == tasks[j - 1]);
            if j - 1 > at {
                assert(!tasks[j - 1].served_before(tasks[at]));
            }
        } else {
            let oi = if i < at { i } else { i - 1 };
            let oj = if j < at { j } else { j - 1 };
            assert(after[i] == tasks[oi]);
            assert(after[j] == tasks[oj]);
        }
    }
}

/// What the order of service means for a queue: of any two queued tasks, the one in front
/// has the higher priority or the same, and where the priorities are the same it has the
/// smaller identifier or the same. Tasks of one priority therefore leave in the order of
/// their identifiers.
pub proof fn lemma_order_of_service(tasks: Seq<LoadTaskView>, i: int, j: int)
    requires
        in_service_order(tasks),
        0 <= i < j < tasks.len(),
    ensures
        tasks[i].priority.rank() >= tasks[j].priority.rank(),
        tasks[i].priority == tasks[j].priority ==> tasks[i].task_id <= tasks[j].task_id,
{
    assert(!tasks[j].served_before(tasks[i]));
    crate::priority::lemma_rank_injective(tasks[i].priority, tasks[j].priority);
}

/// The pending load tasks, first to be served first.
pub struct TaskQueue {
    items: Vec<LoadTask>,
}

impl View for TaskQueue {
    type V = Seq<LoadTaskView>;

    /// The queued tasks, the next one to be served first.
    closed spec fn view(&self) -> Seq<LoadTaskView> {
        self.items@.map_values(|t: LoadTask| t@)
    }
}

impl TaskQueue {
    /// A queue is well formed when it is in the order of service.
    pub open spec fn wf(&self) -> bool {
        in_service_order(self@)
    }

    /// Creates an empty queue.
    pub fn new() -> (queue: TaskQueue)
        ensures
            queue@ == Seq::<LoadTaskView>::empty(),
            queue.wf(),
    {
        let queue = TaskQueue { items: Vec::new() };
        assert(queue@ =~= Seq::<LoadTaskView>::empty());
        queue
    }

    /// Returns the number of queued tasks.
    pub fn len(&self) -> (n: usize)
        ensures
            n == self@.len(),
    {
        self.items.len()
    }

    /// Returns whether no task is queued.
    pub fn is_empty(&self) -> (empty: bool)
        ensures
            empty == (self@.len() == 0),
    {
        self.items.len() == 0
    }

    /// Adds a task: it goes in front of the tasks that it is served before and behind all
    /// others, so that tasks of one priority leave in the order of their identifiers.
    pub fn push(&mut self, task: LoadTask)
        requires
            old(self).wf(),
        ensures
            final(self).wf(),
            final(self)@ == old(self)@.insert(arrival_slot(old(self)@, task@), task@),
    {
        let mut at: usize = 0;
        while at < self.items.len() && !task.served_before(&self.items[at])
            invariant
                at <= self.items.len(),
                self.items == old(self).items,
                forall|i: int| 0 <= i < at ==> !task@.served_before(#[trigger] self@[i]),
            decreases self.items.len() - at,
        {
            at += 1;
        }
        proof {
            lemma_arrival_slot_is(self@, task@, at as int);
            lemma_arrival_keeps_order(self@, task@);
        }
        let ghost before = self@;
        let ghost added = task@;
        self.items.insert(at, task);
        assert(self@ =~= before.insert(at as int, added));
    }

    /// Returns the task that is served next, leaving it in the queue.
    pub fn peek(&self) -> (next: Option<&LoadTask>)
        ensures
            self@.len() == 0 ==> next is None,
            self@.len() > 0 ==> next is Some && next->0@ == self@[0],
    {
        if self.items.len() == 0 {
            None
        } else {
            Some(&self.items[0])
        }
    }

    /// Removes and returns the task that is served next: no task left in the queue is served
    /// before it.
    pub fn pop(&mut self) -> (next: Option<LoadTask>)
        requires
            old(self).wf(),
        ensures
            final(self).wf(),
            old(self)@.len() == 0 ==> next is None && final(self)@ == old(self)@,
            old(self)@.len() > 0 ==> next is Some && next->0@ == old(self)@[0] && final(self)@
                == old(self)@.skip(1),
            forall|i: int|
                0 <= i < final(self)@.len() ==> next is Some && !(
                #[trigger] final(self)@[i]).served_before(next->0@),
    {
        if self.items.len() == 0 {
            None
        } else {
            let ghost before = self@;
            let task = self.items.remove(0);
            assert(self@ =~= before.skip(1));
            assert forall|i: int| 0 <= i < self@.len() implies !(#[trigger] self@[i]).served_before(
                task@,
            ) by {
                assert(self@[i] == before[i + 1]);
                assert(task@ == before[0]);
                assert(!before[i + 1].served_before(before[0]));
            }
            Some(task)
        }
    }
}

} // verus!
