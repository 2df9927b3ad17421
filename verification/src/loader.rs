//! The loader: a priority queue of load requests behind a cap on how many run at once, and
//! the tables that lead from a finished resource back to the request that asked for it.

use crate::priority::LoadPriority;
use crate::queue::arrival_slot;
use crate::queue::in_service_order;
use crate::queue::lemma_arrival_slot;
use crate::queue::TaskQueue;
use crate::tables::id_table;
use crate::tables::id_table_get;
use crate::tables::id_table_insert;
use crate::tables::id_table_new;
use crate::tables::id_table_remove;
use crate::tables::path_table;
use crate::tables::path_table_get;
use crate::tables::path_table_insert;
use crate::tables::path_table_new;
use crate::tables::path_table_remove;
use crate::task::LoadTask;
use crate::task::LoadTaskView;
use bevy::platform::collections::HashMap;
use vstd::prelude::*;

verus! {

/// A load that has been handed to the asset system and has not finished yet.
#[derive(Debug)]
pub struct ActiveLoadTask {
    /// The request that is being served.
    pub task_id: u64,
    /// Where the asset lives.
    pub path: String,
    /// The resource that the asset system loads into.
    pub handle: u64,
    /// The priority under which the request was admitted.
    pub priority: LoadPriority,
}

/// What an active load is, with its path as a sequence of characters.
pub struct ActiveLoadTaskView {
    pub task_id: u64,
    pub path: Seq<char>,
    pub handle: u64,
    pub priority: LoadPriority,
}

impl View for ActiveLoadTask {
    type V = ActiveLoadTaskView;

    open spec fn view(&self) -> ActiveLoadTaskView {
        ActiveLoadTaskView {
            task_id: self.task_id,
            path: self.path@,
            handle: self.handle,
            priority: self.priority,
        }
    }
}

impl Clone for ActiveLoadTask {
    fn clone(&self) -> (copy: ActiveLoadTask)
        ensures
            copy@ == self@,
    {
        ActiveLoadTask {
            task_id: self.task_id,
            path: self.path.clone(),
            handle: self.handle,
            priority: self.priority,
        }
    }
}

/// What can be done to a loader.
pub enum LoaderOp {
    /// A request is submitted.
    Submit { path: Seq<char>, priority: LoadPriority },
    /// The next task is taken from the queue.
    Pop,
    /// A load is counted as running.
    Start,
    /// A load is counted as ended.
    Finish,
    /// An admission pass is made.
    Admit,
    /// The entity and the resource of a task are recorded.
    Register { task_id: u64, entity: u64, handle: u64 },
    /// The mappings of a task are dropped.
    Cleanup { task_id: u64, handle: u64 },
}

/// The loader's state as plain values.
pub struct LoaderState {
    /// The pending tasks, the next one to be served first.
    pub queue: Seq<LoadTaskView>,
    /// The identifier that the next submission gets.
    pub next_task_id: u64,
    /// How many loads may run at once.
    pub max_concurrent: usize,
    /// How many loads run now.
    pub active_tasks: usize,
    /// The path of every live task, by task identifier.
    pub task_paths: Map<u64, Seq<char>>,
    /// The tracking entity that was registered last for each resource that is being loaded.
    /// Several running loads may share a resource; the records of the running loads name
    /// every one of them.
    pub handle_to_entity: Map<u64, u64>,
    /// The resource of every running load, by task identifier.
    pub task_to_handle: Map<u64, u64>,
}

/// The views of a list of tasks.
pub open spec fn task_views(tasks: Seq<LoadTask>) -> Seq<LoadTaskView> {
    tasks.map_values(|t: LoadTask| t@)
}

/// The smaller of two numbers.
pub open spec fn smaller(a: int, b: int) -> int {
    if a <= b {
        a
    } else {
        b
    }
}

/// Asynchronous asset loader with a priority queue and a cap on concurrent loads.
pub struct AssetLoader {
    queue: TaskQueue,
    next_task_id: u64,
    max_concurrent: usize,
    active_tasks: usize,
    task_paths: HashMap<u64, String>,
    handle_to_entity: HashMap<u64, u64>,
    task_to_handle: HashMap<u64, u64>,
}

impl View for AssetLoader {
    type V = LoaderState;

    closed spec fn view(&self) -> LoaderState {
        LoaderState {
            queue: self.queue@,
            next_task_id: self.next_task_id,
            max_concurrent: self.max_concurrent,
            active_tasks: self.active_tasks,
            task_paths: path_table(self.task_paths),
            handle_to_entity: id_table(self.handle_to_entity),
            task_to_handle: id_table(self.task_to_handle),
        }
    }
}

impl LoaderState {
    /// The loader's invariant: no more loads run than the cap allows, the queue is in the
    /// order of service, and every queued task carries an identifier that was handed out.
    pub open spec fn wf(self) -> bool {
        &&& self.active_tasks <= self.max_concurrent
        &&& in_service_order(self.queue)
        &&& forall|i: int|
            0 <= i < self.queue.len() ==> (#[trigger] self.queue[i]).task_id < self.next_task_id
    }

    /// How many queued tasks one admission pass takes: as many as there is room for.
    pub open spec fn admissible(self) -> int {
        smaller(self.max_concurrent - self.active_tasks, self.queue.len() as int)
    }

    /// The state after a request for `path` has been submitted at `priority`: the task gets
    /// the next identifier, goes to its slot in the queue, and its path is recorded.
    pub open spec fn submitted(self, path: Seq<char>, priority: LoadPriority) -> LoaderState {
        let task = LoadTaskView { path, priority, task_id: self.next_task_id };
        LoaderState {
            queue: self.queue.insert(arrival_slot(self.queue, task), task),
            next_task_id: (self.next_task_id + 1) as u64,
            task_paths: self.task_paths.insert(self.next_task_id, path),
            ..self
        }
    }

    /// The state after one admission pass: the tasks at the front of the queue that there is
    /// room for have left it and count as running.
    pub open spec fn admitted(self) -> LoaderState {
        LoaderState {
            queue: self.queue.skip(self.admissible()),
            active_tasks: (self.active_tasks + self.admissible()) as usize,
            ..self
        }
    }

    /// The state after the mappings of a finished task have been dropped.
    pub open spec fn cleaned(self, task_id: u64, handle_id: u64) -> LoaderState {
        LoaderState {
            task_paths: self.task_paths.remove(task_id),
            handle_to_entity: self.handle_to_entity.remove(handle_id),
            task_to_handle: self.task_to_handle.remove(task_id),
            ..self
        }
    }

    /// The state after one more load counts as running: the count goes up, but not above the
    /// cap.
    pub open spec fn started(self) -> LoaderState {
        LoaderState {
            active_tasks: if self.active_tasks < self.max_concurrent {
                (self.active_tasks + 1) as usize
            } else {
                self.active_tasks
            },
            ..self
        }
    }

    /// The state after the task at the front of the queue, if there is one, has left it.
    pub open spec fn popped(self) -> LoaderState {
        if self.queue.len() == 0 {
            self
        } else {
            LoaderState { queue: self.queue.skip(1), ..self }
        }
    }

    /// The state after the entity and the resource of a task have been recorded.
    pub open spec fn registered(self, task_id: u64, entity: u64, handle: u64) -> LoaderState {
        LoaderState {
            handle_to_entity: self.handle_to_entity.insert(handle, entity),
            task_to_handle: self.task_to_handle.insert(task_id, handle),
            ..self
        }
    }

    /// The state after one operation.
    pub open spec fn after(self, op: LoaderOp) -> LoaderState {
        match op {
            LoaderOp::Submit { path, priority } => self.submitted(path, priority),
            LoaderOp::Pop => self.popped(),
            LoaderOp::Start => self.started(),
            LoaderOp::Finish => self.finished(),
            LoaderOp::Admit => self.admitted(),
            LoaderOp::Register { task_id, entity, handle } => self.registered(
                task_id,
                entity,
                handle,
            ),
            LoaderOp::Cleanup { task_id, handle } => self.cleaned(task_id, handle),
        }
    }

    /// The state after a sequence of operations, one after the other.
    pub open spec fn after_all(self, ops: Seq<LoaderOp>) -> LoaderState
        decreases ops.len(),
    {
        if ops.len() == 0 {
            self
        } else {
            self.after_all(ops.drop_last()).after(ops.last())
        }
    }

    /// The state after one running load has ended: the count goes down, but not below zero.
    pub open spec fn finished(self) -> LoaderState {
        LoaderState {
            active_tasks: if self.active_tasks > 0 {
                (self.active_tasks - 1) as usize
            } else {
                0
            },
            ..self
        }
    }
}

impl Default for AssetLoader {
    /// A loader that runs at most four loads at once.
    fn default() -> (loader: AssetLoader)
        ensures
            loader.wf(),
            loader@ == (LoaderState {
                queue: Seq::empty(),
                next_task_id: 0,
                max_concurrent: 4,
                active_tasks: 0,
                task_paths: Map::empty(),
                handle_to_entity: Map::empty(),
                task_to_handle: Map::empty(),
            }),
    {
        AssetLoader::new(4)
    }
}

impl AssetLoader {
    /// Whether the loader's invariant holds.
    pub open spec fn wf(&self) -> bool {
        self@.wf()
    }

    /// Creates a loader that runs at most `max_concurrent` loads at once.
    pub fn new(max_concurrent: usize) -> (loader: AssetLoader)
        ensures
            loader.wf(),
            loader@ == (LoaderState {
                queue: Seq::empty(),
                next_task_id: 0,
                max_concurrent,
                active_tasks: 0,
                task_paths: Map::empty(),
                handle_to_entity: Map::empty(),
                task_to_handle: Map::empty(),
            }),
    {
        AssetLoader {
            queue: TaskQueue::new(),
            next_task_id: 0,
            max_concurrent,
            active_tasks: 0,
            task_paths: path_table_new(),
            handle_to_entity: id_table_new(),
            task_to_handle: id_table_new(),
        }
    }

    /// Submits a load request: it is queued behind the requests of its priority and in front
    /// of those of lower priority, its path is recorded under a fresh identifier, and that
    /// identifier is returned.
    pub fn submit(&mut self, path: &str, priority: LoadPriority) -> (task_id: u64)
        requires
            old(self).wf(),
            old(self)@.next_task_id < u64::MAX,
        ensures
            final(self).wf(),
            task_id == old(self)@.next_task_id,
            final(self)@ == old(self)@.submitted(path@, priority),
    {
        let task_id = self.next_task_id;
        self.next_task_id += 1;
        let task = LoadTask::new(path, priority, task_id);
        proof {
            lemma_arrival_slot(self.queue@, task@);
        }
        self.queue.push(task);
        path_table_insert(&mut self.task_paths, task_id, path.to_owned());
        task_id
    }

    /// Gets the path recorded for a task, if the task is still live.
    pub fn get_task_path(&self, task_id: u64) -> (path: Option<&String>)
        ensures
            path is Some <==> self@.task_paths.contains_key(task_id),
            path is Some ==> path->0@ == self@.task_paths[task_id],
    {
        path_table_get(&self.task_paths, task_id)
    }

    /// Forgets the path recorded for a task.
    pub fn remove_task_path(&mut self, task_id: u64)
        ensures
            final(self)@ == (LoaderState {
                task_paths: old(self)@.task_paths.remove(task_id),
                ..old(self)@
            }),
    {
        path_table_remove(&mut self.task_paths, task_id);
    }

    /// Returns the number of queued tasks.
    pub fn queue_len(&self) -> (n: usize)
        ensures
            n == self@.queue.len(),
    {
        self.queue.len()
    }

    /// Returns the task that is served next, leaving it in the queue.
    pub fn peek_next(&self) -> (next: Option<&LoadTask>)
        ensures
            self@.queue.len() == 0 ==> next is None,
            self@.queue.len() > 0 ==> next is Some && next->0@ == self@.queue[0],
    {
        self.queue.peek()
    }

    /// Removes and returns the task that is served next: the one of the highest priority,
    /// and among those the one submitted first.
    pub fn pop_next(&mut self) -> (next: Option<LoadTask>)
        requires
            old(self).wf(),
        ensures
            final(self).wf(),
            final(self)@ == old(self)@.popped(),
            old(self)@.queue.len() == 0 ==> next is None,
            old(self)@.queue.len() > 0 ==> next is Some && next->0@ == old(self)@.queue[0],
            forall|i: int|
                0 <= i < final(self)@.queue.len() ==> next is Some && !(
                #[trigger] final(self)@.queue[i]).served_before(next->0@),
    {
        let ghost before = self.queue@;
        let next = self.queue.pop();
        proof {
            assert forall|i: int| 0 <= i < self.queue@.len() implies (
            #[trigger] self.queue@[i]).task_id < self.next_task_id by {
                assert(self.queue@[i] == before[i + 1]);
            }
        }
        next
    }

    /// Checks whether another load may start: fewer run than the cap allows.
    pub fn can_start_task(&self) -> (free: bool)
        ensures
            free == (self@.active_tasks < self@.max_concurrent),
    {
        self.active_tasks < self.max_concurrent
    }

    /// Counts one more running load. At the cap the count stays as it is, so that it never
    /// exceeds the cap.
    pub fn start_task(&mut self)
        requires
            old(self).wf(),
        ensures
            final(self).wf(),
            final(self)@ == old(self)@.started(),
    {
        if self.active_tasks < self.max_concurrent {
            self.active_tasks += 1;
        }
    }

    /// Counts one running load less. At zero the count stays zero, however often a load is
    /// reported as finished.
    pub fn finish_task(&mut self)
        requires
            old(self).wf(),
        ensures
            final(self).wf(),
            final(self)@ == old(self)@.finished(),
    {
        if self.active_tasks > 0 {
            self.active_tasks -= 1;
        }
    }

    /// Returns the number of running loads.
    pub fn active_tasks(&self) -> (n: usize)
        ensures
            n == self@.active_tasks,
    {
        self.active_tasks
    }

    /// Returns the identifier that the next submission gets.
    pub fn next_task_id(&self) -> (id: u64)
        ensures
            id == self@.next_task_id,
    {
        self.next_task_id
    }

    /// Returns the cap on running loads.
    pub fn max_concurrent(&self) -> (n: usize)
        ensures
            n == self@.max_concurrent,
    {
        self.max_concurrent
    }

    /// Makes the record of a load that the asset system has started for `task` under the
    /// resource `handle`.
    pub fn spawn_load_task(&self, task: LoadTask, handle: u64) -> (active: ActiveLoadTask)
        ensures
            active@ == (ActiveLoadTaskView {
                task_id: task.task_id,
                path: task.path@,
                handle,
                priority: task.priority,
            }),
    {
        ActiveLoadTask { task_id: task.task_id, path: task.path, handle, priority: task.priority }
    }

    /// Records which entity tracks the resource of a task, and which resource the task loads.
    /// Where an entity was on file for the resource already, as it is when two tasks load
    /// one path, the new entity takes its place.
    pub fn register_task(&mut self, task_id: u64, entity: u64, handle: u64)
        ensures
            final(self)@ == old(self)@.registered(task_id, entity, handle),
    {
        id_table_insert(&mut self.handle_to_entity, handle, entity);
        id_table_insert(&mut self.task_to_handle, task_id, handle);
    }

    /// Gets the entity that was registered last for a resource.
    pub fn get_entity_by_handle(&self, handle_id: u64) -> (entity: Option<u64>)
        ensures
            entity == (if self@.handle_to_entity.contains_key(handle_id) {
                Some(self@.handle_to_entity[handle_id])
            } else {
                None
            }),
    {
        id_table_get(&self.handle_to_entity, handle_id)
    }

    /// Gets the resource that a task loads.
    pub fn get_handle_id_by_task(&self, task_id: u64) -> (handle: Option<u64>)
        ensures
            handle == (if self@.task_to_handle.contains_key(task_id) {
                Some(self@.task_to_handle[task_id])
            } else {
                None
            }),
    {
        id_table_get(&self.task_to_handle, task_id)
    }

    /// Drops every mapping of a finished task: its path, its resource, and the entity that
    /// tracked the resource.
    pub fn cleanup_task(&mut self, task_id: u64, handle_id: u64)
        ensures
            final(self)@ == old(self)@.cleaned(task_id, handle_id),
    {
        path_table_remove(&mut self.task_paths, task_id);
        id_table_remove(&mut self.handle_to_entity, handle_id);
        id_table_remove(&mut self.task_to_handle, task_id);
    }
}

/// One admission pass: takes tasks from the front of the queue while there is room under the
/// cap, counts each as running, and returns them in the order in which they were taken. The
/// caller starts a load for each.
pub fn process_load_queue(loader: &mut AssetLoader) -> (admitted: Vec<LoadTask>)
    requires
        old(loader).wf(),
    ensures
        final(loader).wf(),
        task_views(admitted@) == old(loader)@.queue.take(old(loader)@.admissible()),
        final(loader)@ == old(loader)@.admitted(),
{
    let mut admitted: Vec<LoadTask> = Vec::new();
    let ghost start = loader@;
    assert(task_views(admitted@) =~= start.queue.take(0));
    assert(start.queue.skip(0) =~= start.queue);
    while loader.can_start_task()
        invariant
            loader.wf(),
            start == old(loader)@,
            0 <= admitted@.len() <= start.admissible(),
            task_views(admitted@) == start.queue.take(admitted@.len() as int),
            loader@ == (LoaderState {
                queue: start.queue.skip(admitted@.len() as int),
                active_tasks: (start.active_tasks + admitted@.len()) as usize,
                ..start
            }),
        ensures
            admitted@.len() == start.admissible(),
        decreases loader@.queue.len(),
    {
        let ghost taken = admitted@.len() as int;
        if let Some(task) = loader.pop_next() {
            loader.start_task();
            assert(task@ == start.queue[taken]);
            admitted.push(task);
            assert(task_views(admitted@) =~= start.queue.take(taken + 1));
            assert(start.queue.skip(taken).skip(1) =~= start.queue.skip(taken + 1));
        } else {
            break ;
        }
    }
    admitted
}

/// The concurrency bound: whatever is submitted, admitted or finished, the count of running
/// loads stays between zero and the cap, and the loader's invariant holds on.
pub proof fn lemma_running_loads_within_cap(
    loader: LoaderState,
    path: Seq<char>,
    priority: LoadPriority,
)
    requires
        loader.wf(),
        loader.next_task_id < u64::MAX,
    ensures
        loader.submitted(path, priority).wf(),
        loader.submitted(path, priority).active_tasks == loader.active_tasks,
        loader.admitted().wf(),
        loader.finished().wf(),
        0 <= loader.finished().active_tasks <= loader.active_tasks <= loader.admitted().active_tasks
            <= loader.max_concurrent,
{
    let task = LoadTaskView { path, priority, task_id: loader.next_task_id };
    lemma_arrival_slot(loader.queue, task);
    crate::queue::lemma_arrival_keeps_order(loader.queue, task);
    let after = loader.submitted(path, priority);
    let slot = arrival_slot(loader.queue, task);
    assert forall|i: int| 0 <= i < after.queue.len() implies (#[trigger] after.queue[i]).task_id
        < after.next_task_id by {
        if i < slot {
            assert(after.queue[i] == loader.queue[i]);
        } else if i > slot {
            assert(after.queue[i] == loader.queue[i - 1]);
        }
    }
    let k = loader.admissible();
    let rest = loader.admitted().queue;
    assert forall|i: int, j: int| 0 <= i < j < rest.len() implies {
        !(#[trigger] rest[j]).served_before(#[trigger] rest[i])
    } by {
        assert(rest[i] == loader.queue[i + k]);
        assert(rest[j] == loader.queue[j + k]);
    }
    assert forall|i: int| 0 <= i < rest.len() implies (#[trigger] rest[i]).task_id
        < loader.next_task_id by {
        assert(rest[i] == loader.queue[i + k]);
    }
}

/// A submission only queues: it leaves the count of running loads, the cap and the tables
/// of running loads as they were, whatever the state of the loader.
pub proof fn lemma_submission_only_queues(
    loader: LoaderState,
    path: Seq<char>,
    priority: LoadPriority,
)
    ensures
        loader.submitted(path, priority).active_tasks == loader.active_tasks,
        loader.submitted(path, priority).max_concurrent == loader.max_concurrent,
        loader.submitted(path, priority).handle_to_entity == loader.handle_to_entity,
        loader.submitted(path, priority).task_to_handle == loader.task_to_handle,
        loader.submitted(path, priority).queue.len() == loader.queue.len() + 1,
{
    let task = LoadTaskView { path, priority, task_id: loader.next_task_id };
    lemma_arrival_slot(loader.queue, task);
}

/// The count alone: whatever sequence of operations a loader goes through, and however far
/// its counter of identifiers has come, a count of running loads that is within the cap
/// stays within the cap and never falls below zero.
pub proof fn lemma_count_within_cap(loader: LoaderState, ops: Seq<LoaderOp>)
    requires
        loader.active_tasks <= loader.max_concurrent,
    ensures
        0 <= loader.after_all(ops).active_tasks <= loader.after_all(ops).max_concurrent,
        loader.after_all(ops).max_concurrent == loader.max_concurrent,
    decreases ops.len(),
{
    if ops.len() > 0 {
        lemma_count_within_cap(loader, ops.drop_last());
    }
}

/// The concurrency bound over time: whatever sequence of submissions, admissions, starts,
/// ends and cleanups a loader goes through, its count of running loads never exceeds the cap
/// and never falls below zero, and its invariant holds throughout. (The bound on the
/// identifiers only says that the counter of submissions does not run out.)
pub proof fn lemma_bounded_under_any_sequence(loader: LoaderState, ops: Seq<LoaderOp>)
    requires
        loader.wf(),
        loader.next_task_id + ops.len() <= u64::MAX,
    ensures
        loader.after_all(ops).wf(),
        0 <= loader.after_all(ops).active_tasks <= loader.after_all(ops).max_concurrent,
        loader.after_all(ops).max_concurrent == loader.max_concurrent,
        loader.after_all(ops).next_task_id <= loader.next_task_id + ops.len(),
    decreases ops.len(),
{
    if ops.len() > 0 {
        let before = loader.after_all(ops.drop_last());
        lemma_bounded_under_any_sequence(loader, ops.drop_last());
        match ops.last() {
            LoaderOp::Submit { path, priority } => {
                lemma_running_loads_within_cap(before, path, priority);
            },
            LoaderOp::Pop => {
                let rest = before.popped().queue;
                assert forall|i: int, j: int| 0 <= i < j < rest.len() implies !(
                #[trigger] rest[j]).served_before(#[trigger] rest[i]) by {
                    assert(rest[i] == before.queue[i + 1]);
                    assert(rest[j] == before.queue[j + 1]);
                }
                assert forall|i: int| 0 <= i < rest.len() implies (#[trigger] rest[i]).task_id
                    < before.next_task_id by {
                    assert(rest[i] == before.queue[i + 1]);
                }
            },
            LoaderOp::Admit => {
                lemma_running_loads_within_cap(before, Seq::empty(), LoadPriority::Preload);
            },
            _ => {},
        }
    }
}

/// An admission pass takes all it can: after it either the queue is empty or the cap is
/// reached, and the tasks that it took are the first of the queue.
pub proof fn lemma_admission_fills(loader: LoaderState)
    requires
        loader.wf(),
    ensures
        loader.admitted().queue.len() == 0 || loader.admitted().active_tasks
            == loader.max_concurrent,
        0 <= loader.admissible() <= loader.queue.len(),
        loader.admitted().queue.len() == loader.queue.len() - loader.admissible(),
        loader.admitted().admissible() == 0,
{
}

/// The tie-break: a submitted task stands behind every queued task of its own or a higher
/// priority, and in front of every queued task of a lower priority. Among tasks of one
/// priority the queue is therefore first in, first out.
pub proof fn lemma_submission_order(loader: LoaderState, path: Seq<char>, priority: LoadPriority)
    requires
        loader.wf(),
    ensures
        ({
            let task = LoadTaskView { path, priority, task_id: loader.next_task_id };
            let slot = arrival_slot(loader.queue, task);
            let after = loader.submitted(path, priority).queue;
            &&& 0 <= slot <= loader.queue.len()
            &&& after[slot] == task
            &&& forall|i: int|
                0 <= i < slot ==> (#[trigger] after[i]).priority.rank() >= priority.rank()
            &&& forall|i: int|
                slot < i < after.len() ==> (#[trigger] after[i]).priority.rank() < priority.rank()
        }),
{
    let task = LoadTaskView { path, priority, task_id: loader.next_task_id };
    let slot = arrival_slot(loader.queue, task);
    let after = loader.submitted(path, priority).queue;
    lemma_arrival_slot(loader.queue, task);
    assert forall|i: int| 0 <= i < slot implies (#[trigger] after[i]).priority.rank()
        >= priority.rank() by {
        assert(after[i] == loader.queue[i]);
        assert(!task.served_before(loader.queue[i]));
    }
    assert forall|i: int| slot < i < after.len() implies (#[trigger] after[i]).priority.rank()
        < priority.rank() by {
        assert(after[i] == loader.queue[i - 1]);
        assert(task.served_before(loader.queue[slot]));
        if i - 1 > slot {
            assert(!loader.queue[i - 1].served_before(loader.queue[slot]));
        }
        assert(loader.queue[i - 1].task_id < loader.next_task_id);
        assert(loader.queue[slot].task_id < loader.next_task_id);
        crate::priority::lemma_rank_injective(loader.queue[i - 1].priority, priority);
        crate::priority::lemma_rank_injective(loader.queue[slot].priority, priority);
        crate::priority::lemma_rank_injective(
            loader.queue[i - 1].priority,
            loader.queue[slot].priority,
        );
    }
}

} // verus!
