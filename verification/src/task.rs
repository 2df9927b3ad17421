//! A single request to load an asset, and the order in which requests are served.

use crate::priority::int_order;
use crate::priority::LoadPriority;
use core::cmp::Ordering;
use vstd::prelude::*;
use vstd::std_specs::cmp::PartialEqSpecImpl;
use vstd::std_specs::cmp::PartialOrdSpecImpl;

verus! {

/// A request to load the asset at `path`.
#[derive(Debug)]
pub struct LoadTask {
    /// Where the asset lives.
    pub path: String,
    /// How urgently it is wanted.
    pub priority: LoadPriority,
    /// The identifier handed out when the request was submitted.
    pub task_id: u64,
}

/// What a load task is, with its path as a sequence of characters.
pub struct LoadTaskView {
    pub path: Seq<char>,
    pub priority: LoadPriority,
    pub task_id: u64,
}

impl View for LoadTask {
    type V = LoadTaskView;

    open spec fn view(&self) -> LoadTaskView {
        LoadTaskView { path: self.path@, priority: self.priority, task_id: self.task_id }
    }
}

impl LoadTaskView {
    /// Whether `self` is served strictly before `other`: it has the higher priority, or
    /// the same priority and the smaller identifier.
    pub open spec fn served_before(self, other: LoadTaskView) -> bool {
        self.priority.rank() > other.priority.rank() || (self.priority == other.priority
            && self.task_id < other.task_id)
    }

    /// How `self` compares to `other` in a max-first queue: `Greater` means it is served
    /// first.
    pub open spec fn service_order(self, other: LoadTaskView) -> Ordering {
        if self.priority == other.priority {
            if other.task_id < self.task_id {
                Ordering::Less
            } else if other.task_id == self.task_id {
                Ordering::Equal
            } else {
                Ordering::Greater
            }
        } else {
            int_order(self.priority.rank(), other.priority.rank())
        }
    }
}

impl LoadTask {
    /// Creates a load task.
    pub fn new(path: &str, priority: LoadPriority, task_id: u64) -> (task: LoadTask)
        ensures
            task@ == (LoadTaskView { path: path@, priority, task_id }),
    {
        LoadTask { path: path.to_owned(), priority, task_id }
    }

    /// Compares two tasks by the order of service: `Greater` means `self` is served first.
    pub fn cmp(&self, other: &LoadTask) -> (order: Ordering)
        ensures
            order == self@.service_order(other@),
            order == Ordering::Greater <==> self@.served_before(other@),
    {
        let a = self.priority.value();
        let b = other.priority.value();
        if a < b {
            Ordering::Less
        } else if a > b {
            Ordering::Greater
        } else if other.task_id < self.task_id {
            Ordering::Less
        } else if other.task_id == self.task_id {
            Ordering::Equal
        } else {
            Ordering::Greater
        }
    }

    /// Whether `self` is served strictly before `other`.
    pub fn served_before(&self, other: &LoadTask) -> (first: bool)
        ensures
            first == self@.served_before(other@),
    {
        let a = self.priority.value();
        let b = other.priority.value();
        a > b || (a == b && self.task_id < other.task_id)
    }
}

impl Clone for LoadTask {
    fn clone(&self) -> (copy: LoadTask)
        ensures
            copy@ == self@,
    {
        LoadTask { path: self.path.clone(), priority: self.priority, task_id: self.task_id }
    }
}

impl PartialEqSpecImpl for LoadTask {
    open spec fn obeys_eq_spec() -> bool {
        true
    }

    open spec fn eq_spec(&self, other: &LoadTask) -> bool {
        self.task_id == other.task_id
    }
}

impl PartialEq for LoadTask {
    /// Two tasks are the same request when they carry the same identifier.
    fn eq(&self, other: &LoadTask) -> (same: bool) {
        self.task_id == other.task_id
    }
}

impl PartialOrdSpecImpl for LoadTask {
    open spec fn obeys_partial_cmp_spec() -> bool {
        true
    }

    open spec fn partial_cmp_spec(&self, other: &LoadTask) -> Option<Ordering> {
        Some(self@.service_order(other@))
    }
}

impl PartialOrd for LoadTask {
    fn partial_cmp(&self, other: &LoadTask) -> (order: Option<Ordering>) {
        Some(self.cmp(other))
    }
}

/// The order of service is a strict total order on tasks with distinct identifiers:
/// irreflexive, transitive, and any two such tasks are comparable.
pub proof fn lemma_service_order_total(a: LoadTaskView, b: LoadTaskView, c: LoadTaskView)
    ensures
        !a.served_before(a),
        a.served_before(b) && b.served_before(c) ==> a.served_before(c),
        a.task_id != b.task_id ==> (a.served_before(b) <==> !b.served_before(a)),
        a.served_before(b) ==> !b.served_before(a),
{
}

} // verus!
