//! The records of the loads that are under way, in the order in which they were admitted.
//!
//! Each record stands under the entity that tracks the load and names the task and the
//! resource. Several loads may share a resource, so a record is found by its entity, by its
//! task, or together with all others of its resource.

use crate::loader::ActiveLoadTask;
use crate::loader::ActiveLoadTaskView;
use vstd::prelude::*;

verus! {

/// The record of one running load.
#[derive(Debug)]
pub struct LoadRecord {
    /// The entity that tracks the load.
    pub entity: u64,
    /// The load.
    pub task: ActiveLoadTask,
}

/// A record as plain values.
pub struct LoadRecordView {
    pub entity: u64,
    pub task: ActiveLoadTaskView,
}

impl View for LoadRecord {
    type V = LoadRecordView;

    open spec fn view(&self) -> LoadRecordView {
        LoadRecordView { entity: self.entity, task: self.task@ }
    }
}

impl Clone for LoadRecord {
    fn clone(&self) -> (copy: LoadRecord)
        ensures
            copy@ == self@,
    {
        LoadRecord { entity: self.entity, task: self.task.clone() }
    }
}

/// By what records are looked for.
#[derive(Debug, Clone, Copy, PartialEq, Eq, Structural)]
pub enum RecordKey {
    /// By the entity that tracks the load.
    Entity(u64),
    /// By the resource that is loaded.
    Resource(u64),
    /// By the task that is served.
    Task(u64),
}

impl RecordKey {
    /// Whether a record is one of those looked for.
    pub open spec fn fits(self, record: LoadRecordView) -> bool {
        match self {
            RecordKey::Entity(entity) => record.entity == entity,
            RecordKey::Resource(resource) => record.task.handle == resource,
            RecordKey::Task(task_id) => record.task.task_id == task_id,
        }
    }

    /// Checks whether a record is one of those looked for.
    pub fn matches(&self, record: &LoadRecord) -> (fit: bool)
        ensures
            fit == self.fits(record@),
    {
        match self {
            RecordKey::Entity(entity) => record.entity == *entity,
            RecordKey::Resource(resource) => record.task.handle == *resource,
            RecordKey::Task(task_id) => record.task.task_id == *task_id,
        }
    }
}

/// The views of a list of records.
pub open spec fn record_views(records: Seq<LoadRecord>) -> Seq<LoadRecordView> {
    records.map_values(|r: LoadRecord| r@)
}

/// The records that fit the key (`wanted`) or those that do not (`!wanted`), in their order.
pub open spec fn chosen(records: Seq<LoadRecordView>, key: RecordKey, wanted: bool) -> Seq<
    LoadRecordView,
>
    decreases records.len(),
{
    if records.len() == 0 {
        Seq::empty()
    } else if key.fits(records.last()) == wanted {
        chosen(records.drop_last(), key, wanted).push(records.last())
    } else {
        chosen(records.drop_last(), key, wanted)
    }
}

/// The first record that fits the key.
pub open spec fn first_chosen(records: Seq<LoadRecordView>, key: RecordKey) -> Option<
    LoadRecordView,
>
    decreases records.len(),
{
    if records.len() == 0 {
        None
    } else if key.fits(records[0]) {
        Some(records[0])
    } else {
        first_chosen(records.skip(1), key)
    }
}

/// What is chosen was there and fits the key as wanted, and nothing is chosen twice as
/// often as it was there.
pub proof fn lemma_chosen(records: Seq<LoadRecordView>, key: RecordKey, wanted: bool)
    ensures
        chosen(records, key, wanted).len() <= records.len(),
        chosen(records, key, wanted).len() + chosen(records, key, !wanted).len() == records.len(),
        forall|i: int|
            0 <= i < chosen(records, key, wanted).len() ==> key.fits(
                #[trigger] chosen(records, key, wanted)[i],
            ) == wanted && records.contains(chosen(records, key, wanted)[i]),
    decreases records.len(),
{
    if records.len() > 0 {
        let front = records.drop_last();
        lemma_chosen(front, key, wanted);
        let out = chosen(records, key, wanted);
        let sub = chosen(front, key, wanted);
        assert forall|i: int| 0 <= i < out.len() implies key.fits(#[trigger] out[i]) == wanted
            && records.contains(out[i]) by {
            if i < sub.len() {
                assert(out[i] == sub[i]);
                let j = choose|j: int| 0 <= j < front.len() && front[j] == sub[i];
                assert(records[j] == out[i]);
            } else {
                assert(records[records.len() - 1] == out[i]);
            }
        }
    }
}

/// Of records that all fit the key as wanted, all are chosen, and none is chosen for the
/// opposite.
pub proof fn lemma_chosen_all(records: Seq<LoadRecordView>, key: RecordKey, wanted: bool)
    requires
        forall|i: int| 0 <= i < records.len() ==> key.fits(#[trigger] records[i]) == wanted,
    ensures
        chosen(records, key, wanted) == records,
        chosen(records, key, !wanted).len() == 0,
        first_chosen(records, key) is Some <==> wanted && records.len() > 0,
    decreases records.len(),
{
    if records.len() > 0 {
        let front = records.drop_last();
        assert forall|i: int| 0 <= i < front.len() implies key.fits(#[trigger] front[i])
            == wanted by {
            assert(front[i] == records[i]);
        }
        lemma_chosen_all(front, key, wanted);
        assert(key.fits(records[records.len() - 1]) == wanted);
        assert(front.push(records.last()) =~= records);
        let rest = records.skip(1);
        assert forall|i: int| 0 <= i < rest.len() implies key.fits(#[trigger] rest[i])
            == wanted by {
            assert(rest[i] == records[i + 1]);
        }
        lemma_chosen_all(rest, key, wanted);
        assert(key.fits(records[0]) == wanted);
    } else {
        assert(records =~= Seq::<LoadRecordView>::empty());
    }
}

/// After the records that fit a key have been taken away, none is left that fits it: what a
/// report has ended, a repeat of the report does not find again.
pub proof fn lemma_taken_is_gone(records: Seq<LoadRecordView>, key: RecordKey)
    ensures
        chosen(chosen(records, key, false), key, true).len() == 0,
        first_chosen(chosen(records, key, false), key) is None,
        chosen(chosen(records, key, false), key, false) == chosen(records, key, false),
{
    lemma_chosen(records, key, false);
    lemma_chosen_all(chosen(records, key, false), key, false);
}

/// Copies the records that fit the key as wanted.
fn select(records: &Vec<LoadRecord>, key: RecordKey, wanted: bool) -> (picked: Vec<LoadRecord>)
    ensures
        record_views(picked@) == chosen(record_views(records@), key, wanted),
{
    let mut picked: Vec<LoadRecord> = Vec::new();
    let ghost all = record_views(records@);
    let mut i: usize = 0;
    assert(all.subrange(0, 0) =~= Seq::<LoadRecordView>::empty());
    assert(record_views(picked@) =~= Seq::<LoadRecordView>::empty());
    while i < records.len()
        invariant
            i <= records.len(),
            all == record_views(records@),
            record_views(picked@) == chosen(all.subrange(0, i as int), key, wanted),
        decreases records.len() - i,
    {
        let ghost longer = all.subrange(0, i + 1);
        assert(longer.drop_last() =~= all.subrange(0, i as int));
        assert(longer.last() == records@[i as int]@);
        if key.matches(&records[i]) == wanted {
            let ghost so_far = record_views(picked@);
            picked.push(records[i].clone());
            assert(record_views(picked@) =~= so_far.push(records@[i as int]@));
        }
        i += 1;
    }
    assert(all.subrange(0, i as int) =~= all);
    picked
}

/// The running loads. A record is made when a load is admitted and dropped when the load
/// completes, fails, or its asset is removed.
pub struct ActiveLoads {
    records: Vec<LoadRecord>,
}

impl View for ActiveLoads {
    type V = Seq<LoadRecordView>;

    /// The records, in the order in which they were made.
    closed spec fn view(&self) -> Seq<LoadRecordView> {
        record_views(self.records@)
    }
}

impl ActiveLoads {
    /// Creates an empty list of records.
    pub fn new() -> (loads: ActiveLoads)
        ensures
            loads@ == Seq::<LoadRecordView>::empty(),
    {
        let loads = ActiveLoads { records: Vec::new() };
        assert(loads@ =~= Seq::<LoadRecordView>::empty());
        loads
    }

    /// Returns the number of running loads on record.
    pub fn len(&self) -> (n: usize)
        ensures
            n == self@.len(),
    {
        self.records.len()
    }

    /// Puts the record of a load under its tracking entity, at the end of the list and in
    /// place of any record that stood under that entity.
    pub fn insert(&mut self, entity: u64, task: ActiveLoadTask)
        ensures
            final(self)@ == chosen(old(self)@, RecordKey::Entity(entity), false).push(
                LoadRecordView { entity, task: task@ },
            ),
    {
        let mut records = select(&self.records, RecordKey::Entity(entity), false);
        let ghost before = record_views(records@);
        let ghost added = LoadRecordView { entity, task: task@ };
        records.push(LoadRecord { entity, task });
        assert(record_views(records@) =~= before.push(added));
        self.records = records;
    }

    /// Returns a copy of the first record that fits the key.
    pub fn find(&self, key: RecordKey) -> (record: Option<LoadRecord>)
        ensures
            match record {
                Some(found) => first_chosen(self@, key) == Some(found@),
                None => first_chosen(self@, key) is None,
            },
    {
        let ghost all = self@;
        let mut i: usize = 0;
        assert(all.skip(0) =~= all);
        while i < self.records.len()
            invariant
                i <= self.records.len(),
                all == self@,
                first_chosen(all, key) == first_chosen(all.skip(i as int), key),
            decreases self.records.len() - i,
        {
            assert(all.skip(i as int)[0] == self.records@[i as int]@);
            assert(all.skip(i as int).skip(1) =~= all.skip(i + 1));
            if key.matches(&self.records[i]) {
                return Some(self.records[i].clone());
            }
            i += 1;
        }
        None
    }

    /// Gets a copy of the load that an entity tracks.
    pub fn get(&self, entity: u64) -> (task: Option<ActiveLoadTask>)
        ensures
            match task {
                Some(found) => first_chosen(self@, RecordKey::Entity(entity)) is Some
                    && first_chosen(self@, RecordKey::Entity(entity))->0.task == found@,
                None => first_chosen(self@, RecordKey::Entity(entity)) is None,
            },
    {
        match self.find(RecordKey::Entity(entity)) {
            Some(record) => Some(record.task),
            None => None,
        }
    }

    /// Returns copies of the records that fit the key, in their order.
    pub fn select(&self, key: RecordKey) -> (picked: Vec<LoadRecord>)
        ensures
            record_views(picked@) == chosen(self@, key, true),
    {
        select(&self.records, key, true)
    }

    /// Takes the records that fit the key off the list and returns them, in their order.
    pub fn take(&mut self, key: RecordKey) -> (taken: Vec<LoadRecord>)
        ensures
            record_views(taken@) == chosen(old(self)@, key, true),
            final(self)@ == chosen(old(self)@, key, false),
    {
        let taken = select(&self.records, key, true);
        let left = select(&self.records, key, false);
        self.records = left;
        taken
    }

    /// Drops the record that an entity tracks.
    pub fn remove(&mut self, entity: u64)
        ensures
            final(self)@ == chosen(old(self)@, RecordKey::Entity(entity), false),
    {
        let left = select(&self.records, RecordKey::Entity(entity), false);
        self.records = left;
    }
}

} // verus!
