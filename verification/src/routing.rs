//! Routing of the asset system's reports to the loads that wait for them.
//!
//! A report names a resource. Loads of one path share a resource, so a report reaches every
//! running load whose record names it, in the order in which the loads were admitted. Every
//! load that ends, in whatever way, goes through one cleanup: the count of running loads
//! goes down, the mappings of the task are dropped, and the record is released.

use crate::active::chosen;
use crate::active::first_chosen;
use crate::active::lemma_chosen;
use crate::active::record_views;
use crate::active::ActiveLoads;
use crate::active::LoadRecordView;
use crate::active::RecordKey;
use crate::error::AssetError;
use crate::error::AssetErrorView;
use crate::events::announced;
use crate::events::AssetHotReloaded;
use crate::events::AssetLoadCompleted;
use crate::events::AssetLoadFailed;
use crate::events::AssetSignal;
use crate::events::LoadState;
use crate::events::LoaderEvent;
use crate::events::LoaderEventView;
use crate::loader::ActiveLoadTask;
use crate::loader::ActiveLoadTaskView;
use crate::loader::AssetLoader;
use crate::loader::LoaderState;
use vstd::prelude::*;
use vstd::string::StringExecFns;

verus! {

/// What a report means for one load.
#[derive(Debug)]
pub struct Routed {
    /// What the loader announces about the load, if anything.
    pub event: Option<LoaderEvent>,
    /// The tracking entity of the load where the load has ended and the entity is to be
    /// despawned.
    pub despawn: Option<u64>,
}

/// The loader after the load of `task` has ended: the count of running loads is down by
/// one, but not below zero, and the task's path, its resource and the entity on file for the
/// resource are off the tables.
pub open spec fn after_load_ended(loader: LoaderState, task: ActiveLoadTaskView) -> LoaderState {
    loader.finished().cleaned(task.task_id, task.handle)
}

/// The loader after the loads of `ended` have ended, one after the other.
pub open spec fn after_loads_ended(loader: LoaderState, ended: Seq<LoadRecordView>)
    -> LoaderState
    decreases ended.len(),
{
    if ended.len() == 0 {
        loader
    } else {
        after_load_ended(after_loads_ended(loader, ended.drop_last()), ended.last().task)
    }
}

/// Whether nothing is left on the loader of the loads of `ended`: none of their tasks has a
/// path or a resource on record, no entity is on file for any of their resources, and the
/// count of running loads is down by their number, or at zero where it was smaller.
pub open spec fn cleaned_up(before: LoaderState, after: LoaderState, ended: Seq<LoadRecordView>)
    -> bool {
    &&& after.active_tasks == (if before.active_tasks >= ended.len() {
        before.active_tasks - ended.len()
    } else {
        0
    })
    &&& forall|i: int|
        0 <= i < ended.len() ==> {
            &&& !after.task_paths.contains_key((#[trigger] ended[i]).task.task_id)
            &&& !after.task_to_handle.contains_key(ended[i].task.task_id)
            &&& !after.handle_to_entity.contains_key(ended[i].task.handle)
        }
}

/// Whether a report is about the running loads of its resource at all: it ends them, or it
/// tells that the asset has changed.
pub open spec fn reaches_loads(signal: AssetSignal) -> bool {
    signal.ends_load() || signal is Modified
}

/// Ends one load: the cleanup that every way of ending goes through, but for the record,
/// which the caller has taken off the list.
fn end_load(loader: &mut AssetLoader, task: &ActiveLoadTask)
    requires
        old(loader).wf(),
    ensures
        final(loader).wf(),
        final(loader)@ == after_load_ended(old(loader)@, task@),
{
    loader.finish_task();
    loader.cleanup_task(task.task_id, task.handle);
}

/// Makes the announcement that a report calls for about one load.
fn announce(signal: &AssetSignal, task: &ActiveLoadTask) -> (event: Option<LoaderEvent>)
    ensures
        announced(event) == signal.announcement(task@),
{
    match signal {
        AssetSignal::LoadedWithDependencies { .. } => Some(
            LoaderEvent::Completed(
                AssetLoadCompleted {
                    task_id: task.task_id,
                    path: task.path.clone(),
                    handle: task.handle,
                    priority: task.priority,
                },
            ),
        ),
        AssetSignal::Removed { .. } => Some(
            LoaderEvent::Failed(
                AssetLoadFailed {
                    task_id: task.task_id,
                    path: task.path.clone(),
                    error: AssetError::AssetRemoved { path: task.path.clone() },
                },
            ),
        ),
        AssetSignal::LoadFailed { reason, .. } => Some(
            LoaderEvent::Failed(
                AssetLoadFailed {
                    task_id: task.task_id,
                    path: task.path.clone(),
                    error: AssetError::AssetLoadFailed {
                        path: task.path.clone(),
                        reason: reason.clone(),
                    },
                },
            ),
        ),
        AssetSignal::Modified { .. } => Some(
            LoaderEvent::HotReloaded(
                AssetHotReloaded {
                    task_id: task.task_id,
                    path: task.path.clone(),
                    handle: task.handle,
                },
            ),
        ),
        _ => None,
    }
}

/// Routes one report of the asset system to every running load of its resource.
///
/// The result has one entry for each such load, in the order in which the loads were
/// admitted. A finished load is announced as completed; a removed asset and a failed load
/// are announced as failed; each of the three ends every load of the resource: its record
/// leaves the list, every mapping of its task is dropped, the count of running loads goes
/// down, and its tracking entity is named for despawning. A modified asset is announced as
/// hot-reloaded for each load, and the loads go on. Any other report, and a report about a
/// resource that no running load waits for, changes nothing and announces nothing.
pub fn handle_asset_events(
    loader: &mut AssetLoader,
    active: &mut ActiveLoads,
    signal: &AssetSignal,
) -> (routed: Vec<Routed>)
    requires
        old(loader).wf(),
    ensures
        final(loader).wf(),
        ({
            let reached = chosen(old(active)@, RecordKey::Resource(signal.resource()), true);
            &&& routed@.len() == (if reaches_loads(*signal) {
                reached.len()
            } else {
                0
            })
            &&& forall|k: int|
                0 <= k < routed@.len() ==> announced((#[trigger] routed@[k]).event)
                    == signal.announcement(reached[k].task) && routed@[k].despawn == (
                if signal.ends_load() {
                    Some(reached[k].entity)
                } else {
                    None
                })
            &&& signal.ends_load() ==> final(loader)@ == after_loads_ended(old(loader)@, reached)
                && final(active)@ == chosen(
                old(active)@,
                RecordKey::Resource(signal.resource()),
                false,
            )
            &&& !signal.ends_load() ==> final(loader)@ == old(loader)@ && final(active)@ == old(
                active,
            )@
            &&& signal.ends_load() ==> cleaned_up(old(loader)@, final(loader)@, reached)
        }),
{
    proof {
        lemma_loads_ended(
            loader@,
            chosen(active@, RecordKey::Resource(signal.resource()), true),
        );
    }
    let key = RecordKey::Resource(signal.id());
    let ends = match signal {
        AssetSignal::LoadedWithDependencies { .. } => true,
        AssetSignal::Removed { .. } => true,
        AssetSignal::LoadFailed { .. } => true,
        AssetSignal::Modified { .. } => false,
        _ => { return Vec::new(); },
    };
    let reached = if ends {
        active.take(key)
    } else {
        active.select(key)
    };
    let ghost start = loader@;
    let ghost records = record_views(reached@);
    let mut routed: Vec<Routed> = Vec::new();
    let mut i: usize = 0;
    assert(records.subrange(0, 0) =~= Seq::<LoadRecordView>::empty());
    while i < reached.len()
        invariant
            i <= reached.len(),
            loader.wf(),
            records == record_views(reached@),
            ends == signal.ends_load(),
            reaches_loads(*signal),
            routed@.len() == i,
            loader@ == (if ends {
                after_loads_ended(start, records.subrange(0, i as int))
            } else {
                start
            }),
            forall|k: int|
                0 <= k < i ==> announced((#[trigger] routed@[k]).event) == signal.announcement(
                    records[k].task,
                ) && routed@[k].despawn == (if ends {
                    Some(records[k].entity)
                } else {
                    None
                }),
        decreases reached.len() - i,
    {
        let record = &reached[i];
        assert(records[i as int] == record@);
        assert(records.subrange(0, i + 1).drop_last() =~= records.subrange(0, i as int));
        assert(records.subrange(0, i + 1).last() == record@);
        let event = announce(signal, &record.task);
        let despawn = if ends {
            end_load(loader, &record.task);
            Some(record.entity)
        } else {
            None
        };
        routed.push(Routed { event, despawn });
        i += 1;
    }
    assert(records.subrange(0, i as int) =~= records);
    routed
}

/// The reason given when a failed load is found by asking for its state.
pub open spec fn failed_state_reason() -> Seq<char> {
    "Asset load failed"@
}

/// The record of the load that a look at the state of its resource ends: the state is
/// `Failed`, and a record stands under the entity.
pub open spec fn failed_load(active: Seq<LoadRecordView>, entity: u64, state: LoadState) -> Option<
    LoadRecordView,
> {
    if state is Failed {
        first_chosen(active, RecordKey::Entity(entity))
    } else {
        None
    }
}

/// The fallback beside the reports: routes the state in which the asset system holds the
/// resource of the load that `entity` tracks. A failed load is announced as failed and goes
/// through the same cleanup as a reported failure; in every other case nothing changes.
pub fn check_load_state(
    loader: &mut AssetLoader,
    active: &mut ActiveLoads,
    entity: u64,
    state: &LoadState,
) -> (routed: Routed)
    requires
        old(loader).wf(),
    ensures
        final(loader).wf(),
        match failed_load(old(active)@, entity, *state) {
            None => {
                &&& routed.event is None
                &&& routed.despawn is None
                &&& final(loader)@ == old(loader)@
                &&& final(active)@ == old(active)@
            },
            Some(record) => {
                &&& announced(routed.event) == Some(
                    LoaderEventView::Failed {
                        task_id: record.task.task_id,
                        path: record.task.path,
                        error: AssetErrorView::AssetLoadFailed {
                            path: record.task.path,
                            reason: failed_state_reason(),
                        },
                    },
                )
                &&& routed.despawn == Some(entity)
                &&& final(loader)@ == after_load_ended(old(loader)@, record.task)
                &&& final(active)@ == chosen(old(active)@, RecordKey::Entity(entity), false)
            },
        },
{
    match state {
        LoadState::Failed(_) => {},
        _ => { return Routed { event: None, despawn: None }; },
    }
    let task = match active.get(entity) {
        Some(task) => task,
        None => { return Routed { event: None, despawn: None }; },
    };
    end_load(loader, &task);
    active.remove(entity);
    let event = LoaderEvent::Failed(
        AssetLoadFailed {
            task_id: task.task_id,
            path: task.path.clone(),
            error: AssetError::AssetLoadFailed {
                path: task.path,
                reason: String::from_str("Asset load failed"),
            },
        },
    );
    Routed { event: Some(event), despawn: Some(entity) }
}

/// Polls one running load without announcing anything: where its resource is loaded with
/// all that it depends on, or its load has failed, the load is ended and `true` is returned
/// (the tracking entity is to be despawned); else nothing changes.
pub fn poll_load_tasks(
    loader: &mut AssetLoader,
    active: &mut ActiveLoads,
    entity: u64,
    loaded_with_dependencies: bool,
    state: &LoadState,
) -> (ended: bool)
    requires
        old(loader).wf(),
    ensures
        final(loader).wf(),
        ended == (first_chosen(old(active)@, RecordKey::Entity(entity)) is Some && (
        loaded_with_dependencies || *state is Failed)),
        ended ==> final(loader)@ == after_load_ended(
            old(loader)@,
            first_chosen(old(active)@, RecordKey::Entity(entity))->0.task,
        ) && final(active)@ == chosen(old(active)@, RecordKey::Entity(entity), false),
        !ended ==> final(loader)@ == old(loader)@ && final(active)@ == old(active)@,
{
    let task = match active.get(entity) {
        Some(task) => task,
        None => { return false; },
    };
    let failed = match state {
        LoadState::Failed(_) => true,
        _ => false,
    };
    if loaded_with_dependencies || failed {
        end_load(loader, &task);
        active.remove(entity);
        true
    } else {
        false
    }
}

/// No orphans: after the loads of `ended` have ended, the count of running loads is down by
/// their number (and stops at zero), none of their tasks has a path or a resource on
/// record, no entity is on file for any of their resources, and the loader's invariant
/// holds. The queue, the cap and the counter of identifiers are as they were.
pub proof fn lemma_loads_ended(loader: LoaderState, ended: Seq<LoadRecordView>)
    requires
        loader.wf(),
    ensures
        after_loads_ended(loader, ended).wf(),
        after_loads_ended(loader, ended).active_tasks == (if loader.active_tasks >= ended.len() {
            loader.active_tasks - ended.len()
        } else {
            0
        }),
        after_loads_ended(loader, ended).queue == loader.queue,
        after_loads_ended(loader, ended).max_concurrent == loader.max_concurrent,
        after_loads_ended(loader, ended).next_task_id == loader.next_task_id,
        forall|i: int|
            0 <= i < ended.len() ==> {
                &&& !after_loads_ended(loader, ended).task_paths.contains_key(
                    (#[trigger] ended[i]).task.task_id,
                )
                &&& !after_loads_ended(loader, ended).task_to_handle.contains_key(
                    ended[i].task.task_id,
                )
                &&& !after_loads_ended(loader, ended).handle_to_entity.contains_key(
                    ended[i].task.handle,
                )
            },
    decreases ended.len(),
{
    if ended.len() > 0 {
        let front = ended.drop_last();
        lemma_loads_ended(loader, front);
        let before = after_loads_ended(loader, front);
        let after = after_loads_ended(loader, ended);
        assert forall|i: int| 0 <= i < ended.len() implies {
            &&& !after.task_paths.contains_key((#[trigger] ended[i]).task.task_id)
            &&& !after.task_to_handle.contains_key(ended[i].task.task_id)
            &&& !after.handle_to_entity.contains_key(ended[i].task.handle)
        } by {
            if i < front.len() {
                assert(front[i] == ended[i]);
            }
        }
    }
}

/// A report that ends loads ends every running load of its resource, and each only once:
/// afterwards no record names the resource, so that a repeat of the report reaches no load,
/// and the loads that were reached are all cleaned up.
pub proof fn lemma_report_ends_every_load(
    loader: LoaderState,
    active: Seq<LoadRecordView>,
    resource: u64,
)
    requires
        loader.wf(),
    ensures
        ({
            let key = RecordKey::Resource(resource);
            let reached = chosen(active, key, true);
            let left = chosen(active, key, false);
            let after = after_loads_ended(loader, reached);
            &&& after.wf()
            &&& chosen(left, key, true).len() == 0
            &&& forall|i: int| 0 <= i < left.len() ==> (#[trigger] left[i]).task.handle != resource
            &&& forall|i: int|
                0 <= i < reached.len() ==> (#[trigger] reached[i]).task.handle == resource
                    && !after.task_paths.contains_key(reached[i].task.task_id)
                    && !after.task_to_handle.contains_key(reached[i].task.task_id)
            &&& reached.len() > 0 ==> !after.handle_to_entity.contains_key(resource)
            &&& reached.len() + left.len() == active.len()
            &&& loader.active_tasks >= reached.len() ==> after.active_tasks == loader.active_tasks
                - reached.len()
        }),
{
    let key = RecordKey::Resource(resource);
    let reached = chosen(active, key, true);
    lemma_chosen(active, key, true);
    lemma_chosen(active, key, false);
    crate::active::lemma_taken_is_gone(active, key);
    lemma_loads_ended(loader, reached);
    if reached.len() > 0 {
        assert(reached[0].task.handle == resource);
    }
}

} // verus!
