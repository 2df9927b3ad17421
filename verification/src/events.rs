//! What the asset system reports, and what the loader announces in turn.

use crate::error::AssetError;
use crate::error::AssetErrorView;
use crate::loader::ActiveLoadTaskView;
use crate::priority::LoadPriority;
use vstd::prelude::*;

verus! {

/// A report of the asset system about one resource.
#[derive(Debug)]
pub enum AssetSignal {
    /// The resource was added.
    Added { id: u64 },
    /// The resource and everything it depends on are loaded.
    LoadedWithDependencies { id: u64 },
    /// The resource changed.
    Modified { id: u64 },
    /// The resource was removed.
    Removed { id: u64 },
    /// The last handle to the resource was dropped.
    Unused { id: u64 },
    /// The load of the resource failed for the reason given.
    LoadFailed { id: u64, reason: String },
}

impl AssetSignal {
    /// The resource that the report is about.
    pub open spec fn resource(&self) -> u64 {
        match *self {
            AssetSignal::Added { id } => id,
            AssetSignal::LoadedWithDependencies { id } => id,
            AssetSignal::Modified { id } => id,
            AssetSignal::Removed { id } => id,
            AssetSignal::Unused { id } => id,
            AssetSignal::LoadFailed { id, .. } => id,
        }
    }

    /// Returns the resource that the report is about.
    pub fn id(&self) -> (id: u64)
        ensures
            id == self.resource(),
    {
        match self {
            AssetSignal::Added { id } => *id,
            AssetSignal::LoadedWithDependencies { id } => *id,
            AssetSignal::Modified { id } => *id,
            AssetSignal::Removed { id } => *id,
            AssetSignal::Unused { id } => *id,
            AssetSignal::LoadFailed { id, .. } => *id,
        }
    }

    /// Whether the report ends the load of its resource.
    pub open spec fn ends_load(&self) -> bool {
        match *self {
            AssetSignal::LoadedWithDependencies { .. } => true,
            AssetSignal::Removed { .. } => true,
            AssetSignal::LoadFailed { .. } => true,
            _ => false,
        }
    }

    /// What the loader announces when the report reaches a running load, if anything.
    pub open spec fn announcement(&self, task: ActiveLoadTaskView) -> Option<LoaderEventView> {
        match *self {
            AssetSignal::LoadedWithDependencies { .. } => Some(
                LoaderEventView::Completed {
                    task_id: task.task_id,
                    path: task.path,
                    handle: task.handle,
                    priority: task.priority,
                },
            ),
            AssetSignal::Removed { .. } => Some(
                LoaderEventView::Failed {
                    task_id: task.task_id,
                    path: task.path,
                    error: AssetErrorView::AssetRemoved { path: task.path },
                },
            ),
            AssetSignal::LoadFailed { reason, .. } => Some(
                LoaderEventView::Failed {
                    task_id: task.task_id,
                    path: task.path,
                    error: AssetErrorView::AssetLoadFailed { path: task.path, reason: reason@ },
                },
            ),
            AssetSignal::Modified { .. } => Some(
                LoaderEventView::HotReloaded {
                    task_id: task.task_id,
                    path: task.path,
                    handle: task.handle,
                },
            ),
            _ => None,
        }
    }
}

/// How far the asset system has come with a resource.
#[derive(Debug)]
pub enum LoadState {
    /// No load was started.
    NotLoaded,
    /// The load is under way.
    Loading,
    /// The resource is loaded.
    Loaded,
    /// The load failed for the reason given.
    Failed(String),
}

/// Announced when an asset has finished loading.
#[derive(Debug)]
pub struct AssetLoadCompleted {
    pub task_id: u64,
    pub path: String,
    pub handle: u64,
    pub priority: LoadPriority,
}

/// Announced when an asset has failed to load.
#[derive(Debug)]
pub struct AssetLoadFailed {
    pub task_id: u64,
    pub path: String,
    pub error: AssetError,
}

/// Announced when an asset that is being loaded has changed on disk.
#[derive(Debug)]
pub struct AssetHotReloaded {
    pub task_id: u64,
    pub path: String,
    pub handle: u64,
}

/// What the loader announces about a running load.
#[derive(Debug)]
pub enum LoaderEvent {
    Completed(AssetLoadCompleted),
    Failed(AssetLoadFailed),
    HotReloaded(AssetHotReloaded),
}

/// An announcement with its texts as sequences of characters.
pub enum LoaderEventView {
    Completed { task_id: u64, path: Seq<char>, handle: u64, priority: LoadPriority },
    Failed { task_id: u64, path: Seq<char>, error: AssetErrorView },
    HotReloaded { task_id: u64, path: Seq<char>, handle: u64 },
}

impl View for LoaderEvent {
    type V = LoaderEventView;

    open spec fn view(&self) -> LoaderEventView {
        match *self {
            LoaderEvent::Completed(e) => LoaderEventView::Completed {
                task_id: e.task_id,
                path: e.path@,
                handle: e.handle,
                priority: e.priority,
            },
            LoaderEvent::Failed(e) => LoaderEventView::Failed {
                task_id: e.task_id,
                path: e.path@,
                error: e.error@,
            },
            LoaderEvent::HotReloaded(e) => LoaderEventView::HotReloaded {
                task_id: e.task_id,
                path: e.path@,
                handle: e.handle,
            },
        }
    }
}

impl LoaderEventView {
    /// The task that the announcement is about.
    pub open spec fn task_id(self) -> u64 {
        match self {
            LoaderEventView::Completed { task_id, .. } => task_id,
            LoaderEventView::Failed { task_id, .. } => task_id,
            LoaderEventView::HotReloaded { task_id, .. } => task_id,
        }
    }
}

/// The view of an announcement that may be absent.
pub open spec fn announced(event: Option<LoaderEvent>) -> Option<LoaderEventView> {
    match event {
        Some(e) => Some(e@),
        None => None,
    }
}

} // verus!
