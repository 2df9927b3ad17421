//! Preview requests for two-dimensional images: the request itself, and what becomes of a
//! pending request when the asset system reports on its image.

use crate::cache::PreviewCache;
use crate::cache::PreviewCacheEntry;
use crate::cache_model::CacheState;
use crate::events::AssetSignal;
use crate::loader::AssetLoader;
use crate::priority::LoadPriority;
use crate::tables::id_table;
use crate::tables::id_table_get;
use crate::tables::id_table_insert;
use crate::tables::id_table_new;
use crate::tables::id_table_remove;
use crate::thumbnail::generate_previews_for_resolutions;
use crate::thumbnail::GeneratedPreview;
use crate::thumbnail::PixelImage;
use crate::thumbnail::PreviewSize;
use crate::thumbnail::PreviewSource;
use crate::thumbnail::preview_size;
use bevy::platform::collections::HashMap;
use core::time::Duration;
use vstd::prelude::*;
use vstd::string::StringExecFns;

verus! {

/// What previews are made, and where three-dimensional ones are rendered.
#[derive(Debug)]
pub struct PreviewConfig {
    /// The resolutions at which previews are generated.
    pub resolutions: Vec<u32>,
    /// The render layer that keeps preview scenes out of the main view.
    pub render_layer: usize,
}

/// What kind of asset a preview is asked for; each kind carries the handle that it needs.
#[derive(Debug, Clone, Copy, PartialEq, Eq, Structural)]
pub enum PreviewRequestType {
    /// A two-dimensional image, previewed by resizing.
    Image2D,
    /// A model file, previewed by rendering its scene.
    ModelFile { handle: u64 },
    /// A material, previewed on a sphere.
    Material { handle: u64 },
    /// A mesh, previewed with a default material.
    Mesh { handle: u64 },
}

/// How a preview is shown.
#[derive(Debug, Clone, Copy, PartialEq, Eq, Structural)]
pub enum PreviewMode {
    /// As a still image, which is cached.
    Image,
    /// As a live view of the preview scene.
    Window,
}

/// Announced when a preview is ready.
#[derive(Debug)]
pub struct PreviewReady {
    /// The preview request.
    pub task_id: u64,
    /// The asset.
    pub path: String,
    /// The image that holds the preview.
    pub image_handle: u64,
}

/// Announced when no preview can be made.
#[derive(Debug)]
pub struct PreviewFailed {
    /// The preview request.
    pub task_id: u64,
    /// The asset.
    pub path: String,
    /// Why no preview can be made.
    pub error: String,
}

/// A preview request that waits for its asset.
#[derive(Debug)]
pub struct PendingPreviewRequest {
    /// The preview request.
    pub task_id: u64,
    /// The asset.
    pub path: String,
    /// The kind of asset.
    pub request_type: PreviewRequestType,
    /// How the preview is shown.
    pub mode: PreviewMode,
}

/// The task manager's state as plain values.
pub struct TaskManagerState {
    /// The identifier that the next request gets.
    pub next_task_id: u64,
    /// The tracking entity of every pending request, by task identifier.
    pub task_to_entity: Map<u64, u64>,
}

/// Hands out the identifiers of preview requests and keeps the tracking entity of each
/// pending one. These identifiers are independent of the loader's.
pub struct PreviewTaskManager {
    next_task_id: u64,
    task_to_entity: HashMap<u64, u64>,
}

impl View for PreviewTaskManager {
    type V = TaskManagerState;

    closed spec fn view(&self) -> TaskManagerState {
        TaskManagerState {
            next_task_id: self.next_task_id,
            task_to_entity: id_table(self.task_to_entity),
        }
    }
}

impl Default for PreviewTaskManager {
    /// A task manager that has handed out no identifier.
    fn default() -> (manager: PreviewTaskManager)
        ensures
            manager@ == (TaskManagerState { next_task_id: 0, task_to_entity: Map::empty() }),
    {
        PreviewTaskManager::new()
    }
}

impl Default for PreviewConfig {
    /// Previews at 64 and 256 pixels, rendered on the first layer above the main view.
    fn default() -> (config: PreviewConfig)
        ensures
            config.resolutions@ == seq![64u32, 256u32],
            config.render_layer == 1,
    {
        let mut resolutions: Vec<u32> = Vec::new();
        resolutions.push(64);
        resolutions.push(256);
        assert(resolutions@ =~= seq![64u32, 256u32]);
        PreviewConfig { resolutions, render_layer: 1 }
    }
}

impl PreviewTaskManager {
    /// Creates a task manager that has handed out no identifier.
    pub fn new() -> (manager: PreviewTaskManager)
        ensures
            manager@ == (TaskManagerState { next_task_id: 0, task_to_entity: Map::empty() }),
    {
        PreviewTaskManager { next_task_id: 0, task_to_entity: id_table_new() }
    }

    /// Returns the identifier that the next request gets.
    pub fn next_task_id(&self) -> (id: u64)
        ensures
            id == self@.next_task_id,
    {
        self.next_task_id
    }

    /// Hands out the next identifier. Identifiers rise by one and are never handed out
    /// twice.
    pub fn create_task_id(&mut self) -> (task_id: u64)
        requires
            old(self)@.next_task_id < u64::MAX,
        ensures
            task_id == old(self)@.next_task_id,
            final(self)@ == (TaskManagerState {
                next_task_id: (task_id + 1) as u64,
                ..old(self)@
            }),
    {
        let id = self.next_task_id;
        self.next_task_id += 1;
        id
    }

    /// Records the entity that tracks a pending request.
    pub fn register_task(&mut self, task_id: u64, entity: u64)
        ensures
            final(self)@ == (TaskManagerState {
                task_to_entity: old(self)@.task_to_entity.insert(task_id, entity),
                ..old(self)@
            }),
    {
        id_table_insert(&mut self.task_to_entity, task_id, entity);
    }

    /// Gets the entity that tracks a request.
    pub fn get_entity(&self, task_id: u64) -> (entity: Option<u64>)
        ensures
            entity == (if self@.task_to_entity.contains_key(task_id) {
                Some(self@.task_to_entity[task_id])
            } else {
                None
            }),
    {
        id_table_get(&self.task_to_entity, task_id)
    }

    /// Forgets the entity that tracks a request.
    pub fn remove_task(&mut self, task_id: u64)
        ensures
            final(self)@ == (TaskManagerState {
                task_to_entity: old(self)@.task_to_entity.remove(task_id),
                ..old(self)@
            }),
    {
        id_table_remove(&mut self.task_to_entity, task_id);
    }
}

/// Whether the cache answers a query for `path` at `resolution` with a preview held by the
/// image `handle`.
pub open spec fn serves(state: CacheState, path: Seq<char>, resolution: Option<u32>, handle: u64)
    -> bool {
    exists|entry: PreviewCacheEntry| #[trigger]
        state.answers_path(path, resolution, Some(entry)) && entry.image_handle == handle
}

/// A hit is served, and with the cached image: where the cache answers a query with an
/// entry, the only image that it serves for the query is the image of that entry, and
/// "nothing" is no answer. A request for a cached path is therefore announced as ready at
/// once, with that image, however far the counters of identifiers have come.
pub proof fn lemma_hit_is_served(
    state: CacheState,
    path: Seq<char>,
    resolution: Option<u32>,
    entry: PreviewCacheEntry,
)
    requires
        state.answers_path(path, resolution, Some(entry)),
    ensures
        serves(state, path, resolution, entry.image_handle),
        !state.answers_path(path, resolution, None),
        forall|handle: u64| #[trigger]
            serves(state, path, resolution, handle) ==> handle == entry.image_handle,
{
    if state.answers_path(path, resolution, None) {
        crate::cache_model::lemma_one_answer(state, path, resolution, Some(entry), None);
    }
    assert forall|handle: u64| #[trigger]
        serves(state, path, resolution, handle) implies handle == entry.image_handle by {
        let other = choose|other: PreviewCacheEntry| #[trigger]
            state.answers_path(path, resolution, Some(other)) && other.image_handle == handle;
        crate::cache_model::lemma_one_answer(state, path, resolution, Some(entry), Some(other));
    }
}

/// The image that is shown for `path`: the cached preview where the cache answers the query,
/// and else the image `fallback`.
pub open spec fn shown(
    state: CacheState,
    path: Seq<char>,
    resolution: Option<u32>,
    fallback: u64,
    handle: u64,
) -> bool {
    serves(state, path, resolution, handle) || (state.answers_path(path, resolution, None)
        && handle == fallback)
}

/// Picks the image that is shown for a path: its cached preview, or `fallback` where it has
/// none.
fn preview_or(cache: &PreviewCache, path: &str, resolution: Option<u32>, fallback: u64) -> (handle:
    u64)
    requires
        cache.wf(),
    ensures
        shown(cache@, path@, resolution, fallback, handle),
{
    match cache.get_by_path(path, resolution) {
        Some(entry) => {
            assert(cache@.answers_path(path@, resolution, Some(entry)));
            entry.image_handle
        },
        None => fallback,
    }
}

/// Requests a preview of the image at `path`: the entry point.
///
/// A fresh identifier is handed out and returned. Where the cache has a preview of the path
/// (at the resolution asked for, or at any resolution where none is asked for), it is
/// announced as ready at once. Where it has none, nothing is announced: the caller looks
/// for the source image and goes on with [`preview_loaded_image`] or, where the source is
/// not in memory, with [`defer_image_preview`]. No tracking entity is registered and the
/// cache stays as it is.
pub fn request_image_preview(
    task_manager: &mut PreviewTaskManager,
    cache: &PreviewCache,
    path: &str,
    resolution: Option<u32>,
) -> (request: (u64, Option<PreviewReady>))
    requires
        cache.wf(),
        old(task_manager)@.next_task_id < u64::MAX,
    ensures
        request.0 == old(task_manager)@.next_task_id,
        final(task_manager)@ == (TaskManagerState {
            next_task_id: (request.0 + 1) as u64,
            ..old(task_manager)@
        }),
        match request.1 {
            Some(ready) => ready.task_id == request.0 && ready.path@ == path@ && serves(
                cache@,
                path@,
                resolution,
                ready.image_handle,
            ),
            None => cache@.answers_path(path@, resolution, None),
        },
{
    let found = cache.get_by_path(path, resolution);
    let task_id = task_manager.create_task_id();
    match found {
        Some(entry) => {
            assert(cache@.answers_path(path@, resolution, Some(entry)));
            (
                task_id,
                Some(
                    PreviewReady {
                        task_id,
                        path: String::from_str(path),
                        image_handle: entry.image_handle,
                    },
                ),
            )
        },
        None => (task_id, None),
    }
}

/// Files a preview request as pending, after the cache had no preview and the source image
/// was not in memory: the entity that tracks the request is registered, a load of the image
/// is submitted to the loader at the lowest priority, and the record of the pending request
/// is returned together with the identifier of the load task.
pub fn defer_image_preview(
    task_manager: &mut PreviewTaskManager,
    loader: &mut AssetLoader,
    task_id: u64,
    entity: u64,
    path: &str,
) -> (deferred: (PendingPreviewRequest, u64))
    requires
        old(loader).wf(),
        old(loader)@.next_task_id < u64::MAX,
    ensures
        final(loader).wf(),
        final(loader)@ == old(loader)@.submitted(path@, LoadPriority::Preload),
        final(task_manager)@ == (TaskManagerState {
            task_to_entity: old(task_manager)@.task_to_entity.insert(task_id, entity),
            ..old(task_manager)@
        }),
        deferred.0.task_id == task_id,
        deferred.0.path@ == path@,
        deferred.0.request_type == PreviewRequestType::Image2D,
        deferred.0.mode == PreviewMode::Image,
        deferred.1 == old(loader)@.next_task_id,
{
    task_manager.register_task(task_id, entity);
    let load_task = loader.submit(path, LoadPriority::Preload);
    (
        PendingPreviewRequest {
            task_id,
            path: String::from_str(path),
            request_type: PreviewRequestType::Image2D,
            mode: PreviewMode::Image,
        },
        load_task,
    )
}

/// Makes the preview of a source image that is already in memory: generates the previews
/// for every configured resolution, caches them, and announces the request as ready with
/// the cached preview for the resolution asked for (or the source itself, should the cache
/// have none).
pub fn preview_loaded_image(
    cache: &mut PreviewCache,
    resolutions: &Vec<u32>,
    task_id: u64,
    path: &str,
    resolution: Option<u32>,
    image: &PixelImage,
    handle: u64,
    fresh_handles: &Vec<u64>,
    timestamp: Duration,
) -> (made: (PreviewReady, Vec<GeneratedPreview>))
    requires
        old(cache).wf(),
        fresh_handles@.len() >= resolutions@.len(),
    ensures
        final(cache).wf(),
        final(cache)@ == generation_source(image, handle, path@, timestamp).cached(
            old(cache)@,
            resolutions@,
            fresh_handles@,
        ),
        made.0.task_id == task_id,
        made.0.path@ == path@,
        shown(final(cache)@, path@, resolution, handle, made.0.image_handle),
        generated_as(
            made.1@,
            generation_source(image, handle, path@, timestamp),
            old(cache)@,
            resolutions@,
            fresh_handles@,
        ),
{
    let generated = generate_previews_for_resolutions(
        image,
        handle,
        path,
        handle,
        resolutions,
        fresh_handles,
        cache,
        timestamp,
    );
    let image_handle = preview_or(cache, path, resolution, handle);
    (PreviewReady { task_id, path: String::from_str(path), image_handle }, generated)
}

/// What a generation is made from when the asset is identified by the handle of its image.
pub open spec fn generation_source(
    image: &PixelImage,
    handle: u64,
    path: Seq<char>,
    timestamp: Duration,
) -> PreviewSource {
    PreviewSource {
        width: image.spec_width(),
        height: image.spec_height(),
        handle,
        path,
        asset_id: handle,
        timestamp,
    }
}

/// Whether `generated` holds exactly the resized images of one generation: one for each
/// position that needed resizing, in order, with the handle of that position, the
/// resolution of that position, and the size that the resolution calls for.
pub open spec fn generated_as(
    generated: Seq<GeneratedPreview>,
    source: PreviewSource,
    state: CacheState,
    resolutions: Seq<u32>,
    fresh: Seq<u64>,
) -> bool {
    let made = source.resized(state, resolutions, fresh);
    &&& generated.len() == made.len()
    &&& forall|k: int|
        0 <= k < made.len() ==> {
            &&& 0 <= made[k] < resolutions.len()
            &&& (#[trigger] generated[k]).handle == fresh[made[k]]
            &&& generated[k].resolution == resolutions[made[k]]
            &&& generated[k].image.wf()
            &&& preview_size(source.width, source.height, generated[k].resolution) == Some(
                PreviewSize {
                    width: generated[k].image.spec_width(),
                    height: generated[k].image.spec_height(),
                },
            )
        }
}

/// What a report of the asset system means for one pending request.
#[derive(Debug)]
pub struct PreviewRouted {
    /// The announcement that the preview is ready, if it is.
    pub ready: Option<PreviewReady>,
    /// The announcement that no preview can be made, if none can.
    pub failed: Option<PreviewFailed>,
    /// The resized images that were made and are to be stored under their handles.
    pub generated: Vec<GeneratedPreview>,
    /// Whether the request has ended and its tracking entity is to be despawned.
    pub despawn: bool,
}

/// The reason announced when the image of a pending request is removed.
pub open spec fn removed_reason() -> Seq<char> {
    "Image asset was removed"@
}

/// Whether a report completes a pending request: the request's image is loaded with all it
/// depends on, and its pixels are at hand.
pub open spec fn completes(signal: AssetSignal, handle: u64, image: Option<&PixelImage>) -> bool {
    signal matches AssetSignal::LoadedWithDependencies { id } && id == handle && image is Some
}

/// Whether a report fails a pending request: the request's image was removed.
pub open spec fn fails(signal: AssetSignal, handle: u64) -> bool {
    signal matches AssetSignal::Removed { id } && id == handle
}

/// Checks whether a report completes a pending request, so that previews will be generated
/// and a handle is wanted for every configured resolution.
pub fn completes_request(signal: &AssetSignal, handle: u64, image: Option<&PixelImage>) -> (done:
    bool)
    ensures
        done == completes(*signal, handle, image),
{
    match signal {
        AssetSignal::LoadedWithDependencies { id } => *id == handle && image.is_some(),
        _ => false,
    }
}

/// The cache after a report has been taken note of, before any preview is generated: a
/// removed asset loses all its previews, whichever request the report is routed to; every
/// other report leaves the cache as it is.
pub open spec fn invalidated(state: CacheState, signal: AssetSignal) -> CacheState {
    match signal {
        AssetSignal::Removed { id } => state.without(
            crate::cache_model::keys_removed_by_id(state, id, None),
        ),
        _ => state,
    }
}

/// Drops what the cache holds of an asset that the asset system reports as removed; every
/// other report leaves the cache as it is.
pub fn invalidate_removed(cache: &mut PreviewCache, signal: &AssetSignal)
    requires
        old(cache).wf(),
    ensures
        final(cache).wf(),
        final(cache)@ == invalidated(old(cache)@, *signal),
        *signal matches AssetSignal::Removed { id } ==> !final(cache)@.keys_of.contains_key(id),
{
    match signal {
        AssetSignal::Removed { id } => {
            proof {
                if cache@.keys_of.contains_key(*id) {
                    crate::cache_model::lemma_remove_id_clears(cache@, *id);
                } else {
                    crate::cache_model::lemma_without_nothing(cache@);
                }
            }
            cache.remove_by_id(*id, None);
        },
        _ => {},
    }
}

/// Routes one report of the asset system to one pending request, whose image the asset
/// system knows as `handle`.
///
/// A report that an asset was removed drops every preview of that asset from the cache,
/// whether or not the asset is the request's image. Where the request's image is loaded
/// and its pixels are at hand, the previews are generated and cached, the request is
/// announced as ready with the highest cached preview, and the request ends. Where the
/// request's image was removed, the request is announced as failed and ends. Every other
/// report leaves the request pending and changes nothing.
pub fn handle_image_preview_events(
    task_manager: &mut PreviewTaskManager,
    cache: &mut PreviewCache,
    resolutions: &Vec<u32>,
    signal: &AssetSignal,
    request: &PendingPreviewRequest,
    handle: u64,
    image: Option<&PixelImage>,
    fresh_handles: &Vec<u64>,
    timestamp: Duration,
) -> (routed: PreviewRouted)
    requires
        old(cache).wf(),
        completes(*signal, handle, image) ==> fresh_handles@.len() >= resolutions@.len(),
    ensures
        final(cache).wf(),
        routed.despawn == (completes(*signal, handle, image) || fails(*signal, handle)),
        final(task_manager)@ == (if routed.despawn {
            TaskManagerState {
                task_to_entity: old(task_manager)@.task_to_entity.remove(request.task_id),
                ..old(task_manager)@
            }
        } else {
            old(task_manager)@
        }),
        routed.ready is Some <==> completes(*signal, handle, image),
        routed.failed is Some <==> fails(*signal, handle),
        completes(*signal, handle, image) ==> {
            &&& final(cache)@ == generation_source(
                image->0,
                handle,
                request.path@,
                timestamp,
            ).cached(old(cache)@, resolutions@, fresh_handles@)
            &&& routed.ready->0.task_id == request.task_id
            &&& routed.ready->0.path@ == request.path@
            &&& shown(final(cache)@, request.path@, None, handle, routed.ready->0.image_handle)
            &&& generated_as(
                routed.generated@,
                generation_source(image->0, handle, request.path@, timestamp),
                old(cache)@,
                resolutions@,
                fresh_handles@,
            )
        },
        !completes(*signal, handle, image) ==> final(cache)@ == invalidated(old(cache)@, *signal)
            && routed.generated@.len() == 0,
        *signal matches AssetSignal::Removed { id } ==> !final(cache)@.keys_of.contains_key(id),
        fails(*signal, handle) ==> {
            &&& routed.failed->0.task_id == request.task_id
            &&& routed.failed->0.path@ == request.path@
            &&& routed.failed->0.error@ == removed_reason()
        },
{
    invalidate_removed(cache, signal);
    match signal {
        AssetSignal::LoadedWithDependencies { id } => {
            if *id == handle {
                if let Some(pixels) = image {
                    let (ready, generated) = preview_loaded_image(
                        cache,
                        resolutions,
                        request.task_id,
                        request.path.as_str(),
                        None,
                        pixels,
                        handle,
                        fresh_handles,
                        timestamp,
                    );
                    task_manager.remove_task(request.task_id);
                    return PreviewRouted {
                        ready: Some(ready),
                        failed: None,
                        generated,
                        despawn: true,
                    };
                }
            }
        },
        AssetSignal::Removed { id } => {
            if *id == handle {
                task_manager.remove_task(request.task_id);
                let failed = PreviewFailed {
                    task_id: request.task_id,
                    path: request.path.clone(),
                    error: String::from_str("Image asset was removed"),
                };
                return PreviewRouted {
                    ready: None,
                    failed: Some(failed),
                    generated: Vec::new(),
                    despawn: true,
                };
            }
        },
        _ => {},
    }
    PreviewRouted { ready: None, failed: None, generated: Vec::new(), despawn: false }
}

} // verus!
