//! Preview requests for three-dimensional assets: models, materials and meshes.
//!
//! Such a preview is rendered: a short-lived scene is set up around the asset, and a
//! screenshot of its render target becomes the preview. The scene, the camera and the
//! screenshot are the render backend's; what is decided around them is decided here.

use crate::cache::PreviewCache;
use crate::cache_key::cache_key;
use crate::preview::PendingPreviewRequest;
use crate::preview::PreviewMode;
use crate::preview::PreviewReady;
use crate::preview::PreviewRequestType;
use crate::preview::PreviewTaskManager;
use crate::preview::TaskManagerState;
use vstd::prelude::*;

verus! {

/// The resolution at which a scene is rendered where none is configured.
pub const DEFAULT_SCENE_RESOLUTION: u32 = 256;

/// The largest of the resolutions; zero where there is none.
pub open spec fn largest(resolutions: Seq<u32>) -> u32
    decreases resolutions.len(),
{
    if resolutions.len() == 0 {
        0
    } else if largest(resolutions.drop_last()) >= resolutions.last() {
        largest(resolutions.drop_last())
    } else {
        resolutions.last()
    }
}

/// The resolution at which scenes are rendered: the largest configured one, or the default
/// where none is configured.
pub open spec fn scene_resolution(resolutions: Seq<u32>) -> u32 {
    if resolutions.len() == 0 {
        DEFAULT_SCENE_RESOLUTION
    } else {
        largest(resolutions)
    }
}

/// The largest resolution is one of the resolutions, and none exceeds it.
pub proof fn lemma_largest(resolutions: Seq<u32>)
    requires
        resolutions.len() > 0,
    ensures
        resolutions.contains(largest(resolutions)),
        forall|i: int| 0 <= i < resolutions.len() ==> resolutions[i] <= largest(resolutions),
    decreases resolutions.len(),
{
    let front = resolutions.drop_last();
    if front.len() > 0 {
        lemma_largest(front);
        assert forall|i: int| 0 <= i < resolutions.len() implies resolutions[i] <= largest(
            resolutions,
        ) by {
            if i < front.len() {
                assert(front[i] == resolutions[i]);
            }
        }
        if largest(front) >= resolutions.last() {
            let i = choose|i: int| 0 <= i < front.len() && front[i] == largest(front);
            assert(resolutions[i] == largest(resolutions));
        } else {
            assert(resolutions[resolutions.len() - 1] == largest(resolutions));
        }
    } else {
        assert(largest(front) == 0);
        assert(resolutions.last() == resolutions[0]);
        assert(resolutions[0] == largest(resolutions));
    }
}

/// Returns the resolution at which scenes are rendered.
pub fn preview_resolution(resolutions: &Vec<u32>) -> (resolution: u32)
    ensures
        resolution == scene_resolution(resolutions@),
{
    if resolutions.len() == 0 {
        return DEFAULT_SCENE_RESOLUTION;
    }
    let mut best: u32 = 0;
    let mut i: usize = 0;
    assert(resolutions@.subrange(0, 0) =~= Seq::<u32>::empty());
    while i < resolutions.len()
        invariant
            i <= resolutions.len(),
            best == largest(resolutions@.subrange(0, i as int)),
        decreases resolutions.len() - i,
    {
        assert(resolutions@.subrange(0, i + 1).drop_last() =~= resolutions@.subrange(
            0,
            i as int,
        ));
        if resolutions[i] > best {
            best = resolutions[i];
        }
        i += 1;
    }
    assert(resolutions@.subrange(0, i as int) =~= resolutions@);
    best
}

/// How far a three-dimensional preview request has come.
#[derive(Debug, Clone, Copy, PartialEq, Eq, Structural)]
pub enum PreviewStage {
    /// The request was made and nothing has been set up.
    Pending,
    /// The scene stands; the asset is awaited or, in a live view, shown.
    SceneCreated,
    /// The asset is in the scene and a screenshot is awaited.
    WaitingForScreenshot,
    /// The preview is cached and announced.
    Ready,
    /// The asset went away while the request was pending.
    Failed,
}

/// What can happen to a three-dimensional preview request.
#[derive(Debug, Clone, Copy, PartialEq, Eq, Structural)]
pub enum SceneEvent {
    /// The cache had the preview.
    CacheHit,
    /// The scene was set up; the asset was in memory by then, or was not.
    SceneBuilt { asset_loaded: bool },
    /// The awaited asset arrived and was put into the scene.
    AssetLoaded,
    /// The screenshot was taken and cached.
    ScreenshotCaptured,
    /// The asset was removed.
    AssetRemoved,
}

/// The stage that follows `stage` when `event` happens to a request shown in `mode`. An
/// event that the stage does not wait for leaves the stage as it is.
pub open spec fn stage_after(stage: PreviewStage, mode: PreviewMode, event: SceneEvent)
    -> PreviewStage {
    match (stage, event) {
        (PreviewStage::Ready, _) => PreviewStage::Ready,
        (PreviewStage::Failed, _) => PreviewStage::Failed,
        (_, SceneEvent::AssetRemoved) => PreviewStage::Failed,
        (PreviewStage::Pending, SceneEvent::CacheHit) => if mode == PreviewMode::Image {
            PreviewStage::Ready
        } else {
            PreviewStage::Pending
        },
        (PreviewStage::Pending, SceneEvent::SceneBuilt { asset_loaded }) => if asset_loaded && mode
            == PreviewMode::Image {
            PreviewStage::WaitingForScreenshot
        } else {
            PreviewStage::SceneCreated
        },
        (PreviewStage::SceneCreated, SceneEvent::AssetLoaded) => if mode == PreviewMode::Image {
            PreviewStage::WaitingForScreenshot
        } else {
            PreviewStage::SceneCreated
        },
        (PreviewStage::WaitingForScreenshot, SceneEvent::ScreenshotCaptured) => PreviewStage::Ready,
        _ => stage,
    }
}

/// Moves a request to the stage that follows when `event` happens.
pub fn advance(stage: PreviewStage, mode: PreviewMode, event: SceneEvent) -> (next: PreviewStage)
    ensures
        next == stage_after(stage, mode, event),
{
    match stage {
        PreviewStage::Ready => PreviewStage::Ready,
        PreviewStage::Failed => PreviewStage::Failed,
        _ => match event {
            SceneEvent::AssetRemoved => PreviewStage::Failed,
            SceneEvent::CacheHit => match (stage, mode) {
                (PreviewStage::Pending, PreviewMode::Image) => PreviewStage::Ready,
                _ => stage,
            },
            SceneEvent::SceneBuilt { asset_loaded } => match stage {
                PreviewStage::Pending => match (asset_loaded, mode) {
                    (true, PreviewMode::Image) => PreviewStage::WaitingForScreenshot,
                    _ => PreviewStage::SceneCreated,
                },
                _ => stage,
            },
            SceneEvent::AssetLoaded => match (stage, mode) {
                (PreviewStage::SceneCreated, PreviewMode::Image) => {
                    PreviewStage::WaitingForScreenshot
                },
                _ => stage,
            },
            SceneEvent::ScreenshotCaptured => match stage {
                PreviewStage::WaitingForScreenshot => PreviewStage::Ready,
                _ => stage,
            },
        },
    }
}

/// A request that is ready or has failed stays so whatever happens, and a removed asset
/// fails every request that has not ended.
pub proof fn lemma_stages_end(stage: PreviewStage, mode: PreviewMode, event: SceneEvent)
    ensures
        stage == PreviewStage::Ready ==> stage_after(stage, mode, event) == PreviewStage::Ready,
        stage == PreviewStage::Failed ==> stage_after(stage, mode, event) == PreviewStage::Failed,
        stage != PreviewStage::Ready && stage != PreviewStage::Failed ==> stage_after(
            stage,
            mode,
            SceneEvent::AssetRemoved,
        ) == PreviewStage::Failed,
        stage_after(stage, mode, event) == PreviewStage::Pending ==> stage == PreviewStage::Pending,
{
}

/// The scene that renders the preview of a request.
#[derive(Debug)]
pub struct PreviewScene3D {
    /// The preview request.
    pub task_id: u64,
    /// The asset.
    pub path: String,
    /// The camera of the scene.
    pub camera_entity: u64,
    /// The image that the camera renders into.
    pub render_target: u64,
    /// The asset in the scene, once it is there.
    pub preview_entity: Option<u64>,
}

/// Marks a scene whose screenshot is awaited.
#[derive(Debug)]
pub struct WaitingForScreenshot {
    /// The preview request.
    pub task_id: u64,
    /// The asset.
    pub path: String,
}

/// What is done first for a request that has just been made.
#[derive(Debug)]
pub enum SceneDecision {
    /// The request is for a two-dimensional image and is left to that path.
    Skip,
    /// The cache had the preview: it is announced, and the request ends.
    Ready(PreviewReady),
    /// A scene is set up at the resolution given; the asset is put into it at once where it
    /// is in memory, and awaited where it is not.
    CreateScene { resolution: u32, spawn_now: bool },
}

/// The stage that the marks on a request's tracking entity stand for: without a scene the
/// request is pending; with a scene it waits for its screenshot where it carries the
/// screenshot mark, and else it has its scene and no more.
pub open spec fn marked_stage(has_scene: bool, waits_for_screenshot: bool) -> PreviewStage {
    if !has_scene {
        PreviewStage::Pending
    } else if waits_for_screenshot {
        PreviewStage::WaitingForScreenshot
    } else {
        PreviewStage::SceneCreated
    }
}

/// Decides what is done first for a request that has just been made, which moves the
/// request from the stage `Pending` to its next stage.
///
/// A request that is shown as a still image is served from the cache where the cache has
/// its preview at the scene resolution; the request is then ready, and its tracking entity
/// is forgotten. Any other request for a three-dimensional asset gets a scene.
pub fn process_3d_preview_requests(
    task_manager: &mut PreviewTaskManager,
    cache: &PreviewCache,
    resolutions: &Vec<u32>,
    request: &PendingPreviewRequest,
    asset_loaded: bool,
) -> (decision: SceneDecision)
    requires
        cache.wf(),
    ensures
        match decision {
            SceneDecision::Skip => request.request_type == PreviewRequestType::Image2D
                && final(task_manager)@ == old(task_manager)@,
            SceneDecision::Ready(ready) => {
                &&& request.request_type != PreviewRequestType::Image2D
                &&& request.mode == PreviewMode::Image
                &&& stage_after(PreviewStage::Pending, request.mode, SceneEvent::CacheHit)
                    == PreviewStage::Ready
                &&& cache@.holds(request.path@, scene_resolution(resolutions@))
                &&& ready.task_id == request.task_id
                &&& ready.path@ == request.path@
                &&& ready.image_handle == cache@.entries[cache_key(
                    request.path@,
                    scene_resolution(resolutions@),
                )].image_handle
                &&& final(task_manager)@ == (TaskManagerState {
                    task_to_entity: old(task_manager)@.task_to_entity.remove(request.task_id),
                    ..old(task_manager)@
                })
            },
            SceneDecision::CreateScene { resolution, spawn_now } => {
                &&& request.request_type != PreviewRequestType::Image2D
                &&& !(request.mode == PreviewMode::Image && cache@.holds(
                    request.path@,
                    scene_resolution(resolutions@),
                ))
                &&& resolution == scene_resolution(resolutions@)
                &&& spawn_now == asset_loaded
                &&& stage_after(
                    PreviewStage::Pending,
                    request.mode,
                    SceneEvent::SceneBuilt { asset_loaded },
                ) != PreviewStage::Ready
                &&& final(task_manager)@ == old(task_manager)@
            },
        },
{
    match request.request_type {
        PreviewRequestType::Image2D => { return SceneDecision::Skip; },
        _ => {},
    }
    let resolution = preview_resolution(resolutions);
    if let Some(entry) = cache.get_by_path(request.path.as_str(), Some(resolution)) {
        let stage = advance(PreviewStage::Pending, request.mode, SceneEvent::CacheHit);
        if stage == PreviewStage::Ready {
            task_manager.remove_task(request.task_id);
            return SceneDecision::Ready(
                PreviewReady {
                    task_id: request.task_id,
                    path: request.path.clone(),
                    image_handle: entry.image_handle,
                },
            );
        }
    }
    SceneDecision::CreateScene { resolution, spawn_now: asset_loaded }
}

/// Makes the screenshot mark of a request that has reached `stage`, where that stage is the
/// one in which a screenshot is awaited.
fn screenshot_mark(request: &PendingPreviewRequest, stage: PreviewStage) -> (waiting: Option<
    WaitingForScreenshot,
>)
    ensures
        waiting is Some <==> stage == PreviewStage::WaitingForScreenshot,
        waiting is Some ==> waiting->0.task_id == request.task_id && waiting->0.path@
            == request.path@,
{
    if stage == PreviewStage::WaitingForScreenshot {
        Some(WaitingForScreenshot { task_id: request.task_id, path: request.path.clone() })
    } else {
        None
    }
}

/// Records the scene that was set up for a pending request, which moves the request to its
/// next stage. Where the asset was put into the scene (`preview_entity` is given) and the
/// request is shown as a still image, that stage is the wait for the screenshot, and the
/// screenshot mark is made.
pub fn scene_created(
    request: &PendingPreviewRequest,
    camera_entity: u64,
    render_target: u64,
    preview_entity: Option<u64>,
) -> (marks: (PreviewScene3D, Option<WaitingForScreenshot>))
    ensures
        marks.0.task_id == request.task_id,
        marks.0.path@ == request.path@,
        marks.0.camera_entity == camera_entity,
        marks.0.render_target == render_target,
        marks.0.preview_entity == preview_entity,
        marked_stage(true, marks.1 is Some) == stage_after(
            PreviewStage::Pending,
            request.mode,
            SceneEvent::SceneBuilt { asset_loaded: preview_entity is Some },
        ),
        marks.1 is Some ==> marks.1->0.task_id == request.task_id && marks.1->0.path@
            == request.path@,
{
    let scene = PreviewScene3D {
        task_id: request.task_id,
        path: request.path.clone(),
        camera_entity,
        render_target,
        preview_entity,
    };
    let stage = advance(
        PreviewStage::Pending,
        request.mode,
        SceneEvent::SceneBuilt { asset_loaded: preview_entity.is_some() },
    );
    (scene, screenshot_mark(request, stage))
}

/// Decides whether the asset of a scene is put into it now: the scene has none yet, and the
/// asset has come into memory.
pub fn wait_for_asset_load(scene: &PreviewScene3D, asset_loaded: bool) -> (spawn: bool)
    ensures
        spawn == (scene.preview_entity is None && asset_loaded),
{
    scene.preview_entity.is_none() && asset_loaded
}

/// Records that the asset was put into a scene that waited for it, which moves the request
/// on from the stage `SceneCreated`. Where the request is shown as a still image, the next
/// stage is the wait for the screenshot, and the screenshot mark is made.
pub fn preview_spawned(
    scene: &mut PreviewScene3D,
    request: &PendingPreviewRequest,
    preview_entity: u64,
) -> (waiting: Option<WaitingForScreenshot>)
    ensures
        final(scene).preview_entity == Some(preview_entity),
        final(scene).task_id == old(scene).task_id,
        final(scene).path == old(scene).path,
        final(scene).camera_entity == old(scene).camera_entity,
        final(scene).render_target == old(scene).render_target,
        marked_stage(true, waiting is Some) == stage_after(
            PreviewStage::SceneCreated,
            request.mode,
            SceneEvent::AssetLoaded,
        ),
        waiting is Some ==> waiting->0.task_id == request.task_id && waiting->0.path@
            == request.path@,
{
    scene.preview_entity = Some(preview_entity);
    let stage = advance(PreviewStage::SceneCreated, request.mode, SceneEvent::AssetLoaded);
    screenshot_mark(request, stage)
}

/// The screenshot that is ordered for a scene.
#[derive(Debug, Clone, Copy, PartialEq, Eq, Structural)]
pub struct ScreenshotOrder {
    /// The camera that takes the screenshot.
    pub camera_entity: u64,
    /// The render target whose content is captured.
    pub render_target: u64,
}

/// Orders the screenshot of a scene that waits for one: its camera captures its render
/// target. The scene then no longer waits.
pub fn capture_preview_screenshot(scene: &PreviewScene3D) -> (order: ScreenshotOrder)
    ensures
        order == (ScreenshotOrder {
            camera_entity: scene.camera_entity,
            render_target: scene.render_target,
        }),
{
    ScreenshotOrder { camera_entity: scene.camera_entity, render_target: scene.render_target }
}

} // verus!
