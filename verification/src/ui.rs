//! What the file browser does with an asset that wants a preview: tell images from other
//! files, use the cache where it can, and queue a load where it cannot.

use crate::active::chosen;
use crate::active::first_chosen;
use crate::active::ActiveLoads;
use crate::active::LoadRecordView;
use crate::active::RecordKey;
use crate::cache::PreviewCache;
use crate::events::AssetLoadCompleted;
use crate::events::AssetLoadFailed;
use crate::events::LoadState;
use crate::loader::AssetLoader;
use crate::paths::extension_of;
use crate::paths::find_extension;
use crate::paths::lower;
use crate::paths::lowercase;
use crate::preview::generated_as;
use crate::preview::generation_source;
use crate::preview::preview_loaded_image;
use crate::preview::shown;
use crate::priority::LoadPriority;
use crate::routing::after_load_ended;
use crate::thumbnail::GeneratedPreview;
use crate::thumbnail::PixelImage;
use core::time::Duration;
use vstd::prelude::*;
use vstd::string::StringExecFns;
use vstd::string::StrSliceExecFns;

verus! {

/// An entry of the browser that wants a preview of the file at the path it holds.
#[derive(Debug)]
pub struct PreviewAsset(pub String);

/// An entry of the browser that waits for the load of its preview.
#[derive(Debug)]
pub struct PendingPreviewLoad {
    /// The load task.
    pub task_id: u64,
    /// The asset.
    pub asset_path: String,
}

/// The image that stands in for a file that has no preview.
pub const FILE_PLACEHOLDER: &'static str = "embedded://bevy_asset_browser/assets/file_icon.png";

/// The extensions of the image formats that can be previewed, in lower case.
pub open spec fn image_extensions() -> Seq<Seq<char>> {
    seq![
        "png"@,
        "jpg"@,
        "jpeg"@,
        "bmp"@,
        "gif"@,
        "ico"@,
        "pnm"@,
        "pam"@,
        "pbm"@,
        "pgm"@,
        "ppm"@,
        "tga"@,
        "webp"@,
        "tiff"@,
        "tif"@,
        "dds"@,
        "exr"@,
        "hdr"@,
        "ktx2"@,
        "basis"@,
        "qoi"@,
    ]
}

/// Whether a path names an image file: it has an extension, and the extension is, whatever
/// its case, one of the image formats.
pub open spec fn names_image(path: Seq<char>) -> bool {
    match extension_of(path) {
        Some(extension) => image_extensions().contains(lowercase(extension)),
        None => false,
    }
}

/// Returns the lower-case form of an ASCII letter, and every other character as it is.
pub fn to_lower(c: char) -> (l: char)
    ensures
        l == lower(c),
{
    if 'A' <= c && c <= 'Z' {
        ((c as u8) + 32) as char
    } else {
        c
    }
}

/// Checks whether the characters of `text` from `from` on are, in lower case, `name`.
fn is_lowercase_of(text: &str, from: usize, name: &str) -> (same: bool)
    requires
        from <= text@.len(),
    ensures
        same == (lowercase(text@.subrange(from as int, text@.len() as int)) == name@),
{
    let n = text.unicode_len();
    let m = name.unicode_len();
    let ghost part = text@.subrange(from as int, n as int);
    if n - from != m {
        assert(lowercase(part).len() != name@.len());
        return false;
    }
    let mut i: usize = 0;
    while i < m
        invariant
            i <= m,
            m == n - from,
            n == text@.len(),
            m == name@.len(),
            part == text@.subrange(from as int, n as int),
            forall|j: int| 0 <= j < i ==> lowercase(part)[j] == name@[j],
        decreases m - i,
    {
        if to_lower(text.get_char(from + i)) != name.get_char(i) {
            assert(lowercase(part)[i as int] != name@[i as int]);
            return false;
        }
        i += 1;
    }
    assert(lowercase(part) =~= name@);
    true
}

/// Checks whether a path names an image file, by its extension.
pub fn is_image_file(path: &str) -> (image: bool)
    ensures
        image == names_image(path@),
{
    let n = path.unicode_len();
    let from = match find_extension(path) {
        Some(mark) => mark + 1,
        None => { return false; },
    };
    let names = [
        "png",
        "jpg",
        "jpeg",
        "bmp",
        "gif",
        "ico",
        "pnm",
        "pam",
        "pbm",
        "pgm",
        "ppm",
        "tga",
        "webp",
        "tiff",
        "tif",
        "dds",
        "exr",
        "hdr",
        "ktx2",
        "basis",
        "qoi",
    ];
    let ghost extension = path@.subrange(from as int, path@.len() as int);
    let ghost known = image_extensions();
    assert(known.len() == 21);
    let mut i: usize = 0;
    while i < 21
        invariant
            i <= 21,
            from <= path@.len(),
            extension == path@.subrange(from as int, path@.len() as int),
            extension_of(path@) == Some(extension),
            known == image_extensions(),
            known.len() == 21,
            names@.len() == 21,
            forall|j: int| 0 <= j < 21 ==> (#[trigger] names@[j])@ == known[j],
            forall|j: int| 0 <= j < i ==> known[j] != lowercase(extension),
        decreases 21 - i,
    {
        if is_lowercase_of(path, from, names[i]) {
            assert(known[i as int] == lowercase(extension));
            return true;
        }
        i += 1;
    }
    assert(!known.contains(lowercase(extension)));
    false
}

/// What the browser does with an entry that wants a preview.
#[derive(Debug)]
pub enum PreviewHandling {
    /// The file is no image: it shows the placeholder and wants nothing further.
    Placeholder,
    /// The cache has a preview: the entry shows the image given and wants nothing further.
    Cached(u64),
    /// A load was queued: the entry shows the placeholder and waits for the task.
    Pending(PendingPreviewLoad),
}

/// Handles one entry of the browser that wants a preview of the file at `path`.
///
/// A file that is no image gets the placeholder. An image whose preview is cached shows
/// it at once, and nothing is queued. For any other image a load is submitted at the
/// lowest priority, and the entry waits for it; only then is an identifier handed out, so
/// that only then the counter of identifiers must not have run out.
pub fn preview_handler(loader: &mut AssetLoader, cache: &PreviewCache, path: &str) -> (handling:
    PreviewHandling)
    requires
        old(loader).wf(),
        cache.wf(),
        names_image(path@) && cache@.answers_path(path@, None, None) ==> old(
            loader,
        )@.next_task_id < u64::MAX,
    ensures
        final(loader).wf(),
        match handling {
            PreviewHandling::Placeholder => !names_image(path@) && final(loader)@ == old(loader)@,
            PreviewHandling::Cached(handle) => names_image(path@) && crate::preview::serves(
                cache@,
                path@,
                None,
                handle,
            ) && final(loader)@ == old(loader)@,
            PreviewHandling::Pending(pending) => {
                &&& names_image(path@)
                &&& cache@.answers_path(path@, None, None)
                &&& pending.task_id == old(loader)@.next_task_id
                &&& pending.asset_path@ == path@
                &&& final(loader)@ == old(loader)@.submitted(path@, LoadPriority::Preload)
            },
        },
{
    if !is_image_file(path) {
        return PreviewHandling::Placeholder;
    }
    if let Some(entry) = cache.get_by_path(path, None) {
        assert(cache@.answers_path(path@, None, Some(entry)));
        return PreviewHandling::Cached(entry.image_handle);
    }
    let task_id = loader.submit(path, LoadPriority::Preload);
    PreviewHandling::Pending(PendingPreviewLoad { task_id, asset_path: String::from_str(path) })
}

/// The image that an entry shows once its load has completed.
#[derive(Debug)]
pub struct ShownPreview {
    /// The image to show.
    pub image_handle: u64,
    /// The resized images that were made and are to be stored under their handles.
    pub generated: Vec<GeneratedPreview>,
}

/// Handles the completed load of an entry that waited for it.
///
/// Where the event is about the entry's task and the pixels of the loaded image are at
/// hand, the previews are generated and cached, and the image to show is returned (the
/// highest cached preview, or the loaded image itself) together with the resized images
/// that were made. In every other case nothing changes and the entry goes on waiting.
pub fn handle_preview_load_completed(
    cache: &mut PreviewCache,
    resolutions: &Vec<u32>,
    event: &AssetLoadCompleted,
    pending: &PendingPreviewLoad,
    image: Option<&PixelImage>,
    fresh_handles: &Vec<u64>,
    timestamp: Duration,
) -> (shown_image: Option<ShownPreview>)
    requires
        old(cache).wf(),
        pending.task_id == event.task_id && image is Some ==> fresh_handles@.len()
            >= resolutions@.len(),
    ensures
        final(cache).wf(),
        shown_image is Some <==> pending.task_id == event.task_id && image is Some,
        shown_image is None ==> final(cache)@ == old(cache)@,
        shown_image is Some ==> {
            &&& final(cache)@ == generation_source(
                image->0,
                event.handle,
                pending.asset_path@,
                timestamp,
            ).cached(old(cache)@, resolutions@, fresh_handles@)
            &&& shown(
                final(cache)@,
                pending.asset_path@,
                None,
                event.handle,
                shown_image->0.image_handle,
            )
            &&& generated_as(
                shown_image->0.generated@,
                generation_source(image->0, event.handle, pending.asset_path@, timestamp),
                old(cache)@,
                resolutions@,
                fresh_handles@,
            )
        },
{
    if pending.task_id != event.task_id {
        return None;
    }
    match image {
        None => None,
        Some(pixels) => {
            let (ready, generated) = preview_loaded_image(
                cache,
                resolutions,
                event.task_id,
                pending.asset_path.as_str(),
                None,
                pixels,
                event.handle,
                fresh_handles,
                timestamp,
            );
            Some(ShownPreview { image_handle: ready.image_handle, generated })
        },
    }
}

/// The position of the first entry that waits for `task_id`.
pub open spec fn first_waiting(pending: Seq<PendingPreviewLoad>, task_id: u64) -> Option<int>
    decreases pending.len(),
{
    if pending.len() == 0 {
        None
    } else if pending[0].task_id == task_id {
        Some(0)
    } else {
        match first_waiting(pending.skip(1), task_id) {
            Some(at) => Some(at + 1),
            None => None,
        }
    }
}

/// Finds the first entry that waits for a task.
pub fn find_waiting(pending: &Vec<PendingPreviewLoad>, task_id: u64) -> (at: Option<usize>)
    ensures
        match at {
            Some(i) => first_waiting(pending@, task_id) == Some(i as int) && i < pending@.len()
                && pending@[i as int].task_id == task_id,
            None => first_waiting(pending@, task_id) is None,
        },
{
    let mut i: usize = 0;
    assert(pending@.skip(0) =~= pending@);
    while i < pending.len()
        invariant
            i <= pending.len(),
            first_waiting(pending@, task_id) == (match first_waiting(
                pending@.skip(i as int),
                task_id,
            ) {
                Some(at) => Some(at + i),
                None => None,
            }),
        decreases pending.len() - i,
    {
        assert(pending@.skip(i as int)[0] == pending@[i as int]);
        assert(pending@.skip(i as int).skip(1) =~= pending@.skip(i + 1));
        if pending[i].task_id == task_id {
            return Some(i);
        }
        i += 1;
    }
    None
}

/// Handles the failed load of a task: finds the first entry that waits for it, which then
/// stops waiting and keeps showing the placeholder.
pub fn handle_preview_load_failed(event: &AssetLoadFailed, pending: &Vec<PendingPreviewLoad>)
    -> (at: Option<usize>)
    ensures
        match at {
            Some(i) => first_waiting(pending@, event.task_id) == Some(i as int) && i
                < pending@.len(),
            None => first_waiting(pending@, event.task_id) is None,
        },
{
    find_waiting(pending, event.task_id)
}

/// An entry that has got its preview.
#[derive(Debug)]
pub struct UpdatedEntry {
    /// The position of the entry among those that waited.
    pub at: usize,
    /// What the entry shows now.
    pub shown: ShownPreview,
}

/// Whether a completed load gives one of the waiting entries its preview: an entry waits
/// for the task, and the pixels of the loaded image are at hand.
pub open spec fn updates_entry(
    waiting: Seq<PendingPreviewLoad>,
    event: AssetLoadCompleted,
    image: Option<&PixelImage>,
) -> bool {
    first_waiting(waiting, event.task_id) is Some && image is Some
}

/// Handles a completed load for the entries that wait: the first entry that waits for the
/// task gets its preview, as [`handle_preview_load_completed`] makes it, and stops waiting.
/// Entries behind it are not looked at. Where no entry waits for the task, or the pixels of
/// the loaded image are not at hand, nothing changes.
pub fn complete_waiting_entry(
    cache: &mut PreviewCache,
    resolutions: &Vec<u32>,
    event: &AssetLoadCompleted,
    waiting: &Vec<PendingPreviewLoad>,
    image: Option<&PixelImage>,
    fresh_handles: &Vec<u64>,
    timestamp: Duration,
) -> (updated: Option<UpdatedEntry>)
    requires
        old(cache).wf(),
        updates_entry(waiting@, *event, image) ==> fresh_handles@.len() >= resolutions@.len(),
    ensures
        final(cache).wf(),
        updated is Some <==> updates_entry(waiting@, *event, image),
        updated is None ==> final(cache)@ == old(cache)@,
        updated is Some ==> {
            let at = updated->0.at as int;
            &&& first_waiting(waiting@, event.task_id) == Some(at)
            &&& 0 <= at < waiting@.len()
            &&& final(cache)@ == generation_source(
                image->0,
                event.handle,
                waiting@[at].asset_path@,
                timestamp,
            ).cached(old(cache)@, resolutions@, fresh_handles@)
            &&& shown(
                final(cache)@,
                waiting@[at].asset_path@,
                None,
                event.handle,
                updated->0.shown.image_handle,
            )
            &&& generated_as(
                updated->0.shown.generated@,
                generation_source(image->0, event.handle, waiting@[at].asset_path@, timestamp),
                old(cache)@,
                resolutions@,
                fresh_handles@,
            )
        },
{
    let at = match find_waiting(waiting, event.task_id) {
        Some(at) => at,
        None => { return None; },
    };
    match handle_preview_load_completed(
        cache,
        resolutions,
        event,
        &waiting[at],
        image,
        fresh_handles,
        timestamp,
    ) {
        Some(shown) => Some(UpdatedEntry { at, shown }),
        None => None,
    }
}

/// What a look at the load state of a waiting entry led to.
#[derive(Debug)]
pub struct FailedLoadCleanup {
    /// Whether the entry stops waiting.
    pub stop_waiting: bool,
    /// The tracking entity of the load that was ended and is to be despawned, if any.
    pub despawn: Option<u64>,
}

/// The fallback for a waiting entry whose load may have failed without a report: given the
/// state in which the asset system holds the entry's asset, a failed load makes the entry
/// stop waiting, and the running load of its task, if there is one, is ended with the usual
/// cleanup. Any other state changes nothing.
pub fn check_failed_loads(
    loader: &mut AssetLoader,
    active: &mut ActiveLoads,
    pending: &PendingPreviewLoad,
    state: &LoadState,
) -> (cleanup: FailedLoadCleanup)
    requires
        old(loader).wf(),
    ensures
        final(loader).wf(),
        cleanup.stop_waiting == (*state is Failed),
        match running_load(old(active)@, pending.task_id, *state) {
            Some(record) => {
                &&& cleanup.despawn == Some(record.entity)
                &&& final(loader)@ == after_load_ended(old(loader)@, record.task)
                &&& final(active)@ == chosen(
                    old(active)@,
                    RecordKey::Entity(record.entity),
                    false,
                )
            },
            None => {
                &&& cleanup.despawn is None
                &&& final(loader)@ == old(loader)@
                &&& final(active)@ == old(active)@
            },
        },
{
    match state {
        LoadState::Failed(_) => {},
        _ => { return FailedLoadCleanup { stop_waiting: false, despawn: None }; },
    }
    let record = match active.find(RecordKey::Task(pending.task_id)) {
        Some(record) => record,
        None => { return FailedLoadCleanup { stop_waiting: true, despawn: None }; },
    };
    loader.finish_task();
    loader.cleanup_task(record.task.task_id, record.task.handle);
    active.remove(record.entity);
    FailedLoadCleanup { stop_waiting: true, despawn: Some(record.entity) }
}

/// The record of the running load that a failed state ends for a waiting entry: the first
/// record of the entry's task, where the state is `Failed`.
pub open spec fn running_load(active: Seq<LoadRecordView>, task_id: u64, state: LoadState)
    -> Option<LoadRecordView> {
    if state is Failed {
        first_chosen(active, RecordKey::Task(task_id))
    } else {
        None
    }
}

} // verus!
