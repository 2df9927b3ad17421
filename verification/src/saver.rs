//! Saving a rendered preview to durable storage.
//!
//! A save runs outside the loader's queue and cap. Its steps are: find the source pixels,
//! encode them, make sure the target directory exists, write. Each step can fail with an
//! error of its own. The steps that touch storage are the caller's; what is decided between them
//! is decided here.

use crate::error::AssetError;
use crate::error::AssetErrorView;
use crate::paths::extension_of;
use crate::paths::find_extension;
use crate::paths::parent_directory;
use crate::paths::parent_of;
use crate::paths::replace_extension;
use crate::paths::with_extension;
use crate::tables::path_table;
use crate::tables::path_table_get;
use crate::tables::path_table_insert;
use crate::tables::path_table_len;
use crate::tables::path_table_new;
use crate::tables::path_table_remove;
use crate::thumbnail::PixelImage;
use bevy::platform::collections::HashMap;
use vstd::prelude::*;
use vstd::string::StringExecFns;
use vstd::string::StrSliceExecFns;

verus! {

/// The tracker's state as plain values.
pub struct SaveTrackerState {
    /// The identifier that the next save gets.
    pub next_task_id: u64,
    /// The path of every save that has not completed, by task identifier.
    pub pending_saves: Map<u64, Seq<char>>,
}

/// Keeps count of the saves under way, for anyone who wants to watch them. It gates
/// nothing: every save starts at once. Its identifiers are independent of the loader's.
pub struct SaveTaskTracker {
    next_task_id: u64,
    pending_saves: HashMap<u64, String>,
}

impl View for SaveTaskTracker {
    type V = SaveTrackerState;

    closed spec fn view(&self) -> SaveTrackerState {
        SaveTrackerState {
            next_task_id: self.next_task_id,
            pending_saves: path_table(self.pending_saves),
        }
    }
}

impl Default for SaveTaskTracker {
    /// A tracker that has handed out no identifier and watches no save.
    fn default() -> (tracker: SaveTaskTracker)
        ensures
            tracker@ == (SaveTrackerState { next_task_id: 0, pending_saves: Map::empty() }),
    {
        SaveTaskTracker { next_task_id: 0, pending_saves: path_table_new() }
    }
}

impl SaveTaskTracker {
    /// Returns the identifier that the next save gets.
    pub fn next_task_id(&self) -> (id: u64)
        ensures
            id == self@.next_task_id,
    {
        self.next_task_id
    }

    /// Hands out the next identifier. Identifiers rise by one and are never handed out
    /// twice.
    pub fn create_task_id(&mut self) -> (task_id: u64)
        requires
            old(self)@.next_task_id < u64::MAX,
        ensures
            task_id == old(self)@.next_task_id,
            final(self)@ == (SaveTrackerState {
                next_task_id: (task_id + 1) as u64,
                ..old(self)@
            }),
    {
        let id = self.next_task_id;
        self.next_task_id += 1;
        id
    }

    /// Registers a save as pending.
    pub fn register_pending(&mut self, task_id: u64, path: String)
        ensures
            final(self)@ == (SaveTrackerState {
                pending_saves: old(self)@.pending_saves.insert(task_id, path@),
                ..old(self)@
            }),
    {
        path_table_insert(&mut self.pending_saves, task_id, path);
    }

    /// Marks a save as completed, whether it succeeded or failed.
    pub fn mark_completed(&mut self, task_id: u64)
        ensures
            final(self)@ == (SaveTrackerState {
                pending_saves: old(self)@.pending_saves.remove(task_id),
                ..old(self)@
            }),
    {
        path_table_remove(&mut self.pending_saves, task_id);
    }

    /// Returns the number of pending saves.
    pub fn pending_count(&self) -> (n: usize)
        ensures
            n == self@.pending_saves.dom().len(),
    {
        path_table_len(&self.pending_saves)
    }

    /// Checks whether a save is pending.
    pub fn is_pending(&self, task_id: u64) -> (pending: bool)
        ensures
            pending == self@.pending_saves.contains_key(task_id),
    {
        path_table_get(&self.pending_saves, task_id).is_some()
    }
}

/// What was found behind the handle of the image that is to be saved.
#[derive(Debug)]
pub enum SaveSource {
    /// The handle has no pixel data behind it.
    Missing,
    /// The pixel data cannot be brought into the working colour format, for the reason
    /// given.
    Unconvertible(String),
    /// The pixels, in the working colour format.
    Pixels(PixelImage),
}

/// The format in which previews are saved, whatever the format of their source.
pub open spec fn saved_extension() -> Seq<char> {
    "webp"@
}

/// The name of the format in which previews are saved.
pub open spec fn saved_format() -> Seq<char> {
    "WebP"@
}

/// The path that a save writes to: the target path with the extension of the saved format.
pub open spec fn write_path(target: Seq<char>) -> Seq<char> {
    if extension_of(target) == Some(saved_extension()) {
        target
    } else {
        with_extension(target, saved_extension())
    }
}

/// A save that has its pixels and knows where it writes.
#[derive(Debug)]
pub struct SaveJob {
    target_path: String,
    write_path: String,
    image: PixelImage,
}

/// A save whose bytes are encoded and wait to be written.
#[derive(Debug)]
pub struct EncodedPreview {
    target_path: String,
    write_path: String,
    bytes: Vec<u8>,
}

/// The bytes that encoding the pixels of an image of `width` by `height` as lossless WebP
/// gives, or the encoder's message where it refuses.
pub uninterp spec fn webp_encoding(pixels: Seq<u8>, width: u32, height: u32) -> Result<
    Seq<u8>,
    Seq<char>,
>;

/// The outcome of an encoding as plain values.
pub open spec fn encoding_view(encoded: Result<Vec<u8>, String>) -> Result<Seq<u8>, Seq<char>> {
    match encoded {
        Ok(bytes) => Ok(bytes@),
        Err(reason) => Err(reason@),
    }
}

/// `ImageBuffer::write_to` with `ImageFormat::WebP`, on a buffer of four-byte pixels: the
/// lossless encoder of the `image` crate. It refuses an image with a side of zero or of more
/// than 16384 pixels; beyond that the outcome is only given its name.
#[verifier::external_body]
fn encode_webp(pixels: &Vec<u8>, width: u32, height: u32) -> (encoded: Result<Vec<u8>, String>)
    requires
        pixels@.len() == 4 * (width * height),
    ensures
        encoding_view(encoded) == webp_encoding(pixels@, width, height),
        (width == 0 || width > 16384 || height == 0 || height > 16384) ==> encoded is Err,
{
    let buffer = match image::RgbaImage::from_raw(width, height, pixels.clone()) {
        Some(buffer) => buffer,
        None => return Err(String::new()),
    };
    let mut cursor = std::io::Cursor::new(Vec::new());
    match buffer.write_to(&mut cursor, image::ImageFormat::WebP) {
        Ok(()) => Ok(cursor.into_inner()),
        Err(error) => Err(error.to_string()),
    }
}

/// Computes the path that a save writes to.
pub fn target_write_path(target_path: &str) -> (path: String)
    ensures
        path@ == write_path(target_path@),
{
    proof {
        reveal_strlit("webp");
    }
    let n = target_path.unicode_len();
    let already = match find_extension(target_path) {
        Some(mark) => {
            let extension = String::from_str(target_path.substring_char(mark + 1, n));
            extension == String::from_str("webp")
        },
        None => false,
    };
    if already {
        String::from_str(target_path)
    } else {
        replace_extension(target_path, "webp")
    }
}

/// The path of `relative` below the directory `root`. A relative path that starts at the
/// root of the file system stands for itself.
pub open spec fn below(root: Seq<char>, relative: Seq<char>) -> Seq<char> {
    if root.len() == 0 || (relative.len() > 0 && relative[0] == '/') {
        relative
    } else if root.last() == '/' {
        root + relative
    } else {
        root + seq!['/'] + relative
    }
}

/// Computes where the preview of an asset is saved: below the cache root, at the asset's own
/// relative path, under the extension of the saved format.
pub fn preview_save_path(cache_root: &str, relative_path: &str) -> (path: String)
    ensures
        path@ == write_path(below(cache_root@, relative_path@)),
{
    proof {
        reveal_strlit("/");
        assert("/"@ =~= seq!['/']);
    }
    let root_len = cache_root.unicode_len();
    let relative_len = relative_path.unicode_len();
    let joined = if root_len == 0 || (relative_len > 0 && relative_path.get_char(0) == '/') {
        String::from_str(relative_path)
    } else if cache_root.get_char(root_len - 1) == '/' {
        let mut joined = String::from_str(cache_root);
        joined.append(relative_path);
        joined
    } else {
        let mut joined = String::from_str(cache_root);
        joined.append("/");
        joined.append(relative_path);
        joined
    };
    target_write_path(joined.as_str())
}

/// Starts the save of the image `handle` to `target_path`.
///
/// The save fails at once where the handle has no pixels behind it or the pixels cannot be
/// converted; else it gives the job that the later steps work on.
pub fn save_image(handle: u64, target_path: &str, source: SaveSource) -> (started: Result<
    SaveJob,
    AssetError,
>)
    ensures
        match source {
            SaveSource::Missing => started is Err && started->Err_0@
                == (AssetErrorView::ImageNotFound { handle }),
            SaveSource::Unconvertible(reason) => started is Err && started->Err_0@
                == AssetErrorView::ImageConversionFailed(reason@),
            SaveSource::Pixels(image) => started is Ok && started->Ok_0.target()
                == target_path@ && started->Ok_0.pixels() == image,
        },
{
    match source {
        SaveSource::Missing => Err(AssetError::ImageNotFound { handle }),
        SaveSource::Unconvertible(reason) => Err(AssetError::ImageConversionFailed(reason)),
        SaveSource::Pixels(image) => Ok(
            SaveJob {
                target_path: String::from_str(target_path),
                write_path: target_write_path(target_path),
                image,
            },
        ),
    }
}

impl SaveJob {
    /// The path that the save was asked for.
    pub closed spec fn target(&self) -> Seq<char> {
        self.target_path@
    }

    /// The image that is saved.
    pub closed spec fn pixels(&self) -> PixelImage {
        self.image
    }

    /// The path that the save writes to.
    pub closed spec fn destination(&self) -> Seq<char> {
        self.write_path@
    }

    /// The job's invariant, which holds of every job that exists at run time: it writes to
    /// its target path under the saved format's extension.
    #[verifier::type_invariant]
    pub open spec fn wf(&self) -> bool {
        self.destination() == write_path(self.target())
    }

    /// Encodes the image. A refusal of the encoder fails the save; else the bytes are what is
    /// to be written. The encoder refuses an image with a side of zero or of more than 16384
    /// pixels.
    pub fn encode(self) -> (encoded: Result<EncodedPreview, AssetError>)
        ensures
            match webp_encoding(
                self.pixels().bytes(),
                self.pixels().spec_width(),
                self.pixels().spec_height(),
            ) {
                Err(reason) => encoded is Err && encoded->Err_0@
                    == (AssetErrorView::ImageEncodeFailed { format: saved_format(), reason }),
                Ok(bytes) => encoded is Ok && encoded->Ok_0.bytes() == bytes
                    && encoded->Ok_0.target() == self.target() && encoded->Ok_0.destination()
                    == write_path(self.target()),
            },
            !(1 <= self.pixels().spec_width() <= 16384 && 1 <= self.pixels().spec_height()
                <= 16384) ==> encoded is Err,
    {
        proof {
            use_type_invariant(&self);
            use_type_invariant(&self.image);
        }
        match encode_webp(self.image.pixels(), self.image.width(), self.image.height()) {
            Ok(bytes) => Ok(
                EncodedPreview {
                    target_path: self.target_path,
                    write_path: self.write_path,
                    bytes,
                },
            ),
            Err(reason) => Err(
                AssetError::ImageEncodeFailed { format: String::from_str("WebP"), reason },
            ),
        }
    }
}

impl EncodedPreview {
    /// The path that the save was asked for.
    pub closed spec fn target(&self) -> Seq<char> {
        self.target_path@
    }

    /// The path that the save writes to.
    pub closed spec fn destination(&self) -> Seq<char> {
        self.write_path@
    }

    /// The encoded bytes.
    pub closed spec fn bytes(&self) -> Seq<u8> {
        self.bytes@
    }

    /// Returns the path to write to.
    pub fn write_path(&self) -> (path: &String)
        ensures
            path@ == self.destination(),
    {
        &self.write_path
    }

    /// Returns the bytes to write.
    pub fn encoded_bytes(&self) -> (bytes: &Vec<u8>)
        ensures
            bytes@ == self.bytes(),
    {
        &self.bytes
    }

    /// Returns the directory that has to exist before the save can write, if the path that
    /// it writes to lies in one.
    pub fn directory(&self) -> (directory: Option<String>)
        ensures
            match directory {
                Some(path) => parent_of(self.destination()) == Some(path@),
                None => parent_of(self.destination()) is None,
            },
    {
        parent_directory(self.write_path.as_str())
    }

    /// Goes on after the directory step. `created` is what creating the directory gave (`Ok`
    /// where there was no directory to create). Where the directory could not be created,
    /// the save fails with that reason and the directory's path; else the bytes are handed
    /// on to be written.
    pub fn directory_created(self, created: Result<(), String>) -> (ready: Result<
        EncodedPreview,
        AssetError,
    >)
        ensures
            match created {
                Err(reason) => ready is Err && ready->Err_0@
                    == (AssetErrorView::DirectoryCreationFailed {
                    path: match parent_of(self.destination()) {
                        Some(path) => path,
                        None => Seq::empty(),
                    },
                    reason: reason@,
                }),
                Ok(_) => ready is Ok && ready->Ok_0 == self,
            },
    {
        match created {
            Err(reason) => {
                let path = match parent_directory(self.write_path.as_str()) {
                    Some(path) => path,
                    None => {
                        let empty = String::new();
                        assert(empty@ =~= Seq::<char>::empty());
                        empty
                    },
                };
                Err(AssetError::DirectoryCreationFailed { path, reason })
            },
            Ok(_) => Ok(self),
        }
    }

    /// Ends the save with what writing the bytes gave: success, or a failure that names the
    /// path that the save was asked for.
    pub fn finish(self, written: Result<(), String>) -> (done: Result<(), AssetError>)
        ensures
            match written {
                Ok(_) => done is Ok,
                Err(reason) => done is Err && done->Err_0@ == (AssetErrorView::FileWriteFailed {
                    path: self.target(),
                    reason: reason@,
                }),
            },
    {
        match written {
            Ok(_) => Ok(()),
            Err(reason) => Err(AssetError::FileWriteFailed { path: self.target_path, reason }),
        }
    }
}

/// A save that is under way.
#[derive(Debug)]
pub struct ActiveSaveTask {
    /// The save.
    pub task_id: u64,
    /// The asset whose preview is saved.
    pub path: String,
    /// Where the preview is saved.
    pub target_path: String,
}

/// Announced when a save has ended, with how it ended.
#[derive(Debug)]
pub struct SaveCompleted {
    /// The save.
    pub task_id: u64,
    /// The asset whose preview was saved.
    pub path: String,
    /// Success, or the error of the step that failed.
    pub result: Result<(), AssetError>,
}

/// The outcome of a save as plain values.
pub open spec fn save_outcome(result: Result<(), AssetError>) -> Result<(), AssetErrorView> {
    match result {
        Ok(_) => Ok(()),
        Err(error) => Err(error@),
    }
}

/// Looks at one save that was polled. A save that has not ended stays pending and nothing
/// is announced. One that has ended is announced with its outcome and leaves the pending
/// set, whether it succeeded or failed.
pub fn monitor_save_completion(
    tracker: &mut SaveTaskTracker,
    task: &ActiveSaveTask,
    polled: Option<Result<(), AssetError>>,
) -> (completed: Option<SaveCompleted>)
    ensures
        match polled {
            None => completed is None && final(tracker)@ == old(tracker)@,
            Some(result) => {
                &&& completed is Some
                &&& completed->0.task_id == task.task_id
                &&& completed->0.path@ == task.path@
                &&& save_outcome(completed->0.result) == save_outcome(result)
                &&& final(tracker)@ == (SaveTrackerState {
                    pending_saves: old(tracker)@.pending_saves.remove(task.task_id),
                    ..old(tracker)@
                })
            },
        },
{
    match polled {
        None => None,
        Some(result) => {
            tracker.mark_completed(task.task_id);
            Some(SaveCompleted { task_id: task.task_id, path: task.path.clone(), result })
        },
    }
}

} // verus!
