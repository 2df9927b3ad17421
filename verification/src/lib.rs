//! Priority-ordered asset loading and preview caching for an editor's asset browser.
//!
//! Given the path of an asset, the pipeline produces a small preview of it and keeps the
//! preview in a cache, so that a file browser can show it without stalling. This crate is
//! the engine of that pipeline. Its functions are verified against their contracts; the few
//! that call into another crate (the hash maps, the resampler, the encoder) say in their
//! documentation what is taken on trust.
//!
//! - [`priority`], [`task`], [`queue`]: load requests and the order in which they are served;
//! - [`loader`]: the queue behind a cap on concurrent loads, and the tables that correlate
//!   tasks, tracking entities and resources;
//! - [`active`], [`events`], [`routing`]: the loads under way, and how the asset system's
//!   reports find their way back to them;
//! - [`cache_key`], [`cache_model`], [`cache`]: the preview cache with its two indexes;
//! - [`thumbnail`]: preview sizes and the generation of previews at every resolution;
//! - [`preview`], [`scene`], [`ui`]: preview requests for images and for rendered assets, and
//!   the file browser's entries;
//! - [`paths`], [`saver`]: where previews are saved, and the steps of a save;
//! - [`directory`]: the order of a directory's content in the browser;
//! - [`tables`]: the hash maps underneath, taken on trust.
//!
//! Assets, images and entities appear here as plain numbers and paths as text. Loading,
//! rendering and writing are the caller's: each function says what is to be done next and is
//! told what came of it.

use vstd::prelude::*;

pub mod active;
pub mod cache;
pub mod cache_key;
pub mod cache_model;
pub mod directory;
pub mod error;
pub mod events;
pub mod loader;
pub mod paths;
pub mod preview;
pub mod priority;
pub mod queue;
pub mod routing;
pub mod saver;
pub mod scene;
pub mod tables;
pub mod task;
pub mod thumbnail;
pub mod ui;

pub use crate::active::ActiveLoads;
pub use crate::cache::PreviewCache;
pub use crate::cache::PreviewCacheEntry;
pub use crate::directory::AssetBrowserLocation;
pub use crate::directory::DirectoryContent;
pub use crate::directory::DirectoryContentOrder;
pub use crate::directory::Entry;
pub use crate::error::AssetError;
pub use crate::events::AssetHotReloaded;
pub use crate::events::AssetLoadCompleted;
pub use crate::events::AssetLoadFailed;
pub use crate::events::AssetSignal;
pub use crate::events::LoadState;
pub use crate::events::LoaderEvent;
pub use crate::loader::process_load_queue;
pub use crate::loader::ActiveLoadTask;
pub use crate::loader::AssetLoader;
pub use crate::preview::defer_image_preview;
pub use crate::preview::handle_image_preview_events;
pub use crate::preview::invalidate_removed;
pub use crate::preview::preview_loaded_image;
pub use crate::preview::request_image_preview;
pub use crate::preview::PendingPreviewRequest;
pub use crate::preview::PreviewConfig;
pub use crate::preview::PreviewFailed;
pub use crate::preview::PreviewMode;
pub use crate::preview::PreviewReady;
pub use crate::preview::PreviewRequestType;
pub use crate::preview::PreviewTaskManager;
pub use crate::priority::LoadPriority;
pub use crate::routing::handle_asset_events;
pub use crate::routing::poll_load_tasks;
pub use crate::saver::monitor_save_completion;
pub use crate::saver::save_image;
pub use crate::saver::ActiveSaveTask;
pub use crate::saver::SaveCompleted;
pub use crate::saver::SaveTaskTracker;
pub use crate::scene::capture_preview_screenshot;
pub use crate::scene::process_3d_preview_requests;
pub use crate::scene::wait_for_asset_load;
pub use crate::scene::PreviewScene3D;
pub use crate::scene::WaitingForScreenshot;
pub use crate::task::LoadTask;
pub use crate::thumbnail::generate_previews_for_resolutions;
pub use crate::thumbnail::resize_image_for_preview;
pub use crate::thumbnail::PixelImage;
pub use crate::ui::check_failed_loads;
pub use crate::ui::complete_waiting_entry;
pub use crate::ui::handle_preview_load_completed;
pub use crate::ui::handle_preview_load_failed;
pub use crate::ui::is_image_file;
pub use crate::ui::preview_handler;
pub use crate::ui::PendingPreviewLoad;
pub use crate::ui::PreviewAsset;

verus! {

/// The kinds of asset that a preview can be made of.
#[derive(Debug, Clone, Copy, PartialEq, Eq, Hash, Structural)]
pub enum AssetPreviewType {
    Image,
    GLTF,
    Scene,
    Other,
}

} // verus!
