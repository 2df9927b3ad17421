use bevy_asset_preview::handle_image_preview_events;
use bevy_asset_preview::handle_preview_load_completed;
use bevy_asset_preview::handle_preview_load_failed;
use bevy_asset_preview::is_image_file;
use bevy_asset_preview::preview::completes_request;
use bevy_asset_preview::preview::invalidate_removed;
use bevy_asset_preview::ui::complete_waiting_entry;
use bevy_asset_preview::ui::find_waiting;
use bevy_asset_preview::preview_handler;
use bevy_asset_preview::preview_loaded_image;
use bevy_asset_preview::request_image_preview;
use bevy_asset_preview::ui::to_lower;
use bevy_asset_preview::ui::PreviewHandling;
use bevy_asset_preview::AssetError;
use bevy_asset_preview::AssetLoadCompleted;
use bevy_asset_preview::AssetLoadFailed;
use bevy_asset_preview::AssetLoader;
use bevy_asset_preview::AssetSignal;
use bevy_asset_preview::LoadPriority;
use bevy_asset_preview::PendingPreviewLoad;
use bevy_asset_preview::PendingPreviewRequest;
use bevy_asset_preview::PixelImage;
use bevy_asset_preview::PreviewCache;
use bevy_asset_preview::PreviewConfig;
use bevy_asset_preview::PreviewMode;
use bevy_asset_preview::PreviewRequestType;
use bevy_asset_preview::PreviewTaskManager;
use std::time::Duration;

fn image(width: u32, height: u32) -> PixelImage {
    PixelImage::new(width, height, vec![200; (width * height * 4) as usize]).unwrap()
}

fn pending(task_id: u64, path: &str) -> PendingPreviewRequest {
    PendingPreviewRequest {
        task_id,
        path: String::from(path),
        request_type: PreviewRequestType::Image2D,
        mode: PreviewMode::Image,
    }
}

#[test]
fn mod_test_is_image_file() {
    assert!(is_image_file("test.png"));
    assert!(is_image_file("test.jpg"));
    assert!(is_image_file("test.webp"));
    assert!(is_image_file("test.TGA"));

    assert!(!is_image_file("test.txt"));
    assert!(!is_image_file("test.rs"));
    assert!(!is_image_file("test"));
}

#[test]
fn preview_test_test_is_image_file() {
    assert!(is_image_file("test.png"));
    assert!(is_image_file("test.jpg"));
    assert!(is_image_file("test.jpeg"));
    assert!(is_image_file("test.bmp"));
    assert!(is_image_file("test.gif"));
    assert!(is_image_file("test.webp"));
    assert!(is_image_file("test.tga"));
    assert!(is_image_file("test.TGA"));

    assert!(!is_image_file("test.txt"));
    assert!(!is_image_file("test.rs"));
    assert!(!is_image_file("test"));
}

#[test]
fn every_image_extension_is_known_in_any_case() {
    for extension in [
        "png", "jpg", "jpeg", "bmp", "gif", "ico", "pnm", "pam", "pbm", "pgm", "ppm", "tga",
        "webp", "tiff", "tif", "dds", "exr", "hdr", "ktx2", "basis", "qoi",
    ] {
        assert!(is_image_file(&format!("dir/file.{extension}")));
        assert!(is_image_file(&format!("dir/file.{}", extension.to_uppercase())));
    }
    assert!(is_image_file("a.b.Png"));
    assert!(!is_image_file("png"));
    assert!(!is_image_file(".png"));
    assert!(!is_image_file("dir.png/file"));
    assert!(!is_image_file("file.png/"));
    assert!(!is_image_file("file.pngx"));
    assert!(!is_image_file("file.pn"));
    assert!(!is_image_file("file."));
    assert!(!is_image_file(""));
    assert_eq!(to_lower('A'), 'a');
    assert_eq!(to_lower('Z'), 'z');
    assert_eq!(to_lower('a'), 'a');
    assert_eq!(to_lower('['), '[');
    assert_eq!(to_lower('Ä'), 'Ä');
}

#[test]
fn cached_preview_is_ready_at_once() {
    let mut manager = PreviewTaskManager::new();
    let mut cache = PreviewCache::new();
    let loader = AssetLoader::new(4);
    cache.insert("icon.png", 3, 64, 30, Duration::ZERO);
    cache.insert("icon.png", 3, 256, 31, Duration::ZERO);

    let (task_id, ready) = request_image_preview(&mut manager, &cache, "icon.png", None);
    assert_eq!(task_id, 0);
    let ready = ready.unwrap();
    assert_eq!(ready.task_id, 0);
    assert_eq!(ready.path, "icon.png");
    assert_eq!(ready.image_handle, 31);
    assert_eq!(manager.get_entity(task_id), None);
    assert_eq!(loader.queue_len(), 0);
    assert_eq!(cache.len(), 2);

    let (second, ready) = request_image_preview(&mut manager, &cache, "icon.png", Some(64));
    assert_eq!(second, 1);
    assert_eq!(ready.unwrap().image_handle, 30);
}

#[test]
fn uncached_preview_waits_for_its_source() {
    let mut manager = PreviewTaskManager::default();
    let mut cache = PreviewCache::new();
    cache.insert("icon.png", 3, 64, 30, Duration::ZERO);

    let (task_id, ready) = request_image_preview(&mut manager, &cache, "icon.png", Some(128));
    assert_eq!(task_id, 0);
    assert!(ready.is_none());
    let (task_id, ready) = request_image_preview(&mut manager, &cache, "other.png", None);
    assert_eq!(task_id, 1);
    assert!(ready.is_none());

    manager.register_task(task_id, 900);
    assert_eq!(manager.get_entity(task_id), Some(900));
    assert_eq!(manager.get_entity(0), None);
    manager.remove_task(task_id);
    assert_eq!(manager.get_entity(task_id), None);
    assert_eq!(manager.create_task_id(), 2);
}

#[test]
fn loaded_source_is_previewed_at_every_resolution() {
    let mut cache = PreviewCache::new();
    let config = PreviewConfig::default();
    assert_eq!(config.resolutions, vec![64, 256]);
    assert_eq!(config.render_layer, 1);
    let source = image(128, 64);

    let (ready, generated) = preview_loaded_image(
        &mut cache,
        &config.resolutions,
        4,
        "mid.png",
        Some(64),
        &source,
        50,
        &vec![60, 61],
        Duration::from_secs(9),
    );
    assert_eq!(ready.task_id, 4);
    assert_eq!(ready.path, "mid.png");
    assert_eq!(ready.image_handle, 60);
    assert_eq!(generated.len(), 1);
    assert_eq!(generated[0].handle, 60);
    assert_eq!((generated[0].image.width(), generated[0].image.height()), (64, 32));
    assert_eq!(cache.len(), 2);
    assert_eq!(cache.get_by_path("mid.png", Some(256)).unwrap().image_handle, 50);
    assert_eq!(cache.get_by_id(50, None).unwrap().resolution, 256);
}

#[test]
fn source_is_shown_where_nothing_is_configured() {
    let mut cache = PreviewCache::new();
    let (ready, generated) = preview_loaded_image(
        &mut cache,
        &Vec::new(),
        1,
        "a.png",
        None,
        &image(8, 8),
        50,
        &Vec::new(),
        Duration::ZERO,
    );
    assert_eq!(ready.image_handle, 50);
    assert!(generated.is_empty());
    assert!(cache.is_empty());
}

#[test]
fn pending_request_completes_when_its_image_is_loaded() {
    let mut manager = PreviewTaskManager::new();
    let mut cache = PreviewCache::new();
    let (task_id, ready) = request_image_preview(&mut manager, &cache, "big.png", None);
    assert!(ready.is_none());
    manager.register_task(task_id, 70);
    let request = pending(task_id, "big.png");
    let source = image(512, 512);
    let resolutions = vec![64, 256];
    let fresh = vec![80, 81];

    let other = handle_image_preview_events(
        &mut manager,
        &mut cache,
        &resolutions,
        &AssetSignal::LoadedWithDependencies { id: 6 },
        &request,
        5,
        Some(&source),
        &fresh,
        Duration::ZERO,
    );
    assert!(other.ready.is_none() && other.failed.is_none() && !other.despawn);
    let early = handle_image_preview_events(
        &mut manager,
        &mut cache,
        &resolutions,
        &AssetSignal::LoadedWithDependencies { id: 5 },
        &request,
        5,
        None,
        &fresh,
        Duration::ZERO,
    );
    assert!(early.ready.is_none() && !early.despawn);
    assert_eq!(manager.get_entity(task_id), Some(70));
    assert!(cache.is_empty());

    let routed = handle_image_preview_events(
        &mut manager,
        &mut cache,
        &resolutions,
        &AssetSignal::LoadedWithDependencies { id: 5 },
        &request,
        5,
        Some(&source),
        &fresh,
        Duration::ZERO,
    );
    let ready = routed.ready.unwrap();
    assert_eq!(ready.task_id, task_id);
    assert_eq!(ready.path, "big.png");
    assert_eq!(ready.image_handle, 81);
    assert!(routed.failed.is_none());
    assert!(routed.despawn);
    assert_eq!(routed.generated.len(), 2);
    assert_eq!(manager.get_entity(task_id), None);
    assert_eq!(cache.len(), 2);
}

#[test]
fn pending_request_fails_when_its_image_is_removed() {
    let mut manager = PreviewTaskManager::new();
    let mut cache = PreviewCache::new();
    cache.insert("old.png", 5, 64, 90, Duration::ZERO);
    cache.insert("else.png", 6, 64, 91, Duration::ZERO);
    let task_id = manager.create_task_id();
    manager.register_task(task_id, 70);
    let request = pending(task_id, "old.png");
    let signal = AssetSignal::Removed { id: 5 };

    invalidate_removed(&mut cache, &signal);
    assert_eq!(cache.len(), 1);
    assert!(cache.get_by_path("old.png", None).is_none());
    invalidate_removed(&mut cache, &AssetSignal::Modified { id: 6 });
    assert_eq!(cache.len(), 1);

    let routed = handle_image_preview_events(
        &mut manager,
        &mut cache,
        &vec![64],
        &signal,
        &request,
        5,
        None,
        &vec![1],
        Duration::ZERO,
    );
    let failed = routed.failed.unwrap();
    assert_eq!(failed.task_id, task_id);
    assert_eq!(failed.path, "old.png");
    assert_eq!(failed.error, "Image asset was removed");
    assert!(routed.ready.is_none());
    assert!(routed.despawn);
    assert!(routed.generated.is_empty());
    assert_eq!(manager.get_entity(task_id), None);
    assert_eq!(cache.len(), 1);
}

#[test]
fn browser_entry_is_handled_by_kind_and_cache() {
    let mut loader = AssetLoader::new(4);
    let mut cache = PreviewCache::new();
    cache.insert("seen.png", 1, 64, 10, Duration::ZERO);

    assert!(matches!(
        preview_handler(&mut loader, &cache, "notes.txt"),
        PreviewHandling::Placeholder
    ));
    assert_eq!(loader.queue_len(), 0);

    match preview_handler(&mut loader, &cache, "seen.png") {
        PreviewHandling::Cached(handle) => assert_eq!(handle, 10),
        other => panic!("expected the cached preview, got {other:?}"),
    }
    assert_eq!(loader.queue_len(), 0);

    match preview_handler(&mut loader, &cache, "new.png") {
        PreviewHandling::Pending(pending) => {
            assert_eq!(pending.task_id, 0);
            assert_eq!(pending.asset_path, "new.png");
        }
        other => panic!("expected a queued load, got {other:?}"),
    }
    assert_eq!(loader.queue_len(), 1);
    let task = loader.peek_next().unwrap();
    assert_eq!(task.priority, LoadPriority::Preload);
    assert_eq!(task.path, "new.png");
    assert_eq!(loader.get_task_path(0), Some(&String::from("new.png")));
}

#[test]
fn completed_load_updates_the_waiting_entry() {
    let mut cache = PreviewCache::new();
    let waiting = PendingPreviewLoad { task_id: 3, asset_path: String::from("photo.png") };
    let event = AssetLoadCompleted {
        task_id: 3,
        path: String::from("photo.png"),
        handle: 40,
        priority: LoadPriority::Preload,
    };
    let unrelated = AssetLoadCompleted {
        task_id: 4,
        path: String::from("else.png"),
        handle: 41,
        priority: LoadPriority::Preload,
    };
    let source = image(1024, 512);
    let resolutions = vec![64, 256];
    let fresh = vec![50, 51];

    assert!(handle_preview_load_completed(&mut cache, &resolutions, &unrelated, &waiting, Some(&source), &fresh, Duration::ZERO).is_none());
    assert!(handle_preview_load_completed(&mut cache, &resolutions, &event, &waiting, None, &fresh, Duration::ZERO).is_none());
    assert!(cache.is_empty());

    let shown = handle_preview_load_completed(&mut cache, &resolutions, &event, &waiting, Some(&source), &fresh, Duration::ZERO).unwrap();
    assert_eq!(shown.image_handle, 51);
    assert_eq!(shown.generated.len(), 2);
    assert_eq!((shown.generated[1].image.width(), shown.generated[1].image.height()), (256, 128));
    assert_eq!(cache.len(), 2);
}

#[test]
fn failed_load_finds_the_first_waiting_entry() {
    let waiting = vec![
        PendingPreviewLoad { task_id: 5, asset_path: String::from("a.png") },
        PendingPreviewLoad { task_id: 7, asset_path: String::from("b.png") },
        PendingPreviewLoad { task_id: 7, asset_path: String::from("c.png") },
    ];
    let event = |task_id| AssetLoadFailed {
        task_id,
        path: String::from("b.png"),
        error: AssetError::AssetRemoved { path: String::from("b.png") },
    };
    assert_eq!(handle_preview_load_failed(&event(7), &waiting), Some(1));
    assert_eq!(handle_preview_load_failed(&event(5), &waiting), Some(0));
    assert_eq!(handle_preview_load_failed(&event(6), &waiting), None);
    assert_eq!(handle_preview_load_failed(&event(7), &Vec::new()), None);
}

#[test]
fn deferred_request_is_tracked_and_queued() {
    let mut manager = PreviewTaskManager::new();
    let mut loader = AssetLoader::new(4);
    loader.submit("earlier.png", LoadPriority::CurrentAccess);
    let cache = PreviewCache::new();
    let (task_id, ready) = request_image_preview(&mut manager, &cache, "far.png", None);
    assert!(ready.is_none());

    let (request, load_task) =
        bevy_asset_preview::defer_image_preview(&mut manager, &mut loader, task_id, 55, "far.png");
    assert_eq!(request.task_id, task_id);
    assert_eq!(request.path, "far.png");
    assert_eq!(request.request_type, PreviewRequestType::Image2D);
    assert_eq!(request.mode, PreviewMode::Image);
    assert_eq!(load_task, 1);
    assert_eq!(manager.get_entity(task_id), Some(55));
    assert_eq!(loader.queue_len(), 2);
    assert_eq!(loader.get_task_path(load_task), Some(&String::from("far.png")));
    assert_eq!(loader.peek_next().unwrap().path, "earlier.png");
}

#[test]
fn removal_report_drops_the_previews_of_the_asset() {
    let mut manager = PreviewTaskManager::new();
    let mut cache = PreviewCache::new();
    cache.insert("old.png", 5, 64, 90, Duration::ZERO);
    cache.insert("old.png", 5, 256, 92, Duration::ZERO);
    cache.insert("else.png", 6, 64, 91, Duration::ZERO);
    let task_id = manager.create_task_id();
    manager.register_task(task_id, 70);
    let request = pending(task_id, "old.png");

    let routed = handle_image_preview_events(
        &mut manager,
        &mut cache,
        &vec![64, 256],
        &AssetSignal::Removed { id: 5 },
        &request,
        5,
        None,
        &Vec::new(),
        Duration::ZERO,
    );
    let failed = routed.failed.unwrap();
    assert_eq!(failed.task_id, task_id);
    assert_eq!(failed.path, "old.png");
    assert!(routed.despawn);
    assert_eq!(manager.get_entity(task_id), None);
    assert!(cache.get_by_id(5, None).is_none());
    assert!(cache.get_by_path("old.png", None).is_none());
    assert_eq!(cache.len(), 1);
    assert_eq!(cache.get_by_id(6, None).unwrap().image_handle, 91);
}

#[test]
fn removal_of_another_asset_still_drops_its_previews() {
    let mut manager = PreviewTaskManager::new();
    let mut cache = PreviewCache::new();
    cache.insert("else.png", 6, 64, 91, Duration::ZERO);
    let task_id = manager.create_task_id();
    manager.register_task(task_id, 70);
    let request = pending(task_id, "mine.png");

    let routed = handle_image_preview_events(
        &mut manager,
        &mut cache,
        &vec![64],
        &AssetSignal::Removed { id: 6 },
        &request,
        5,
        None,
        &Vec::new(),
        Duration::ZERO,
    );
    assert!(routed.failed.is_none() && routed.ready.is_none() && !routed.despawn);
    assert_eq!(manager.get_entity(task_id), Some(70));
    assert!(cache.is_empty());
}

#[test]
fn handles_are_wanted_only_where_a_request_completes() {
    let source = image(4, 4);
    let loaded = AssetSignal::LoadedWithDependencies { id: 5 };
    assert!(completes_request(&loaded, 5, Some(&source)));
    assert!(!completes_request(&loaded, 5, None));
    assert!(!completes_request(&loaded, 6, Some(&source)));
    assert!(!completes_request(&AssetSignal::Removed { id: 5 }, 5, Some(&source)));
    assert!(!completes_request(&AssetSignal::Modified { id: 5 }, 5, Some(&source)));
}

#[test]
fn completed_load_updates_the_first_entry_that_waits() {
    let mut cache = PreviewCache::new();
    let waiting = vec![
        PendingPreviewLoad { task_id: 2, asset_path: String::from("a.png") },
        PendingPreviewLoad { task_id: 3, asset_path: String::from("photo.png") },
        PendingPreviewLoad { task_id: 3, asset_path: String::from("late.png") },
    ];
    let event = |task_id| AssetLoadCompleted {
        task_id,
        path: String::from("photo.png"),
        handle: 40,
        priority: LoadPriority::Preload,
    };
    let source = image(1024, 512);
    let resolutions = vec![64, 256];
    let fresh = vec![50, 51];
    assert_eq!(find_waiting(&waiting, 3), Some(1));
    assert_eq!(find_waiting(&waiting, 4), None);

    assert!(complete_waiting_entry(&mut cache, &resolutions, &event(4), &waiting, Some(&source), &fresh, Duration::ZERO).is_none());
    assert!(complete_waiting_entry(&mut cache, &resolutions, &event(3), &waiting, None, &fresh, Duration::ZERO).is_none());
    assert!(cache.is_empty());

    let updated = complete_waiting_entry(&mut cache, &resolutions, &event(3), &waiting, Some(&source), &fresh, Duration::ZERO).unwrap();
    assert_eq!(updated.at, 1);
    assert_eq!(updated.shown.image_handle, 51);
    assert_eq!(updated.shown.generated.len(), 2);
    assert_eq!(cache.len(), 2);
    assert!(cache.get_by_path("photo.png", Some(64)).is_some());
    assert!(cache.get_by_path("late.png", None).is_none());
}
