use bevy_asset_preview::error::AssetError;
use bevy_asset_preview::monitor_save_completion;
use bevy_asset_preview::paths::parent_directory;
use bevy_asset_preview::paths::replace_extension;
use bevy_asset_preview::save_image;
use bevy_asset_preview::saver::preview_save_path;
use bevy_asset_preview::saver::target_write_path;
use bevy_asset_preview::saver::SaveSource;
use bevy_asset_preview::ActiveSaveTask;
use bevy_asset_preview::PixelImage;
use bevy_asset_preview::SaveTaskTracker;

#[test]
fn test_task_id_generation() {
    let mut tracker = SaveTaskTracker::default();
    assert_eq!(tracker.create_task_id(), 0);
    assert_eq!(tracker.create_task_id(), 1);
    assert_eq!(tracker.create_task_id(), 2);
}

#[test]
fn test_pending_save_registration() {
    let mut tracker = SaveTaskTracker::default();
    let id1 = tracker.create_task_id();
    let id2 = tracker.create_task_id();

    let path1 = String::from("test1.png");
    tracker.register_pending(id1, path1.clone());
    assert_eq!(tracker.pending_count(), 1);
    assert!(tracker.is_pending(id1));

    let path2 = String::from("test2.png");
    tracker.register_pending(id2, path2.clone());
    assert_eq!(tracker.pending_count(), 2);
    assert!(tracker.is_pending(id2));
}

#[test]
fn test_mark_completed() {
    let mut tracker = SaveTaskTracker::default();
    let id1 = tracker.create_task_id();
    let id2 = tracker.create_task_id();

    let path1 = String::from("test1.png");
    let path2 = String::from("test2.png");
    tracker.register_pending(id1, path1);
    tracker.register_pending(id2, path2);

    assert_eq!(tracker.pending_count(), 2);
    tracker.mark_completed(id1);
    assert_eq!(tracker.pending_count(), 1);
    assert!(!tracker.is_pending(id1));
    assert!(tracker.is_pending(id2));

    tracker.mark_completed(id2);
    assert_eq!(tracker.pending_count(), 0);
    assert!(!tracker.is_pending(id2));
}

fn image(width: u32, height: u32) -> PixelImage {
    let bytes = (0..width * height * 4).map(|i| (i % 251) as u8).collect();
    PixelImage::new(width, height, bytes).unwrap()
}

#[test]
fn saved_previews_get_the_webp_extension() {
    assert_eq!(target_write_path("cache/a.png"), "cache/a.webp");
    assert_eq!(target_write_path("cache/a.webp"), "cache/a.webp");
    assert_eq!(target_write_path("cache/a"), "cache/a.webp");
    assert_eq!(target_write_path("cache/a.WEBP"), "cache/a.webp");
    assert_eq!(target_write_path("a.tar.gz"), "a.tar.webp");
    assert_eq!(target_write_path(".hidden"), ".hidden.webp");
    assert_eq!(target_write_path("dir.d/"), "dir.d/");
    assert_eq!(target_write_path(""), "");
    assert_eq!(replace_extension("x/y.z", "q"), "x/y.q");
}

#[test]
fn previews_are_saved_below_the_cache_root() {
    assert_eq!(
        preview_save_path("cache/asset_preview", "textures/wall.png"),
        "cache/asset_preview/textures/wall.webp"
    );
    assert_eq!(preview_save_path("cache/", "a.jpg"), "cache/a.webp");
    assert_eq!(preview_save_path("", "a.jpg"), "a.webp");
    assert_eq!(preview_save_path("cache", "/abs/a.jpg"), "/abs/a.webp");
    assert_eq!(preview_save_path("cache", "a.webp"), "cache/a.webp");
    assert_eq!(preview_save_path("cache", ""), "cache/");
}

#[test]
fn directory_of_a_path() {
    assert_eq!(parent_directory("a/b/c.png"), Some(String::from("a/b")));
    assert_eq!(parent_directory("c.png"), Some(String::new()));
    assert_eq!(parent_directory("/c.png"), Some(String::from("/")));
    assert_eq!(parent_directory("/"), None);
    assert_eq!(parent_directory(""), None);
    assert_eq!(parent_directory("a/"), Some(String::from("a")));
}

#[test]
fn save_without_pixels_fails_at_once() {
    match save_image(17, "out/a.png", SaveSource::Missing) {
        Err(AssetError::ImageNotFound { handle }) => assert_eq!(handle, 17),
        other => panic!("expected a missing image, got {other:?}"),
    }
}

#[test]
fn save_of_unconvertible_pixels_fails_at_once() {
    match save_image(17, "out/a.png", SaveSource::Unconvertible(String::from("compressed"))) {
        Err(AssetError::ImageConversionFailed(reason)) => assert_eq!(reason, "compressed"),
        other => panic!("expected a conversion failure, got {other:?}"),
    }
}

#[test]
fn save_runs_through_its_steps() {
    let job = save_image(1, "out/thumbs/a.png", SaveSource::Pixels(image(3, 2))).unwrap();
    let encoded = job.encode().unwrap();
    assert_eq!(encoded.directory(), Some(String::from("out/thumbs")));
    assert_eq!(encoded.write_path(), "out/thumbs/a.webp");
    let encoded = encoded.directory_created(Ok(())).unwrap();
    assert_eq!(encoded.write_path(), "out/thumbs/a.webp");
    let bytes = encoded.encoded_bytes();
    assert!(bytes.len() > 12);
    assert_eq!(&bytes[0..4], b"RIFF");
    assert_eq!(&bytes[8..12], b"WEBP");
    assert!(encoded.finish(Ok(())).is_ok());
}

#[test]
fn encoding_is_repeatable() {
    let first = save_image(1, "a.png", SaveSource::Pixels(image(5, 4))).unwrap().encode().unwrap();
    let second = save_image(2, "b.png", SaveSource::Pixels(image(5, 4))).unwrap().encode().unwrap();
    assert_eq!(first.encoded_bytes(), second.encoded_bytes());
    assert_ne!(first.encoded_bytes(), image(5, 4).pixels());
}

#[test]
fn save_fails_where_the_directory_cannot_be_created() {
    let job = save_image(1, "out/thumbs/a.png", SaveSource::Pixels(image(3, 2))).unwrap();
    match job.encode().unwrap().directory_created(Err(String::from("read-only"))) {
        Err(AssetError::DirectoryCreationFailed { path, reason }) => {
            assert_eq!(path, "out/thumbs");
            assert_eq!(reason, "read-only");
        }
        other => panic!("expected a directory failure, got {other:?}"),
    }
}

#[test]
fn save_fails_where_the_encoder_refuses() {
    for (width, height) in [(0u32, 0u32), (0, 5), (5, 0), (16385, 1), (1, 16385)] {
        let job = save_image(1, "a.png", SaveSource::Pixels(image(width, height))).unwrap();
        match job.encode() {
            Err(AssetError::ImageEncodeFailed { format, reason }) => {
                assert_eq!(format, "WebP");
                assert!(!reason.is_empty());
            }
            other => panic!("expected an encoder refusal, got {other:?}"),
        }
    }
    let widest = save_image(1, "a.png", SaveSource::Pixels(image(16384, 1))).unwrap();
    assert!(widest.encode().is_ok());
}

#[test]
fn save_fails_where_the_write_fails() {
    let job = save_image(1, "out/a.png", SaveSource::Pixels(image(1, 1))).unwrap();
    let encoded = job.encode().unwrap();
    match encoded.finish(Err(String::from("disk full"))) {
        Err(AssetError::FileWriteFailed { path, reason }) => {
            assert_eq!(path, "out/a.png");
            assert_eq!(reason, "disk full");
        }
        other => panic!("expected a write failure, got {other:?}"),
    }
}

#[test]
fn ended_save_leaves_the_pending_set() {
    let mut tracker = SaveTaskTracker::default();
    let id = tracker.create_task_id();
    tracker.register_pending(id, String::from("a.png"));
    let task = ActiveSaveTask {
        task_id: id,
        path: String::from("a.png"),
        target_path: String::from("out/a.png"),
    };

    assert!(monitor_save_completion(&mut tracker, &task, None).is_none());
    assert!(tracker.is_pending(id));

    let failure = AssetError::Io(String::from("interrupted"));
    let completed = monitor_save_completion(&mut tracker, &task, Some(Err(failure.clone()))).unwrap();
    assert_eq!(completed.task_id, id);
    assert_eq!(completed.path, "a.png");
    match completed.result {
        Err(AssetError::Io(reason)) => assert_eq!(reason, "interrupted"),
        other => panic!("expected the failure handed in, got {other:?}"),
    }
    assert!(!tracker.is_pending(id));
    assert_eq!(tracker.pending_count(), 0);

    let other = AssetError::AssetWriter(String::from("closed"));
    match other.clone() {
        AssetError::AssetWriter(reason) => assert_eq!(reason, "closed"),
        unexpected => panic!("clone changed the error: {unexpected:?}"),
    }
    let done = monitor_save_completion(&mut tracker, &task, Some(Ok(()))).unwrap();
    assert!(done.result.is_ok());
}
