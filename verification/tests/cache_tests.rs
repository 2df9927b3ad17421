use bevy_asset_preview::cache_key::append_decimal;
use bevy_asset_preview::cache_key::cache_path_for_resolution;
use bevy_asset_preview::cache_key::extract_resolution_from_filename;
use bevy_asset_preview::cache_key::parse_cache_path;
use bevy_asset_preview::cache_key::parse_resolution_suffix;
use bevy_asset_preview::PreviewCache;
use std::time::Duration;

#[test]
fn test_cache_path_parsing() {
    let path = "test.png";
    let cache_path = PreviewCache::cache_path_for_resolution(path, 64);
    assert_eq!(cache_path, "test_64x64.png");

    let parsed = PreviewCache::parse_cache_path(&cache_path);
    assert!(parsed.is_some());
    let (original, res) = parsed.unwrap();
    assert_eq!(original, "test.png");
    assert_eq!(res, 64);

    let path2 = "path/to/image.jpg";
    let cache_path2 = PreviewCache::cache_path_for_resolution(path2, 256);
    assert_eq!(cache_path2.rsplit('/').next().unwrap(), "image_256x256.jpg");

    let parsed2 = PreviewCache::parse_cache_path(&cache_path2);
    assert!(parsed2.is_some());
    let (original2, res2) = parsed2.unwrap();
    assert_eq!(original2.rsplit('/').next().unwrap(), "image.jpg");
    assert_eq!(res2, 256);
}

#[test]
fn test_preview_cache_operations() {
    let (handle1, handle2): (u64, u64) = (1, 2);
    let (asset_id1, asset_id2): (u64, u64) = (1, 2);
    let path1 = "test1.png";
    let path2 = "test2.png";

    let mut cache = PreviewCache::default();

    cache.insert(path1, asset_id1, 256, handle1, Duration::from_secs(100));
    cache.insert(path2, asset_id2, 256, handle2, Duration::from_secs(200));

    assert_eq!(cache.len(), 2, "Cache should contain 2 entries");
    assert!(!cache.is_empty(), "Cache should not be empty");

    let entry1 = cache.get_by_path(path1, None).unwrap();
    assert_eq!(entry1.asset_id, asset_id1, "Entry should match asset ID");
    assert_eq!(entry1.timestamp, Duration::from_secs(100), "Entry should match timestamp");
    assert_eq!(entry1.resolution, 256, "Entry should have correct resolution");

    let entry1_by_id = cache.get_by_id(asset_id1, None).unwrap();
    assert_eq!(entry1_by_id.image_handle, handle1, "Entry by ID should match");

    let entry2_by_path = cache.get_by_path(path2, None).unwrap();
    let entry2_by_id = cache.get_by_id(asset_id2, None).unwrap();
    assert_eq!(
        entry2_by_path.image_handle, entry2_by_id.image_handle,
        "Path and ID queries should return same entry"
    );

    cache.insert(path1, asset_id1, 64, handle1, Duration::from_secs(150));
    assert_eq!(cache.len(), 3, "Cache should have 3 entries now");

    let entry1_64 = cache.get_by_path(path1, Some(64)).unwrap();
    assert_eq!(entry1_64.resolution, 64, "64px entry should exist");
    let entry1_256 = cache.get_by_path(path1, Some(256)).unwrap();
    assert_eq!(entry1_256.resolution, 256, "256px entry should exist");
    let entry1_default = cache.get_by_path(path1, None).unwrap();
    assert_eq!(entry1_default.resolution, 256, "None should return highest resolution");

    let all_entries = cache.get_all_by_path(path1);
    assert_eq!(all_entries.len(), 2, "Should have 2 resolutions for path1");
    assert_eq!(all_entries[0].resolution, 64);
    assert_eq!(all_entries[1].resolution, 256);

    cache.remove_by_path(path1, Some(64));
    assert_eq!(cache.len(), 2, "Cache should have 2 entries after removal");
    assert!(cache.get_by_path(path1, Some(64)).is_none(), "64px entry should be removed");
    assert!(cache.get_by_path(path1, Some(256)).is_some(), "256px entry should still exist");

    let removed = cache.remove_by_path(path1, None);
    assert!(removed.is_some(), "Should have removed entry");
    assert_eq!(cache.len(), 1, "Cache should have 1 entry after removal");
    assert!(cache.get_by_path(path1, None).is_none(), "Path should be removed");
    assert!(cache.get_by_id(asset_id1, None).is_none(), "ID should be removed");

    let removed2 = cache.remove_by_id(asset_id2, None);
    assert!(removed2.is_some(), "Should have removed entry");
    assert_eq!(cache.len(), 0, "Cache should be empty");
    assert!(cache.is_empty(), "Cache should be empty");

    cache.insert(path1, asset_id1, 256, handle1, Duration::from_secs(100));
    cache.insert(path1, asset_id1, 256, handle1, Duration::from_secs(300));
    assert_eq!(cache.len(), 1, "Cache should have 1 entry after duplicate insert");
    assert_eq!(
        cache.get_by_path(path1, Some(256)).unwrap().timestamp,
        Duration::from_secs(300),
        "Entry should be updated"
    );

    cache.clear();
    assert_eq!(cache.len(), 0, "Cache should be empty after clear");
    assert!(cache.is_empty(), "Cache should be empty after clear");
}

#[test]
fn cache_key_puts_the_resolution_in_front_of_the_extension() {
    assert_eq!(cache_path_for_resolution("test.png", 64), "test_64x64.png");
    assert_eq!(cache_path_for_resolution("path/to/image.jpg", 256), "path/to/image_256x256.jpg");
    assert_eq!(cache_path_for_resolution("archive.tar.gz", 8), "archive.tar_8x8.gz");
    assert_eq!(cache_path_for_resolution("noextension", 128), "noextension_128x128");
    assert_eq!(cache_path_for_resolution("dir.v2/name", 1), "dir.v2/name_1x1");
    assert_eq!(cache_path_for_resolution(".hidden", 32), "_32x32.hidden");
    assert_eq!(cache_path_for_resolution("", 0), "_0x0");
    assert_eq!(cache_path_for_resolution("dir/", 5), "dir/_5x5");
    assert_eq!(
        cache_path_for_resolution("a.png", u32::MAX),
        "a_4294967295x4294967295.png"
    );
    assert_eq!(cache_path_for_resolution("bild_größe.png", 16), "bild_größe_16x16.png");
}

#[test]
fn cache_key_reads_back() {
    for path in ["test.png", "a/b/c.d.e", "plain", "", "x_64x64.png", "dir.with.dots/file", ".hidden", "ü/ö.ä"] {
        for resolution in [0u32, 1, 64, 256, 1000, u32::MAX] {
            let key = cache_path_for_resolution(path, resolution);
            assert_eq!(parse_cache_path(&key), Some((String::from(path), resolution)));
        }
    }
}

#[test]
fn text_that_is_no_cache_key_is_refused() {
    assert_eq!(parse_cache_path("test.png"), None);
    assert_eq!(parse_cache_path("test_64.png"), None);
    assert_eq!(parse_cache_path("test_64x32.png"), None);
    assert_eq!(parse_cache_path("test_x.png"), None);
    assert_eq!(parse_cache_path("test_64x.png"), None);
    assert_eq!(parse_cache_path("test_x64.png"), None);
    assert_eq!(parse_cache_path("test_64x64y.png"), None);
    assert_eq!(parse_cache_path("dir_64x64/test.png"), None);
    assert_eq!(parse_cache_path("test_4294967296x4294967296.png"), None);
    assert_eq!(parse_cache_path(""), None);
}

#[test]
fn resolution_suffix_follows_number_parsing() {
    assert_eq!(parse_resolution_suffix("64x64"), Some(64));
    assert_eq!(parse_resolution_suffix("064x64"), Some(64));
    assert_eq!(parse_resolution_suffix("+64x64"), Some(64));
    assert_eq!(parse_resolution_suffix("64x+64"), None);
    assert_eq!(parse_resolution_suffix("-64x-64"), None);
    assert_eq!(parse_resolution_suffix("0x0"), Some(0));
    assert_eq!(parse_resolution_suffix("4294967295x4294967295"), Some(u32::MAX));
    assert_eq!(parse_resolution_suffix("4294967296x4294967296"), None);
    assert_eq!(parse_resolution_suffix("64"), None);
    assert_eq!(parse_resolution_suffix("x"), None);
    assert_eq!(parse_resolution_suffix("+x"), None);
    assert_eq!(parse_resolution_suffix("6 4x64"), None);
    assert_eq!(parse_resolution_suffix("1x1x1"), None);
    assert_eq!(parse_resolution_suffix(""), None);
}

#[test]
fn resolution_is_taken_out_of_a_file_name() {
    assert_eq!(
        extract_resolution_from_filename("image_64x64.png"),
        Some((String::from("image.png"), 64))
    );
    assert_eq!(
        extract_resolution_from_filename("image_256x256"),
        Some((String::from("image"), 256))
    );
    assert_eq!(
        extract_resolution_from_filename("a_b_8x8.tar.gz"),
        None
    );
    assert_eq!(
        extract_resolution_from_filename("a_b.tar_8x8.gz"),
        Some((String::from("a_b.tar.gz"), 8))
    );
    assert_eq!(extract_resolution_from_filename("image.png"), None);
}

#[test]
fn decimal_numerals_are_written_without_leading_zeros() {
    for (n, text) in [(0u64, "0"), (7, "7"), (10, "10"), (256, "256"), (4294967295, "4294967295"), (u64::MAX, "18446744073709551615")] {
        let mut out = String::from("n=");
        append_decimal(&mut out, n);
        assert_eq!(out, format!("n={text}"));
    }
}

#[test]
fn insert_then_get_gives_the_entry_back() {
    let mut cache = PreviewCache::new();
    cache.insert("a/b.png", 7, 64, 70, Duration::from_millis(5));
    let entry = cache.get_by_path("a/b.png", Some(64)).unwrap();
    assert_eq!(entry.image_handle, 70);
    assert_eq!(entry.asset_id, 7);
    assert_eq!(entry.resolution, 64);
    assert_eq!(entry.timestamp, Duration::from_millis(5));
    assert!(cache.get_by_path("a/b.png", Some(65)).is_none());
    assert!(cache.get_by_path("a/c.png", Some(64)).is_none());

    cache.insert("a/b.png", 7, 256, 71, Duration::from_millis(6));
    let best = cache.get_by_path("a/b.png", None).unwrap();
    assert_eq!(best.resolution, 256);
    assert_eq!(best.image_handle, 71);
    assert_eq!(cache.get_by_id(7, None).unwrap().image_handle, 71);
    assert_eq!(cache.get_by_id(7, Some(64)).unwrap().image_handle, 70);
    assert!(cache.get_by_id(7, Some(128)).is_none());
    assert!(cache.get_by_id(8, None).is_none());
}

#[test]
fn highest_resolution_does_not_depend_on_insertion_order() {
    let mut cache = PreviewCache::new();
    for resolution in [256u32, 64, 1024, 128, 0] {
        cache.insert("p.png", 1, resolution, u64::from(resolution), Duration::ZERO);
    }
    assert_eq!(cache.get_by_path("p.png", None).unwrap().resolution, 1024);
    assert_eq!(cache.get_by_id(1, None).unwrap().resolution, 1024);
    let all: Vec<u32> = cache.get_all_by_path("p.png").iter().map(|e| e.resolution).collect();
    assert_eq!(all, vec![0, 64, 128, 256, 1024]);
    assert!(cache.get_all_by_path("q.png").is_empty());
}

#[test]
fn preview_at_resolution_zero_is_still_found() {
    let mut cache = PreviewCache::new();
    cache.insert("zero.png", 3, 0, 30, Duration::ZERO);
    assert_eq!(cache.get_by_path("zero.png", None).unwrap().image_handle, 30);
    assert_eq!(cache.get_by_id(3, None).unwrap().image_handle, 30);
}

#[test]
fn overwriting_keeps_the_length_and_the_second_value() {
    let mut cache = PreviewCache::new();
    cache.insert("p.png", 1, 64, 10, Duration::from_secs(1));
    cache.insert("q.png", 2, 64, 20, Duration::from_secs(1));
    assert_eq!(cache.len(), 2);
    cache.insert("p.png", 1, 64, 11, Duration::from_secs(2));
    assert_eq!(cache.len(), 2);
    let entry = cache.get_by_path("p.png", Some(64)).unwrap();
    assert_eq!(entry.image_handle, 11);
    assert_eq!(entry.timestamp, Duration::from_secs(2));
    assert_eq!(cache.get_by_id(1, None).unwrap().image_handle, 11);
}

#[test]
fn overwriting_under_another_asset_moves_the_key() {
    let mut cache = PreviewCache::new();
    cache.insert("p.png", 1, 64, 10, Duration::ZERO);
    cache.insert("p.png", 2, 64, 20, Duration::ZERO);
    assert_eq!(cache.len(), 1);
    assert!(cache.get_by_id(1, None).is_none());
    assert!(cache.get_by_id(1, Some(64)).is_none());
    assert_eq!(cache.get_by_id(2, Some(64)).unwrap().image_handle, 20);
    assert!(cache.remove_by_id(1, None).is_none());
    assert_eq!(cache.len(), 1);
    assert_eq!(cache.remove_by_id(2, None).unwrap().image_handle, 20);
    assert!(cache.is_empty());
}

#[test]
fn removal_by_path_reaches_the_identity_index() {
    let mut cache = PreviewCache::new();
    cache.insert("p.png", 1, 64, 10, Duration::ZERO);
    cache.insert("p.png", 1, 256, 11, Duration::ZERO);
    cache.insert("other.png", 2, 64, 20, Duration::ZERO);

    let removed = cache.remove_by_path("p.png", None).unwrap();
    assert_eq!(removed.resolution, 256);
    assert_eq!(cache.len(), 1);
    assert!(cache.get_by_path("p.png", None).is_none());
    assert!(cache.get_by_path("p.png", Some(64)).is_none());
    assert!(cache.get_by_id(1, None).is_none());
    assert!(cache.get_by_id(1, Some(64)).is_none());
    assert_eq!(cache.get_by_id(2, None).unwrap().image_handle, 20);
    assert!(cache.remove_by_path("p.png", None).is_none());
    assert!(cache.remove_by_path("p.png", Some(64)).is_none());
}

#[test]
fn removal_by_asset_reaches_the_path_index() {
    let mut cache = PreviewCache::new();
    cache.insert("p.png", 1, 64, 10, Duration::ZERO);
    cache.insert("p.png", 1, 256, 11, Duration::ZERO);
    cache.insert("q.png", 1, 64, 12, Duration::ZERO);
    cache.insert("other.png", 2, 64, 20, Duration::ZERO);

    assert_eq!(cache.get_by_id(1, Some(64)).unwrap().image_handle, 10);
    let one = cache.remove_by_id(1, Some(64)).unwrap();
    assert_eq!(one.image_handle, 10);
    assert_eq!(cache.len(), 3);
    assert!(cache.get_by_path("p.png", Some(64)).is_none());
    assert_eq!(cache.get_by_id(1, Some(64)).unwrap().image_handle, 12);

    let first = cache.remove_by_id(1, None).unwrap();
    assert_eq!(first.image_handle, 11);
    assert_eq!(cache.len(), 1);
    assert!(cache.get_by_path("p.png", None).is_none());
    assert!(cache.get_by_path("q.png", None).is_none());
    assert!(cache.get_by_id(1, None).is_none());
    assert_eq!(cache.get_by_path("other.png", None).unwrap().image_handle, 20);
    assert!(cache.remove_by_id(1, Some(64)).is_none());
}

#[test]
fn paths_that_look_like_cache_keys_are_kept_apart() {
    let mut cache = PreviewCache::new();
    cache.insert("a.png", 1, 64, 10, Duration::ZERO);
    cache.insert("a_64x64.png", 2, 32, 20, Duration::ZERO);
    assert_eq!(cache.len(), 2);
    assert_eq!(cache.get_by_path("a.png", None).unwrap().image_handle, 10);
    assert_eq!(cache.get_by_path("a_64x64.png", None).unwrap().image_handle, 20);
    assert!(cache.get_by_path("a.png", Some(32)).is_none());
    cache.remove_by_path("a.png", None);
    assert_eq!(cache.get_by_path("a_64x64.png", Some(32)).unwrap().image_handle, 20);
    assert_eq!(cache.len(), 1);
}
