use bevy_asset_preview::generate_previews_for_resolutions;
use bevy_asset_preview::resize_image_for_preview;
use bevy_asset_preview::thumbnail::preview_dimensions;
use bevy_asset_preview::thumbnail::PreviewSize;
use bevy_asset_preview::thumbnail::MAX_PREVIEW_SIZE;
use bevy_asset_preview::PixelImage;
use bevy_asset_preview::PreviewCache;
use std::time::Duration;

fn create_test_image(width: u32, height: u32, color: [u8; 4]) -> PixelImage {
    let pixel_data: Vec<u8> = (0..(width * height)).flat_map(|_| color.iter().copied()).collect();
    PixelImage::new(width, height, pixel_data).unwrap()
}

fn compression_cases(target: u32) {
    let small_image = create_test_image(64, 64, [128, 128, 128, 255]);
    let compressed_small = resize_image_for_preview(&small_image, target);
    assert!(compressed_small.is_none(), "Small image should not be compressed");

    let large_image = create_test_image(512, 512, [128, 128, 128, 255]);
    let compressed_large = resize_image_for_preview(&large_image, target);
    assert!(compressed_large.is_some(), "Large image should be compressed");
    let compressed = compressed_large.unwrap();
    assert!(
        compressed.width() <= 256 && compressed.height() <= 256,
        "Compressed image should be <= 256x256, got {}x{}",
        compressed.width(),
        compressed.height()
    );

    let wide_image = create_test_image(800, 200, [128, 128, 128, 255]);
    let compressed_wide = resize_image_for_preview(&wide_image, target);
    assert!(compressed_wide.is_some(), "Wide image should be compressed");
    let compressed = compressed_wide.unwrap();
    assert_eq!(compressed.width(), 256, "Wide image width should be 256");
    assert!(compressed.height() < 256, "Wide image height should be < 256");
    let expected_height = (200.0 * 256.0 / 800.0) as u32;
    assert_eq!(compressed.height(), expected_height, "Wide image should maintain aspect ratio");

    let tall_image = create_test_image(200, 800, [128, 128, 128, 255]);
    let compressed_tall = resize_image_for_preview(&tall_image, target);
    assert!(compressed_tall.is_some(), "Tall image should be compressed");
    let compressed = compressed_tall.unwrap();
    assert_eq!(compressed.height(), 256, "Tall image height should be 256");
    assert!(compressed.width() < 256, "Tall image width should be < 256");
    let expected_width = (200.0 * 256.0 / 800.0) as u32;
    assert_eq!(compressed.width(), expected_width, "Tall image should maintain aspect ratio");
}

#[test]
fn image_test_image_compression() {
    compression_cases(256);
}

#[test]
fn mod_test_image_compression() {
    compression_cases(MAX_PREVIEW_SIZE);
}

#[test]
fn preview_size_keeps_the_proportion() {
    assert_eq!(preview_dimensions(800, 200, 256), Some(PreviewSize { width: 256, height: 64 }));
    assert_eq!(preview_dimensions(200, 800, 256), Some(PreviewSize { width: 64, height: 256 }));
    assert_eq!(preview_dimensions(512, 512, 256), Some(PreviewSize { width: 256, height: 256 }));
    assert_eq!(preview_dimensions(300, 100, 256), Some(PreviewSize { width: 256, height: 85 }));
    assert_eq!(preview_dimensions(1000, 1, 256), Some(PreviewSize { width: 256, height: 0 }));
    assert_eq!(preview_dimensions(257, 256, 256), Some(PreviewSize { width: 256, height: 255 }));
    assert_eq!(preview_dimensions(5, 0, 2), Some(PreviewSize { width: 2, height: 0 }));
    assert_eq!(preview_dimensions(7, 9, 0), Some(PreviewSize { width: 0, height: 0 }));
    assert_eq!(
        preview_dimensions(u32::MAX, u32::MAX - 1, u32::MAX - 1),
        Some(PreviewSize { width: u32::MAX - 1, height: u32::MAX - 2 })
    );
}

#[test]
fn image_that_fits_is_not_resized() {
    assert_eq!(preview_dimensions(256, 256, 256), None);
    assert_eq!(preview_dimensions(64, 64, 256), None);
    assert_eq!(preview_dimensions(0, 0, 0), None);
    assert_eq!(preview_dimensions(1, 256, 256), None);
}

#[test]
fn pixel_image_takes_only_bytes_that_fit() {
    assert!(PixelImage::new(2, 3, vec![0; 24]).is_some());
    assert!(PixelImage::new(2, 3, vec![0; 23]).is_none());
    assert!(PixelImage::new(2, 3, vec![0; 25]).is_none());
    assert!(PixelImage::new(0, 3, Vec::new()).is_some());
    assert!(PixelImage::new(u32::MAX, u32::MAX, Vec::new()).is_none());
    let image = PixelImage::new(1, 2, vec![1, 2, 3, 4, 5, 6, 7, 8]).unwrap();
    assert_eq!(image.width(), 1);
    assert_eq!(image.height(), 2);
    assert_eq!(image.pixels(), &vec![1, 2, 3, 4, 5, 6, 7, 8]);
}

#[test]
fn resized_image_has_the_pixels_of_its_size() {
    let source = create_test_image(40, 20, [10, 20, 30, 255]);
    let resized = resize_image_for_preview(&source, 8).unwrap();
    assert_eq!((resized.width(), resized.height()), (8, 4));
    assert_eq!(resized.pixels().len(), 8 * 4 * 4);
    assert!(resized.pixels().chunks(4).all(|pixel| pixel == [10, 20, 30, 255]));

    let flat = create_test_image(100, 1, [1, 2, 3, 4]);
    let gone = resize_image_for_preview(&flat, 10).unwrap();
    assert_eq!((gone.width(), gone.height()), (10, 0));
    assert!(gone.pixels().is_empty());
}

#[test]
fn previews_are_generated_for_what_is_missing() {
    let mut cache = PreviewCache::new();
    let source = create_test_image(512, 256, [9, 9, 9, 255]);
    let resolutions = vec![64, 1024, 128, 64];
    let fresh = vec![1000, 1001, 1002, 1003];
    cache.insert("big.png", 5, 128, 77, Duration::from_secs(1));

    let generated = generate_previews_for_resolutions(
        &source,
        500,
        "big.png",
        5,
        &resolutions,
        &fresh,
        &mut cache,
        Duration::from_secs(2),
    );

    assert_eq!(generated.len(), 1);
    assert_eq!(generated[0].handle, 1000);
    assert_eq!(generated[0].resolution, 64);
    assert_eq!((generated[0].image.width(), generated[0].image.height()), (64, 32));
    assert_eq!(generated[0].image.pixels().len(), 64 * 32 * 4);

    assert_eq!(cache.len(), 3);
    let small = cache.get_by_path("big.png", Some(64)).unwrap();
    assert_eq!(small.image_handle, 1000);
    assert_eq!(small.asset_id, 5);
    assert_eq!(small.timestamp, Duration::from_secs(2));
    let kept = cache.get_by_path("big.png", Some(128)).unwrap();
    assert_eq!(kept.image_handle, 77);
    assert_eq!(kept.timestamp, Duration::from_secs(1));
    let whole = cache.get_by_path("big.png", Some(1024)).unwrap();
    assert_eq!(whole.image_handle, 500);
    assert_eq!(cache.get_by_path("big.png", None).unwrap().resolution, 1024);
}

#[test]
fn nothing_is_generated_without_resolutions() {
    let mut cache = PreviewCache::new();
    let source = create_test_image(4, 4, [0, 0, 0, 0]);
    let generated = generate_previews_for_resolutions(
        &source,
        1,
        "a.png",
        1,
        &Vec::new(),
        &Vec::new(),
        &mut cache,
        Duration::ZERO,
    );
    assert!(generated.is_empty());
    assert!(cache.is_empty());
}

#[test]
fn handles_that_are_not_needed_stay_unused() {
    let mut cache = PreviewCache::new();
    let source = create_test_image(100, 50, [1, 1, 1, 255]);
    let generated = generate_previews_for_resolutions(
        &source,
        500,
        "wide.png",
        5,
        &vec![200, 10, 100],
        &vec![900, 901, 902, 903],
        &mut cache,
        Duration::ZERO,
    );
    assert_eq!(generated.len(), 1);
    assert_eq!(generated[0].handle, 901);
    assert_eq!(generated[0].resolution, 10);
    assert_eq!((generated[0].image.width(), generated[0].image.height()), (10, 5));
    assert_eq!(cache.get_by_path("wide.png", Some(200)).unwrap().image_handle, 500);
    assert_eq!(cache.get_by_path("wide.png", Some(10)).unwrap().image_handle, 901);
    assert_eq!(cache.get_by_path("wide.png", Some(100)).unwrap().image_handle, 500);
}
