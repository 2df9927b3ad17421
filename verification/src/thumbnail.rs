//! Downscaled variants of a source image, one for each configured resolution.
//!
//! A source that already fits the target in both dimensions is used as it is. A larger one is
//! scaled so that its longer edge becomes the target and its shorter edge keeps the
//! proportion, rounded down.

use crate::cache::PreviewCache;
use crate::cache::PreviewCacheEntry;
use crate::cache_key::cache_key;
use crate::cache_model::lemma_with_wf;
use crate::cache_model::CacheState;
use core::time::Duration;
use vstd::arithmetic::div_mod::lemma_div_is_ordered;
use vstd::arithmetic::div_mod::lemma_div_multiples_vanish;
use vstd::arithmetic::div_mod::lemma_div_pos_is_pos;
use vstd::arithmetic::mul::lemma_mul_inequality;
use vstd::arithmetic::mul::lemma_mul_is_commutative;
use vstd::arithmetic::mul::lemma_mul_upper_bound;
use vstd::prelude::*;

verus! {

/// The largest preview that is made of a two-dimensional image where nothing else is
/// configured.
pub const MAX_PREVIEW_SIZE: u32 = 256;

/// The size of a preview: its width and its height in pixels.
#[derive(Clone, Copy, Debug, PartialEq, Eq, Structural)]
pub struct PreviewSize {
    pub width: u32,
    pub height: u32,
}

/// The size to which an image of `width` by `height` is scaled for a preview of at most
/// `target` pixels along its longer edge, or nothing where the image already fits.
pub open spec fn preview_size(width: u32, height: u32, target: u32) -> Option<PreviewSize> {
    if width <= target && height <= target {
        None
    } else if width > height {
        Some(PreviewSize { width: target, height: (height * target / (width as int)) as u32 })
    } else {
        Some(PreviewSize { width: (width * target / (height as int)) as u32, height: target })
    }
}

/// The scaled size is no larger than the source in either dimension, and no larger than the
/// target; its longer edge is the target.
pub proof fn lemma_preview_size_bounds(width: u32, height: u32, target: u32)
    requires
        preview_size(width, height, target) is Some,
    ensures
        ({
            let size = preview_size(width, height, target)->0;
            &&& size.width <= target
            &&& size.height <= target
            &&& size.width <= width
            &&& size.height <= height
            &&& size.width == target || size.height == target
            &&& width > height ==> size.height == height * target / (width as int)
            &&& width <= height ==> size.width == width * target / (height as int)
        }),
{
    let (long, short) = if width > height {
        (width as int, height as int)
    } else {
        (height as int, width as int)
    };
    let t = target as int;
    assert(long > t && long >= 1 && short <= long);
    lemma_mul_inequality(short, long, t);
    lemma_div_is_ordered(short * t, long * t, long);
    lemma_div_multiples_vanish(t, long);
    lemma_mul_inequality(t, long, short);
    lemma_mul_is_commutative(t, short);
    lemma_mul_is_commutative(long, short);
    lemma_div_is_ordered(short * t, long * short, long);
    lemma_div_multiples_vanish(short, long);
    assert(0 <= short * t) by (nonlinear_arith)
        requires
            0 <= short,
            0 <= t,
    ;
    lemma_div_pos_is_pos(short * t, long);
}

/// Computes the size to which an image is scaled for a preview, or nothing where the image
/// already fits the target.
pub fn preview_dimensions(width: u32, height: u32, target: u32) -> (size: Option<PreviewSize>)
    ensures
        size == preview_size(width, height, target),
{
    if width <= target && height <= target {
        return None;
    }
    proof {
        lemma_preview_size_bounds(width, height, target);
    }
    assert(height as u64 * target as u64 <= 0xffff_ffff * 0xffff_ffff) by (nonlinear_arith)
        requires
            height <= 0xffff_ffff,
            target <= 0xffff_ffff,
    ;
    assert(width as u64 * target as u64 <= 0xffff_ffff * 0xffff_ffff) by (nonlinear_arith)
        requires
            width <= 0xffff_ffff,
            target <= 0xffff_ffff,
    ;
    if width > height {
        let scaled = height as u64 * target as u64 / width as u64;
        Some(PreviewSize { width: target, height: scaled as u32 })
    } else {
        let scaled = width as u64 * target as u64 / height as u64;
        Some(PreviewSize { width: scaled as u32, height: target })
    }
}

/// An image in memory: rows of pixels from top to bottom, four bytes to the pixel (red,
/// green, blue, alpha).
#[derive(Debug)]
pub struct PixelImage {
    width: u32,
    height: u32,
    pixels: Vec<u8>,
}

impl PixelImage {
    /// The width in pixels.
    pub closed spec fn spec_width(&self) -> u32 {
        self.width
    }

    /// The height in pixels.
    pub closed spec fn spec_height(&self) -> u32 {
        self.height
    }

    /// The bytes of the pixels.
    pub closed spec fn bytes(&self) -> Seq<u8> {
        self.pixels@
    }

    /// Whether a buffer of `len` bytes holds an image of `width` by `height`: four bytes to
    /// the pixel, and few enough pixels that a working copy of four floating-point channels
    /// to the pixel can be held in memory.
    pub open spec fn fits(width: u32, height: u32, len: nat) -> bool {
        len == 4 * (width * height) && 16 * (width * height) <= isize::MAX
    }

    /// The image's invariant, which holds of every image that exists at run time: its buffer
    /// holds exactly its pixels.
    #[verifier::type_invariant]
    pub open spec fn wf(&self) -> bool {
        PixelImage::fits(self.spec_width(), self.spec_height(), self.bytes().len())
    }

    /// Makes an image of the given size from its bytes; nothing where the bytes do not fit
    /// the size.
    pub fn new(width: u32, height: u32, pixels: Vec<u8>) -> (image: Option<PixelImage>)
        ensures
            image is Some <==> PixelImage::fits(width, height, pixels@.len()),
            image is Some ==> image->0.wf() && image->0.spec_width() == width
                && image->0.spec_height() == height && image->0.bytes() == pixels@,
    {
        assert(0 <= width * height <= 0xffff_ffff * 0xffff_ffff) by (nonlinear_arith)
            requires
                0 <= width <= 0xffff_ffff,
                0 <= height <= 0xffff_ffff,
        ;
        let count = width as u128 * height as u128;
        if pixels.len() as u128 == 4 * count && 16 * count <= isize::MAX as u128 {
            Some(PixelImage { width, height, pixels })
        } else {
            None
        }
    }

    /// Returns the width in pixels.
    pub fn width(&self) -> (width: u32)
        ensures
            width == self.spec_width(),
    {
        self.width
    }

    /// Returns the height in pixels.
    pub fn height(&self) -> (height: u32)
        ensures
            height == self.spec_height(),
    {
        self.height
    }

    /// Returns the bytes of the pixels.
    pub fn pixels(&self) -> (pixels: &Vec<u8>)
        ensures
            pixels@ == self.bytes(),
    {
        &self.pixels
    }
}

/// `image::imageops::resize` with the `Lanczos3` filter, on a buffer of four-byte pixels:
/// the result is a buffer for an image of the new size. Which bytes it holds is not stated.
/// The bounds keep the buffers that the function allocates within what a vector can hold.
#[verifier::external_body]
fn resample(pixels: &Vec<u8>, width: u32, height: u32, new_width: u32, new_height: u32) -> (resized:
    Vec<u8>)
    requires
        pixels@.len() == 4 * (width * height),
        16 * (width * new_height) <= isize::MAX,
        4 * (new_width * new_height) <= isize::MAX,
    ensures
        resized@.len() == 4 * (new_width * new_height),
{
    match image::RgbaImage::from_raw(width, height, pixels.clone()) {
        Some(source) => image::imageops::resize(
            &source,
            new_width,
            new_height,
            image::imageops::FilterType::Lanczos3,
        ).into_raw(),
        None => Vec::new(),
    }
}

/// Resizes an image for a preview of at most `target_size` pixels along its longer edge.
/// Returns nothing where the image already fits, so that the source itself serves as the
/// preview.
pub fn resize_image_for_preview(image: &PixelImage, target_size: u32) -> (resized: Option<
    PixelImage,
>)
    ensures
        match preview_size(image.spec_width(), image.spec_height(), target_size) {
            None => resized is None,
            Some(size) => resized is Some && resized->0.wf() && resized->0.spec_width()
                == size.width && resized->0.spec_height() == size.height,
        },
{
    let size = match preview_dimensions(image.width, image.height, target_size) {
        Some(size) => size,
        None => { return None; },
    };
    proof {
        use_type_invariant(image);
        lemma_preview_size_bounds(image.width, image.height, target_size);
        lemma_mul_upper_bound(
            image.width as int,
            image.width as int,
            size.height as int,
            image.height as int,
        );
        lemma_mul_upper_bound(
            size.width as int,
            image.width as int,
            size.height as int,
            image.height as int,
        );
        assert(0 <= size.width * size.height) by (nonlinear_arith)
            requires
                0 <= size.width,
                0 <= size.height,
        ;
    }
    let pixels = resample(&image.pixels, image.width, image.height, size.width, size.height);
    Some(PixelImage { width: size.width, height: size.height, pixels })
}

/// A preview that was made by resizing, to be stored under the handle that it was given.
#[derive(Debug)]
pub struct GeneratedPreview {
    /// The handle under which the cache knows the preview.
    pub handle: u64,
    /// The resolution that the preview was made for.
    pub resolution: u32,
    /// The pixels of the preview.
    pub image: PixelImage,
}

/// What one generation of previews is made from.
pub struct PreviewSource {
    /// The width of the source image.
    pub width: u32,
    /// The height of the source image.
    pub height: u32,
    /// The handle of the source image.
    pub handle: u64,
    /// The path of the asset.
    pub path: Seq<char>,
    /// The asset's identity.
    pub asset_id: u64,
    /// The time that the new entries carry.
    pub timestamp: Duration,
}

impl PreviewSource {
    /// Whether the source is resized for `resolution`: it does not fit the resolution.
    pub open spec fn resizes(self, resolution: u32) -> bool {
        preview_size(self.width, self.height, resolution) is Some
    }

    /// The entry that is cached for `resolution`: it names the source itself where the
    /// source fits the resolution, and else the handle `fresh` of the resized image.
    pub open spec fn entry(self, resolution: u32, fresh: u64) -> PreviewCacheEntry {
        PreviewCacheEntry {
            image_handle: if self.resizes(resolution) {
                fresh
            } else {
                self.handle
            },
            asset_id: self.asset_id,
            resolution,
            timestamp: self.timestamp,
        }
    }

    /// The cache after previews have been generated for `resolutions`, in their order: a
    /// resolution that the path already has is left alone, every other one gets its entry.
    /// The resolution at position `i` uses the handle at position `i` of `fresh`, which has
    /// a handle for every resolution.
    pub open spec fn cached(self, state: CacheState, resolutions: Seq<u32>, fresh: Seq<u64>)
        -> CacheState
        decreases resolutions.len(),
    {
        if resolutions.len() == 0 {
            state
        } else {
            let before = self.cached(state, resolutions.drop_last(), fresh);
            let resolution = resolutions.last();
            if before.holds(self.path, resolution) {
                before
            } else {
                before.with(
                    cache_key(self.path, resolution),
                    self.entry(resolution, fresh[resolutions.len() - 1]),
                )
            }
        }
    }

    /// The positions in `resolutions` for which an image is made by resizing, in their
    /// order: those whose resolution the path lacks when its turn comes and for which the
    /// source is resized.
    pub open spec fn resized(self, state: CacheState, resolutions: Seq<u32>, fresh: Seq<u64>)
        -> Seq<int>
        decreases resolutions.len(),
    {
        if resolutions.len() == 0 {
            Seq::empty()
        } else {
            let before = self.cached(state, resolutions.drop_last(), fresh);
            let earlier = self.resized(state, resolutions.drop_last(), fresh);
            let resolution = resolutions.last();
            if !before.holds(self.path, resolution) && self.resizes(resolution) {
                earlier.push(resolutions.len() - 1)
            } else {
                earlier
            }
        }
    }
}

/// Generating previews keeps the cache's invariant.
pub proof fn lemma_cached_wf(
    source: PreviewSource,
    state: CacheState,
    resolutions: Seq<u32>,
    fresh: Seq<u64>,
)
    requires
        state.wf(),
    ensures
        source.cached(state, resolutions, fresh).wf(),
    decreases resolutions.len(),
{
    if resolutions.len() > 0 {
        lemma_cached_wf(source, state, resolutions.drop_last(), fresh);
        let before = source.cached(state, resolutions.drop_last(), fresh);
        lemma_with_wf(
            before,
            source.path,
            source.entry(resolutions.last(), fresh[resolutions.len() - 1]),
        );
    }
}

/// After previews have been generated, the path has a preview at every resolution asked
/// for.
pub proof fn lemma_cached_holds_all(
    source: PreviewSource,
    state: CacheState,
    resolutions: Seq<u32>,
    fresh: Seq<u64>,
    i: int,
)
    requires
        0 <= i < resolutions.len(),
    ensures
        source.cached(state, resolutions, fresh).holds(source.path, resolutions[i]),
    decreases resolutions.len(),
{
    let front = resolutions.drop_last();
    let before = source.cached(state, front, fresh);
    if i < resolutions.len() - 1 {
        lemma_cached_holds_all(source, state, front, fresh, i);
        assert(front[i] == resolutions[i]);
    }
}

/// Generates the previews of an image for the resolutions given and caches them.
///
/// For each resolution that the path does not have yet, in the order given: where the source
/// fits the resolution, the source's own handle is cached; else the source is resized, the
/// result is returned with the handle from the same position of `fresh_handles`, and that
/// handle is cached. The caller gives a handle for every resolution; those that are not
/// used stay unused.
pub fn generate_previews_for_resolutions(
    original_image: &PixelImage,
    original_handle: u64,
    path: &str,
    asset_id: u64,
    resolutions: &Vec<u32>,
    fresh_handles: &Vec<u64>,
    cache: &mut PreviewCache,
    timestamp: Duration,
) -> (generated: Vec<GeneratedPreview>)
    requires
        old(cache).wf(),
        fresh_handles@.len() >= resolutions@.len(),
    ensures
        final(cache).wf(),
        ({
            let source = PreviewSource {
                width: original_image.spec_width(),
                height: original_image.spec_height(),
                handle: original_handle,
                path: path@,
                asset_id,
                timestamp,
            };
            let made = source.resized(old(cache)@, resolutions@, fresh_handles@);
            &&& final(cache)@ == source.cached(old(cache)@, resolutions@, fresh_handles@)
            &&& generated@.len() == made.len()
            &&& forall|k: int|
                0 <= k < made.len() ==> {
                    &&& 0 <= made[k] < resolutions@.len()
                    &&& (#[trigger] generated@[k]).handle == fresh_handles@[made[k]]
                    &&& generated@[k].resolution == resolutions@[made[k]]
                    &&& generated@[k].image.wf()
                    &&& preview_size(source.width, source.height, generated@[k].resolution)
                        == Some(
                        PreviewSize {
                            width: generated@[k].image.spec_width(),
                            height: generated@[k].image.spec_height(),
                        },
                    )
                }
        }),
{
    let ghost source = PreviewSource {
        width: original_image.spec_width(),
        height: original_image.spec_height(),
        handle: original_handle,
        path: path@,
        asset_id,
        timestamp,
    };
    let ghost start = cache@;
    let mut generated: Vec<GeneratedPreview> = Vec::new();
    let mut i: usize = 0;
    assert(resolutions@.subrange(0, 0) =~= Seq::<u32>::empty());
    while i < resolutions.len()
        invariant
            i <= resolutions.len(),
            fresh_handles@.len() >= resolutions@.len(),
            cache.wf(),
            source == (PreviewSource {
                width: original_image.spec_width(),
                height: original_image.spec_height(),
                handle: original_handle,
                path: path@,
                asset_id,
                timestamp,
            }),
            cache@ == source.cached(start, resolutions@.subrange(0, i as int), fresh_handles@),
            generated@.len() == source.resized(
                start,
                resolutions@.subrange(0, i as int),
                fresh_handles@,
            ).len(),
            forall|k: int|
                0 <= k < generated@.len() ==> {
                    let at = source.resized(
                        start,
                        resolutions@.subrange(0, i as int),
                        fresh_handles@,
                    )[k];
                    &&& 0 <= at < i
                    &&& (#[trigger] generated@[k]).handle == fresh_handles@[at]
                    &&& generated@[k].resolution == resolutions@[at]
                    &&& generated@[k].image.wf()
                    &&& preview_size(source.width, source.height, generated@[k].resolution)
                        == Some(
                        PreviewSize {
                            width: generated@[k].image.spec_width(),
                            height: generated@[k].image.spec_height(),
                        },
                    )
                },
        decreases resolutions.len() - i,
    {
        let resolution = resolutions[i];
        let ghost done = resolutions@.subrange(0, i as int);
        let ghost next = resolutions@.subrange(0, i + 1);
        let ghost made_before = source.resized(start, done, fresh_handles@);
        let ghost generated_before = generated@;
        assert(next.drop_last() =~= done);
        assert(next.last() == resolution);
        if cache.get_by_path(path, Some(resolution)).is_none() {
            let handle = match resize_image_for_preview(original_image, resolution) {
                Some(image) => {
                    let handle = fresh_handles[i];
                    generated.push(GeneratedPreview { handle, resolution, image });
                    handle
                },
                None => original_handle,
            };
            cache.insert(path, asset_id, resolution, handle, timestamp);
        }
        proof {
            let made_after = source.resized(start, next, fresh_handles@);
            assert forall|k: int| 0 <= k < generated@.len() implies {
                let at = made_after[k];
                &&& 0 <= at < i + 1
                &&& (#[trigger] generated@[k]).handle == fresh_handles@[at]
                &&& generated@[k].resolution == resolutions@[at]
                &&& generated@[k].image.wf()
                &&& preview_size(source.width, source.height, generated@[k].resolution) == Some(
                    PreviewSize {
                        width: generated@[k].image.spec_width(),
                        height: generated@[k].image.spec_height(),
                    },
                )
            } by {
                if k < generated_before.len() {
                    assert(generated@[k] == generated_before[k]);
                    assert(made_after[k] == made_before[k]);
                }
            }
        }
        i += 1;
    }
    assert(resolutions@.subrange(0, i as int) =~= resolutions@);
    generated
}

} // verus!
