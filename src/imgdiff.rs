use vstd::prelude::*;

use crate::background::{background_of, detect_background};
use crate::image::MinImage;
use crate::pixel::{distance, min_max_distance, pixel_distance, pixel_min_max_distance, Rgba8};

verus! {

/// How a difference image was drawn.
#[derive(PartialEq, Eq, Structural, Clone, Copy, Debug)]
pub enum DiffImageMethod {
    /// Red where the left image is brighter, green where the right one is.
    RedGreen,
    /// The changed pixels of the right image over a faded copy of the left one.
    Overlay,
}

impl DiffImageMethod {
    /// The method's name, as shown to a user.
    pub fn to_string(&self) -> (r: String)
        ensures
            r@ == method_name(*self),
    {
        match self {
            DiffImageMethod::RedGreen => String::from_str("RedGreen"),
            DiffImageMethod::Overlay => String::from_str("Overlay"),
        }
    }
}

pub open spec fn method_name(m: DiffImageMethod) -> Seq<char> {
    match m {
        DiffImageMethod::RedGreen => "RedGreen"@,
        DiffImageMethod::Overlay => "Overlay"@,
    }
}

/// A visualisation of the difference of two images.
#[derive(Debug)]
pub struct DiffImage {
    pub method: DiffImageMethod,
    pub image: MinImage,
}

/// The outcome of comparing two images.
#[derive(Debug)]
pub enum ImageDifference {
    /// The images are pixel for pixel the same.
    Identical,
    /// The images have different dimensions, as (width, height).
    SizeMismatch { left_size: (u32, u32), right_size: (u32, u32) },
    /// The images differ in at least one pixel. Where a background is shared,
    /// `n_pixels` leaves out the pixels that are that background on both sides.
    Content {
        diff_images: Vec<DiffImage>,
        background: Option<Rgba8>,
        n_pixels: u64,
        n_different_pixels: u64,
        distance_sum: u64,
    },
}

/// Red/green map pixel: pure red with the intensity by which the left pixel is
/// brighter, where that dominates, else pure green with the intensity by which
/// the right pixel is brighter; always opaque.
pub open spec fn red_green_pixel(p: Rgba8, q: Rgba8) -> Rgba8 {
    let (diff_min, diff_max) = min_max_distance(p, q);
    if diff_min > diff_max {
        Rgba8 { r: diff_min, g: 0, b: 0, a: 255 }
    } else {
        Rgba8 { r: 0, g: diff_max, b: 0, a: 255 }
    }
}

/// Overlay pixel: the right pixel where the two differ; else the left pixel
/// with its alpha divided by three when above half opacity (128 of 255 or
/// more), and cleared otherwise.
pub open spec fn overlay_pixel(p: Rgba8, q: Rgba8) -> Rgba8 {
    if distance(p, q) > 0 {
        q
    } else if p.a >= 128 {
        Rgba8 { a: (p.a / 3) as u8, ..p }
    } else {
        Rgba8 { a: 0, ..p }
    }
}

pub open spec fn red_green_pixels(l: Seq<Rgba8>, r: Seq<Rgba8>) -> Seq<Rgba8> {
    Seq::new(l.len(), |i: int| red_green_pixel(l[i], r[i]))
}

pub open spec fn overlay_pixels(l: Seq<Rgba8>, r: Seq<Rgba8>) -> Seq<Rgba8> {
    Seq::new(l.len(), |i: int| overlay_pixel(l[i], r[i]))
}

/// Sum of the pixel distances over the first `n` positions.
pub open spec fn distance_total(l: Seq<Rgba8>, r: Seq<Rgba8>, n: int) -> nat
    decreases n,
{
    if n <= 0 {
        0
    } else {
        distance_total(l, r, n - 1) + distance(l[n - 1], r[n - 1]) as nat
    }
}

/// Number of positions among the first `n` where the pixels differ.
pub open spec fn count_different(l: Seq<Rgba8>, r: Seq<Rgba8>, n: int) -> nat
    decreases n,
{
    if n <= 0 {
        0
    } else {
        count_different(l, r, n - 1) + if l[n - 1] != r[n - 1] { 1nat } else { 0nat }
    }
}

/// Number of positions among the first `n` where both pixels are `bg`.
pub open spec fn count_shared(l: Seq<Rgba8>, r: Seq<Rgba8>, bg: Rgba8, n: int) -> nat
    decreases n,
{
    if n <= 0 {
        0
    } else {
        count_shared(l, r, bg, n - 1) + if l[n - 1] == r[n - 1] && l[n - 1] == bg {
            1nat
        } else {
            0nat
        }
    }
}

/// The background used for scoring: one detected on both sides, and the same.
pub open spec fn shared_background(l: Seq<Rgba8>, r: Seq<Rgba8>) -> Option<Rgba8> {
    match (background_of(l), background_of(r)) {
        (Some(a), Some(b)) => if a == b {
            Some(a)
        } else {
            None
        },
        _ => None,
    }
}

/// The pixels that count for the score: all of them, less those that are the
/// shared background on both sides.
pub open spec fn counted_pixels(l: Seq<Rgba8>, r: Seq<Rgba8>) -> int {
    match shared_background(l, r) {
        Some(bg) => l.len() - count_shared(l, r, bg, l.len() as int),
        None => l.len() as int,
    }
}

/// `x` as a `u64`, or `u64::MAX` where it does not fit.
pub open spec fn saturated(x: nat) -> u64 {
    if x <= u64::MAX {
        x as u64
    } else {
        u64::MAX
    }
}

pub open spec fn same_size(left: &MinImage, right: &MinImage) -> bool {
    left.width == right.width && left.height == right.height
}

/// The images compare as equal: same dimensions and no differing pixel.
pub open spec fn compares_equal(left: &MinImage, right: &MinImage) -> bool {
    same_size(left, right) && count_different(left.data@, right.data@, left.data@.len() as int)
        == 0
}

proof fn lemma_counts_bounded(l: Seq<Rgba8>, r: Seq<Rgba8>, bg: Rgba8, n: int)
    requires
        0 <= n,
    ensures
        count_different(l, r, n) + count_shared(l, r, bg, n) <= n,
    decreases n,
{
    if n > 0 {
        lemma_counts_bounded(l, r, bg, n - 1);
    }
}

/// Draws the red/green map of two images of the same size, and sums the
/// pixel distances on the way (saturating at `u64::MAX`).
fn compute_rg_diff_image(left: &MinImage, right: &MinImage) -> (r: (MinImage, u64))
    requires
        left.wf(),
        right.wf(),
        same_size(left, right),
    ensures
        r.0.width == left.width,
        r.0.height == left.height,
        r.0.data@ == red_green_pixels(left.data@, right.data@),
        r.1 == saturated(distance_total(left.data@, right.data@, left.data@.len() as int)),
{
    let n = left.data.len();
    let mut data: Vec<Rgba8> = Vec::with_capacity(n);
    let mut distance_sum: u64 = 0;
    let mut i: usize = 0;
    while i < n
        invariant
            n == left.data@.len(),
            n == right.data@.len(),
            0 <= i <= n,
            data@ =~= red_green_pixels(left.data@, right.data@).subrange(0, i as int),
            distance_sum == saturated(distance_total(left.data@, right.data@, i as int)),
        decreases n - i,
    {
        let p1 = left.data[i];
        let p2 = right.data[i];
        let (diff_min, diff_max) = pixel_min_max_distance(p1, p2);
        let d = if diff_max > diff_min { diff_max } else { diff_min };
        proof {
            crate::pixel::lemma_distance_is_max_excess(p1, p2);
        }
        distance_sum = distance_sum.saturating_add(d as u64);
        if diff_min > diff_max {
            data.push(Rgba8 { r: diff_min, g: 0, b: 0, a: u8::MAX });
        } else {
            data.push(Rgba8 { r: 0, g: diff_max, b: 0, a: u8::MAX });
        }
        i = i + 1;
    }
    (MinImage { width: left.width, height: left.height, data }, distance_sum)
}

/// Draws the overlay map of two images of the same size.
fn compute_overlay_diff_image(left: &MinImage, right: &MinImage) -> (r: MinImage)
    requires
        left.wf(),
        right.wf(),
        same_size(left, right),
    ensures
        r.width == left.width,
        r.height == left.height,
        r.data@ == overlay_pixels(left.data@, right.data@),
{
    let n = left.data.len();
    let mut data: Vec<Rgba8> = Vec::with_capacity(n);
    let mut i: usize = 0;
    while i < n
        invariant
            n == left.data@.len(),
            n == right.data@.len(),
            0 <= i <= n,
            data@ =~= overlay_pixels(left.data@, right.data@).subrange(0, i as int),
        decreases n - i,
    {
        let p1 = left.data[i];
        let p2 = right.data[i];
        if pixel_distance(p1, p2) > 0 {
            data.push(p2);
        } else if p1.a >= 128 {
            data.push(Rgba8 { a: p1.a / 3, ..p1 });
        } else {
            data.push(Rgba8 { a: 0, ..p1 });
        }
        i = i + 1;
    }
    MinImage { width: left.width, height: left.height, data }
}

/// `d` is the comparison of `left` with `right`: a size mismatch with both
/// sizes where the dimensions differ; `Identical` exactly where no pixel
/// differs; else the content difference with its counts, its shared background
/// and its two visualisations.
pub open spec fn is_comparison(left: &MinImage, right: &MinImage, d: ImageDifference) -> bool {
    &&& (!same_size(left, right) ==> d == (ImageDifference::SizeMismatch {
        left_size: (left.width, left.height),
        right_size: (right.width, right.height),
    }))
    &&& (d is Identical <==> compares_equal(left, right))
    &&& (same_size(left, right) && !compares_equal(left, right) ==> match d {
        ImageDifference::Content {
            diff_images,
            background,
            n_pixels,
            n_different_pixels,
            distance_sum,
        } => {
            let (l, rt) = (left.data@, right.data@);
            &&& background == shared_background(l, rt)
            &&& n_pixels == counted_pixels(l, rt)
            &&& n_different_pixels == count_different(l, rt, l.len() as int)
            &&& distance_sum == saturated(distance_total(l, rt, l.len() as int))
            &&& diff_images@.len() == 2
            &&& diff_images@[0].method == DiffImageMethod::RedGreen
            &&& diff_images@[0].image.width == left.width
            &&& diff_images@[0].image.height == left.height
            &&& diff_images@[0].image.data@ == red_green_pixels(l, rt)
            &&& diff_images@[1].method == DiffImageMethod::Overlay
            &&& diff_images@[1].image.width == left.width
            &&& diff_images@[1].image.height == left.height
            &&& diff_images@[1].image.data@ == overlay_pixels(l, rt)
        },
        _ => false,
    })
    &&& (d matches ImageDifference::Content { n_different_pixels, .. } ==> n_different_pixels > 0)
}

/// Compares two images: a size mismatch, no difference, or the difference in
/// content with its counts and its two visualisations.
pub fn compare_images(left: &MinImage, right: &MinImage) -> (r: ImageDifference)
    requires
        left.wf(),
        right.wf(),
    ensures
        is_comparison(left, right, r),
{
    if left.width != right.width || left.height != right.height {
        return ImageDifference::SizeMismatch {
            left_size: (left.width, left.height),
            right_size: (right.width, right.height),
        };
    }
    let mut n_pixels: u64 = left.pixel_count();
    let background = match (detect_background(&left.data), detect_background(&right.data)) {
        (Some(bg1), Some(bg2)) => if bg1 == bg2 {
            Some(bg1)
        } else {
            None
        },
        _ => None,
    };
    let n = left.data.len();
    let ghost bg_any = match background {
        Some(bg) => bg,
        None => Rgba8 { r: 0, g: 0, b: 0, a: 0 },
    };
    let mut n_different_pixels: u64 = 0;
    let mut i: usize = 0;
    while i < n
        invariant
            n == left.data@.len(),
            n == right.data@.len(),
            n == left.width as int * left.height as int,
            0 <= i <= n,
            background == shared_background(left.data@, right.data@),
            background is Some ==> bg_any == background->Some_0,
            n_different_pixels == count_different(left.data@, right.data@, i as int),
            n_pixels == n - (if background is Some {
                count_shared(left.data@, right.data@, bg_any, i as int)
            } else {
                0
            }),
        decreases n - i,
    {
        proof {
            lemma_counts_bounded(left.data@, right.data@, bg_any, i as int);
        }
        let pl = left.data[i];
        let pr = right.data[i];
        if pl == pr {
            match background {
                Some(bg) => if pl == bg {
                    n_pixels = n_pixels - 1;
                },
                None => {},
            }
        } else {
            n_different_pixels = n_different_pixels + 1;
        }
        i = i + 1;
    }
    if n_different_pixels == 0 {
        return ImageDifference::Identical;
    }
    let (rg_diff_image, distance_sum) = compute_rg_diff_image(left, right);
    let overlay_diff_image = compute_overlay_diff_image(left, right);
    let mut diff_images: Vec<DiffImage> = Vec::new();
    diff_images.push(DiffImage { method: DiffImageMethod::RedGreen, image: rg_diff_image });
    diff_images.push(DiffImage { method: DiffImageMethod::Overlay, image: overlay_diff_image });
    ImageDifference::Content {
        diff_images,
        background,
        n_pixels,
        n_different_pixels,
        distance_sum,
    }
}

proof fn lemma_no_difference_with_itself(l: Seq<Rgba8>, n: int)
    ensures
        count_different(l, l, n) == 0,
    decreases n,
{
    if n > 0 {
        lemma_no_difference_with_itself(l, n - 1);
    }
}

proof fn lemma_count_shared_symmetric(l: Seq<Rgba8>, r: Seq<Rgba8>, bg: Rgba8, n: int)
    ensures
        count_shared(l, r, bg, n) == count_shared(r, l, bg, n),
    decreases n,
{
    if n > 0 {
        lemma_count_shared_symmetric(l, r, bg, n - 1);
    }
}

/// Two images of the same dimensions whose pixel buffers are identical compare
/// as equal, so `compare_images` returns `Identical` for them.
pub proof fn lemma_identical_images_compare_equal(left: &MinImage, right: &MinImage)
    requires
        left.wf(),
        right.wf(),
        same_size(left, right),
        left.data@ == right.data@,
    ensures
        compares_equal(left, right),
        forall|d: ImageDifference| is_comparison(left, right, d) ==> d is Identical,
{
    lemma_no_difference_with_itself(left.data@, left.data@.len() as int);
}

/// Background exclusion is symmetric: with the two images swapped, the shared
/// background and the number of counted pixels stay the same.
pub proof fn lemma_background_exclusion_symmetric(left: &MinImage, right: &MinImage)
    requires
        left.wf(),
        right.wf(),
        same_size(left, right),
    ensures
        shared_background(left.data@, right.data@) == shared_background(right.data@, left.data@),
        counted_pixels(left.data@, right.data@) == counted_pixels(right.data@, left.data@),
{
    let (l, r) = (left.data@, right.data@);
    if let Some(bg) = shared_background(l, r) {
        lemma_count_shared_symmetric(l, r, bg, l.len() as int);
    }
}

} // verus!
