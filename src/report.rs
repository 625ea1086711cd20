use vstd::prelude::*;

use crate::error::Error;
use crate::image::{png_encoding, samples_of_pixels, MinImage};

verus! {

/// Longest side, in pixels, at which an image is shown in a report.
pub const IMAGE_SIZE_LIMIT: u32 = 400;

/// Below this size, in pixels, a zoomed image is shown pixelated.
pub const IMAGE_PIXELIZE_LIMIT: u32 = 400;

/// How hard to work on making PNG data smaller.
#[derive(PartialEq, Eq, Structural, Clone, Copy, Debug)]
pub enum SizeOptimizationLevel {
    /// Leave the data as it is.
    Disabled,
    Fast,
    High,
}

/// What oxipng's `optimize_from_memory` yields for `data` with the options of
/// `preset` and the given grayscale reduction; none where it fails.
pub uninterp spec fn oxipng_output(data: Seq<u8>, preset: u8, grayscale_reduction: bool) -> Option<Seq<u8>>;

/// Relies on oxipng's `Options::from_preset` and `optimize_from_memory`; with
/// no timeout and without the `parallel` feature, the output depends on the
/// arguments alone.
#[verifier::external_body]
fn oxipng_optimize(data: &[u8], preset: u8, grayscale_reduction: bool) -> (r: Option<Vec<u8>>)
    ensures
        match r {
            Some(v) => oxipng_output(data@, preset, grayscale_reduction) == Some(v@),
            None => oxipng_output(data@, preset, grayscale_reduction) is None,
        },
{
    let mut options = oxipng::Options::from_preset(preset);
    options.grayscale_reduction = grayscale_reduction;
    oxipng::optimize_from_memory(data, &options).ok()
}

/// The optimised data for `level`: oxipng's output with preset 2 (fast) or 5
/// (high) and no grayscale reduction, or the data unchanged where the level is
/// `Disabled` or oxipng fails.
pub open spec fn optimized(data: Seq<u8>, level: SizeOptimizationLevel) -> Seq<u8> {
    let preset: u8 = if level == SizeOptimizationLevel::Fast { 2 } else { 5 };
    if level == SizeOptimizationLevel::Disabled {
        data
    } else {
        match oxipng_output(data, preset, false) {
            Some(v) => v,
            None => data,
        }
    }
}

/// Makes PNG data smaller without changing the image; on failure the data
/// comes back as it was.
pub fn optimize_png(data: Vec<u8>, opt_level: SizeOptimizationLevel) -> (r: Vec<u8>)
    ensures
        r@ == optimized(data@, opt_level),
{
    let preset: u8 = match opt_level {
        SizeOptimizationLevel::Disabled => return data,
        SizeOptimizationLevel::Fast => 2,
        SizeOptimizationLevel::High => 5,
    };
    match oxipng_optimize(data.as_slice(), preset, false) {
        Some(v) => v,
        None => data,
    }
}

/// Encodes the image as PNG and optimises the result at `opt_level`.
pub fn image_to_png(image: &MinImage, opt_level: SizeOptimizationLevel) -> (r: Result<Vec<u8>, Error>)
    requires
        image.wf(),
    ensures
        r matches Ok(v) ==> v@ == optimized(
            png_encoding(image.width, image.height, samples_of_pixels(image.data@)),
            opt_level,
        ),
        r is Err ==> r matches Err(Error::PngEncoding(_)),
        image.width > 0 && image.height > 0 ==> r is Ok,
{
    match image.encode_to_png() {
        Ok(data) => Ok(optimize_png(data, opt_level)),
        Err(e) => Err(e),
    }
}

/// Standard base64 (RFC 4648, with padding) of `data`.
pub uninterp spec fn base64_of(data: Seq<u8>) -> Seq<char>;

/// Relies on base64's `STANDARD` engine `encode`: standard alphabet, padded; the
/// text depends on the data alone, and empty data gives empty text.
#[verifier::external_body]
fn base64_encode(data: &[u8]) -> (r: String)
    ensures
        r@ == base64_of(data@),
        data@.len() == 0 ==> r@.len() == 0,
{
    base64::Engine::encode(&base64::engine::general_purpose::STANDARD, data)
}

pub open spec fn png_data_url(data: Seq<u8>) -> Seq<char> {
    "data:image/png;base64,"@ + base64_of(data)
}

/// A `data:` URL that embeds PNG data in a page.
pub fn embed_png_url(data: &[u8]) -> (r: String)
    ensures
        r@ == png_data_url(data@),
{
    let url = String::from_str("data:image/png;base64,");
    let encoded = base64_encode(data);
    url.concat(encoded.as_str())
}

/// The size at which an image is shown: the longer side (the height, on a
/// tie) is set, clamped to `size_limit`; the other is left to the browser.
pub fn html_size(width: u32, height: u32, size_limit: u32) -> (r: (Option<u32>, Option<u32>))
    ensures
        width > height ==> r == (Some(if width < size_limit { width } else { size_limit }), None::<u32>),
        width <= height ==> r == (None::<u32>, Some(if height < size_limit { height } else { size_limit })),
{
    if width > height {
        (Some(if width < size_limit { width } else { size_limit }), None)
    } else {
        (None, Some(if height < size_limit { height } else { size_limit }))
    }
}

/// A zoomed image is shown pixelated where its shorter side is under
/// `IMAGE_PIXELIZE_LIMIT`.
pub fn zoom_pixelated(width: u32, height: u32) -> (r: bool)
    ensures
        r == (width < IMAGE_PIXELIZE_LIMIT || height < IMAGE_PIXELIZE_LIMIT),
{
    let shorter = if width < height { width } else { height };
    shorter < IMAGE_PIXELIZE_LIMIT
}

/// How a report is laid out.
#[derive(Debug, Clone)]
pub struct ReportConfig {
    left_title: String,
    right_title: String,
    embed_images: bool,
    is_review: bool,
    size_optimization: SizeOptimizationLevel,
}

impl ReportConfig {
    pub closed spec fn titles(&self) -> (Seq<char>, Seq<char>) {
        (self.left_title@, self.right_title@)
    }

    pub closed spec fn embeds_images(&self) -> bool {
        self.embed_images
    }

    pub closed spec fn reviews(&self) -> bool {
        self.is_review
    }

    pub closed spec fn optimization(&self) -> SizeOptimizationLevel {
        self.size_optimization
    }

    /// The titles "Left image" and "Right image", linked images, no review and
    /// no optimisation.
    pub fn new() -> (r: Self)
        ensures
            r.titles() == ("Left image"@, "Right image"@),
            !r.embeds_images(),
            !r.reviews(),
            r.optimization() == SizeOptimizationLevel::Disabled,
    {
        ReportConfig {
            left_title: String::from_str("Left image"),
            right_title: String::from_str("Right image"),
            embed_images: false,
            is_review: false,
            size_optimization: SizeOptimizationLevel::Disabled,
        }
    }

    pub fn set_left_title(&mut self, value: &str)
        ensures
            final(self).titles() == (value@, old(self).titles().1),
            final(self).embeds_images() == old(self).embeds_images(),
            final(self).reviews() == old(self).reviews(),
            final(self).optimization() == old(self).optimization(),
    {
        self.left_title = String::from_str(value);
    }

    pub fn set_right_title(&mut self, value: &str)
        ensures
            final(self).titles() == (old(self).titles().0, value@),
            final(self).embeds_images() == old(self).embeds_images(),
            final(self).reviews() == old(self).reviews(),
            final(self).optimization() == old(self).optimization(),
    {
        self.right_title = String::from_str(value);
    }

    pub fn set_embed_images(&mut self, value: bool)
        ensures
            final(self).titles() == old(self).titles(),
            final(self).embeds_images() == value,
            final(self).reviews() == old(self).reviews(),
            final(self).optimization() == old(self).optimization(),
    {
        self.embed_images = value;
    }

    pub fn set_review(&mut self, value: bool)
        ensures
            final(self).titles() == old(self).titles(),
            final(self).embeds_images() == old(self).embeds_images(),
            final(self).reviews() == value,
            final(self).optimization() == old(self).optimization(),
    {
        self.is_review = value;
    }

    pub fn set_size_optimization(&mut self, value: SizeOptimizationLevel)
        ensures
            final(self).titles() == old(self).titles(),
            final(self).embeds_images() == old(self).embeds_images(),
            final(self).reviews() == old(self).reviews(),
            final(self).optimization() == value,
    {
        self.size_optimization = value;
    }

    pub fn left_title(&self) -> (r: &str)
        ensures
            r@ == self.titles().0,
    {
        self.left_title.as_str()
    }

    pub fn right_title(&self) -> (r: &str)
        ensures
            r@ == self.titles().1,
    {
        self.right_title.as_str()
    }

    pub fn embed_images(&self) -> (r: bool)
        ensures
            r == self.embeds_images(),
    {
        self.embed_images
    }

    pub fn is_review(&self) -> (r: bool)
        ensures
            r == self.reviews(),
    {
        self.is_review
    }

    pub fn size_optimization(&self) -> (r: SizeOptimizationLevel)
        ensures
            r == self.optimization(),
    {
        self.size_optimization
    }
}

impl Default for ReportConfig {
    fn default() -> (r: Self)
        ensures
            r.titles() == ("Left image"@, "Right image"@),
            !r.embeds_images(),
            !r.reviews(),
            r.optimization() == SizeOptimizationLevel::Disabled,
    {
        ReportConfig::new()
    }
}

} // verus!
