use vstd::prelude::*;

use crate::error::Error;
use crate::pixel::Rgba8;

verus! {

/// A raster image of RGBA8 pixels, stored in row-major order: the first
/// `width` pixels are the first row.
#[derive(Debug)]
pub struct MinImage {
    /// The width of the image, in pixels.
    pub width: u32,
    /// The height of the image, in pixels.
    pub height: u32,
    /// The pixels, row by row.
    pub data: Vec<Rgba8>,
}

impl MinImage {
    /// One pixel for each position of the `width` by `height` grid.
    pub open spec fn wf(&self) -> bool {
        self.data@.len() == self.width as int * self.height as int
    }

    /// Number of pixels, `width * height`.
    pub fn pixel_count(&self) -> (r: u64)
        ensures
            r == self.width as int * self.height as int,
    {
        area(self.width, self.height)
    }

    /// Decodes PNG data into an RGBA8 image. Any colour type and bit depth is
    /// brought to eight bits per channel with alpha; grey is copied to red,
    /// green and blue. Data that is not a PNG image but a Git LFS pointer gives
    /// `LFSMissing`.
    pub fn decode_from_png(bytes: &[u8]) -> (r: Result<MinImage, Error>)
        ensures
            decodes_to(bytes@, r),
            r matches Ok(image) ==> image.wf(),
    {
        match decode_png_frame(bytes) {
            Ok((width, height, rgba, samples)) => image_from_samples(width, height, rgba, &samples),
            Err(e) => {
                if try_detect_lfs(bytes) {
                    Err(Error::LFSMissing)
                } else {
                    Err(Error::PngDecoding(e))
                }
            },
        }
    }

    /// Encodes the image as an RGBA8 PNG.
    pub fn encode_to_png(&self) -> (r: Result<Vec<u8>, Error>)
        requires
            self.wf(),
        ensures
            r matches Ok(v) ==> v@ == png_encoding(self.width, self.height, samples_of_pixels(self.data@)),
            r is Err ==> r matches Err(Error::PngEncoding(_)),
            self.width > 0 && self.height > 0 ==> r is Ok,
    {
        let samples = samples_from_pixels(&self.data);
        proof {
            lemma_samples_len(self.data@);
            assert(4 * (self.width as int * self.height as int) == 4 * self.width * self.height)
                by (nonlinear_arith);
        }
        match encode_png_rgba8(self.width, self.height, samples.as_slice()) {
            Ok(v) => Ok(v),
            Err(e) => Err(Error::PngEncoding(e)),
        }
    }
}

/// `width * height`, which always fits in 64 bits.
fn area(width: u32, height: u32) -> (r: u64)
    ensures
        r == width as int * height as int,
{
    proof {
        vstd::arithmetic::mul::lemma_mul_upper_bound(
            width as int,
            u32::MAX as int,
            height as int,
            u32::MAX as int,
        );
    }
    assert(u32::MAX as int * u32::MAX as int <= u64::MAX) by (nonlinear_arith);
    width as u64 * height as u64
}

/// What png's decoder yields for `bytes`: width, height, whether the samples are
/// RGBA (else grey and alpha) and the samples, eight bits each; none where it
/// refuses the data.
pub uninterp spec fn png_decoding(bytes: Seq<u8>) -> Option<(u32, u32, bool, Seq<u8>)>;

/// What png's encoder writes for an RGBA8 image of the given size and samples.
pub uninterp spec fn png_encoding(width: u32, height: u32, samples: Seq<u8>) -> Seq<u8>;

/// Relies on png's `Decoder` (`read_info`, `output_buffer_size`, `next_frame`,
/// `output_color_type`) set to `normalize_to_color8() | ALPHA`, which yields
/// eight-bit samples with alpha, as RGBA or as grey and alpha; the outcome
/// depends on the bytes alone.
#[verifier::external_body]
fn decode_png_frame(bytes: &[u8]) -> (r: Result<(u32, u32, bool, Vec<u8>), png::DecodingError>)
    ensures
        match r {
            Ok((w, h, rgba, samples)) => png_decoding(bytes@) == Some((w, h, rgba, samples@)),
            Err(_) => png_decoding(bytes@) is None,
        },
{
    let mut decoder = png::Decoder::new(std::io::Cursor::new(bytes));
    decoder.set_transformations(png::Transformations::normalize_to_color8() | png::Transformations::ALPHA);
    let mut reader = decoder.read_info()?;
    let mut samples = vec![0u8; reader.output_buffer_size()];
    reader.next_frame(&mut samples)?;
    let (width, height) = reader.info().size();
    let rgba = matches!(reader.output_color_type().0, png::ColorType::Rgba);
    Ok((width, height, rgba, samples))
}

/// Relies on png's `Encoder` (`write_header`, `write_image_data`, `finish`)
/// for an RGBA image with eight bits per sample; what it writes depends on its
/// arguments alone. Writing into a `Vec`, with four bytes per pixel (which
/// keeps its size arithmetic from overflowing), it refuses only a zero width
/// or height.
#[verifier::external_body]
fn encode_png_rgba8(width: u32, height: u32, samples: &[u8]) -> (r: Result<Vec<u8>, png::EncodingError>)
    requires
        samples@.len() == 4 * width * height,
    ensures
        r matches Ok(v) ==> v@ == png_encoding(width, height, samples@),
        width > 0 && height > 0 ==> r is Ok,
{
    let mut out = Vec::new();
    let mut encoder = png::Encoder::new(&mut out, width, height);
    encoder.set_color(png::ColorType::Rgba);
    encoder.set_depth(png::BitDepth::Eight);
    let mut writer = encoder.write_header()?;
    writer.write_image_data(samples)?;
    writer.finish()?;
    Ok(out)
}

/// The first line of a Git LFS pointer file,
/// `version https://git-lfs.github.com/spec/v1` and a newline.
pub open spec fn lfs_header() -> Seq<u8> {
    seq![118u8, 101, 114, 115, 105, 111, 110, 32, 104, 116, 116, 112, 115, 58, 47, 47, 103, 105, 116, 45, 108, 102, 115, 46, 103, 105, 116, 104, 117, 98, 46, 99, 111, 109, 47, 115, 112, 101, 99, 47, 118, 49, 10]
}

/// The data starts with the Git LFS pointer header.
pub open spec fn is_lfs_pointer(bytes: Seq<u8>) -> bool {
    bytes.len() >= lfs_header().len() && bytes.subrange(0, lfs_header().len() as int)
        == lfs_header()
}

/// Tells whether `bytes` is an unresolved Git LFS pointer rather than an image.
pub fn try_detect_lfs(bytes: &[u8]) -> (r: bool)
    ensures
        r == is_lfs_pointer(bytes@),
{
    let header: [u8; 43] = [118u8, 101, 114, 115, 105, 111, 110, 32, 104, 116, 116, 112, 115, 58, 47, 47, 103, 105, 116, 45, 108, 102, 115, 46, 103, 105, 116, 104, 117, 98, 46, 99, 111, 109, 47, 115, 112, 101, 99, 47, 118, 49, 10];
    assert(header@ == lfs_header());
    if bytes.len() < 43 {
        return false;
    }
    let mut i: usize = 0;
    while i < 43
        invariant
            0 <= i <= 43,
            bytes@.len() >= 43,
            header@ == lfs_header(),
            bytes@.subrange(0, i as int) == lfs_header().subrange(0, i as int),
        decreases 43 - i,
    {
        if bytes[i] != header[i] {
            assert(bytes@.subrange(0, 43)[i as int] != lfs_header()[i as int]);
            return false;
        }
        assert(bytes@.subrange(0, i + 1) =~= bytes@.subrange(0, i as int).push(bytes@[i as int]));
        assert(lfs_header().subrange(0, i + 1) =~= lfs_header().subrange(0, i as int).push(
            lfs_header()[i as int],
        ));
        i = i + 1;
    }
    assert(lfs_header().subrange(0, 43) =~= lfs_header());
    true
}

/// The pixel at position `i` of eight-bit samples: four per pixel for RGBA,
/// else grey and alpha, the grey copied to red, green and blue.
pub open spec fn pixel_of_samples(samples: Seq<u8>, rgba: bool, i: int) -> Rgba8 {
    if rgba {
        Rgba8 {
            r: samples[4 * i],
            g: samples[4 * i + 1],
            b: samples[4 * i + 2],
            a: samples[4 * i + 3],
        }
    } else {
        Rgba8 { r: samples[2 * i], g: samples[2 * i], b: samples[2 * i], a: samples[2 * i + 1] }
    }
}

pub open spec fn pixels_of_samples(samples: Seq<u8>, rgba: bool, n: nat) -> Seq<Rgba8> {
    Seq::new(n, |i: int| pixel_of_samples(samples, rgba, i))
}

pub open spec fn samples_per_pixel(rgba: bool) -> int {
    if rgba {
        4
    } else {
        2
    }
}

/// The four samples of each pixel, in order.
pub open spec fn samples_of_pixels(pixels: Seq<Rgba8>) -> Seq<u8>
    decreases pixels.len(),
{
    if pixels.len() == 0 {
        Seq::empty()
    } else {
        let p = pixels.last();
        samples_of_pixels(pixels.drop_last()) + seq![p.r, p.g, p.b, p.a]
    }
}

/// What building an image from decoded samples gives: the image where there
/// are exactly `samples_per_pixel(rgba)` samples for each of the `width *
/// height` pixels, else an error.
pub open spec fn built_from_samples(
    width: u32,
    height: u32,
    rgba: bool,
    samples: Seq<u8>,
    r: Result<MinImage, Error>,
) -> bool {
    if samples.len() == width as int * height as int * samples_per_pixel(rgba) {
        &&& r is Ok
        &&& r->Ok_0.width == width
        &&& r->Ok_0.height == height
        &&& r->Ok_0.data@ == pixels_of_samples(samples, rgba, (width as int * height as int) as nat)
    } else {
        r matches Err(Error::GenericError(_))
    }
}

/// What a decoding of `bytes` gives: the image, or the error.
pub open spec fn decodes_to(bytes: Seq<u8>, r: Result<MinImage, Error>) -> bool {
    match png_decoding(bytes) {
        Some((w, h, rgba, samples)) => built_from_samples(w, h, rgba, samples, r),
        None => if is_lfs_pointer(bytes) {
            r matches Err(Error::LFSMissing)
        } else {
            r matches Err(Error::PngDecoding(_))
        },
    }
}

/// Builds an RGBA8 image from eight-bit samples as a PNG decoder yields them:
/// four per pixel for RGBA, else grey and alpha, the grey copied to red, green
/// and blue.
pub fn image_from_samples(width: u32, height: u32, rgba: bool, samples: &Vec<u8>) -> (r: Result<MinImage, Error>)
    ensures
        built_from_samples(width, height, rgba, samples@, r),
        r matches Ok(image) ==> image.wf(),
{
    let n = area(width, height);
    let expected: u128 = if rgba { (n as u128) * 4 } else { (n as u128) * 2 };
    if (samples.len() as u128) != expected {
        return Err(Error::GenericError(String::from_str("decoded frame does not match its size")));
    }
    let data = pixels_from_samples(samples, rgba, n as usize);
    Ok(MinImage { width, height, data })
}

fn pixels_from_samples(samples: &Vec<u8>, rgba: bool, n: usize) -> (r: Vec<Rgba8>)
    requires
        rgba ==> samples@.len() == 4 * n,
        !rgba ==> samples@.len() == 2 * n,
    ensures
        r@ == pixels_of_samples(samples@, rgba, n as nat),
{
    let mut data: Vec<Rgba8> = Vec::with_capacity(n);
    let len = samples.len();
    let mut i: usize = 0;
    let mut j: usize = 0;
    while i < n
        invariant
            len == samples@.len(),
            rgba ==> samples@.len() == 4 * n && j == 4 * i,
            !rgba ==> samples@.len() == 2 * n && j == 2 * i,
            0 <= i <= n,
            data@ =~= pixels_of_samples(samples@, rgba, i as nat),
        decreases n - i,
    {
        if rgba {
            assert(j + 4 <= samples@.len());
            data.push(Rgba8 {
                r: samples[j],
                g: samples[j + 1],
                b: samples[j + 2],
                a: samples[j + 3],
            });
            j = j + 4;
        } else {
            assert(j + 2 <= samples@.len());
            data.push(Rgba8 { r: samples[j], g: samples[j], b: samples[j], a: samples[j + 1] });
            j = j + 2;
        }
        i = i + 1;
    }
    data
}

proof fn lemma_samples_len(pixels: Seq<Rgba8>)
    ensures
        samples_of_pixels(pixels).len() == 4 * pixels.len(),
    decreases pixels.len(),
{
    if pixels.len() > 0 {
        lemma_samples_len(pixels.drop_last());
    }
}

fn samples_from_pixels(pixels: &Vec<Rgba8>) -> (r: Vec<u8>)
    ensures
        r@ == samples_of_pixels(pixels@),
{
    let mut out: Vec<u8> = Vec::new();
    let mut i: usize = 0;
    while i < pixels.len()
        invariant
            0 <= i <= pixels@.len(),
            out@ == samples_of_pixels(pixels@.subrange(0, i as int)),
        decreases pixels@.len() - i,
    {
        let p = pixels[i];
        proof {
            assert(pixels@.subrange(0, i + 1).drop_last() =~= pixels@.subrange(0, i as int));
        }
        out.push(p.r);
        out.push(p.g);
        out.push(p.b);
        out.push(p.a);
        assert(out@ =~= samples_of_pixels(pixels@.subrange(0, i + 1)));
        i = i + 1;
    }
    assert(pixels@.subrange(0, pixels@.len() as int) =~= pixels@);
    out
}

} // verus!
