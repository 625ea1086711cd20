use kompari::image::image_from_samples;
use kompari::{
    embed_png_url, image_to_png, optimize_png, try_detect_lfs, Error, MinImage, Rgba8,
    SizeOptimizationLevel,
};

fn sample_image() -> MinImage {
    let mut data = Vec::new();
    for i in 0..6u8 {
        data.push(Rgba8 { r: i * 40, g: 255 - i * 30, b: i, a: 100 + i * 20 });
    }
    MinImage { width: 3, height: 2, data }
}

#[test]
fn png_round_trip_keeps_pixels() {
    let image = sample_image();
    let bytes = image.encode_to_png().unwrap();
    assert_eq!(&bytes[1..4], b"PNG");
    let back = MinImage::decode_from_png(&bytes).unwrap();
    assert_eq!((back.width, back.height), (3, 2));
    assert_eq!(back.data, image.data);
}

#[test]
fn optimized_png_decodes_to_same_pixels() {
    let image = sample_image();
    let bytes = image_to_png(&image, SizeOptimizationLevel::High).unwrap();
    let back = MinImage::decode_from_png(&bytes).unwrap();
    assert_eq!(back.data, image.data);
    let fast = image_to_png(&image, SizeOptimizationLevel::Fast).unwrap();
    assert_eq!(MinImage::decode_from_png(&fast).unwrap().data, image.data);
}

#[test]
fn disabled_optimization_keeps_bytes() {
    let data = vec![1u8, 2, 3, 4];
    assert_eq!(optimize_png(data.clone(), SizeOptimizationLevel::Disabled), data);
    // Data that is no PNG cannot be optimised and comes back unchanged.
    assert_eq!(optimize_png(data.clone(), SizeOptimizationLevel::High), data);
}

#[test]
fn grayscale_png_is_brought_to_rgba() {
    let mut bytes = Vec::new();
    {
        let mut encoder = png::Encoder::new(&mut bytes, 2, 1);
        encoder.set_color(png::ColorType::Grayscale);
        encoder.set_depth(png::BitDepth::Eight);
        let mut writer = encoder.write_header().unwrap();
        writer.write_image_data(&[10, 200]).unwrap();
    }
    let image = MinImage::decode_from_png(&bytes).unwrap();
    assert_eq!((image.width, image.height), (2, 1));
    assert_eq!(
        image.data,
        vec![Rgba8 { r: 10, g: 10, b: 10, a: 255 }, Rgba8 { r: 200, g: 200, b: 200, a: 255 }]
    );
}

#[test]
fn palette_png_is_brought_to_rgba() {
    let mut bytes = Vec::new();
    {
        let mut encoder = png::Encoder::new(&mut bytes, 2, 1);
        encoder.set_color(png::ColorType::Indexed);
        encoder.set_depth(png::BitDepth::Eight);
        encoder.set_palette(vec![1u8, 2, 3, 250, 251, 252]);
        let mut writer = encoder.write_header().unwrap();
        writer.write_image_data(&[1, 0]).unwrap();
    }
    let image = MinImage::decode_from_png(&bytes).unwrap();
    assert_eq!(
        image.data,
        vec![Rgba8 { r: 250, g: 251, b: 252, a: 255 }, Rgba8 { r: 1, g: 2, b: 3, a: 255 }]
    );
}

#[test]
fn lfs_pointer_is_recognised() {
    let text = b"version https://git-lfs.github.com/spec/v1\noid sha256:0123\nsize 42\n";
    assert!(try_detect_lfs(text));
    assert!(matches!(MinImage::decode_from_png(text), Err(Error::LFSMissing)));
    assert!(!try_detect_lfs(b"version https://git-lfs"));
}

#[test]
fn other_data_is_a_decoding_error() {
    assert!(matches!(MinImage::decode_from_png(b"not an image"), Err(Error::PngDecoding(_))));
    assert!(matches!(MinImage::decode_from_png(b""), Err(Error::PngDecoding(_))));
}

#[test]
fn empty_image_cannot_be_encoded() {
    let image = MinImage { width: 0, height: 0, data: vec![] };
    assert!(matches!(image.encode_to_png(), Err(Error::PngEncoding(_))));
}

#[test]
fn data_url_embeds_base64() {
    assert_eq!(embed_png_url(&[1, 2, 3]), "data:image/png;base64,AQID");
    assert_eq!(embed_png_url(&[]), "data:image/png;base64,");
    assert_eq!(embed_png_url(b"ab"), "data:image/png;base64,YWI=");
}

#[test]
fn optimization_shrinks_a_few_colour_image() {
    let colors = [
        Rgba8 { r: 255, g: 0, b: 0, a: 255 },
        Rgba8 { r: 0, g: 255, b: 0, a: 255 },
        Rgba8 { r: 0, g: 0, b: 255, a: 255 },
        Rgba8 { r: 9, g: 9, b: 9, a: 255 },
    ];
    let mut samples = Vec::new();
    let mut pixels = Vec::new();
    for i in 0..(64 * 64usize) {
        let c = colors[(i * 7 + i / 64) % 4];
        pixels.push(c);
        samples.extend_from_slice(&[c.r, c.g, c.b, c.a]);
    }
    let mut bytes = Vec::new();
    {
        let mut encoder = png::Encoder::new(&mut bytes, 64, 64);
        encoder.set_color(png::ColorType::Rgba);
        encoder.set_depth(png::BitDepth::Eight);
        encoder.set_compression(png::Compression::Fast);
        let mut writer = encoder.write_header().unwrap();
        writer.write_image_data(&samples).unwrap();
    }
    let optimized = optimize_png(bytes.clone(), SizeOptimizationLevel::High);
    assert!(optimized.len() < bytes.len());
    let back = MinImage::decode_from_png(&optimized).unwrap();
    assert_eq!(back.data, pixels);
}

#[test]
fn sixteen_bit_png_is_brought_to_eight_bits() {
    let mut bytes = Vec::new();
    {
        let mut encoder = png::Encoder::new(&mut bytes, 1, 1);
        encoder.set_color(png::ColorType::Rgb);
        encoder.set_depth(png::BitDepth::Sixteen);
        let mut writer = encoder.write_header().unwrap();
        writer.write_image_data(&[0x12, 0x34, 0x56, 0x78, 0x9a, 0xbc]).unwrap();
    }
    let image = MinImage::decode_from_png(&bytes).unwrap();
    assert_eq!(image.data, vec![Rgba8 { r: 0x12, g: 0x56, b: 0x9a, a: 255 }]);
}

#[test]
fn samples_become_pixels() {
    let rgba = image_from_samples(2, 1, true, &vec![1, 2, 3, 4, 5, 6, 7, 8]).unwrap();
    assert_eq!(rgba.data, vec![Rgba8 { r: 1, g: 2, b: 3, a: 4 }, Rgba8 { r: 5, g: 6, b: 7, a: 8 }]);
    let grey = image_from_samples(1, 2, false, &vec![9, 200, 30, 0]).unwrap();
    assert_eq!(grey.data, vec![Rgba8 { r: 9, g: 9, b: 9, a: 200 }, Rgba8 { r: 30, g: 30, b: 30, a: 0 }]);
    assert!(matches!(image_from_samples(2, 2, true, &vec![0; 15]), Err(Error::GenericError(_))));
    assert!(matches!(image_from_samples(2, 2, false, &vec![0; 16]), Err(Error::GenericError(_))));
}

#[test]
fn one_pixel_image_encodes() {
    let image = MinImage { width: 1, height: 1, data: vec![Rgba8 { r: 1, g: 2, b: 3, a: 4 }] };
    assert!(image.encode_to_png().is_ok());
    assert!(image_to_png(&image, SizeOptimizationLevel::Disabled).is_ok());
}
