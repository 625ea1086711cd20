use kompari::{
    compare_images, detect_background, pixel_distance, pixel_min_max_distance, DiffImageMethod,
    ImageDifference, MinImage, Rgba8,
};

const RED: Rgba8 = Rgba8 { r: 255, g: 0, b: 0, a: 255 };
const BLUE: Rgba8 = Rgba8 { r: 0, g: 0, b: 255, a: 255 };
const WHITE: Rgba8 = Rgba8 { r: 255, g: 255, b: 255, a: 255 };
const GREEN: Rgba8 = Rgba8 { r: 0, g: 255, b: 0, a: 255 };

fn px(r: u8, g: u8, b: u8, a: u8) -> Rgba8 {
    Rgba8 { r, g, b, a }
}

fn filled(width: u32, height: u32, color: Rgba8) -> MinImage {
    MinImage { width, height, data: vec![color; (width * height) as usize] }
}

#[test]
fn dummy_test_until_we_have_a_real_test() {}

#[test]
fn red_and_blue_squares_differ_in_every_pixel() {
    let left = filled(2, 2, RED);
    let right = filled(2, 2, BLUE);
    match compare_images(&left, &right) {
        ImageDifference::Content {
            diff_images,
            background,
            n_pixels,
            n_different_pixels,
            distance_sum,
        } => {
            assert_eq!(n_different_pixels, 4);
            assert_eq!(n_pixels, 4);
            assert_eq!(distance_sum, 4 * 255);
            assert_eq!(background, None);
            assert_eq!(diff_images.len(), 2);
            assert_eq!(diff_images[0].method, DiffImageMethod::RedGreen);
            assert_eq!(diff_images[0].image.data, vec![GREEN; 4]);
            assert_eq!(diff_images[1].method, DiffImageMethod::Overlay);
            assert_eq!(diff_images[1].image.data, vec![BLUE; 4]);
            assert_eq!((diff_images[1].image.width, diff_images[1].image.height), (2, 2));
        }
        other => panic!("unexpected {:?}", other),
    }
}

#[test]
fn different_dimensions_give_size_mismatch() {
    let left = filled(10, 10, RED);
    let right = filled(20, 5, RED);
    match compare_images(&left, &right) {
        ImageDifference::SizeMismatch { left_size, right_size } => {
            assert_eq!(left_size, (10, 10));
            assert_eq!(right_size, (20, 5));
        }
        other => panic!("unexpected {:?}", other),
    }
}

#[test]
fn identical_buffers_compare_identical() {
    let data = vec![RED, BLUE, WHITE, px(1, 2, 3, 4), px(9, 9, 9, 0), GREEN];
    let left = MinImage { width: 3, height: 2, data: data.clone() };
    let right = MinImage { width: 3, height: 2, data };
    assert!(matches!(compare_images(&left, &right), ImageDifference::Identical));
}

#[test]
fn empty_images_compare_identical() {
    let left = MinImage { width: 0, height: 3, data: vec![] };
    let right = MinImage { width: 0, height: 3, data: vec![] };
    assert!(matches!(compare_images(&left, &right), ImageDifference::Identical));
}

#[test]
fn shared_background_is_left_out_of_pixel_count() {
    let left = MinImage { width: 4, height: 1, data: vec![WHITE, WHITE, WHITE, RED] };
    let right = MinImage { width: 4, height: 1, data: vec![WHITE, WHITE, WHITE, GREEN] };
    for (a, b) in [(&left, &right), (&right, &left)] {
        match compare_images(a, b) {
            ImageDifference::Content { background, n_pixels, n_different_pixels, distance_sum, .. } => {
                assert_eq!(background, Some(WHITE));
                assert_eq!(n_pixels, 1);
                assert_eq!(n_different_pixels, 1);
                assert_eq!(distance_sum, 255);
            }
            other => panic!("unexpected {:?}", other),
        }
    }
}

#[test]
fn differing_backgrounds_count_every_pixel() {
    let left = MinImage { width: 4, height: 1, data: vec![WHITE, WHITE, WHITE, RED] };
    let right = MinImage { width: 4, height: 1, data: vec![BLUE, BLUE, BLUE, RED] };
    match compare_images(&left, &right) {
        ImageDifference::Content { background, n_pixels, n_different_pixels, .. } => {
            assert_eq!(background, None);
            assert_eq!(n_pixels, 4);
            assert_eq!(n_different_pixels, 3);
        }
        other => panic!("unexpected {:?}", other),
    }
}

#[test]
fn red_green_map_and_overlay_pixels() {
    let left = MinImage { width: 3, height: 1, data: vec![px(100, 50, 0, 200), px(10, 10, 10, 200), px(7, 7, 7, 100)] };
    let right = MinImage { width: 3, height: 1, data: vec![px(40, 80, 0, 200), px(10, 10, 10, 200), px(7, 7, 7, 100)] };
    match compare_images(&left, &right) {
        ImageDifference::Content { diff_images, distance_sum, n_different_pixels, .. } => {
            assert_eq!(n_different_pixels, 1);
            assert_eq!(distance_sum, 60);
            assert_eq!(diff_images[0].image.data, vec![px(60, 0, 0, 255), px(0, 0, 0, 255), px(0, 0, 0, 255)]);
            assert_eq!(diff_images[1].image.data, vec![px(40, 80, 0, 200), px(10, 10, 10, 66), px(7, 7, 7, 0)]);
        }
        other => panic!("unexpected {:?}", other),
    }
}

#[test]
fn pixel_distances() {
    assert_eq!(pixel_distance(px(10, 200, 30, 255), px(20, 100, 30, 0)), 255);
    assert_eq!(pixel_distance(px(10, 200, 30, 40), px(20, 100, 30, 40)), 100);
    assert_eq!(pixel_distance(RED, RED), 0);
    assert_eq!(pixel_min_max_distance(px(10, 200, 30, 40), px(20, 100, 30, 40)), (100, 10));
    assert_eq!(pixel_min_max_distance(RED, BLUE), (255, 255));
}

#[test]
fn background_needs_more_than_a_quarter() {
    assert_eq!(detect_background(&vec![RED, BLUE, GREEN, WHITE]), None);
    assert_eq!(detect_background(&vec![RED, BLUE, GREEN, WHITE, BLUE]), Some(BLUE));
    assert_eq!(detect_background(&vec![]), None);
}

#[test]
fn background_tie_goes_to_first_color() {
    assert_eq!(detect_background(&vec![BLUE, RED, RED, BLUE]), Some(BLUE));
    assert_eq!(detect_background(&vec![RED, BLUE, BLUE, RED]), Some(RED));
}

#[test]
fn method_names() {
    assert_eq!(DiffImageMethod::RedGreen.to_string(), "RedGreen");
    assert_eq!(DiffImageMethod::Overlay.to_string(), "Overlay");
}

#[test]
fn overlay_fades_half_opaque_pixels() {
    let data = vec![px(5, 6, 7, 128), px(5, 6, 7, 127), px(5, 6, 7, 255), RED];
    let left = MinImage { width: 4, height: 1, data: data.clone() };
    let mut changed = data;
    changed[3] = BLUE;
    let right = MinImage { width: 4, height: 1, data: changed };
    match compare_images(&left, &right) {
        ImageDifference::Content { diff_images, .. } => {
            assert_eq!(
                diff_images[1].image.data,
                vec![px(5, 6, 7, 42), px(5, 6, 7, 0), px(5, 6, 7, 85), BLUE]
            );
        }
        other => panic!("unexpected {:?}", other),
    }
}
