use image_processor::blur::{blur_image, effective_iterations, effective_radius, BlurParams};
use image_processor::frame::rgba_buffer_len;
use image_processor::params::{blur_params_from, ParamsRead};

fn frame_of(width: usize, height: usize, value: impl Fn(usize, usize) -> u8) -> Vec<u8> {
    let mut data = vec![0u8; width * height * 4];
    for y in 0..height {
        for x in 0..width {
            let idx = (y * width + x) * 4;
            let v = value(x, y);
            data[idx] = v;
            data[idx + 1] = v;
            data[idx + 2] = v;
            data[idx + 3] = 255;
        }
    }
    data
}

#[test]
fn test_process_image_modifies_data() {
    let width: u32 = 20;
    let height: u32 = 20;
    let w = width as usize;
    let mut data = frame_of(w, height as usize, |x, _| if x < w / 2 { 255 } else { 0 });
    let original = data.clone();
    let params = BlurParams { radius: 3, iterations: 1 };
    blur_image(&mut data, w, height as usize, &params);
    let changed = data.iter().zip(original.iter()).any(|(a, b)| a != b);
    assert!(changed, "Image data should be modified by blur");
}

#[test]
fn test_process_image_default_params() {
    let width: u32 = 10;
    let height: u32 = 10;
    let buffer_size = (width * height * 4) as usize;
    let mut data = vec![100u8; buffer_size];
    blur_image(&mut data, width as usize, height as usize, &BlurParams::default());
    // every pixel has the same colour, so the blur leaves it as it is
    assert_eq!(data, vec![100u8; buffer_size]);
}

#[test]
fn lib_test_zero_dimensions() {
    assert!(rgba_buffer_len(0, 10).is_err());
    assert!(rgba_buffer_len(10, 0).is_err());
    assert!(rgba_buffer_len(0, 0).is_err());
}

#[test]
fn lib_test_small_buffer() {
    let width: u32 = 15;
    let height: u32 = 15;
    let w = width as usize;
    let h = height as usize;
    let mut data = frame_of(w, h, |x, y| if (x + y) % 2 == 0 { 255 } else { 0 });
    let original = data.clone();
    let params = BlurParams { radius: 2, iterations: 1 };
    blur_image(&mut data, w, h, &params);
    let mut changed = false;
    for y in 1..h - 1 {
        for x in 1..w - 1 {
            let idx = (y * w + x) * 4;
            if data[idx] != original[idx] {
                changed = true;
                break;
            }
        }
    }
    assert!(changed, "Data should be modified by blur");
}

#[test]
fn lib_test_extreme_dimensions() {
    assert!(rgba_buffer_len(u32::MAX, 1).is_err());
    assert!(rgba_buffer_len(1, u32::MAX).is_err());
    assert!(rgba_buffer_len(100_000, 100_000).is_err());
}

#[test]
fn test_extreme_radius() {
    let width: u32 = 30;
    let height: u32 = 30;
    let w = width as usize;
    let mut data = frame_of(w, height as usize, |x, _| (x * 255 / w) as u8);
    let original = data.clone();
    let params = BlurParams { radius: 1000, iterations: 10 };
    blur_image(&mut data, w, height as usize, &params);
    let changed = data.iter().zip(original.iter()).any(|(a, b)| a != b);
    assert!(changed, "Data should be modified by extreme radius");
}

#[test]
fn test_zero_radius_behavior() {
    let width: u32 = 20;
    let height: u32 = 20;
    let w = width as usize;
    let h = height as usize;
    let mut data_zero = frame_of(w, h, |x, _| if x < w / 2 { 255 } else { 0 });
    let mut data_one = data_zero.clone();
    blur_image(&mut data_zero, w, h, &BlurParams { radius: 0, iterations: 1 });
    blur_image(&mut data_one, w, h, &BlurParams { radius: 1, iterations: 1 });
    assert!(data_zero.iter().any(|&x| x != 0 && x != 255), "Data should change with radius 0");
    assert!(data_one.iter().any(|&x| x != 0 && x != 255), "Data should change with radius 1");
    assert!(data_zero.iter().any(|&x| x > 0 && x < 255), "Radius 0 should create intermediate values");
    assert!(data_one.iter().any(|&x| x > 0 && x < 255), "Radius 1 should create intermediate values");
}

#[test]
fn blur_zero_radius_equals_radius_one() {
    let mut a = frame_of(12, 9, |x, y| ((x * 37 + y * 11) % 256) as u8);
    let mut b = a.clone();
    blur_image(&mut a, 12, 9, &BlurParams { radius: 0, iterations: 2 });
    blur_image(&mut b, 12, 9, &BlurParams { radius: 1, iterations: 2 });
    assert_eq!(a, b);
}

#[test]
fn blur_three_by_three_exact_means() {
    let values: [u8; 9] = [0, 10, 20, 30, 40, 50, 60, 70, 80];
    let mut data = frame_of(3, 3, |x, y| values[y * 3 + x]);
    blur_image(&mut data, 3, 3, &BlurParams { radius: 1, iterations: 1 });
    // the centre sees all nine pixels, a corner four, an edge pixel six;
    // alpha stays 255 everywhere
    assert_eq!(&data[16..20], &[40, 40, 40, 255]);
    assert_eq!(&data[0..4], &[20, 20, 20, 255]);
    assert_eq!(&data[4..8], &[25, 25, 25, 255]);
    assert_eq!(&data[32..36], &[60, 60, 60, 255]);
}

#[test]
fn blur_rounds_the_mean_down() {
    // 3 by 3 frame, only the top-left red value is 1: the corner's window
    // holds four pixels, 1 / 4 rounds down to 0
    let mut data = vec![0u8; 36];
    data[0] = 1;
    blur_image(&mut data, 3, 3, &BlurParams { radius: 1, iterations: 1 });
    assert_eq!(data[0], 0);
}

#[test]
fn blur_small_frames_are_left_alone() {
    let original: Vec<u8> = (0u8..40).collect();
    let mut data = original.clone();
    blur_image(&mut data, 2, 5, &BlurParams { radius: 3, iterations: 3 });
    assert_eq!(data, original);
    let original: Vec<u8> = (0u8..24).collect();
    let mut data = original.clone();
    blur_image(&mut data, 3, 2, &BlurParams { radius: 3, iterations: 3 });
    assert_eq!(data, original);
}

#[test]
fn blur_zero_iterations_change_nothing() {
    let original = frame_of(5, 5, |x, y| (x * 40 + y) as u8);
    let mut data = original.clone();
    blur_image(&mut data, 5, 5, &BlurParams { radius: 1, iterations: 0 });
    assert_eq!(data, original);
}

#[test]
fn blur_passes_beyond_the_range_are_three() {
    let mut a = frame_of(16, 16, |x, y| ((x * 13 + y * 29) % 256) as u8);
    let mut b = a.clone();
    blur_image(&mut a, 16, 16, &BlurParams { radius: 2, iterations: 10 });
    blur_image(&mut b, 16, 16, &BlurParams { radius: 2, iterations: 3 });
    assert_eq!(a, b);
}

#[test]
fn blur_every_documented_pass_counts() {
    // a 3 by 3 frame with a bright centre: each further pass darkens the
    // corner, up to the fifth
    let centre = |x: usize, y: usize| if x == 1 && y == 1 { 90 } else { 0 };
    let mut corners = Vec::new();
    for iterations in 1..=5 {
        let mut data = frame_of(3, 3, centre);
        blur_image(&mut data, 3, 3, &BlurParams { radius: 1, iterations });
        corners.push(data[0]);
    }
    assert_eq!(corners[2], 16);
    assert_eq!(corners[4], 15);
}

#[test]
fn blur_documented_radius_is_used_as_given() {
    // radius 20 on a 30 by 30 frame: the window of the corner spans 21 by 21
    // pixels, so the corner gets the mean of that square
    let mut data = frame_of(30, 30, |x, y| if x <= 20 && y <= 20 { 84 } else { 0 });
    blur_image(&mut data, 30, 30, &BlurParams { radius: 20, iterations: 1 });
    assert_eq!(data[0], 84);
    let mut small = frame_of(30, 30, |x, y| if x <= 20 && y <= 20 { 84 } else { 0 });
    blur_image(&mut small, 30, 30, &BlurParams { radius: 6, iterations: 1 });
    assert_eq!(small[0], 84);
    // a pixel of the far corner sees the whole bright square only with the
    // large radius
    let far = (29 * 30 + 29) * 4;
    assert_eq!(small[far], 0);
    assert!(data[far] > 0);
}

#[test]
fn blur_radius_beyond_the_range_is_cut_to_a_fifth() {
    // radius 1000 on a 50 by 45 frame: a fifth of the shorter side is 9
    let mut a = frame_of(50, 45, |x, y| ((x * 7 + y * 3) % 256) as u8);
    let mut b = a.clone();
    blur_image(&mut a, 50, 45, &BlurParams { radius: 1000, iterations: 1 });
    blur_image(&mut b, 50, 45, &BlurParams { radius: 9, iterations: 1 });
    assert_eq!(a, b);
}

#[test]
fn blur_radius_beyond_the_range_on_a_small_frame() {
    // radius 21 on a 3 by 3 frame with a bright centre: the radius used is one,
    // so each corner's window holds four pixels, 90 / 4 rounds down to 22
    let mut data = frame_of(3, 3, |x, y| if x == 1 && y == 1 { 90 } else { 0 });
    blur_image(&mut data, 3, 3, &BlurParams { radius: 21, iterations: 1 });
    assert_eq!(data[0], 22);
    assert_eq!(data[8], 22);
}

#[test]
fn blur_single_colour_frame_is_unchanged() {
    let mut data = Vec::new();
    for _ in 0..(7 * 6) {
        data.extend_from_slice(&[12, 200, 7, 99]);
    }
    let original = data.clone();
    blur_image(&mut data, 7, 6, &BlurParams { radius: 4, iterations: 3 });
    assert_eq!(data, original);
}

#[test]
fn blur_effective_radius_values() {
    assert_eq!(effective_radius(0, 100, 100), 1);
    assert_eq!(effective_radius(1, 100, 100), 1);
    assert_eq!(effective_radius(5, 100, 100), 5);
    assert_eq!(effective_radius(20, 30, 30), 20);
    assert_eq!(effective_radius(20, 4, 4), 20);
    assert_eq!(effective_radius(21, 200, 150), 21);
    assert_eq!(effective_radius(1000, 30, 30), 6);
    assert_eq!(effective_radius(1000, 50, 12), 2);
    assert_eq!(effective_radius(21, 3, 3), 1);
}

#[test]
fn blur_effective_iterations_values() {
    assert_eq!(effective_iterations(0), 0);
    assert_eq!(effective_iterations(2), 2);
    assert_eq!(effective_iterations(4), 4);
    assert_eq!(effective_iterations(5), 5);
    assert_eq!(effective_iterations(6), 3);
    assert_eq!(effective_iterations(10), 3);
}

#[test]
fn lib_test_null_params() {
    // no parameters read as the empty text, which does not parse: defaults
    let params = blur_params_from(ParamsRead::Unparsable).unwrap();
    assert_eq!(params, BlurParams::default());
    let mut data = vec![0u8; 10 * 10 * 4];
    blur_image(&mut data, 10, 10, &params);
    assert_eq!(data, vec![0u8; 400]);
}

#[test]
fn lib_test_invalid_utf8_params() {
    assert_eq!(blur_params_from(ParamsRead::NotUtf8), None);
}

#[test]
fn lib_test_invalid_json_params() {
    assert_eq!(blur_params_from(ParamsRead::Unparsable), Some(BlurParams { radius: 3, iterations: 1 }));
}

#[test]
fn blur_parsed_params_are_used() {
    let p = BlurParams { radius: 7, iterations: 4 };
    assert_eq!(blur_params_from(ParamsRead::Parsed(p)), Some(p));
}

#[test]
fn blur_default_params() {
    let p = BlurParams::default();
    assert_eq!(p.radius, 3);
    assert_eq!(p.iterations, 1);
}
