use image_processor::frame::{rgba_buffer_len, FrameError};
use image_processor::mirror::{mirror_horizontal, mirror_image, mirror_vertical, MirrorParams};
use image_processor::params::{mirror_params_from, ParamsRead};

fn frame_of(width: usize, height: usize, value: impl Fn(usize, usize) -> u8) -> Vec<u8> {
    let mut data = vec![0u8; width * height * 4];
    for y in 0..height {
        for x in 0..width {
            let idx = (y * width + x) * 4;
            let v = value(x, y);
            data[idx] = v;
            data[idx + 1] = v;
            data[idx + 2] = v;
            data[idx + 3] = 255;
        }
    }
    data
}

#[test]
fn test_mirror_horizontal() {
    let width: u32 = 5;
    let height: u32 = 3;
    let mut data = frame_of(width as usize, height as usize, |x, _| x as u8);
    let params = MirrorParams { horizontal: true, vertical: false };
    mirror_image(&mut data, width as usize, height as usize, &params);
    for y in 0..height as usize {
        for x in 0..width as usize {
            let idx = (y * width as usize + x) * 4;
            let expected_x = (width as usize - 1 - x) as u8;
            assert_eq!(data[idx], expected_x);
        }
    }
}

#[test]
fn test_mirror_vertical() {
    let width: u32 = 3;
    let height: u32 = 5;
    let mut data = frame_of(width as usize, height as usize, |_, y| y as u8);
    let params = MirrorParams { horizontal: false, vertical: true };
    mirror_image(&mut data, width as usize, height as usize, &params);
    for y in 0..height as usize {
        for x in 0..width as usize {
            let idx = (y * width as usize + x) * 4;
            let expected_y = (height as usize - 1 - y) as u8;
            assert_eq!(data[idx], expected_y);
        }
    }
}

#[test]
fn test_mirror_both() {
    let width: u32 = 3;
    let height: u32 = 3;
    let w = width as usize;
    let h = height as usize;
    let mut data = frame_of(w, h, |x, y| (y * w + x) as u8);
    let mut expected = vec![0u8; w * h * 4];
    for y in 0..h {
        for x in 0..w {
            let value = (y * w + x) as u8;
            let expected_idx = ((h - 1 - y) * w + (w - 1 - x)) * 4;
            expected[expected_idx] = value;
            expected[expected_idx + 1] = value;
            expected[expected_idx + 2] = value;
            expected[expected_idx + 3] = 255;
        }
    }
    let params = MirrorParams { horizontal: true, vertical: true };
    mirror_image(&mut data, w, h, &params);
    for i in 0..data.len() {
        assert_eq!(data[i], expected[i]);
    }
}

#[test]
fn test_mirror_twice() {
    let width: u32 = 4;
    let height: u32 = 4;
    let w = width as usize;
    let h = height as usize;
    let mut data = frame_of(w, h, |x, y| (y * w + x) as u8);
    let original = data.clone();
    let params = MirrorParams { horizontal: true, vertical: true };
    mirror_image(&mut data, w, h, &params);
    mirror_image(&mut data, w, h, &params);
    for i in 0..data.len() {
        assert_eq!(data[i], original[i]);
    }
}

#[test]
fn test_zero_dimensions() {
    let data = vec![0u8; 4];
    assert_eq!(rgba_buffer_len(0, 10), Err(FrameError::ZeroDimension));
    assert_eq!(rgba_buffer_len(10, 0), Err(FrameError::ZeroDimension));
    assert_eq!(rgba_buffer_len(0, 0), Err(FrameError::ZeroDimension));
    assert_eq!(data, vec![0u8; 4]);
}

#[test]
fn test_small_buffer() {
    let width: u32 = 1;
    let height: u32 = 1;
    let buffer_size = rgba_buffer_len(width, height).unwrap();
    assert_eq!(buffer_size, 4);
    let mut data = vec![100u8; buffer_size];
    let params = MirrorParams { horizontal: true, vertical: false };
    mirror_image(&mut data, width as usize, height as usize, &params);
    assert_eq!(data[0], 100);
}

#[test]
fn test_extreme_dimensions() {
    assert!(rgba_buffer_len(u32::MAX, 1).is_err());
    assert!(rgba_buffer_len(1, u32::MAX).is_err());
    assert!(rgba_buffer_len(100_000, 100_000).is_err());
}

#[test]
fn mirror_default_params_change_nothing() {
    let mut data = frame_of(4, 3, |x, y| (x * 10 + y) as u8);
    let original = data.clone();
    mirror_image(&mut data, 4, 3, &MirrorParams::default());
    assert_eq!(data, original);
}

#[test]
fn mirror_horizontal_exact_bytes() {
    // one row of three pixels: the outer pixels trade places, the middle one stays
    let mut data: Vec<u8> = (0u8..12).collect();
    mirror_horizontal(&mut data, 3, 1);
    assert_eq!(data, vec![8, 9, 10, 11, 4, 5, 6, 7, 0, 1, 2, 3]);
}

#[test]
fn mirror_vertical_exact_bytes() {
    // two rows of one pixel each trade places
    let mut data: Vec<u8> = (0u8..8).collect();
    mirror_vertical(&mut data, 1, 2);
    assert_eq!(data, vec![4, 5, 6, 7, 0, 1, 2, 3]);
}

#[test]
fn mirror_horizontal_leaves_pairs_past_the_end() {
    // a 2 by 2 frame whose buffer stops after six bytes: the first row's pair
    // does not fit, so nothing moves
    let mut data: Vec<u8> = (0u8..6).collect();
    mirror_horizontal(&mut data, 2, 2);
    assert_eq!(data, vec![0, 1, 2, 3, 4, 5]);
    // with the first row complete, only that row is flipped
    let mut data: Vec<u8> = (0u8..12).collect();
    mirror_horizontal(&mut data, 2, 2);
    assert_eq!(data, vec![4, 5, 6, 7, 0, 1, 2, 3, 8, 9, 10, 11]);
}

#[test]
fn mirror_vertical_leaves_rows_past_the_end() {
    // three rows of one pixel, buffer holding two: the pair (0, 2) is cut off
    let mut data: Vec<u8> = (0u8..8).collect();
    mirror_vertical(&mut data, 1, 3);
    assert_eq!(data, vec![0, 1, 2, 3, 4, 5, 6, 7]);
}

#[test]
fn mirror_each_flip_twice_restores_any_buffer() {
    let original: Vec<u8> = (0u8..30).collect();
    let mut data = original.clone();
    mirror_horizontal(&mut data, 3, 4);
    mirror_horizontal(&mut data, 3, 4);
    assert_eq!(data, original);
    mirror_vertical(&mut data, 3, 4);
    mirror_vertical(&mut data, 3, 4);
    assert_eq!(data, original);
}

#[test]
fn mirror_flips_commute_on_a_full_frame() {
    let original: Vec<u8> = (0u8..48).collect();
    let mut hv = original.clone();
    mirror_horizontal(&mut hv, 4, 3);
    mirror_vertical(&mut hv, 4, 3);
    let mut vh = original.clone();
    mirror_vertical(&mut vh, 4, 3);
    mirror_horizontal(&mut vh, 4, 3);
    assert_eq!(hv, vh);
}

#[test]
fn test_null_params() {
    // no parameters read as the empty text, which does not parse: no flip
    let params = mirror_params_from(ParamsRead::Unparsable).unwrap();
    assert_eq!(params, MirrorParams { horizontal: false, vertical: false });
    let mut data = frame_of(10, 10, |x, y| (x + y) as u8);
    let original = data.clone();
    mirror_image(&mut data, 10, 10, &params);
    assert_eq!(data, original);
}

#[test]
fn test_invalid_utf8_params() {
    assert_eq!(mirror_params_from(ParamsRead::NotUtf8), None);
}

#[test]
fn test_invalid_json_params() {
    assert_eq!(mirror_params_from(ParamsRead::Unparsable), Some(MirrorParams::default()));
}

#[test]
fn mirror_parsed_params_are_used() {
    let p = MirrorParams { horizontal: true, vertical: false };
    assert_eq!(mirror_params_from(ParamsRead::Parsed(p)), Some(p));
}
