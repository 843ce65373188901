//! Tests for the four frame-analysis stages.

use webcam_mouse::{
    blur, denoise, difference, locate_rightmost_motion, median_filter, median_filter_reference,
    median_of_samples, mirror, DimensionMismatch, PixelBuffer, Point,
};

/// Build a buffer from a function of pixel coordinates.
fn buffer_from_fn(w: usize, h: usize, f: impl Fn(usize, usize) -> (u8, u8, u8)) -> PixelBuffer {
    let mut data = Vec::with_capacity(w * h * 3);
    for y in 0..h {
        for x in 0..w {
            let (r, g, b) = f(x, y);
            data.push(r);
            data.push(g);
            data.push(b);
        }
    }
    PixelBuffer::from_raw(w, h, data).expect("dimensions match data length")
}

fn black(w: usize, h: usize) -> PixelBuffer {
    buffer_from_fn(w, h, |_, _| (0, 0, 0))
}

/// Clamp a signed coordinate into `[0, n)`.
fn clamp(i: isize, n: usize) -> usize {
    if i < 0 {
        0
    } else if i as usize >= n {
        n - 1
    } else {
        i as usize
    }
}

/// Plain sort-based median of the 25 edge-clamped window samples.
fn brute_force_median(buf: &PixelBuffer, x: usize, y: usize, c: usize) -> u8 {
    let w = buf.width();
    let h = buf.height();
    let mut samples = Vec::new();
    for dx in -2isize..=2 {
        for dy in -2isize..=2 {
            let cx = clamp(x as isize + dx, w);
            let cy = clamp(y as isize + dy, h);
            samples.push(buf.get(cx, cy, c));
        }
    }
    samples.sort_unstable();
    samples[12]
}

/// An 8x8 test pattern with all three channels varied.
fn pattern_8x8() -> PixelBuffer {
    buffer_from_fn(8, 8, |x, y| {
        (
            ((x * 37 + y * 91) % 256) as u8,
            ((x * 13 + y * 7 + 100) % 256) as u8,
            ((x * x + y * 3) % 256) as u8,
        )
    })
}

#[test]
fn flip_image() {
    let mut image1 = image::RgbImage::from_fn(256, 1, |x, _y| {
        *<image::Rgb<u8> as image::Pixel>::from_slice(&[x as u8; 3])
    });
    let mut buffer = buffer_from_fn(256, 1, |x, _y| (x as u8, x as u8, x as u8));
    mirror(&mut buffer);
    image::imageops::flip_horizontal_in_place(&mut image1);
    for x in 0..256usize {
        let p = image1.get_pixel(x as u32, 0).0;
        assert_eq!(buffer.get_pixel(x, 0), (p[0], p[1], p[2]));
    }
}

#[test]
fn mirror_reverses_rows() {
    let mut buffer = buffer_from_fn(4, 2, |x, y| ((x * 10 + y) as u8, 0, 0));
    mirror(&mut buffer);
    for y in 0..2 {
        for x in 0..4 {
            assert_eq!(buffer.get_pixel(x, y), (((3 - x) * 10 + y) as u8, 0, 0));
        }
    }
}

#[test]
fn mirror_involution() {
    let original = pattern_8x8();
    let mut twice = original.duplicate();
    mirror(&mut twice);
    mirror(&mut twice);
    assert!(twice == original);
}

#[test]
fn mirror_symmetric_fixed_point() {
    let symmetric = buffer_from_fn(5, 3, |x, y| {
        let folded = if x >= 3 { 4 - x } else { x };
        ((folded * 20 + y) as u8, (folded + 7) as u8, y as u8)
    });
    let mut flipped = symmetric.duplicate();
    mirror(&mut flipped);
    assert!(flipped == symmetric);
}

#[test]
fn mirror_zero_width_is_noop() {
    let mut empty = PixelBuffer::from_raw(0, 4, Vec::new()).expect("empty buffer");
    mirror(&mut empty);
    assert_eq!(empty.byte_len(), 0);
}

#[test]
fn median_of_samples_matches_sort() {
    let mut samples = vec![
        9u8, 3, 250, 0, 0, 17, 88, 88, 88, 4, 200, 199, 41, 42, 43, 44, 45, 46, 47, 12, 13, 14,
        15, 16, 17,
    ];
    let median = median_of_samples(&samples);
    samples.sort_unstable();
    assert_eq!(median, samples[12]);
}

#[test]
fn median_filters_agree_bit_for_bit() {
    let buffer = pattern_8x8();
    let sliding = median_filter(&buffer);
    let reference = median_filter_reference(&buffer);
    assert!(sliding == reference);
}

#[test]
fn median_corner_matches_clamped_brute_force() {
    let buffer = pattern_8x8();
    let filtered = median_filter(&buffer);
    for &(x, y) in &[(0usize, 0usize), (7, 0), (0, 7), (7, 7), (3, 4)] {
        for c in 0..3 {
            assert_eq!(filtered.get(x, y, c), brute_force_median(&buffer, x, y, c));
        }
    }
}

#[test]
fn blur_matches_direct_convolution() {
    let buffer = pattern_8x8();
    let blurred = blur(&buffer);
    for y in 0..8usize {
        for x in 0..8usize {
            for c in 0..3usize {
                let mut sum = 0u32;
                for (dx, dy, weight) in [
                    (-1isize, -1isize, 1u32),
                    (0, -1, 2),
                    (1, -1, 1),
                    (-1, 0, 2),
                    (0, 0, 4),
                    (1, 0, 2),
                    (-1, 1, 1),
                    (0, 1, 2),
                    (1, 1, 1),
                ] {
                    let cx = clamp(x as isize + dx, 8);
                    let cy = clamp(y as isize + dy, 8);
                    sum += weight * buffer.get(cx, cy, c) as u32;
                }
                assert_eq!(blurred.get(x, y, c), (sum / 16) as u8);
            }
        }
    }
}

#[test]
fn denoise_keeps_uniform_image() {
    let uniform = buffer_from_fn(8, 8, |_, _| (57, 120, 33));
    let denoised = denoise(&uniform);
    assert!(denoised == uniform);
}

#[test]
fn difference_identical_frames_all_black() {
    let frame = pattern_8x8();
    let diff = difference(&frame, &frame).expect("equal dimensions");
    for i in 0..diff.byte_len() {
        assert_eq!(diff.byte_at(i), 0);
    }
}

#[test]
fn difference_dead_zone_swallows_31() {
    let a = black(6, 4);
    let mut b = black(6, 4);
    b.set_pixel(2, 1, (0, 31, 0));
    let diff = difference(&a, &b).expect("equal dimensions");
    for i in 0..diff.byte_len() {
        assert_eq!(diff.byte_at(i), 0);
    }
}

#[test]
fn difference_dead_zone_passes_40() {
    let a = black(6, 4);
    let mut b = black(6, 4);
    b.set_pixel(2, 1, (0, 40, 0));
    let diff = difference(&a, &b).expect("equal dimensions");
    // 40 & 0xE0 == 32: the magnitude survives, quantized to eight levels.
    assert_eq!(diff.get_pixel(2, 1), (0, 32, 0));
    for y in 0..4 {
        for x in 0..6 {
            if (x, y) != (2, 1) {
                assert_eq!(diff.get_pixel(x, y), (0, 0, 0));
            }
        }
    }
}

#[test]
fn difference_rejects_mismatched_dimensions() {
    let a = black(4, 4);
    let b = black(5, 4);
    assert_eq!(difference(&a, &b), Err(DimensionMismatch));
    assert_eq!(difference(&b, &a), Err(DimensionMismatch));
}

#[test]
fn locate_literal_scenario() {
    let mut diff = black(800, 600);
    diff.set_pixel(400, 300, (255, 255, 255));
    diff.set_pixel(300, 300, (255, 255, 255));
    diff.set_pixel(300, 200, (255, 255, 255));
    assert_eq!(locate_rightmost_motion(&diff), Some(Point { x: 400, y: 300 }));
}

#[test]
fn locate_tie_break_prefers_larger_row() {
    let mut diff = black(100, 60);
    diff.set_pixel(99, 10, (32, 0, 0));
    diff.set_pixel(99, 50, (0, 0, 32));
    diff.set_pixel(40, 20, (32, 32, 32));
    assert_eq!(locate_rightmost_motion(&diff), Some(Point { x: 99, y: 50 }));
}

#[test]
fn locate_all_black_returns_none() {
    let diff = black(64, 48);
    assert_eq!(locate_rightmost_motion(&diff), None);
}

#[test]
fn locate_sees_any_nonzero_channel() {
    let mut diff = black(10, 10);
    diff.set_pixel(6, 3, (0, 0, 1));
    assert_eq!(locate_rightmost_motion(&diff), Some(Point { x: 6, y: 3 }));
}

#[test]
fn one_pixel_image_degenerates_to_self_sampling() {
    let tiny = buffer_from_fn(1, 1, |_, _| (200, 17, 90));
    // All 25 clamped median samples and all 9 clamped blur samples hit the
    // single pixel, so denoising leaves it unchanged.
    let denoised = denoise(&tiny);
    assert!(denoised == tiny);
    let diff = difference(&tiny, &tiny).expect("equal dimensions");
    assert_eq!(locate_rightmost_motion(&diff), None);
}

#[test]
fn empty_image_is_valid_everywhere() {
    let empty = PixelBuffer::from_raw(0, 0, Vec::new()).expect("empty buffer");
    let denoised = denoise(&empty);
    assert_eq!(denoised.byte_len(), 0);
    let diff = difference(&empty, &denoised).expect("equal dimensions");
    assert_eq!(locate_rightmost_motion(&diff), None);
}

#[test]
fn from_raw_rejects_wrong_length() {
    assert!(PixelBuffer::from_raw(2, 2, vec![0u8; 5]).is_none());
    assert!(PixelBuffer::from_raw(2, 2, vec![0u8; 12]).is_some());
}
