//! Resizing, cropping and drawing.

use taconite::anchors::{crop_window, demo_sets, generate_anchors, generate_anchors_aspect_ratio_specific, rescale_box};
use taconite::clip_preprocess::{self, Preprocess};
use taconite::crop::crop;
use taconite::gaic_preprocess::{self, input_size};
use taconite::overlay::{agreement, area, overlay, Mark};
use taconite::ranking::{argmax, descending, ranks};
use taconite::resample::{Axis, Tap};
use taconite::sam3_post;

/// The triangle filter, widened by the scale when shrinking, in fixed point.
fn triangle(from: usize, to: usize) -> Axis {
    let scale = from as f64 / to as f64;
    let wide = scale.max(1.0);
    let float: Vec<(usize, Vec<f64>)> = (0..to)
        .map(|x| {
            let center = (x as f64 + 0.5) * scale;
            let lo = ((center - wide + 0.5) as i64).max(0) as usize;
            let hi = ((center + wide + 0.5) as i64).min(from as i64) as usize;
            let k: Vec<f64> =
                (lo..hi).map(|i| (1.0 - ((i as f64 - center + 0.5) / wide).abs()).max(0.0)).collect();
            let sum: f64 = k.iter().sum();
            (lo, k.iter().map(|v| v / sum).collect())
        })
        .collect();
    let top = float.iter().flat_map(|(_, k)| k.iter().copied()).fold(0.0, f64::max);
    let mut precision = 0;
    while precision < 22 && ((0.5 + top * (1u64 << (precision + 1)) as f64) as i64) < 1 << 15 {
        precision += 1;
    }
    let one = (1u64 << precision) as f64;
    let taps = float
        .into_iter()
        .map(|(first, k)| Tap { first, weights: k.iter().map(|v| (v * one + 0.5) as i32).collect() })
        .collect();
    Axis { taps, precision }
}

#[test]
fn input_size_matches_demo() {
    assert_eq!(input_size(1024, 683, 256), (384, 256));
    assert_eq!(input_size(1024, 939, 256), (288, 256));
    assert_eq!(input_size(1024, 744, 256), (352, 256));
    assert_eq!(input_size(256, 256, 256), (256, 256));
}

#[test]
fn the_shorter_side_comes_out_as_asked() {
    for (w, h) in [(1024, 683), (7, 9001), (640, 480), (1, 1), (333, 332), (4000, 3), (999983, 999979)] {
        for short in [32, 64, 256, 1024] {
            let (a, b) = input_size(w, h, short);
            assert_eq!(a.min(b), short);
            assert_eq!((a % 32, b % 32), (0, 0));
            assert_eq!(a <= b, w <= h || a == b);
            assert_eq!(input_size(h, w, short), (b, a));
        }
    }
}

#[test]
fn identity_resize_is_a_copy() {
    let src: Vec<u8> = (0..4 * 5 * 3).map(|i| i as u8).collect();
    assert_eq!(gaic_preprocess::resize_rgb8(&src, 4, 5, 4, 5, &triangle(4, 4), &triangle(5, 5)), src);
}

#[test]
fn resize_is_identity_at_the_same_size_and_flat_stays_flat() {
    let src: Vec<u8> = (0..4 * 3 * 3).map(|i| (i * 7 % 256) as u8).collect();
    let resize = |s: &[u8], w: usize, h: usize, ow: usize, oh: usize| {
        sam3_post::resize_rgb8(s, w, h, ow, oh, &triangle(w, ow), &triangle(h, oh))
    };
    assert_eq!(resize(&src, 4, 3, 4, 3), src);
    let flat = vec![77u8; 10 * 6 * 3];
    assert!(resize(&flat, 10, 6, 23, 17).iter().all(|&v| v == 77));
    assert!(resize(&flat, 10, 6, 3, 2).iter().all(|&v| v == 77));
}

#[test]
fn identity_pass_is_exact() {
    let src: Vec<u8> = (0..6 * 5 * 3).map(|i| (i * 7 % 256) as u8).collect();
    assert_eq!(clip_preprocess::resize_rgb8(&src, 6, 5, 6, 5, &triangle(6, 6), &triangle(5, 5)), src);
}

#[test]
fn sizes_follow_the_shorter_side() {
    let p = Preprocess { shortest: 224, crop: 224 };
    assert_eq!(p.resized_size(640, 480), (224, 298));
    assert_eq!(p.resized_size(480, 640), (298, 224));
}

#[test]
fn the_middle_is_cropped_and_padded_with_zeros() {
    let p = Preprocess { shortest: 2, crop: 2 };
    let rgb: Vec<u8> = (0..2 * 4 * 3).map(|i| i as u8).collect();
    let c = p.center_crop(&rgb, 2, 4);
    assert_eq!(c.len(), 12);
    assert!(c.contains(&3) && c.contains(&8) && !c.contains(&0) && !c.contains(&11));
    let small = Preprocess { shortest: 1, crop: 3 }.center_crop(&[9, 9, 9], 1, 1);
    assert_eq!(small.iter().filter(|&&v| v == 9).count(), 3);
    assert_eq!(small.iter().filter(|&&v| v == 0).count(), 24);
}

#[test]
fn a_window_averages_its_pixels() {
    let half = Axis { taps: vec![Tap { first: 0, weights: vec![2, 2] }], precision: 2 };
    assert!(half.check(2, 1));
    assert!(!half.check(1, 1));
    let r = sam3_post::resize_rgb8(&[10, 20, 30, 20, 40, 60], 2, 1, 1, 1, &half, &triangle(1, 1));
    assert_eq!(r, [15, 30, 45]);
}

#[test]
fn counts_match_the_python_reference() {
    assert_eq!(generate_anchors(384, 256, 12).len(), 83);
    assert_eq!(generate_anchors(288, 256, 12).len(), 90);
    assert_eq!(generate_anchors(352, 256, 12).len(), 87);
    assert_eq!(generate_anchors_aspect_ratio_specific(384, 256, (1, 1), 30).len(), 194);
    assert_eq!(generate_anchors_aspect_ratio_specific(288, 256, (1, 1), 30).len(), 416);
    assert_eq!(generate_anchors_aspect_ratio_specific(384, 256, (4, 3), 20).len(), 193);
    assert_eq!(generate_anchors_aspect_ratio_specific(288, 256, (4, 3), 20).len(), 115);
    assert_eq!(generate_anchors_aspect_ratio_specific(384, 256, (16, 9), 15).len(), 280);
    assert_eq!(generate_anchors_aspect_ratio_specific(288, 256, (16, 9), 15).len(), 80);
}

#[test]
fn the_demo_crops_four_ways() {
    let sets = demo_sets(384, 256);
    assert_eq!(sets.len(), 4);
    assert_eq!(sets[0].1.len(), 83);
    assert_eq!(sets.iter().map(|s| s.0).collect::<Vec<_>>(), ["best", "1:1", "4:3", "16:9"]);
    for (_, set) in &sets {
        for b in set {
            assert!(0 <= b[0] && b[0] < b[2] && b[2] <= 384, "{b:?}");
            assert!(0 <= b[1] && b[1] < b[3] && b[3] <= 256, "{b:?}");
        }
    }
}

#[test]
fn boxes_are_mapped_and_cut_to_the_image() {
    assert_eq!(rescale_box([10, 20, 110, 120], 100, 200, 200, 200), [20, 20, 220, 120]);
    assert_eq!(crop_window([20, -5, 220, 120], 200, 100), (20, 0, 180, 100));
    assert_eq!(crop_window([300, 0, 400, 10], 200, 100), (300, 0, 0, 10));
}

#[test]
fn a_crop_keeps_the_pixels_of_its_window() {
    let (w, h) = (5u32, 4u32);
    let rgb: Vec<u8> = (0..3 * w * h).map(|i| i as u8).collect();
    let (part, cw, ch) = crop(rgb.clone(), w, h, [1, 2, 3, 9]);
    assert_eq!((cw, ch), (2, 2));
    assert_eq!(part, [33, 34, 35, 36, 37, 38, 48, 49, 50, 51, 52, 53]);
    let (whole, cw, ch) = crop(rgb.clone(), w, h, [-3, -3, 50, 50]);
    assert_eq!((whole, cw, ch), (rgb.clone(), 5, 4));
    assert_eq!(crop(rgb.clone(), w, h, [3, 1, 3, 3]), (Vec::new(), 0, 2));
    assert_eq!(crop(rgb, w, h, [8, 0, 9, 2]), (Vec::new(), 0, 2));
}

#[test]
fn the_best_score_is_the_last_of_the_greatest() {
    let bits = |v: &[f32]| v.iter().map(|x| x.to_bits()).collect::<Vec<u32>>();
    assert_eq!(argmax(&bits(&[1.0, 3.0, -5.0, 3.0, 2.0])), 3);
    assert_eq!(argmax(&bits(&[-0.0, 0.0, -0.0])), 1);
    assert_eq!(argmax(&vec![]), 0);
    assert_eq!(ranks(&bits(&[2.0, -1.0, 2.0, 0.5])), [2, 0, 3, 1]);
    assert_eq!(descending(&bits(&[2.0, -1.0, 2.0, 0.5])), [0, 2, 3, 1]);
}

#[test]
fn masks_blend_and_frames_cover() {
    let (w, h) = (12usize, 10usize);
    let rgb = vec![100u8; 3 * w * h];
    let mut mask = vec![false; w * h];
    mask[5 * w + 5] = true;
    let m = Mark { mask, x0: 1, y0: 1, x1: 50, y1: 8 };
    let r = overlay(&rgb, w, h, &vec![m]);
    let at = |x: usize, y: usize| [r[(y * w + x) * 3], r[(y * w + x) * 3 + 1], r[(y * w + x) * 3 + 2]];
    assert_eq!(at(0, 0), [100, 100, 100]);
    assert_eq!(at(1, 1), [230, 25, 75]);
    assert_eq!(at(3, 3), [230, 25, 75]);
    assert_eq!(at(11, 5), [230, 25, 75]);
    assert_eq!(at(5, 5), [165, 62, 87]);
    assert_eq!(at(6, 5), [100, 100, 100]);
    assert_eq!(at(5, 9), [100, 100, 100]);
}

#[test]
fn masks_agree_by_what_they_share() {
    assert_eq!(agreement(&vec![true, true, false, false], &vec![1, 0, 7, 0]), (1, 3));
    assert_eq!(agreement(&vec![], &vec![1]), (0, 0));
    assert_eq!(area(&vec![true, false, true]), 2);
}

#[test]
fn pixels_become_planes() {
    let level = |v: u8, c: usize| v as u32 + 100 * c as u32;
    assert_eq!(gaic_preprocess::normalize(&[1, 2, 3, 4, 5, 6], &level), [1, 4, 102, 105, 203, 206]);
    assert!(gaic_preprocess::normalize(&[], &level).is_empty());
    let same = Axis {
        taps: (0..2usize).map(|first| Tap { first, weights: vec![1 << 14] }).collect(),
        precision: 14,
    };
    let rgb: Vec<u8> = (0..12).collect();
    let planes = sam3_post::preprocess(&rgb, 2, 2, 2, &same, &same, &level);
    assert_eq!(planes, [0, 3, 6, 9, 101, 104, 107, 110, 202, 205, 208, 211]);
}
