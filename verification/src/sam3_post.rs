//! The SAM 3 image resize: antialiased bilinear, both passes always.

use crate::resample::{across, are_planes, down, passed_across, passed_down, planes, Axis};
use vstd::prelude::*;

verus! {

/// Resizes an interleaved RGB8 image, horizontal pass first, each pass
/// rounding to eight bits.
pub fn resize_rgb8(src: &[u8], w: usize, h: usize, ow: usize, oh: usize, horizontal: &Axis, vertical: &Axis) -> (r: Vec<
    u8,
>)
    requires
        src.len() == w * h * 3,
        horizontal.fits(w as nat, ow as nat),
        vertical.fits(h as nat, oh as nat),
        ow * h * 3 <= usize::MAX,
        ow * oh * 3 <= usize::MAX,
    ensures
        r@ == passed_down(
            passed_across(src@, w as nat, h as nat, ow as nat, *horizontal),
            ow as nat,
            oh as nat,
            *vertical,
        ),
{
    proof {
        assert(ow * h == h * ow) by (nonlinear_arith);
    }
    let tmp: Vec<u8> = across(src, w, h, ow, horizontal);
    down(&tmp, ow, h, oh, vertical)
}

/// The `[3, size, size]` network input of an RGB8 image: resized, its levels
/// normalized by `level`.
pub fn preprocess<F: Fn(u8, usize) -> u32>(
    rgb: &[u8],
    w: usize,
    h: usize,
    size: usize,
    horizontal: &Axis,
    vertical: &Axis,
    level: &F,
) -> (r: Vec<u32>)
    requires
        rgb.len() == w * h * 3,
        horizontal.fits(w as nat, size as nat),
        vertical.fits(h as nat, size as nat),
        size * h * 3 <= usize::MAX,
        size * size * 3 <= usize::MAX,
        forall|v: u8, c: usize| c < 3 ==> #[trigger] call_requires(*level, (v, c)),
    ensures
        are_planes(
            *level,
            passed_down(
                passed_across(rgb@, w as nat, h as nat, size as nat, *horizontal),
                size as nat,
                size as nat,
                *vertical,
            ),
            (size * size) as int,
            r@,
        ),
{
    let resized: Vec<u8> = resize_rgb8(rgb, w, h, size, size, horizontal, vertical);
    planes(resized.as_slice(), level)
}

} // verus!
