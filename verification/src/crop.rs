//! A box cut out of an image.

use crate::anchors::{crop_window, window_of, windows_lie_inside, Box4};
use vstd::prelude::*;

verus! {

/// `a` or `b`, whichever is smaller.
pub open spec fn lesser(a: int, b: int) -> int {
    if a < b {
        a
    } else {
        b
    }
}

/// The `cw x ch` pixels from column `x` and row `y` on of an image `w` pixels
/// wide, row by row, three bytes each.
pub open spec fn part_of(rgb: Seq<u8>, w: int, x: int, y: int, cw: int, ch: int) -> Seq<u8> {
    Seq::new((3 * (cw * ch)) as nat, |i: int| rgb[3 * ((y + i / 3 / cw) * w + x + i / 3 % cw) + i % 3])
}

/// `image::imageops::crop_imm` on the RGB image with these pixels, its view
/// copied out by `SubImage::to_image`: the corner is moved back to the image's
/// lower right corner if it lies beyond, the sides are cut off at the image's,
/// and the pixels come row by row. Trusted: that the pixels are those at the
/// offsets of the view, and that the result's size is the view's.
#[verifier::external_body]
fn crop_imm(rgb: Vec<u8>, w: u32, h: u32, x: u32, y: u32, cw: u32, ch: u32) -> (r: (Vec<u8>, u32, u32))
    requires
        rgb.len() == 3 * w * h,
        3 * w <= usize::MAX,
    ensures
        r.1 == lesser(cw as int, w - lesser(x as int, w as int)),
        r.2 == lesser(ch as int, h - lesser(y as int, h as int)),
        r.0@ == part_of(
            rgb@,
            w as int,
            lesser(x as int, w as int),
            lesser(y as int, h as int),
            r.1 as int,
            r.2 as int,
        ),
{
    let img = image::RgbImage::from_raw(w, h, rgb).unwrap();
    let cut = image::imageops::crop_imm(&img, x, y, cw, ch).to_image();
    let (cw, ch) = cut.dimensions();
    (cut.into_raw(), cw, ch)
}

/// The part of a `w x h` image inside a box, its width and its height.
pub fn crop(rgb: Vec<u8>, w: u32, h: u32, b: Box4) -> (r: (Vec<u8>, u32, u32))
    requires
        rgb.len() == 3 * w * h,
        3 * w <= usize::MAX,
    ensures
        ({
            let (x, y, cw, ch) = window_of(b@, w, h);
            r.1 == cw && r.2 == ch && r.0@ == part_of(rgb@, w as int, x as int, y as int, cw as int, ch as int)
        }),
{
    let (x, y, cw, ch): (u32, u32, u32, u32) = crop_window(b, w, h);
    proof {
        windows_lie_inside(b@, w, h);
        if cw == 0 || ch == 0 {
            assert(cw * ch == 0) by (nonlinear_arith)
                requires
                    cw == 0 || ch == 0,
            ;
        }
    }
    let r = crop_imm(rgb, w, h, x, y, cw, ch);
    proof {
        assert(r.0@ =~= part_of(rgb@, w as int, x as int, y as int, cw as int, ch as int));
    }
    r
}

proof fn part_index(w: int, h: int, x: int, y: int, cw: int, ch: int, i: int)
    requires
        0 <= x,
        0 <= y,
        0 < cw,
        x + cw <= w,
        y + ch <= h,
        0 <= i < 3 * (cw * ch),
    ensures
        0 <= 3 * ((y + i / 3 / cw) * w + x + i / 3 % cw) + i % 3 < 3 * (w * h),
{
    let p = i / 3;
    assert(0 <= p < cw * ch);
    assert(0 <= p / cw < ch && 0 <= p % cw < cw) by (nonlinear_arith)
        requires
            0 <= p < cw * ch,
            0 < cw,
    ;
    let (r, c) = (p / cw, p % cw);
    assert(0 <= (y + r) * w && (y + r) * w + w <= w * h) by (nonlinear_arith)
        requires
            0 <= y,
            0 <= r,
            y + r + 1 <= h,
            0 <= w,
    ;
}

/// Every byte of a crop is a byte of the image, the same channel of the pixel
/// at the window's corner and the crop's own place.
pub proof fn crops_come_from_the_image(rgb: Seq<u8>, w: u32, h: u32, b: Seq<i32>, i: int)
    requires
        rgb.len() == 3 * w * h,
        0 <= i < 3 * (window_of(b, w, h).2 * window_of(b, w, h).3),
    ensures
        ({
            let (x, y, cw, ch) = window_of(b, w, h);
            let j = 3 * ((y + i / 3 / (cw as int)) * w + x + i / 3 % (cw as int)) + i % 3;
            &&& 0 <= j < rgb.len()
            &&& j % 3 == i % 3
            &&& part_of(rgb, w as int, x as int, y as int, cw as int, ch as int)[i] == rgb[j]
        }),
{
    let (x, y, cw, ch) = window_of(b, w, h);
    windows_lie_inside(b, w, h);
    if cw == 0 || ch == 0 {
        assert(cw * ch == 0) by (nonlinear_arith)
            requires
                cw == 0 || ch == 0,
        ;
    }
    part_index(w as int, h as int, x as int, y as int, cw as int, ch as int, i);
    assert(3 * (w * h) == 3 * w * h) by (nonlinear_arith);
}

} // verus!
