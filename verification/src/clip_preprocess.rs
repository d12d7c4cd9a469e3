//! The CLIP image processor's geometry: the shortest-edge resize and the
//! center crop.

use crate::anchors::{capped, double};
use crate::ieee::{
    floor, from_int, of_int, over, product, product_of_ints, quotient, quotient_floor, times, to_floor, DOUBLE,
};
use crate::resample::{resize_skipping, skipping, Axis};
use vstd::prelude::*;

verus! {

/// Resizes an interleaved RGB8 image, horizontal pass first, each pass
/// rounding and clamping to eight bits; a pass whose size does not change
/// is skipped.
pub fn resize_rgb8(src: &[u8], w: usize, h: usize, ow: usize, oh: usize, horizontal: &Axis, vertical: &Axis) -> (r: Vec<
    u8,
>)
    requires
        src.len() == w * h * 3,
        ow != w ==> horizontal.fits(w as nat, ow as nat),
        oh != h ==> vertical.fits(h as nat, oh as nat),
        ow * h * 3 <= usize::MAX,
        ow * oh * 3 <= usize::MAX,
    ensures
        r@ == skipping(src@, w as nat, h as nat, ow as nat, oh as nat, *horizontal, *vertical),
{
    resize_skipping(src, w, h, ow, oh, horizontal, vertical)
}

/// The processor's settings that decide geometry.
#[derive(Debug, Clone, Copy)]
pub struct Preprocess {
    pub shortest: usize,
    pub crop: usize,
}

/// The longer side after a resize that takes the shorter to `shortest`, in
/// double precision, truncated and saturating.
pub open spec fn long_side(shortest: nat, long: nat, short: nat) -> nat {
    if short == 0 {
        if shortest == 0 || long == 0 {
            0
        } else {
            usize::MAX as nat
        }
    } else {
        let x = product(double(), of_int(double(), shortest), of_int(double(), long));
        capped(floor(quotient(double(), x, of_int(double(), short))), usize::MAX as nat)
    }
}

/// Height and width after a resize that takes the shorter side of a `w x h`
/// image to `shortest`.
pub open spec fn sides_after(shortest: nat, w: nat, h: nat) -> (nat, nat) {
    if w <= h {
        (long_side(shortest, h, w), shortest)
    } else {
        (shortest, long_side(shortest, w, h))
    }
}

/// Where a crop of `crop` starts in a side of `size`: the halved
/// difference, truncated towards zero; negative where the crop is larger.
pub open spec fn crop_offset(size: nat, crop: nat) -> int {
    if size >= crop {
        (size - crop) / 2
    } else {
        -((crop - size) / 2)
    }
}

/// Sample (`y`, `x`, channel `ch`) of the center crop of an `rh` by `rw`
/// image; outside the image it is black.
pub open spec fn crop_sample(rgb: Seq<u8>, rh: nat, rw: nat, crop: nat, ch: int, y: int, x: int) -> u8 {
    let sy = y + crop_offset(rh, crop);
    let sx = x + crop_offset(rw, crop);
    if 0 <= sy < rh && 0 <= sx < rw {
        rgb[(sy * rw + sx) * 3 + ch]
    } else {
        0
    }
}

/// The center crop, a plane per channel.
pub open spec fn center_cropped(rgb: Seq<u8>, rh: nat, rw: nat, crop: nat) -> Seq<u8> {
    Seq::new(
        3 * (crop * crop),
        |i: int|
            {
                let p = i % (crop * crop) as int;
                crop_sample(rgb, rh, rw, crop, i / (crop * crop) as int, p / (crop as int), p % (crop as int))
            },
    )
}

impl Preprocess {
    /// `(height, width)` after the shortest-edge resize.
    pub fn resized_size(&self, w: usize, h: usize) -> (r: (usize, usize))
        ensures
            (r.0 as nat, r.1 as nat) == sides_after(self.shortest as nat, w as nat, h as nat),
    {
        let s: usize = self.shortest;
        let (short, long): (usize, usize) = if w <= h {
            (w, h)
        } else {
            (h, w)
        };
        let long: usize = if short == 0 {
            if s == 0 || long == 0 {
                0
            } else {
                usize::MAX
            }
        } else {
            let x = times(DOUBLE, from_int(DOUBLE, s as u64), from_int(DOUBLE, long as u64));
            to_floor(over(DOUBLE, x, from_int(DOUBLE, short as u64)), usize::MAX as u64) as usize
        };
        if w <= h {
            (long, s)
        } else {
            (s, long)
        }
    }

    /// The `[3, crop, crop]` samples of the center crop of an `rh x rw`
    /// RGB8 image, zeros where the crop is larger.
    pub fn center_crop(&self, rgb: &[u8], rh: usize, rw: usize) -> (r: Vec<u8>)
        requires
            rgb.len() == rh * rw * 3,
            3 * (self.crop * self.crop) <= usize::MAX,
        ensures
            r@ == center_cropped(rgb@, rh as nat, rw as nat, self.crop as nat),
    {
        let c: usize = self.crop;
        let top: i128 = offset(rh, c);
        let left: i128 = offset(rw, c);
        let plane: usize = c * c;
        let total: usize = 3 * plane;
        let mut out: Vec<u8> = Vec::new();
        let mut i: usize = 0;
        while i < total
            invariant
                rgb.len() == rh * rw * 3,
                c == self.crop,
                plane == c * c,
                total == 3 * plane,
                top == crop_offset(rh as nat, c as nat),
                left == crop_offset(rw as nat, c as nat),
                i <= total,
                out.len() == i,
                forall|j: int| 0 <= j < i ==> out[j] == center_cropped(rgb@, rh as nat, rw as nat, c as nat)[j],
            decreases total - i,
        {
            proof {
                assert(c > 0) by {
                    if c == 0 {
                        assert(c * c == 0);
                    }
                }
                crate::arith::index_parts(i as int, 3, plane as int);
                crate::arith::index_parts((i % plane) as int, c as int, c as int);
            }
            let ch: usize = i / plane;
            let p: usize = i % plane;
            let sy: i128 = (p / c) as i128 + top;
            let sx: i128 = (p % c) as i128 + left;
            if 0 <= sy && sy < rh as i128 && 0 <= sx && sx < rw as i128 {
                let (uy, ux): (usize, usize) = (sy as usize, sx as usize);
                proof {
                    assert((uy * rw + ux) * 3 + ch < rh * rw * 3 && uy * rw + ux >= 0 && uy * rw >= 0) by (nonlinear_arith)
                        requires
                            0 <= uy < rh,
                            0 <= ux < rw,
                            0 <= ch < 3,
                    ;
                }
                out.push(rgb[(uy * rw + ux) * 3 + ch]);
            } else {
                out.push(0);
            }
            i += 1;
        }
        proof {
            assert(out@ =~= center_cropped(rgb@, rh as nat, rw as nat, c as nat));
        }
        out
    }
}

/// The longer side is the shorter one's length times the sides' ratio,
/// rounded down: the resize keeps the image's shape.
pub proof fn a_resize_keeps_the_shape(shortest: nat, long: nat, short: nat)
    requires
        0 < short <= 0x10_0000_0000_0000,
        shortest * long <= 0x10_0000_0000_0000,
        shortest <= 0x10_0000_0000_0000,
        long <= 0x10_0000_0000_0000,
        shortest * long <= usize::MAX,
    ensures
        long_side(shortest, long, short) == shortest * long / short,
        long_side(shortest, long, short) * short <= shortest * long < (long_side(shortest, long, short) + 1) * short,
        short <= long ==> shortest <= long_side(shortest, long, short),
{
    let n = shortest * long;
    product_of_ints(double(), shortest, long);
    quotient_floor(double(), n, short);
    let q = n / short;
    vstd::arithmetic::div_mod::lemma_fundamental_div_mod(n as int, short as int);
    vstd::arithmetic::mul::lemma_mul_is_commutative(q as int, short as int);
    assert(q <= n) by (nonlinear_arith)
        requires
            q * short <= n,
            short > 0,
    ;
    assert((q + 1) * short == q * short + short) by (nonlinear_arith);
    if short <= long {
        assert(shortest * short <= n) by (nonlinear_arith)
            requires
                n == shortest * long,
                short <= long,
        ;
        assert(shortest <= q) by (nonlinear_arith)
            requires
                shortest * short <= n,
                n < (q + 1) * short,
        ;
    }
}

/// The shorter side of an image becomes as long as asked, the longer one
/// keeps its ratio to it, and an image on its side is resized to the same on
/// its side.
pub proof fn the_shorter_side_is_as_asked(shortest: nat, w: nat, h: nat)
    requires
        0 < w <= 0x10_0000_0000_0000,
        0 < h <= 0x10_0000_0000_0000,
        shortest <= 0x10_0000_0000_0000,
        shortest * w <= 0x10_0000_0000_0000,
        shortest * h <= 0x10_0000_0000_0000,
        shortest * w <= usize::MAX,
        shortest * h <= usize::MAX,
    ensures
        w <= h ==> sides_after(shortest, w, h) == (shortest * h / w, shortest),
        h <= w ==> sides_after(shortest, w, h) == (shortest, shortest * w / h),
        sides_after(shortest, h, w) == (sides_after(shortest, w, h).1, sides_after(shortest, w, h).0),
{
    a_resize_keeps_the_shape(shortest, h, w);
    a_resize_keeps_the_shape(shortest, w, h);
    if w == h {
        vstd::arithmetic::div_mod::lemma_div_multiples_vanish(shortest as int, w as int);
        vstd::arithmetic::mul::lemma_mul_is_commutative(shortest as int, w as int);
    }
}

/// The crop is cut out of the middle and read straight: plane `ch`, row `y`,
/// column `x` of it is channel `ch` of the pixel as many rows and columns
/// further as half of what is cut off, rounded down.
pub proof fn a_crop_is_the_middle(rgb: Seq<u8>, rh: nat, rw: nat, crop: nat, ch: int, y: int, x: int)
    requires
        crop <= rh,
        crop <= rw,
        0 <= ch < 3,
        0 <= y < crop,
        0 <= x < crop,
    ensures
        center_cropped(rgb, rh, rw, crop).len() == 3 * crop * crop,
        center_cropped(rgb, rh, rw, crop)[ch * crop * crop + y * crop + x] == rgb[((y + (rh - crop) / 2) * rw + (x + (rw - crop)
            / 2)) * 3 + ch],
{
    crop_index(crop, ch, y, x);
}

/// An image that fits in the crop stands in its middle, on black: a pixel is
/// as far in as half of what the image lacks, rounded down, and everything
/// beside it is zero.
pub proof fn a_small_image_is_framed(rgb: Seq<u8>, rh: nat, rw: nat, crop: nat, ch: int, y: int, x: int)
    requires
        rh <= crop,
        rw <= crop,
        0 <= ch < 3,
        0 <= y < crop,
        0 <= x < crop,
    ensures
        center_cropped(rgb, rh, rw, crop).len() == 3 * crop * crop,
        ({
            let (py, px) = (y - (crop - rh) / 2, x - (crop - rw) / 2);
            center_cropped(rgb, rh, rw, crop)[ch * crop * crop + y * crop + x] == (if 0 <= py < rh && 0 <= px < rw {
                rgb[(py * rw + px) * 3 + ch]
            } else {
                0
            })
        }),
{
    crop_index(crop, ch, y, x);
}

/// Rows and columns are cropped or framed each on its own: a sample is the
/// pixel its row and its column point at, where both do.
pub proof fn rows_and_columns_crop_apart(rgb: Seq<u8>, rh: nat, rw: nat, crop: nat, ch: int, y: int, x: int, py: int, px: int)
    requires
        0 <= ch < 3,
        0 <= y < crop,
        0 <= x < crop,
        crop <= rh ==> py == y + (rh - crop) / 2,
        rh < crop ==> py == y - (crop - rh) / 2,
        crop <= rw ==> px == x + (rw - crop) / 2,
        rw < crop ==> px == x - (crop - rw) / 2,
    ensures
        0 <= py < rh && 0 <= px < rw ==> center_cropped(rgb, rh, rw, crop)[ch * crop * crop + y * crop + x] == rgb[(py * rw + px)
            * 3 + ch],
        !(0 <= py < rh && 0 <= px < rw) ==> center_cropped(rgb, rh, rw, crop)[ch * crop * crop + y * crop + x] == 0,
{
    crop_index(crop, ch, y, x);
}

proof fn crop_index(crop: nat, ch: int, y: int, x: int)
    requires
        0 <= ch < 3,
        0 <= y < crop,
        0 <= x < crop,
    ensures
        0 <= ch * crop * crop + y * crop + x < 3 * (crop * crop),
        (ch * crop * crop + y * crop + x) / (crop * crop) as int == ch,
        (ch * crop * crop + y * crop + x) % (crop * crop) as int == y * crop + x,
        (y * crop + x) / crop as int == y,
        (y * crop + x) % crop as int == x,
        3 * crop * crop == 3 * (crop * crop),
{
    let c = crop as int;
    crate::arith::index_bound(y, x, c, c);
    crate::arith::split_index(y, x, c);
    crate::arith::index_bound(ch, y * c + x, 3, c * c);
    crate::arith::split_index(ch, y * c + x, c * c);
    assert(ch * c * c == ch * (c * c)) by (nonlinear_arith);
    assert(3 * c * c == 3 * (c * c)) by (nonlinear_arith);
}

fn offset(size: usize, crop: usize) -> (r: i128)
    ensures
        r == crop_offset(size as nat, crop as nat),
        -0x1_0000_0000_0000_0000 < r < 0x1_0000_0000_0000_0000,
{
    if size >= crop {
        ((size - crop) / 2) as i128
    } else {
        -(((crop - size) / 2) as i128)
    }
}

} // verus!
