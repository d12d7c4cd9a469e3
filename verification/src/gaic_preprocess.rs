//! The GAIC network input's size, and the Lanczos resize to it.

use crate::anchors::{capped, double, least};
use crate::ieee::{
    at_most_grows, from_int, nearest_int, nearest_tile, of_int, over, product, product_bounds_hold, quotient,
    quotient_times_divisor, scale, scaled, times, to_nearest, DOUBLE,
};
use crate::resample::{are_planes, planes, resize_skipping, skipping, Axis};
use vstd::arithmetic::power2::pow2;
use vstd::prelude::*;

verus! {

/// One side of the network input: `v * (short / least side)` in double
/// precision, rounded (half to even) to a multiple of 32, saturating.
pub open spec fn input_side(v: nat, side: nat, short: nat) -> nat {
    if side == 0 {
        if v == 0 || short == 0 {
            0
        } else {
            usize::MAX as nat
        }
    } else {
        let factor = quotient(double(), of_int(double(), short), of_int(double(), side));
        let n = nearest_int(scaled(product(double(), of_int(double(), v), factor), -5));
        capped(n * 32, usize::MAX as nat)
    }
}

fn input_side_of(v: usize, side: usize, short: usize) -> (r: usize)
    ensures
        r == input_side(v as nat, side as nat, short as nat),
{
    if side == 0 {
        if v == 0 || short == 0 {
            0
        } else {
            usize::MAX
        }
    } else {
        let factor = over(DOUBLE, from_int(DOUBLE, short as u64), from_int(DOUBLE, side as u64));
        let n: u64 = to_nearest(scale(times(DOUBLE, from_int(DOUBLE, v as u64), factor), -5), u64::MAX);
        let tiles: u128 = n as u128 * 32;
        if tiles <= usize::MAX as u128 {
            tiles as usize
        } else {
            usize::MAX
        }
    }
}

/// Both sides of the input for a `w x h` image.
pub open spec fn input_sides(w: nat, h: nat, short: nat) -> (nat, nat) {
    (input_side(w, least(w, h), short), input_side(h, least(w, h), short))
}

/// The input size for a `w x h` image: short side to `short`, each side
/// rounded (half to even) to a multiple of 32.
pub fn input_size(w: usize, h: usize, short: usize) -> (r: (usize, usize))
    ensures
        (r.0 as nat, r.1 as nat) == input_sides(w as nat, h as nat, short as nat),
{
    let side: usize = if w <= h {
        w
    } else {
        h
    };
    (input_side_of(w, side, short), input_side_of(h, side, short))
}

/// Every side is a multiple of 32, unless it saturates.
pub proof fn sides_are_multiples(v: nat, side: nat, short: nat)
    ensures
        input_side(v, side, short) % 32 == 0 || input_side(v, side, short) == usize::MAX,
{
}

/// The shorter side comes out as asked, both sides are multiples of 32, they
/// keep their order, and an image on its side gets the same input on its
/// side. (A longer side of more than `2^31` may saturate.)
pub proof fn shorter_side_is_as_asked(w: nat, h: nat, short: nat)
    requires
        0 < w <= DOUBLE,
        0 < h <= DOUBLE,
        0 < short < DOUBLE,
        short <= usize::MAX,
        short % 32 == 0,
    ensures
        ({
            let (a, b) = input_sides(w, h, short);
            &&& least(a, b) == short
            &&& w <= h ==> a == short && a <= b
            &&& h <= w ==> b == short && b <= a
            &&& input_sides(h, w, short) == (b, a)
            &&& w * short <= 0x8000_0000 * h && h * short <= 0x8000_0000 * w ==> a % 32 == 0 && b % 32 == 0
        }),
{
    let side = least(w, h);
    side_is_as_asked(side, short);
    side_is_at_least(w, side, short);
    side_is_at_least(h, side, short);
    if w * short <= 0x8000_0000 * h && h * short <= 0x8000_0000 * w {
        assert(short <= 0x8000_0000) by (nonlinear_arith)
            requires
                w * short <= 0x8000_0000 * h,
                h * short <= 0x8000_0000 * w,
                0 < w,
                0 < h,
        ;
        assert(side * short <= 0x8000_0000 * side) by (nonlinear_arith)
            requires
                short <= 0x8000_0000,
        ;
        side_does_not_saturate(w, side, short);
        side_does_not_saturate(h, side, short);
    }
}

proof fn side_is_as_asked(side: nat, short: nat)
    requires
        0 < side <= DOUBLE,
        0 < short < DOUBLE,
        short <= usize::MAX,
        short % 32 == 0,
    ensures
        input_side(side, side, short) == short,
{
    let b = double();
    let factor = quotient(b, of_int(b, short), of_int(b, side));
    quotient_times_divisor(b, short, side);
    let p = product(b, of_int(b, side), factor);
    product_bounds_hold(b, side, factor, (short - 1) as nat);
    product_bounds_hold(b, side, factor, short + 1);
    nearest_tile(p, short / 32);
}

proof fn side_is_at_least(v: nat, side: nat, short: nat)
    requires
        0 < side <= v <= DOUBLE,
        0 < short < DOUBLE,
        short <= usize::MAX,
        short % 32 == 0,
    ensures
        input_side(v, side, short) >= short,
{
    let b = double();
    let factor = quotient(b, of_int(b, short), of_int(b, side));
    quotient_times_divisor(b, short, side);
    let p = product(b, of_int(b, v), factor);
    let m = factor.m;
    assert(m * v >= m * side) by (nonlinear_arith)
        requires
            v >= side,
    ;
    let (k, j) = (m * v, m * side);
    if factor.e >= 0 {
        let g = pow2(factor.e as nat);
        assert(k * g >= j * g) by (nonlinear_arith)
            requires
                k >= j,
        ;
    }
    product_bounds_hold(b, v, factor, (short - 1) as nat);
    nearest_tile(p, short / 32);
}

proof fn side_does_not_saturate(v: nat, side: nat, short: nat)
    requires
        0 < side <= DOUBLE,
        0 < v <= DOUBLE,
        32 <= short < DOUBLE,
        v * short <= 0x8000_0000 * side,
    ensures
        input_side(v, side, short) % 32 == 0,
{
    let b = double();
    let most: nat = 0x8400_0000;
    let factor = quotient(b, of_int(b, short), of_int(b, side));
    quotient_times_divisor(b, short, side);
    let p = product(b, of_int(b, v), factor);
    let m = factor.m;
    assert(v * (short + 1) <= side * most) by (nonlinear_arith)
        requires
            v * short <= 0x8000_0000 * side,
            short >= 32,
            most == 0x8400_0000,
    ;
    if factor.e >= 0 {
        let g = pow2(factor.e as nat);
        assert((m * v) * g <= most) by (nonlinear_arith)
            requires
                (m * side) * g <= short + 1,
                v * (short + 1) <= side * most,
                side > 0,
        ;
    } else {
        let g = pow2((-factor.e) as nat);
        assert(m * v <= most * g) by (nonlinear_arith)
            requires
                m * side <= (short + 1) * g,
                v * (short + 1) <= side * most,
                side > 0,
        ;
    }
    product_bounds_hold(b, v, factor, most);
    at_most_grows(p, most, most + 1);
    nearest_tile(p, most / 32);
}

/// A side keeps its ratio to the shorter one: where `v * short / side` is, to
/// within one part in `short` and one pixel, at least or at most a number of
/// tiles of 32, so is the side of the input.
pub proof fn sides_keep_their_ratio(v: nat, side: nat, short: nat, t: nat)
    requires
        0 < side <= DOUBLE,
        0 < v <= DOUBLE,
        0 < short < DOUBLE,
        32 * t < DOUBLE,
        32 * t <= usize::MAX,
    ensures
        t > 0 && v * (short - 1) >= side * (32 * t - 1) ==> input_side(v, side, short) >= 32 * t,
        v * (short + 1) <= side * (32 * t + 1) ==> input_side(v, side, short) <= 32 * t,
{
    let b = double();
    let factor = quotient(b, of_int(b, short), of_int(b, side));
    quotient_times_divisor(b, short, side);
    let p = product(b, of_int(b, v), factor);
    let m = factor.m;
    if t > 0 && v * (short - 1) >= side * (32 * t - 1) {
        let lo = (32 * t - 1) as nat;
        if factor.e >= 0 {
            let g = pow2(factor.e as nat);
            assert((m * v) * g >= lo) by (nonlinear_arith)
                requires
                    (m * side) * g >= short - 1,
                    v * (short - 1) >= side * lo,
                    side > 0,
                    v > 0,
            ;
        } else {
            let g = pow2((-factor.e) as nat);
            assert(m * v >= lo * g) by (nonlinear_arith)
                requires
                    m * side >= (short - 1) * g,
                    v * (short - 1) >= side * lo,
                    side > 0,
                    v > 0,
                    g >= 0,
            ;
        }
        product_bounds_hold(b, v, factor, lo);
    }
    if v * (short + 1) <= side * (32 * t + 1) {
        let hi = 32 * t + 1;
        if factor.e >= 0 {
            let g = pow2(factor.e as nat);
            assert((m * v) * g <= hi) by (nonlinear_arith)
                requires
                    (m * side) * g <= short + 1,
                    v * (short + 1) <= side * hi,
                    side > 0,
                    v > 0,
            ;
        } else {
            let g = pow2((-factor.e) as nat);
            assert(m * v <= hi * g) by (nonlinear_arith)
                requires
                    m * side <= (short + 1) * g,
                    v * (short + 1) <= side * hi,
                    side > 0,
                    v > 0,
                    g >= 0,
            ;
        }
        product_bounds_hold(b, v, factor, hi);
    }
    product_bounds_hold(b, v, factor, 0);
    nearest_tile(p, t);
}

/// Resizes an RGB8 image (`[h][w][3]`) with the taps of both axes; a pass
/// whose size does not change is skipped.
pub fn resize_rgb8(src: &[u8], w: usize, h: usize, out_w: usize, out_h: usize, horizontal: &Axis, vertical: &Axis) -> (r:
    Vec<u8>)
    requires
        src.len() == w * h * 3,
        out_w != w ==> horizontal.fits(w as nat, out_w as nat),
        out_h != h ==> vertical.fits(h as nat, out_h as nat),
        out_w * h * 3 <= usize::MAX,
        out_w * out_h * 3 <= usize::MAX,
    ensures
        r@ == skipping(src@, w as nat, h as nat, out_w as nat, out_h as nat, *horizontal, *vertical),
{
    resize_skipping(src, w, h, out_w, out_h, horizontal, vertical)
}

/// The `[3][h][w]` network input of an RGB8 image, its levels normalized by
/// `level`.
pub fn normalize<F: Fn(u8, usize) -> u32>(rgb: &[u8], level: &F) -> (r: Vec<u32>)
    requires
        rgb.len() % 3 == 0,
        forall|v: u8, c: usize| c < 3 ==> #[trigger] call_requires(*level, (v, c)),
    ensures
        are_planes(*level, rgb@, (rgb.len() / 3) as int, r@),
{
    planes(rgb, level)
}

} // verus!
