//! What candidate crops are: their shape, how much of the image they cover,
//! and that every one that qualifies is there.

use crate::anchors::{
    cell_pixel, coarsening, covers, crops_below, crops_of, double, first_third, grid, grid_box, grid_keeps, grid_step, grid_x1, grid_x2, grid_y1, grid_y2, last_third, ladder, ladder_fits, least, least_area, least_cover, min_step, multiples, one_half, placed, placed_across, plain_ladder, rescaled, rescaled_box, single, steps_in, steps_over, third_of, two, window_of, Ladder,
};
use crate::ieee::{
    at_least, at_most, floor, floor_at_least, floor_of_half, half_of_int, less, less_than_int, of_int, of_int_exact, product, product_bounds_hold, quotient, quotient_at_least, quotient_bounds,
    quotient_floor, quotient_times_divisor, ratio_at_least, ratio_at_most, rounded, rounded_bounds, rounded_close, rounded_exponent, rounded_in_range, rounded_shifted, scaled, scaling_holds, Real,
};
use vstd::arithmetic::power2::{lemma_pow2_adds, lemma_pow2_pos, pow2};
use vstd::prelude::*;

verus! {

// ---------------------------------------------------------------------------
// Coverage.

proof fn powers()
    ensures
        pow2(54) == 0x40_0000_0000_0000,
        pow2(0) == 1,
{
    vstd::arithmetic::power2::lemma2_to64();
    vstd::arithmetic::power2::lemma2_to64_rest();
}

/// The bound that a crop's area is compared with is 40% of the image's,
/// rounded once.
proof fn bound_of(area: nat)
    requires
        0 < area <= 0x10_0000_0000_0000,
    ensures
        product(double(), least_cover(), of_int(double(), area)) == rounded(double(), 7205759403792794 * area, 1, -54),
{
    let b = double();
    of_int_exact(b, area);
    let y = of_int(b, area);
    let u = (-y.e) as nat;
    assert(7205759403792794 * (area * pow2(u)) == (7205759403792794 * area) * pow2(u)) by (nonlinear_arith);
    rounded_shifted(b, 7205759403792794 * area, -54, u);
}

/// A crop covers enough of the image exactly where five times its area is
/// more than twice the image's: over 40%.
pub proof fn covering_is_over_two_fifths(im_w: nat, im_h: nat, w: nat, h: nat)
    requires
        0 < w < im_w,
        0 < h < im_h,
        im_w * im_h <= 0x10_0000_0000_0000,
    ensures
        covers(im_w, im_h, w, h) ==> 5 * (w * h) > 2 * (im_w * im_h),
        im_w * im_h <= 0x4_0000_0000_0000 && 5 * (w * h) > 2 * (im_w * im_h) ==> covers(im_w, im_h, w, h),
{
    let (b, area, k) = (double(), im_w * im_h, w * h);
    assert(0 < k <= area) by (nonlinear_arith)
        requires
            0 < w < im_w,
            0 < h < im_h,
            k == w * h,
            area == im_w * im_h,
    ;
    let n: nat = 7205759403792794 * area;
    let p = rounded(b, n, 1, -54);
    bound_of(area);
    powers();
    less_than_int(b, p, k);
    if 5 * k <= 2 * area {
        assert(n >= (k * 1) * pow2(54)) by (nonlinear_arith)
            requires
                n == 7205759403792794 * area,
                5 * k <= 2 * area,
                pow2(54) == 0x40_0000_0000_0000,
        ;
        rounded_bounds(b, n, 1, -54, k);
    } else if area <= 0x4_0000_0000_0000 {
        rounded_close(b, n, 1, -54);
        if at_least(p, k) {
            let s = p.e + 54;
            let (t, bb) = (0x40_0000_0000_0000int, b as int);
            assert(p.m * 1 == p.m);
            assert(2 * bb * (k * t) <= (2 * bb + 1) * n) by {
                if p.e >= 0 {
                    let g = pow2(p.e as nat);
                    lemma_pow2_adds(p.e as nat, 54);
                    let y = p.m * pow2(s as nat);
                    assert(y >= k * t) by (nonlinear_arith)
                        requires
                            y == p.m * (g * t),
                            p.m * g >= k,
                            t > 0,
                    ;
                    assert(2 * bb * (k * t) <= (2 * bb + 1) * n) by (nonlinear_arith)
                        requires
                            2 * bb * y <= (2 * bb + 1) * n,
                            y >= k * t,
                            bb > 0,
                    ;
                } else if s >= 0 {
                    let g = pow2((-p.e) as nat);
                    lemma_pow2_adds((-p.e) as nat, s as nat);
                    let h2 = pow2(s as nat);
                    let y = p.m * h2;
                    assert(y >= k * t) by (nonlinear_arith)
                        requires
                            y == p.m * h2,
                            p.m >= k * g,
                            g * h2 == t,
                            h2 >= 0,
                    ;
                    assert(2 * bb * (k * t) <= (2 * bb + 1) * n) by (nonlinear_arith)
                        requires
                            2 * bb * y <= (2 * bb + 1) * n,
                            y >= k * t,
                            bb > 0,
                    ;
                } else {
                    let g = pow2((-p.e) as nat);
                    let r = pow2((-s) as nat);
                    lemma_pow2_adds(54, (-s) as nat);
                    lemma_pow2_pos((-s) as nat);
                    let nr = n * r;
                    assert(p.m >= (k * t) * r) by (nonlinear_arith)
                        requires
                            p.m >= k * g,
                            g == t * r,
                    ;
                    let kt = k * t;
                    assert(2 * bb * kt <= (2 * bb + 1) * n) by (nonlinear_arith)
                        requires
                            2 * bb * p.m <= (2 * bb + 1) * nr,
                            nr == n * r,
                            p.m >= kt * r,
                            r > 0,
                            bb > 0,
                    ;
                }
            }
            assert(false) by (nonlinear_arith)
                requires
                    2 * bb * (k * t) <= (2 * bb + 1) * n,
                    bb == 0x10_0000_0000_0000,
                    t == 0x40_0000_0000_0000,
                    n == 7205759403792794 * area,
                    5 * k >= 2 * area + 1,
                    0 < area <= 0x4_0000_0000_0000,
            ;
        }
    }
}

// ---------------------------------------------------------------------------
// Crops of one aspect ratio.

/// Box `b` lies inside the image, has aspect ratio `aspect.0 : aspect.1`, and
/// covers over 40% of the image where areas can be told apart.
pub open spec fn qualifies(im_w: nat, im_h: nat, aspect: (nat, nat), b: (i32, i32, i32, i32)) -> bool {
    &&& 0 <= b.0 <= b.2 < im_w
    &&& 0 <= b.1 <= b.3 < im_h
    &&& (b.2 - b.0 + 1) * aspect.1 == (b.3 - b.1 + 1) * aspect.0
    &&& im_w * im_h <= 0x10_0000_0000_0000 ==> 5 * ((b.2 - b.0 + 1) * (b.3 - b.1 + 1)) > 2 * (im_w * im_h)
}

proof fn multiples_below(len: nat, step: nat, k: nat)
    requires
        step > 0,
    ensures
        k < multiples(len, step) <==> k * step < len,
{
    let n = (len + step - 1) as int;
    let q = n / step as int;
    vstd::arithmetic::div_mod::lemma_fundamental_div_mod(n, step as int);
    vstd::arithmetic::div_mod::lemma_mod_bound(n, step as int);
    assert(q >= 0) by {
        vstd::arithmetic::div_mod::lemma_div_pos_is_pos(n, step as int);
    }
    let r = n % step as int;
    assert((k < q) == (k * step < len)) by (nonlinear_arith)
        requires
            n == step * q + r,
            0 <= r < step,
            n == len + step - 1,
            step > 0,
            k >= 0,
    ;
}

proof fn placed_qualifies(im_w: nat, im_h: nat, aspect: (nat, nat), l: Ladder, s: nat, x: nat, y: nat)
    requires
        im_w <= 0x7fff_ffff,
        im_h <= 0x7fff_ffff,
        l.w_step * aspect.1 == l.h_step * aspect.0,
        l.w_step > 0,
        l.h_step > 0,
        s > 0,
        covers(im_w, im_h, (l.w_step * s) as nat, (l.h_step * s) as nat),
        x + l.w_step * s < im_w,
        y + l.h_step * s < im_h,
    ensures
        qualifies(im_w, im_h, aspect, placed(x, y, (l.w_step * s) as nat, (l.h_step * s) as nat)),
{
    let (w, h) = ((l.w_step * s) as nat, (l.h_step * s) as nat);
    assert(w >= 1 && h >= 1) by (nonlinear_arith)
        requires
            l.w_step >= 1,
            l.h_step >= 1,
            s >= 1,
            w == l.w_step * s,
            h == l.h_step * s,
    ;
    assert(w * aspect.1 == h * aspect.0) by (nonlinear_arith)
        requires
            w == l.w_step * s,
            h == l.h_step * s,
            l.w_step * aspect.1 == l.h_step * aspect.0,
    ;
    if im_w * im_h <= 0x10_0000_0000_0000 {
        covering_is_over_two_fifths(im_w, im_h, w, h);
    }
    let b = placed(x, y, w, h);
    assert(b.0 == x && b.1 == y && b.2 == x + w - 1 && b.3 == y + h - 1);
}

proof fn across_qualifies(im_w: nat, im_h: nat, aspect: (nat, nat), l: Ladder, s: nat, n: nat, i: int)
    requires
        im_w <= 0x7fff_ffff,
        im_h <= 0x7fff_ffff,
        l.w_step * aspect.1 == l.h_step * aspect.0,
        l.w_step > 0,
        l.h_step > 0,
        s > 0,
        covers(im_w, im_h, (l.w_step * s) as nat, (l.h_step * s) as nat),
        n <= multiples((im_w - l.w_step * s) as nat, l.w_step),
        0 <= i < placed_across(im_h, l, (l.w_step * s) as nat, (l.h_step * s) as nat, n).len(),
    ensures
        qualifies(
            im_w,
            im_h,
            aspect,
            placed_across(im_h, l, (l.w_step * s) as nat, (l.h_step * s) as nat, n)[i],
        ),
    decreases n,
{
    let (w, h) = ((l.w_step * s) as nat, (l.h_step * s) as nat);
    let before = placed_across(im_h, l, w, h, (n - 1) as nat);
    if i < before.len() {
        across_qualifies(im_w, im_h, aspect, l, s, (n - 1) as nat, i);
    } else {
        let k = (i - before.len()) as nat;
        multiples_below((im_w - w) as nat, l.w_step, (n - 1) as nat);
        multiples_below((im_h - h) as nat, l.h_step, k);
        assert((n - 1) * l.w_step >= 0 && k * l.h_step >= 0) by (nonlinear_arith)
            requires
                n >= 1,
                k >= 0,
                l.w_step > 0,
                l.h_step > 0,
        ;
        placed_qualifies(im_w, im_h, aspect, l, s, ((n - 1) * l.w_step) as nat, (k * l.h_step) as nat);
    }
}

proof fn below_qualifies(im_w: nat, im_h: nat, aspect: (nat, nat), l: Ladder, n: nat, i: int)
    requires
        im_w <= 0x7fff_ffff,
        im_h <= 0x7fff_ffff,
        l.w_step * aspect.1 == l.h_step * aspect.0,
        l.w_step > 0,
        l.h_step > 0,
        0 <= i < crops_below(im_w, im_h, l, n).len(),
    ensures
        qualifies(im_w, im_h, aspect, crops_below(im_w, im_h, l, n)[i]),
    decreases n,
{
    if n > min_step(l.max_step) {
        let before = crops_below(im_w, im_h, l, (n - 1) as nat);
        if i < before.len() {
            below_qualifies(im_w, im_h, aspect, l, (n - 1) as nat, i);
        } else {
            let s = (n - 1) as nat;
            let (w, h) = ((l.w_step * s) as nat, (l.h_step * s) as nat);
            assert(l.w_step * s == l.w_step * (n - 1) && l.h_step * s == l.h_step * (n - 1));
            assert(covers(im_w, im_h, w, h));
            if s == 0 {
                assert(w == 0 && h == 0) by (nonlinear_arith)
                    requires
                        w == l.w_step * s,
                        h == l.h_step * s,
                        s == 0,
                ;
                assert(w * h == 0) by (nonlinear_arith)
                    requires
                        w == 0,
                ;
                crate::anchors::nothing_below_zero(product(double(), least_cover(), of_int(double(), im_w * im_h)));
                assert(false);
            }
            across_qualifies(
                im_w,
                im_h,
                aspect,
                l,
                s,
                multiples((im_w - w) as nat, l.w_step),
                i - before.len(),
            );
        }
    }
}

/// The steps of a ladder are the ratio's sides times one factor.
proof fn ladder_steps(im_w: nat, im_h: nat, aspect: (nat, nat), bins: nat) -> (f: nat)
    requires
        aspect.0 >= 1,
        aspect.1 >= 1,
        ladder_fits(im_w, im_h, aspect, bins),
    ensures
        f >= 1,
        ladder(im_w, im_h, aspect, bins) == plain_ladder(im_w, im_h, aspect.0 * f, aspect.1 * f),
        aspect.0 * f > 0,
        aspect.1 * f > 0,
        (aspect.0 * f) * aspect.1 == (aspect.1 * f) * aspect.0,
        plain_ladder(im_w, im_h, aspect.0, aspect.1).max_step <= bins ==> f == 1,
        f == 1 || f == coarsening(im_w, im_h, aspect, bins),
        plain_ladder(im_w, im_h, aspect.0, aspect.1).max_step > bins ==> f == coarsening(im_w, im_h, aspect, bins),
{
    let f: nat = if plain_ladder(im_w, im_h, aspect.0, aspect.1).max_step > bins {
        coarsening(im_w, im_h, aspect, bins)
    } else {
        1
    };
    assert(aspect.0 * f > 0 && aspect.1 * f > 0 && (aspect.0 * f) * aspect.1 == (aspect.1 * f) * aspect.0) by (nonlinear_arith)
        requires
            aspect.0 >= 1,
            aspect.1 >= 1,
            f >= 1,
    ;
    f
}

/// Every crop of an aspect ratio lies inside the image, has that ratio, its
/// last row and column counted, and covers over 40% of the image.
pub proof fn crops_have_their_aspect(im_w: nat, im_h: nat, aspect: (nat, nat), bins: nat, i: int)
    requires
        aspect.0 >= 1,
        aspect.1 >= 1,
        im_w <= 0x7fff_ffff,
        im_h <= 0x7fff_ffff,
        ladder_fits(im_w, im_h, aspect, bins),
        0 <= i < crops_of(im_w, im_h, aspect, bins).len(),
    ensures
        ({
            let b = crops_of(im_w, im_h, aspect, bins)[i];
            &&& 0 <= b.0 <= b.2 < im_w
            &&& 0 <= b.1 <= b.3 < im_h
            &&& (b.2 - b.0 + 1) * aspect.1 == (b.3 - b.1 + 1) * aspect.0
            &&& im_w * im_h <= 0x10_0000_0000_0000 ==> 5 * ((b.2 - b.0 + 1) * (b.3 - b.1 + 1)) > 2 * (im_w * im_h)
        }),
{
    let l = ladder(im_w, im_h, aspect, bins);
    let f = ladder_steps(im_w, im_h, aspect, bins);
    below_qualifies(im_w, im_h, aspect, l, l.max_step, i);
}

proof fn placed_across_has(im_h: nat, l: Ladder, w: nat, h: nat, n: nat, p: nat, q: nat)
    requires
        p < n,
        q < multiples((im_h - h) as nat, l.h_step),
    ensures
        placed_across(im_h, l, w, h, n).contains(placed((p * l.w_step) as nat, (q * l.h_step) as nat, w, h)),
    decreases n,
{
    let all = placed_across(im_h, l, w, h, n);
    let before = placed_across(im_h, l, w, h, (n - 1) as nat);
    let b = placed((p * l.w_step) as nat, (q * l.h_step) as nat, w, h);
    if p < n - 1 {
        placed_across_has(im_h, l, w, h, (n - 1) as nat, p, q);
        let j = choose|j: int| 0 <= j < before.len() && before[j] == b;
        assert(all[j] == b);
    } else {
        assert(all[before.len() as int + q] == b);
    }
}

proof fn crops_below_has(im_w: nat, im_h: nat, l: Ladder, n: nat, s: nat, p: nat, q: nat)
    requires
        l.w_step > 0,
        l.h_step > 0,
        min_step(l.max_step) <= s < n,
        covers(im_w, im_h, (l.w_step * s) as nat, (l.h_step * s) as nat),
        p * l.w_step + l.w_step * s < im_w,
        q * l.h_step + l.h_step * s < im_h,
    ensures
        crops_below(im_w, im_h, l, n).contains(
            placed((p * l.w_step) as nat, (q * l.h_step) as nat, (l.w_step * s) as nat, (l.h_step * s) as nat),
        ),
    decreases n,
{
    let (w, h) = ((l.w_step * s) as nat, (l.h_step * s) as nat);
    let all = crops_below(im_w, im_h, l, n);
    let before = crops_below(im_w, im_h, l, (n - 1) as nat);
    let b = placed((p * l.w_step) as nat, (q * l.h_step) as nat, w, h);
    if s < n - 1 {
        crops_below_has(im_w, im_h, l, (n - 1) as nat, s, p, q);
        let j = choose|j: int| 0 <= j < before.len() && before[j] == b;
        assert(all[j] == b);
    } else {
        multiples_below((im_w - w) as nat, l.w_step, p);
        multiples_below((im_h - h) as nat, l.h_step, q);
        let m = multiples((im_w - w) as nat, l.w_step);
        placed_across_has(im_h, l, w, h, m, p, q);
        let row = placed_across(im_h, l, w, h, m);
        let j = choose|j: int| 0 <= j < row.len() && row[j] == b;
        assert(all =~= before + row);
        assert(all[before.len() + j] == b);
    }
}

/// How many steps fit is the integer quotient.
proof fn steps_exact(len: nat, step: nat)
    requires
        len <= 0x7fff_ffff,
        0 < step <= 0x10_0000_0000_0000,
    ensures
        steps_in(len, step) == len / step,
{
    vstd::arithmetic::div_mod::lemma_div_nonincreasing(len as int, step as int);
    quotient_floor(double(), len, step);
}

/// `n / d`, rounded up.
pub open spec fn up(n: nat, d: nat) -> nat {
    ((n + d - 1) / d as int) as nat
}

proof fn up_holds(n: nat, d: nat)
    requires
        d > 0,
    ensures
        n <= up(n, d) * d,
        up(n, d) <= n,
{
    let m = (n + d - 1) as int;
    vstd::arithmetic::div_mod::lemma_fundamental_div_mod(m, d as int);
    vstd::arithmetic::div_mod::lemma_div_pos_is_pos(m, d as int);
    let q = m / d as int;
    let r = m % d as int;
    assert(n <= q * d && q <= n) by (nonlinear_arith)
        requires
            m == d * q + r,
            0 <= r < d,
            m == n + d - 1,
            n >= 0,
            d > 0,
    ;
}

/// The steps in units of `bins` are their quotient, rounded down or up.
proof fn steps_over_holds(len: nat, step: nat, bins: nat)
    requires
        len <= 0x7fff_ffff,
        0 < step <= 0x1_0000,
        0 < bins <= 0x1_0000_0000,
    ensures
        len / (step * bins) <= steps_over(len, step, bins) <= up(up(len, step), bins),
{
    let b = double();
    let d = step * bins;
    assert(d > 0) by (nonlinear_arith)
        requires
            d == step * bins,
            step > 0,
            bins > 0,
    ;
    let y = of_int(b, len);
    let x = quotient(b, y, of_int(b, step));
    let z = quotient(b, x, of_int(b, bins));
    let k = len / d;
    vstd::arithmetic::div_mod::lemma_fundamental_div_mod(len as int, d as int);
    up_holds(len, step);
    let u = up(len, step);
    up_holds(u, bins);
    let v = up(u, bins);
    powers();
    if len == 0 {
        assert(0 * pow2(0) == 0);
        vstd::arithmetic::div_mod::lemma_div_of0(d as int);
    } else {
        of_int_exact(b, len);
        of_int_exact(b, step);
        of_int_exact(b, bins);
        vstd::arithmetic::mul::lemma_mul_is_commutative(d as int, k as int);
        if k > 0 {
            let kb = k * bins;
            assert(kb * step == k * d && kb <= len && kb > 0 && k <= len) by (nonlinear_arith)
                requires
                    kb == k * bins,
                    d == step * bins,
                    k * d <= len,
                    k > 0,
                    bins > 0,
                    step > 0,
            ;
            crate::ieee::at_least_shrinks(y, len, kb * step);
            quotient_at_least(b, y, step, kb);
            quotient_at_least(b, x, bins, k);
            floor_at_least(z, k);
        }
        assert(u > 0 && v > 0) by (nonlinear_arith)
            requires
                0 < len <= u * step,
                u <= v * bins,
        ;
        crate::ieee::at_most_grows(y, len, u * step);
        crate::ieee::quotient_at_most_times(b, y, step, u);
        crate::ieee::at_most_grows(x, u, v * bins);
        crate::ieee::quotient_at_most_times(b, x, bins, v);
        crate::ieee::at_most_floor(z, v);
    }
}

/// Every placement is there. The sizes are multiples of the ratio by one
/// factor `f`: one, unless more than `bins` sizes would fit, else about as
/// many as that takes. Of the sizes from half the largest on, every one
/// that covers over 40% of the image stands at every multiple of its steps at
/// which it lies inside.
pub proof fn every_placement_is_there(
    im_w: nat,
    im_h: nat,
    aspect: (nat, nat),
    bins: nat,
    s: nat,
    p: nat,
    q: nat,
) -> (f: nat)
    requires
        1 <= aspect.0 <= 0x1_0000,
        1 <= aspect.1 <= 0x1_0000,
        im_w <= 0x7fff_ffff,
        im_h <= 0x7fff_ffff,
        im_w * im_h <= 0x4_0000_0000_0000,
        0 < bins <= 0x1_0000_0000,
        ladder_fits(im_w, im_h, aspect, bins),
    ensures
        f >= 1,
        im_w / aspect.0 <= bins || im_h / aspect.1 <= bins ==> f == 1,
        im_w / aspect.0 > bins && im_h / aspect.1 > bins ==> {
            &&& f >= im_w / (aspect.0 * bins)
            &&& f >= im_h / (aspect.1 * bins)
            &&& f <= up(up(im_w, aspect.0), bins) || f <= up(up(im_h, aspect.1), bins)
        },
        ({
            let (x, y) = ((p * aspect.0 * f) as nat, (q * aspect.1 * f) as nat);
            let (w, h) = ((s * aspect.0 * f) as nat, (s * aspect.1 * f) as nat);
            let most = least(im_w / (aspect.0 * f), im_h / (aspect.1 * f));
            most <= 2 * s + 3 && 0 < s < most && 5 * (w * h) > 2 * (im_w * im_h) && x + w < im_w && y + h < im_h
                ==> crops_of(im_w, im_h, aspect, bins).contains(
                (x as i32, y as i32, (x + w - 1) as i32, (y + h - 1) as i32),
            )
        }),
{
    steps_exact(im_w, aspect.0);
    steps_exact(im_h, aspect.1);
    steps_over_holds(im_w, aspect.0, bins);
    steps_over_holds(im_h, aspect.1, bins);
    up_holds(im_w, aspect.0);
    up_holds(im_h, aspect.1);
    up_holds(up(im_w, aspect.0), bins);
    up_holds(up(im_h, aspect.1), bins);
    let f = ladder_steps(im_w, im_h, aspect, bins);
    let l = ladder(im_w, im_h, aspect, bins);
    assert(f <= 0x7fff_ffff);
    assert(0 < l.w_step <= 0x10_0000_0000_0000 && 0 < l.h_step <= 0x10_0000_0000_0000) by (nonlinear_arith)
        requires
            l.w_step == aspect.0 * f,
            l.h_step == aspect.1 * f,
            1 <= f <= 0x7fff_ffff,
            1 <= aspect.0 <= 0x1_0000,
            1 <= aspect.1 <= 0x1_0000,
    ;
    steps_exact(im_w, l.w_step);
    steps_exact(im_h, l.h_step);
    let (x, y) = ((p * aspect.0 * f) as nat, (q * aspect.1 * f) as nat);
    let (w, h) = ((s * aspect.0 * f) as nat, (s * aspect.1 * f) as nat);
    assert(p * aspect.0 * f == p * l.w_step && q * aspect.1 * f == q * l.h_step && s * aspect.0 * f == l.w_step * s && s
        * aspect.1 * f == l.h_step * s) by (nonlinear_arith)
        requires
            l.w_step == aspect.0 * f,
            l.h_step == aspect.1 * f,
    ;
    let most = least(im_w / (aspect.0 * f), im_h / (aspect.1 * f));
    if most <= 2 * s + 3 && 0 < s < most && 5 * (w * h) > 2 * (im_w * im_h) && x + w < im_w && y + h < im_h {
        assert(w > 0 && h > 0) by (nonlinear_arith)
            requires
                w == l.w_step * s,
                h == l.h_step * s,
                s > 0,
                l.w_step > 0,
                l.h_step > 0,
        ;
        assert(im_w * im_h <= 0x10_0000_0000_0000);
        covering_is_over_two_fifths(im_w, im_h, w, h);
        crops_below_has(im_w, im_h, l, l.max_step, s, p, q);
        assert(placed(x, y, w, h) == (x as i32, y as i32, (x + w - 1) as i32, (y + h - 1) as i32));
    }
    f
}

// ---------------------------------------------------------------------------
// The aspect-free grid.

/// A crop of `dx` by `dy` cells covers enough exactly where it covers half the
/// grid or more.
proof fn half_is_covered(bins: nat, dx: nat, dy: nat)
    requires
        0 < bins <= 70,
        0 < dx <= bins,
        0 < dy <= bins,
    ensures
        less(least_area(), quotient(double(), of_int(double(), dx * dy), of_int(double(), bins * bins))) <==> 2 * (dx * dy) >= bins
            * bins,
{
    let b = double();
    let (n, d) = (dx * dy, bins * bins);
    assert(0 < n <= d <= 4900) by (nonlinear_arith)
        requires
            n == dx * dy,
            d == bins * bins,
            0 < dx <= bins,
            0 < dy <= bins,
            bins <= 70,
    ;
    let a = quotient(b, of_int(b, n), of_int(b, d));
    let c = least_area();
    vstd::arithmetic::power2::lemma2_to64();
    vstd::arithmetic::power2::lemma2_to64_rest();
    if 2 * n >= d {
        quotient_bounds(b, n, d, 1, 1);
        if a.e <= -54 {
            let g = pow2((-54 - a.e) as nat);
            lemma_pow2_pos((-54 - a.e) as nat);
            lemma_pow2_adds(53, (-54 - a.e) as nat);
            assert(c.m * g < 0x20_0000_0000_0000 * g) by (nonlinear_arith)
                requires
                    c.m < 0x20_0000_0000_0000,
                    g > 0,
            ;
            assert(1 * pow2((-(a.e + 1)) as nat) == 0x20_0000_0000_0000 * g);
            if a.e == -54 {
                assert(c.m * 1 == c.m);
            }
        } else {
            let g = pow2((a.e + 54) as nat);
            lemma_pow2_pos((a.e + 54) as nat);
            if a.e + 1 < 0 {
                let h = pow2((-(a.e + 1)) as nat);
                lemma_pow2_adds((-(a.e + 1)) as nat, (a.e + 54) as nat);
                assert(a.m * g >= h * g) by (nonlinear_arith)
                    requires
                        a.m >= 1 * h,
                        g > 0,
                ;
            } else {
                lemma_pow2_adds((a.e + 1) as nat, 53);
                lemma_pow2_pos((a.e + 1) as nat);
                assert(a.m * g >= 0x10_0000_0000_0000 * 0x20_0000_0000_0000) by (nonlinear_arith)
                    requires
                        a.m >= 0x10_0000_0000_0000,
                        g == pow2((a.e + 1) as nat) * 0x20_0000_0000_0000,
                        pow2((a.e + 1) as nat) >= 1,
                ;
            }
        }
    } else {
        let k: nat = 549645862725;
        assert(n * pow2(40) <= k * d) by (nonlinear_arith)
            requires
                2 * n <= d - 1,
                0 < d <= 4900,
                pow2(40) == 0x100_0000_0000,
                k == 549645862725,
        ;
        quotient_bounds(b, n, d, 40, k);
        if a.e + 40 >= 0 {
            let g = pow2((a.e + 40) as nat);
            lemma_pow2_pos((a.e + 40) as nat);
            assert(a.m * g >= a.m) by (nonlinear_arith)
                requires
                    g >= 1,
            ;
        } else {
            let h = pow2((-(a.e + 40)) as nat);
            if a.e <= -54 {
                let g = pow2((-54 - a.e) as nat);
                lemma_pow2_pos((-54 - a.e) as nat);
                lemma_pow2_adds(14, (-54 - a.e) as nat);
                assert(a.m <= c.m * g) by (nonlinear_arith)
                    requires
                        a.m <= k * h,
                        h == 16384 * g,
                        k == 549645862725,
                        c.m == 9005397814890044,
                        g > 0,
                ;
                if a.e == -54 {
                    assert(c.m * 1 == c.m);
                }
            } else {
                let g = pow2((a.e + 54) as nat);
                lemma_pow2_adds((-(a.e + 40)) as nat, (a.e + 54) as nat);
                assert(a.m * g <= c.m) by (nonlinear_arith)
                    requires
                        a.m <= k * h,
                        h * g == 16384,
                        k == 549645862725,
                        c.m == 9005397814890044,
                        g >= 0,
                ;
            }
        }
    }
}

/// The pixel of cell `x` of `bins` is the cell's middle on a side of `len`
/// pixels, to within a pixel.
pub proof fn cells_have_their_middle(len: nat, bins: nat, x: nat)
    requires
        1 < len < 0x7fff_ffff,
        0 < bins <= 0x10_0000,
        x < bins,
    ensures
        ({
            let px = cell_pixel(grid_step(len, bins), x);
            &&& 0 <= px <= len + 1
            &&& (2 * px + 2) * bins > (2 * x + 1) * (len - 1)
            &&& 2 * px * bins < (2 * x + 1) * (len + 1) + bins
        }),
{
    let b = double();
    let v: nat = 2 * x + 1;
    let step = grid_step(len, bins);
    half_of_int(b, v);
    of_int_exact(b, v);
    let h = of_int(b, v);
    let p = product(b, step, h);
    quotient_bounds(b, len, bins, 0, 0);
    assert(step.m * h.m > 0) by (nonlinear_arith)
        requires
            step.m > 0,
            h.m > 0,
    ;
    crate::ieee::rounded_exponent(b, step.m * h.m, 1, step.e + h.e, -1);
    floor_of_half(p);
    let lo = ((len - 1) * v / bins as int) as nat;
    let hi = up((len + 1) * v, bins);
    vstd::arithmetic::div_mod::lemma_fundamental_div_mod((len - 1) * v, bins as int);
    vstd::arithmetic::mul::lemma_mul_is_commutative(lo as int, bins as int);
    assert((len - 1) * v >= 0) by (nonlinear_arith)
        requires
            len >= 1,
            v >= 0,
    ;
    vstd::arithmetic::div_mod::lemma_div_pos_is_pos((len - 1) * v, bins as int);
    up_holds((len + 1) * v, bins);
    up_below((len + 1) * v, bins);
    assert((len + 1) * v <= (len + 1) * (2 * bins)) by (nonlinear_arith)
        requires
            v <= 2 * bins,
    ;
    assert(hi <= 2 * (len + 1)) by (nonlinear_arith)
        requires
            hi * bins < (len + 1) * v + bins,
            (len + 1) * v <= (len + 1) * (2 * bins),
            bins > 0,
    ;
    scaling_holds(b, len, bins, v, lo, hi);
    let f = floor(p);
    let px = f / 2;
    assert(hi * bins < v * (len + 1) + bins && (lo + 1) * bins > v * (len - 1)) by (nonlinear_arith)
        requires
            hi * bins < (len + 1) * v + bins,
            (len - 1) * v == bins * lo + (len - 1) * v % bins as int,
            (len - 1) * v % (bins as int) < bins,
    ;
    assert((2 * px + 2) * bins >= (lo + 1) * bins) by (nonlinear_arith)
        requires
            2 * px + 2 >= lo + 1,
            bins > 0,
    ;
    assert(2 * px * bins <= hi * bins) by (nonlinear_arith)
        requires
            2 * px <= hi,
            bins > 0,
    ;
    assert(v <= 2 * bins - 1);
    assert(px <= len + 1) by (nonlinear_arith)
        requires
            2 * px * bins < v * (len + 1) + bins,
            v <= 2 * bins - 1,
            bins > 0,
            len >= 0,
            px >= 0,
    ;
}

proof fn up_below(n: nat, d: nat)
    requires
        d > 0,
    ensures
        up(n, d) * d < n + d,
{
    let m = (n + d - 1) as int;
    vstd::arithmetic::div_mod::lemma_fundamental_div_mod(m, d as int);
    vstd::arithmetic::div_mod::lemma_div_pos_is_pos(m, d as int);
    vstd::arithmetic::mul::lemma_mul_is_commutative(m / d as int, d as int);
}

/// Whether a crop with these corners, as cells of a grid, is one of the grid's:
/// its upper-left cell lies in the first third, its lower-right one in the
/// last, both ways, and it covers half the grid or more.
pub open spec fn on_grid(bins: nat, x1: nat, y1: nat, x2: nat, y2: nat) -> bool {
    &&& x1 < bins / 3 && y1 < bins / 3
    &&& 2 * bins / 3 <= x2 < bins && 2 * bins / 3 <= y2 < bins
    &&& 2 * ((x2 - x1) * (y2 - y1)) >= bins * bins
}

/// The first third ends after a third of the cells, the last one begins after
/// two thirds.
proof fn thirds_are_thirds(bins: nat)
    requires
        0 < bins <= 0x10_0000,
    ensures
        first_third(bins) == bins / 3,
        last_third(bins) == 2 * bins / 3,
{
    let b = double();
    quotient_floor(b, bins, 3);
    quotient_floor(b, 2 * bins, 3);
    of_int_exact(b, bins);
    of_int_exact(b, 2 * bins);
    let (x, y, d) = (of_int(b, bins), of_int(b, 2 * bins), of_int(b, 3));
    of_int_exact(b, 3);
    // twice the number is the number, one higher in its exponent
    crate::ieee::rounded_exponent(b, bins, 1, 0, 1);
    crate::ieee::rounded_doubled(b, bins, 1, 1);
    assert(y == (Real { m: x.m, e: x.e + 1 }));
    crate::ieee::rounded_exponent(b, x.m, d.m, x.e - d.e, 1);
    quotient_bounds(b, bins, 3, 0, 0);
    assert(quotient(b, y, d) == scaled(third_of(bins), 1));
}

proof fn grid_y2_is(im_w: nat, im_h: nat, bins: nat, x1: nat, y1: nat, x2: nat, n: nat, i: int) -> (y2: nat)
    requires
        0 <= i < grid_y2(im_w, im_h, bins, x1, y1, x2, n).len(),
    ensures
        last_third(bins) <= y2 < n,
        grid_keeps(im_w, im_h, bins, (x2 - x1) as nat, (y2 - y1) as nat),
        grid_y2(im_w, im_h, bins, x1, y1, x2, n)[i] == grid_box(im_w, im_h, bins, x1, y1, x2, y2),
    decreases n,
{
    let before = grid_y2(im_w, im_h, bins, x1, y1, x2, (n - 1) as nat);
    if i < before.len() {
        grid_y2_is(im_w, im_h, bins, x1, y1, x2, (n - 1) as nat, i)
    } else {
        (n - 1) as nat
    }
}

proof fn grid_x2_is(im_w: nat, im_h: nat, bins: nat, x1: nat, y1: nat, n: nat, i: int) -> (r: (nat, nat))
    requires
        0 <= i < grid_x2(im_w, im_h, bins, x1, y1, n).len(),
    ensures
        last_third(bins) <= r.0 < n,
        last_third(bins) <= r.1 < bins,
        grid_keeps(im_w, im_h, bins, (r.0 - x1) as nat, (r.1 - y1) as nat),
        grid_x2(im_w, im_h, bins, x1, y1, n)[i] == grid_box(im_w, im_h, bins, x1, y1, r.0, r.1),
    decreases n,
{
    let before = grid_x2(im_w, im_h, bins, x1, y1, (n - 1) as nat);
    if i < before.len() {
        grid_x2_is(im_w, im_h, bins, x1, y1, (n - 1) as nat, i)
    } else {
        let x2 = (n - 1) as nat;
        let y2 = grid_y2_is(im_w, im_h, bins, x1, y1, x2, bins, i - before.len());
        (x2, y2)
    }
}

proof fn grid_y1_is(im_w: nat, im_h: nat, bins: nat, x1: nat, n: nat, i: int) -> (r: (nat, nat, nat))
    requires
        0 <= i < grid_y1(im_w, im_h, bins, x1, n).len(),
    ensures
        r.0 < n,
        last_third(bins) <= r.1 < bins,
        last_third(bins) <= r.2 < bins,
        grid_keeps(im_w, im_h, bins, (r.1 - x1) as nat, (r.2 - r.0) as nat),
        grid_y1(im_w, im_h, bins, x1, n)[i] == grid_box(im_w, im_h, bins, x1, r.0, r.1, r.2),
    decreases n,
{
    let before = grid_y1(im_w, im_h, bins, x1, (n - 1) as nat);
    if i < before.len() {
        grid_y1_is(im_w, im_h, bins, x1, (n - 1) as nat, i)
    } else {
        let y1 = (n - 1) as nat;
        let (x2, y2) = grid_x2_is(im_w, im_h, bins, x1, y1, bins, i - before.len());
        (y1, x2, y2)
    }
}

proof fn grid_x1_is(im_w: nat, im_h: nat, bins: nat, n: nat, i: int) -> (r: (nat, nat, nat, nat))
    requires
        0 <= i < grid_x1(im_w, im_h, bins, n).len(),
    ensures
        r.0 < n,
        r.1 < first_third(bins),
        last_third(bins) <= r.2 < bins,
        last_third(bins) <= r.3 < bins,
        grid_keeps(im_w, im_h, bins, (r.2 - r.0) as nat, (r.3 - r.1) as nat),
        grid_x1(im_w, im_h, bins, n)[i] == grid_box(im_w, im_h, bins, r.0, r.1, r.2, r.3),
    decreases n,
{
    let before = grid_x1(im_w, im_h, bins, (n - 1) as nat);
    if i < before.len() {
        grid_x1_is(im_w, im_h, bins, (n - 1) as nat, i)
    } else {
        let x1 = (n - 1) as nat;
        let (y1, x2, y2) = grid_y1_is(im_w, im_h, bins, x1, first_third(bins), i - before.len());
        (x1, y1, x2, y2)
    }
}

/// A box is that of the cells `c` (left, top, right, bottom): each of its
/// sides is at the middle of its cell, to within a pixel.
pub open spec fn at_cells(im_w: nat, im_h: nat, bins: nat, c: (nat, nat, nat, nat), b: (i32, i32, i32, i32)) -> bool {
    &&& middle(im_w, bins, c.0, b.0 as int)
    &&& middle(im_h, bins, c.1, b.1 as int)
    &&& middle(im_w, bins, c.2, b.2 as int)
    &&& middle(im_h, bins, c.3, b.3 as int)
}

/// Pixel `px` is at the middle of cell `x` of `bins` on a side of `len`.
pub open spec fn middle(len: nat, bins: nat, x: nat, px: int) -> bool {
    (2 * px + 2) * bins > (2 * x + 1) * (len - 1) && 2 * px * bins < (2 * x + 1) * (len + 1) + bins
}

/// Every crop of the aspect-free grid has its upper-left corner in the first
/// third and its lower-right one in the last, and covers half the image or
/// more.
pub proof fn grid_crops_lie_on_the_grid(im_w: nat, im_h: nat, bins: nat, i: int) -> (c: (nat, nat, nat, nat))
    requires
        1 < im_w < 0x7fff_ffff,
        1 < im_h < 0x7fff_ffff,
        0 < bins <= 70,
        0 <= i < grid(im_w, im_h, bins).len(),
    ensures
        on_grid(bins, c.0, c.1, c.2, c.3),
        at_cells(im_w, im_h, bins, c, grid(im_w, im_h, bins)[i]),
{
    thirds_are_thirds(bins);
    let c = grid_x1_is(im_w, im_h, bins, first_third(bins), i);
    half_is_covered(bins, (c.2 - c.0) as nat, (c.3 - c.1) as nat);
    cells_have_their_middle(im_w, bins, c.0);
    cells_have_their_middle(im_h, bins, c.1);
    cells_have_their_middle(im_w, bins, c.2);
    cells_have_their_middle(im_h, bins, c.3);
    c
}

// ---------------------------------------------------------------------------
// Back to the source image.

/// A box's side goes from one size to another in proportion, to within what a
/// pixel is worth: left and right by the widths, top and bottom by the
/// heights.
pub proof fn boxes_scale_in_proportion(v: nat, from: nat, to: nat)
    requires
        0 < v <= 0x10_0000,
        0 < from <= 0x10_0000,
        0 < to <= 0x10_0000,
        (v + 1) * to <= 0x40_0000 * from,
    ensures
        (rescaled(v as int, from, to) + 1) * from > (v - 1) * to,
        rescaled(v as int, from, to) * from < (v + 1) * to + from,
{
    let b = single();
    let lo = ((v - 1) * to / from as int) as nat;
    let hi = up((v + 1) * to, from);
    assert((v - 1) * to >= 0) by (nonlinear_arith)
        requires
            v >= 1,
            to >= 0,
    ;
    vstd::arithmetic::div_mod::lemma_fundamental_div_mod((v - 1) * to, from as int);
    vstd::arithmetic::div_mod::lemma_div_pos_is_pos((v - 1) * to, from as int);
    vstd::arithmetic::mul::lemma_mul_is_commutative(lo as int, from as int);
    up_holds((v + 1) * to, from);
    up_below((v + 1) * to, from);
    assert(hi <= 0x40_0000) by (nonlinear_arith)
        requires
            hi * from < (v + 1) * to + from,
            (v + 1) * to <= 0x40_0000 * from,
            from > 0,
    ;
    scaling_holds(b, v, from, to, lo, hi);
    let f = rescaled(v as int, from, to);
    assert(lo <= f <= hi);
    assert((f + 1) * from >= lo * from + from && f * from <= hi * from) by (nonlinear_arith)
        requires
            lo <= f <= hi,
            from > 0,
    ;
}

/// A box's left and right sides go by the widths, its top and bottom by the
/// heights.
pub proof fn boxes_scale_side_by_side(b: Seq<i32>, in_w: nat, in_h: nat, src_w: nat, src_h: nat, k: int)
    requires
        b.len() == 4,
        0 <= k < 4,
        0 < b[k] <= 0x10_0000,
        0 < in_w <= 0x10_0000,
        0 < in_h <= 0x10_0000,
        0 < src_w <= 0x10_0000,
        0 < src_h <= 0x10_0000,
        k % 2 == 0 ==> (b[k] + 1) * src_w <= 0x40_0000 * in_w,
        k % 2 == 1 ==> (b[k] + 1) * src_h <= 0x40_0000 * in_h,
    ensures
        ({
            let r = rescaled_box(b, in_w, in_h, src_w, src_h);
            &&& r.len() == 4
            &&& k % 2 == 0 ==> (r[k] + 1) * in_w > (b[k] - 1) * src_w && r[k] * in_w < (b[k] + 1) * src_w + in_w
            &&& k % 2 == 1 ==> (r[k] + 1) * in_h > (b[k] - 1) * src_h && r[k] * in_h < (b[k] + 1) * src_h + in_h
        }),
{
    if k % 2 == 0 {
        boxes_scale_in_proportion(b[k] as nat, in_w, src_w);
    } else {
        boxes_scale_in_proportion(b[k] as nat, in_h, src_h);
    }
}

/// What is at the edge stays at the edge.
pub proof fn the_origin_stays(from: nat, to: nat)
    requires
        from > 0,
    ensures
        rescaled(0, from, to) == 0,
{
    assert(0 * pow2(0) == 0);
}

/// What is cut out of a `w x h` image for a box that lies inside is the box:
/// from its corner on, as wide and as high as its sides are apart.
pub proof fn windows_are_their_boxes(b: Seq<i32>, w: u32, h: u32)
    requires
        0 <= b[0] <= b[2] <= w,
        0 <= b[1] <= b[3] <= h,
    ensures
        window_of(b, w, h) == (b[0] as u32, b[1] as u32, (b[2] - b[0]) as u32, (b[3] - b[1]) as u32),
{
}

// ---------------------------------------------------------------------------
// How flat a crop of the grid may be.

proof fn ratio_of_bounds(x: Real, y: Real, p: nat, q: nat, k: nat)
    requires
        y.m > 0,
        p >= k * q,
        at_least(x, p),
        at_most(y, q),
    ensures
        ratio_at_least(x.m, y.m, x.e - y.e, k),
{
    let e = x.e - y.e;
    let (xm, ym) = (x.m, y.m);
    let (f, g) = (pow2(if x.e >= 0 {
        x.e as nat
    } else {
        (-x.e) as nat
    }), pow2(if y.e >= 0 {
        y.e as nat
    } else {
        (-y.e) as nat
    }));
    let h = pow2(if e >= 0 {
        e as nat
    } else {
        (-e) as nat
    });
    lemma_pow2_pos(if x.e >= 0 {
        x.e as nat
    } else {
        (-x.e) as nat
    });
    lemma_pow2_pos(if y.e >= 0 {
        y.e as nat
    } else {
        (-y.e) as nat
    });
    lemma_pow2_pos(if e >= 0 {
        e as nat
    } else {
        (-e) as nat
    });
    if x.e >= 0 && y.e >= 0 {
        if e >= 0 {
            lemma_pow2_adds(e as nat, y.e as nat);
            assert(xm * h >= k * ym) by (nonlinear_arith)
                requires
                    xm * f >= p,
                    ym * g <= q,
                    p >= k * q,
                    f == h * g,
                    g > 0,
            ;
        } else {
            lemma_pow2_adds((-e) as nat, x.e as nat);
            assert(xm >= (k * ym) * h) by (nonlinear_arith)
                requires
                    xm * f >= p,
                    ym * g <= q,
                    p >= k * q,
                    g == h * f,
                    f > 0,
            ;
        }
    } else if x.e >= 0 {
        lemma_pow2_adds(x.e as nat, (-y.e) as nat);
        assert(xm * h >= k * ym) by (nonlinear_arith)
            requires
                xm * f >= p,
                ym <= q * g,
                p >= k * q,
                h == f * g,
                g > 0,
        ;
    } else if y.e >= 0 {
        lemma_pow2_adds((-x.e) as nat, y.e as nat);
        assert(xm >= (k * ym) * h) by (nonlinear_arith)
            requires
                xm >= p * f,
                ym * g <= q,
                p >= k * q,
                h == f * g,
                f > 0,
        ;
    } else if e >= 0 {
        lemma_pow2_adds((-x.e) as nat, e as nat);
        assert(xm * h >= k * ym) by (nonlinear_arith)
            requires
                xm >= p * f,
                ym <= q * g,
                p >= k * q,
                g == f * h,
                h > 0,
        ;
    } else {
        lemma_pow2_adds((-y.e) as nat, (-e) as nat);
        assert(xm >= (k * ym) * h) by (nonlinear_arith)
            requires
                xm >= p * f,
                ym <= q * g,
                p >= k * q,
                f == g * h,
                h > 0,
        ;
    }
}

/// A side of `n` cells is no shorter and no longer than whole pixels that it
/// reaches by more than its share of one.
proof fn side_bounds(len: nat, bins: nat, n: nat, k: nat)
    requires
        0 < len <= double(),
        0 < bins <= double(),
        0 < n <= double(),
        k <= double(),
    ensures
        ({
            let side = product(double(), of_int(double(), n), grid_step(len, bins));
            &&& side.m > 0
            &&& n * (len - 1) >= k * bins ==> at_least(side, k)
            &&& n * (len + 1) <= k * bins ==> at_most(side, k)
        }),
{
    let b = double();
    let x = grid_step(len, bins);
    quotient_times_divisor(b, len, bins);
    let m = x.m;
    let g = pow2(if x.e >= 0 {
        x.e as nat
    } else {
        (-x.e) as nat
    });
    if n * (len - 1) >= k * bins {
        if x.e >= 0 {
            assert((m * n) * g >= k) by (nonlinear_arith)
                requires
                    (m * bins) * g >= len - 1,
                    n * (len - 1) >= k * bins,
                    bins > 0,
                    n > 0,
            ;
        } else {
            assert(m * n >= k * g) by (nonlinear_arith)
                requires
                    m * bins >= (len - 1) * g,
                    n * (len - 1) >= k * bins,
                    bins > 0,
                    n > 0,
                    g >= 0,
            ;
        }
    }
    if n * (len + 1) <= k * bins {
        if x.e >= 0 {
            assert((m * n) * g <= k) by (nonlinear_arith)
                requires
                    (m * bins) * g <= len + 1,
                    n * (len + 1) <= k * bins,
                    bins > 0,
                    n > 0,
            ;
        } else {
            assert(m * n <= k * g) by (nonlinear_arith)
                requires
                    m * bins <= (len + 1) * g,
                    n * (len + 1) <= k * bins,
                    bins > 0,
                    n > 0,
                    g >= 0,
            ;
        }
    }
    product_bounds_hold(b, n, x, k);
}

/// A crop of the grid is not twice as high as it is wide: where its height
/// reaches `p` pixels and its width no more than `q`, `p` is below twice `q`.
pub proof fn grid_crops_are_not_twice_as_high(im_w: nat, im_h: nat, bins: nat, dx: nat, dy: nat, p: nat, q: nat)
    requires
        grid_keeps(im_w, im_h, bins, dx, dy),
        0 < im_w <= double(),
        0 < im_h <= double(),
        0 < bins <= double(),
        0 < dx <= double(),
        0 < dy <= double(),
        p <= double(),
        q <= double(),
        dy * (im_h - 1) >= p * bins,
        dx * (im_w + 1) <= q * bins,
    ensures
        p < 2 * q,
{
    let b = double();
    let x = product(b, of_int(b, dy), grid_step(im_h, bins));
    let y = product(b, of_int(b, dx), grid_step(im_w, bins));
    side_bounds(im_h, bins, dy, p);
    side_bounds(im_w, bins, dx, q);
    if p >= 2 * q {
        ratio_of_bounds(x, y, p, q, 2);
        let a = quotient(b, x, y);
        rounded_bounds(b, x.m, y.m, x.e - y.e, 2);
        less_than_int(b, a, 2);
        two_is_two();
    }
}

/// Nor is it twice as wide as it is high: where its width reaches `q` pixels
/// and its height no more than `p`, `q` is below twice `p`.
pub proof fn grid_crops_are_not_twice_as_wide(im_w: nat, im_h: nat, bins: nat, dx: nat, dy: nat, p: nat, q: nat)
    requires
        grid_keeps(im_w, im_h, bins, dx, dy),
        0 < im_w <= double(),
        0 < im_h <= double(),
        0 < bins <= double(),
        0 < dx <= double(),
        0 < dy <= double(),
        p <= double(),
        q <= double(),
        dx * (im_w - 1) >= q * bins,
        dy * (im_h + 1) <= p * bins,
    ensures
        q < 2 * p,
{
    let b = double();
    let x = product(b, of_int(b, dy), grid_step(im_h, bins));
    let y = product(b, of_int(b, dx), grid_step(im_w, bins));
    side_bounds(im_h, bins, dy, p);
    side_bounds(im_w, bins, dx, q);
    if q >= 2 * p {
        ratio_of_bounds(y, x, q, p, 2);
        let e = x.e - y.e;
        half_of_ratio(x.m, y.m, e);
        let a = quotient(b, x, y);
        rounded_bounds(b, x.m, y.m, e + 1, 1);
        rounded_in_range(b, x.m, y.m, e);
        rounded_exponent(b, x.m, y.m, e, 1);
        let t = Real { m: a.m, e: a.e + 1 };
        assert(at_most(t, 1));
        not_above_half(a);
    }
}

proof fn half_of_ratio(n: nat, d: nat, e: int)
    requires
        ratio_at_least(d, n, -e, 2),
        n > 0,
    ensures
        ratio_at_most(n, d, e + 1, 1),
{
    if e >= 0 {
        lemma_pow2_adds(e as nat, 1);
        vstd::arithmetic::power2::lemma2_to64();
        let h = pow2(e as nat);
        if e == 0 {
            assert(d * 1 >= 2 * n);
            assert(n * 2 <= 1 * d);
        } else {
            assert(n * (h * 2) <= 1 * d) by (nonlinear_arith)
                requires
                    d >= (2 * n) * h,
            ;
        }
    } else {
        let h = pow2((-e) as nat);
        lemma_pow2_adds((-e - 1) as nat, 1);
        vstd::arithmetic::power2::lemma2_to64();
        let g = pow2((-e - 1) as nat);
        assert(n <= (1 * d) * g) by (nonlinear_arith)
            requires
                d * h >= 2 * n,
                h == g * 2,
        ;
        if e == -1 {
            assert(n * pow2(0) == n);
        }
    }
}

proof fn two_is_two()
    ensures
        two() == of_int(double(), 2),
{
    let b = double();
    of_int_exact(b, 2);
    rounded_in_range(b, 2, 1, 0);
    let y = of_int(b, 2);
    let v = (-y.e) as nat;
    vstd::arithmetic::power2::lemma2_to64();
    vstd::arithmetic::power2::lemma2_to64_rest();
    if v < 51 {
        vstd::arithmetic::power2::lemma_pow2_strictly_increases(v, 51);
    } else if v > 51 {
        vstd::arithmetic::power2::lemma_pow2_strictly_increases(51, v);
        if v > 52 {
            vstd::arithmetic::power2::lemma_pow2_strictly_increases(52, v);
        }
    }
}

proof fn not_above_half(a: Real)
    requires
        double() <= a.m,
        at_most(Real { m: a.m, e: a.e + 1 }, 1),
    ensures
        !less(one_half(), a),
{
    vstd::arithmetic::power2::lemma2_to64();
    vstd::arithmetic::power2::lemma2_to64_rest();
    let e = a.e + 1;
    if e >= 0 {
        let g = pow2(e as nat);
        lemma_pow2_pos(e as nat);
        assert(a.m * g >= a.m) by (nonlinear_arith)
            requires
                g >= 1,
        ;
    } else {
        let v = (-e) as nat;
        assert(a.m <= pow2(v));
        if v < 52 {
            vstd::arithmetic::power2::lemma_pow2_strictly_increases(v, 52);
        }
        lemma_pow2_adds(52, (v - 52) as nat);
        assert(-53 - a.e == v - 52);
    }
}

} // verus!
