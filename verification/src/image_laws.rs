//! What resizing and marking an image does to its pixels.

use crate::arith::{index_bound, split_index};
use crate::overlay::{area_of, color, common, covered, drawn, drawn_at, framed, lesser, Mark};
use crate::resample::{clip8, passed_across, passed_down, resampled, skipping, weighted, Axis, Tap};
use vstd::arithmetic::power2::{lemma_pow2_pos, lemma_pow2_unfold, pow2};
use vstd::prelude::*;

verus! {

/// Channel `ch` of pixel (`x`, `y`) of an image `w` pixels wide.
pub open spec fn level(rgb: Seq<u8>, w: int, x: int, y: int, ch: int) -> u8 {
    rgb[(y * w + x) * 3 + ch]
}

/// The sum of the first `n` levels, each times its weight.
pub open spec fn weighed(f: spec_fn(int) -> u8, weights: Seq<i32>, n: nat) -> int
    decreases n,
{
    if n == 0 {
        0
    } else {
        weighed(f, weights, (n - 1) as nat) + f(n - 1) * weights[n - 1]
    }
}

/// `v` is the level nearest to `sum / unit`, the higher of two.
pub open spec fn is_nearest_level(v: u8, sum: int, unit: int) -> bool {
    &&& v > 0 ==> 2 * (v * unit - sum) <= unit
    &&& v < 255 ==> 2 * (v * unit - sum) > -unit
}

proof fn window_is_weighed(src: Seq<u8>, at: int, stride: int, tap: Tap, precision: nat, f: spec_fn(int) -> u8)
    requires
        precision >= 1,
        forall|k: int| 0 <= k < tap.weights.len() ==> #[trigger] f(k) == src[at + k * stride],
    ensures
        is_nearest_level(
            resampled(src, at, stride, tap, precision),
            weighed(f, tap.weights@, tap.weights@.len()),
            pow2(precision) as int,
        ),
{
    let unit = pow2(precision) as int;
    let half = pow2((precision - 1) as nat) as int;
    lemma_pow2_unfold(precision);
    lemma_pow2_pos(precision);
    let n = tap.weights@.len();
    sums_agree(src, at, stride, tap.weights@, n, precision, f);
    let sum = weighed(f, tap.weights@, n);
    let ss = sum + half;
    let q = ss / unit;
    vstd::arithmetic::div_mod::lemma_fundamental_div_mod(ss, unit);
    let r = ss % unit;
    assert(0 <= r < unit);
    assert(q * unit == ss - r) by (nonlinear_arith)
        requires
            ss == unit * q + r,
    ;
    let v = resampled(src, at, stride, tap, precision);
    assert(v == clip8(ss, precision));
    if q < 0 {
        assert(v == 0);
        assert(q * unit <= -unit) by (nonlinear_arith)
            requires
                q <= -1,
                unit > 0,
        ;
    } else if q > 255 {
        assert(v == 255);
        assert(255 * unit <= q * unit - unit) by (nonlinear_arith)
            requires
                q >= 256,
                unit > 0,
        ;
    }
}

proof fn sums_agree(src: Seq<u8>, at: int, stride: int, weights: Seq<i32>, n: nat, precision: nat, f: spec_fn(int) -> u8)
    requires
        n <= weights.len(),
        forall|k: int| 0 <= k < weights.len() ==> #[trigger] f(k) == src[at + k * stride],
    ensures
        weighted(src, at, stride, weights, n, precision) == weighed(f, weights, n) + pow2((precision - 1) as nat),
    decreases n,
{
    if n > 0 {
        sums_agree(src, at, stride, weights, (n - 1) as nat, precision, f);
        assert(f(n - 1) == src[at + (n - 1) * stride]);
    }
}

/// In a row resampled to `ow` columns a pixel is the weighted mean of
/// neighbours in its own row and channel, from the window's first column on,
/// to the nearest level.
pub proof fn columns_are_weighted_means(src: Seq<u8>, w: nat, h: nat, ow: nat, axis: Axis, x: int, y: int, ch: int)
    requires
        axis.fits(w, ow),
        0 <= x < ow,
        0 <= y < h,
        0 <= ch < 3,
    ensures
        passed_across(src, w, h, ow, axis).len() == h * ow * 3,
        ({
            let tap = axis.taps[x];
            is_nearest_level(
                level(passed_across(src, w, h, ow, axis), ow as int, x, y, ch),
                weighed(|k: int| level(src, w as int, tap.first + k, y, ch), tap.weights@, tap.weights@.len()),
                pow2(axis.precision as nat) as int,
            )
        }),
{
    let tap = axis.taps[x];
    let f = |k: int| level(src, w as int, tap.first + k, y, ch);
    let at = (y * w + tap.first) * 3 + ch;
    assert forall|k: int| 0 <= k < tap.weights.len() implies #[trigger] f(k) == src[at + k * 3] by {
        assert((y * w + (tap.first + k)) * 3 + ch == at + k * 3);
    }
    window_is_weighed(src, at, 3, tap, axis.precision as nat, f);
    let i = (y * ow + x) * 3 + ch;
    index_bound(x, ch, ow as int, 3);
    split_index(x, ch, 3);
    assert(i == y * (3 * ow as int) + (x * 3 + ch)) by (nonlinear_arith)
        requires
            i == (y * ow + x) * 3 + ch,
    ;
    split_index(y, x * 3 + ch, 3 * ow as int);
    split_index(y * ow + x, ch, 3);
    index_bound(y, x, h as int, ow as int);
    index_bound(y * ow + x, ch, h * ow as int, 3);
}

/// In a column resampled to `oh` rows a pixel is the weighted mean of
/// neighbours in its own column and channel, from the window's first row on,
/// to the nearest level.
pub proof fn rows_are_weighted_means(src: Seq<u8>, w: nat, h: nat, oh: nat, axis: Axis, x: int, y: int, ch: int)
    requires
        axis.fits(h, oh),
        0 <= x < w,
        0 <= y < oh,
        0 <= ch < 3,
    ensures
        passed_down(src, w, oh, axis).len() == oh * w * 3,
        ({
            let tap = axis.taps[y];
            is_nearest_level(
                level(passed_down(src, w, oh, axis), w as int, x, y, ch),
                weighed(|k: int| level(src, w as int, x, tap.first + k, ch), tap.weights@, tap.weights@.len()),
                pow2(axis.precision as nat) as int,
            )
        }),
{
    let tap = axis.taps[y];
    let f = |k: int| level(src, w as int, x, tap.first + k, ch);
    let at = (tap.first * w) * 3 + (x * 3 + ch);
    let wi = w as int;
    assert forall|k: int| 0 <= k < tap.weights.len() implies #[trigger] f(k) == src[at + k * (3 * wi)] by {
        assert(((tap.first + k) * wi + x) * 3 + ch == at + k * (3 * wi)) by (nonlinear_arith)
            requires
                at == (tap.first * wi) * 3 + (x * 3 + ch),
        ;
    }
    window_is_weighed(src, at, 3 * wi, tap, axis.precision as nat, f);
    let i = (y * w + x) * 3 + ch;
    index_bound(x, ch, w as int, 3);
    assert(i == y * (3 * wi) + (x * 3 + ch)) by (nonlinear_arith)
        requires
            i == (y * wi + x) * 3 + ch,
    ;
    split_index(y, x * 3 + ch, 3 * wi);
    index_bound(y, x, oh as int, w as int);
    index_bound(y * w + x, ch, oh * w as int, 3);
}

/// Every pixel of `out` is the weighted mean of neighbours in its row of
/// `src`.
pub open spec fn rows_are_resampled(src: Seq<u8>, w: int, h: int, out: Seq<u8>, ow: int, axis: Axis) -> bool {
    forall|x: int, y: int, ch: int| #![trigger level(out, ow, x, y, ch)]
        0 <= x < ow && 0 <= y < h && 0 <= ch < 3 ==> is_nearest_level(
            level(out, ow, x, y, ch),
            weighed(
                |k: int| level(src, w, axis.taps[x].first + k, y, ch),
                axis.taps[x].weights@,
                axis.taps[x].weights@.len(),
            ),
            pow2(axis.precision as nat) as int,
        )
}

/// Every pixel of `out` is the weighted mean of neighbours in its column of
/// `src`.
pub open spec fn columns_are_resampled(src: Seq<u8>, w: int, out: Seq<u8>, oh: int, axis: Axis) -> bool {
    forall|x: int, y: int, ch: int| #![trigger level(out, w, x, y, ch)]
        0 <= x < w && 0 <= y < oh && 0 <= ch < 3 ==> is_nearest_level(
            level(out, w, x, y, ch),
            weighed(
                |k: int| level(src, w, x, axis.taps[y].first + k, ch),
                axis.taps[y].weights@,
                axis.taps[y].weights@.len(),
            ),
            pow2(axis.precision as nat) as int,
        )
}

/// A resized image is averaged along its rows by the horizontal windows, if
/// its width changes, and what comes of that along its columns by the
/// vertical ones, if its height does.
pub proof fn a_resize_averages_rows_then_columns(
    src: Seq<u8>,
    w: nat,
    h: nat,
    ow: nat,
    oh: nat,
    horizontal: Axis,
    vertical: Axis,
) -> (mid: Seq<u8>)
    requires
        src.len() == h * w * 3,
        ow != w ==> horizontal.fits(w, ow),
        oh != h ==> vertical.fits(h, oh),
    ensures
        mid.len() == h * ow * 3,
        skipping(src, w, h, ow, oh, horizontal, vertical).len() == oh * ow * 3,
        ow == w ==> mid == src,
        ow != w ==> rows_are_resampled(src, w as int, h as int, mid, ow as int, horizontal),
        oh == h ==> skipping(src, w, h, ow, oh, horizontal, vertical) == mid,
        oh != h ==> columns_are_resampled(
            mid,
            ow as int,
            skipping(src, w, h, ow, oh, horizontal, vertical),
            oh as int,
            vertical,
        ),
{
    let mid = if ow != w {
        passed_across(src, w, h, ow, horizontal)
    } else {
        src
    };
    if ow != w {
        assert forall|x: int, y: int, ch: int| #![trigger level(mid, ow as int, x, y, ch)]
            0 <= x < ow && 0 <= y < h && 0 <= ch < 3 implies is_nearest_level(
            level(mid, ow as int, x, y, ch),
            weighed(
                |k: int| level(src, w as int, horizontal.taps[x].first + k, y, ch),
                horizontal.taps[x].weights@,
                horizontal.taps[x].weights@.len(),
            ),
            pow2(horizontal.precision as nat) as int,
        ) by {
            columns_are_weighted_means(src, w, h, ow, horizontal, x, y, ch);
        }
    }
    let out = skipping(src, w, h, ow, oh, horizontal, vertical);
    if oh != h {
        assert forall|x: int, y: int, ch: int| #![trigger level(out, ow as int, x, y, ch)]
            0 <= x < ow && 0 <= y < oh && 0 <= ch < 3 implies is_nearest_level(
            level(out, ow as int, x, y, ch),
            weighed(
                |k: int| level(mid, ow as int, x, vertical.taps[y].first + k, ch),
                vertical.taps[y].weights@,
                vertical.taps[y].weights@.len(),
            ),
            pow2(vertical.precision as nat) as int,
        ) by {
            rows_are_weighted_means(mid, ow, h, oh, vertical, x, y, ch);
        }
    }
    mid
}

/// A frame is three pixels wide, on the inside of its box: it is the box, as
/// far as the image goes, without what lies three pixels or more from every
/// side of it.
pub proof fn a_frame_is_three_wide(m: Mark, w: int, h: int, x: int, y: int)
    requires
        0 < w,
        0 < h,
        m.x0 + 2 <= lesser(m.x1 as int, w - 1),
        m.y0 + 2 <= lesser(m.y1 as int, h - 1),
        0 <= x < w,
        0 <= y < h,
    ensures
        framed(m, w, h, x, y) <==> {
            &&& m.x0 <= x <= m.x1 && m.y0 <= y <= m.y1
            &&& x < m.x0 + 3 || y < m.y0 + 3 || x > m.x1 - 3 || y > m.y1 - 3 || x > w - 4 || y > h - 4
        },
{
}

/// The last instance is drawn over the others: on its frame a pixel has its
/// colour, elsewhere in its mask the mean of its colour and what the others
/// left, rounded down, and elsewhere what the others left.
pub proof fn the_last_instance_is_on_top(img: Seq<u8>, marks: Seq<Mark>, n: nat, w: int, h: int, x: int, y: int, ch: int)
    requires
        0 < n <= marks.len(),
        0 < w,
        0 < h,
        img.len() == 3 * w * h,
        0 <= x < w,
        0 <= y < h,
        0 <= ch < 3,
    ensures
        ({
            let m = marks[n - 1];
            let was = level(drawn(img, marks, (n - 1) as nat, w, h), w, x, y, ch);
            let now = level(drawn(img, marks, n, w, h), w, x, y, ch);
            let c = color((n - 1) as nat, ch);
            let inside = y * w + x < m.mask.len() && m.mask[y * w + x];
            &&& framed(m, w, h, x, y) ==> now == c
            &&& !framed(m, w, h, x, y) && inside ==> 2 * now <= was + c <= 2 * now + 1
            &&& !framed(m, w, h, x, y) && !inside ==> now == was
        }),
{
    let i = (y * w + x) * 3 + ch;
    split_index(y * w + x, ch, 3);
    split_index(y, x, w);
    index_bound(y, x, h, w);
    index_bound(y * w + x, ch, h * w, 3);
    assert(3 * w * h == (h * w) * 3) by (nonlinear_arith);
    let before = drawn(img, marks, (n - 1) as nat, w, h);
    assert(drawn(img, marks, n, w, h)[i] == drawn_at(before, marks[n - 1], (n - 1) as nat, w, h, i));
}

/// Instances take six colours in turn, no two of which are the same.
pub proof fn colours_take_turns(k: nat, l: nat)
    ensures
        forall|ch: int| #[trigger] color(k + 6, ch) == color(k, ch),
        k % 6 != l % 6 ==> exists|ch: int| 0 <= ch < 3 && #[trigger] color(k, ch) != color(l, ch),
{
    if k % 6 != l % 6 {
        assert(color(k, 0) != color(l, 0));
    }
}

/// The pixels two masks have in common and those they cover make up both
/// masks' areas.
pub proof fn common_and_covered_make_both(a: Seq<bool>, b: Seq<u8>, n: nat)
    requires
        n <= a.len(),
        n <= b.len(),
    ensures
        common(a, b, n) + covered(a, b, n) == area_of(a, n) + area_of(b.map_values(|v: u8| v != 0), n),
        common(a, b, n) <= area_of(a, n) <= covered(a, b, n),
    decreases n,
{
    if n > 0 {
        common_and_covered_make_both(a, b, (n - 1) as nat);
        let m = b.map_values(|v: u8| v != 0);
        assert(m[n - 1] == (b[n - 1] != 0));
    }
}

/// A mask has a pixel more for each one set.
pub proof fn setting_a_pixel_adds_one(mask: Seq<bool>, n: nat, i: int)
    requires
        0 <= i < n <= mask.len(),
        !mask[i],
    ensures
        area_of(mask.update(i, true), n) == area_of(mask, n) + 1,
    decreases n,
{
    let m = mask.update(i, true);
    if i < n - 1 {
        setting_a_pixel_adds_one(mask, (n - 1) as nat, i);
        assert(m[n - 1] == mask[n - 1]);
    } else {
        beyond_is_not_counted(mask, m, (n - 1) as nat);
    }
}

proof fn beyond_is_not_counted(a: Seq<bool>, b: Seq<bool>, n: nat)
    requires
        forall|k: int| 0 <= k < n ==> a[k] == b[k],
    ensures
        area_of(a, n) == area_of(b, n),
    decreases n,
{
    if n > 0 {
        beyond_is_not_counted(a, b, (n - 1) as nat);
    }
}

/// An empty mask has no pixels.
pub proof fn an_empty_mask_has_no_area(mask: Seq<bool>, n: nat)
    requires
        n <= mask.len(),
        forall|i: int| 0 <= i < n ==> !mask[i],
    ensures
        area_of(mask, n) == 0,
    decreases n,
{
    if n > 0 {
        an_empty_mask_has_no_area(mask, (n - 1) as nat);
    }
}

} // verus!
