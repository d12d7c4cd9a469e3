//! The two-pass fixed-point resampler of interleaved RGB8 images: every
//! output is a weighted sum of a window of inputs, rounded and clamped to
//! eight bits after each pass.

use crate::ieee::power;
use vstd::arithmetic::power2::pow2;
use vstd::prelude::*;

verus! {

/// One output's window: the first input index and the weights.
#[derive(Debug, Clone)]
pub struct Tap {
    pub first: usize,
    pub weights: Vec<i32>,
}

/// One axis of the resampling: a window per output index, and the weights'
/// fixed-point precision.
#[derive(Debug, Clone)]
pub struct Axis {
    pub taps: Vec<Tap>,
    pub precision: u32,
}

impl Axis {
    /// Whether the axis maps `from` inputs to `to` outputs: a window inside
    /// the input for each, of a length whose weighted sums fit 64 bits.
    pub open spec fn fits(&self, from: nat, to: nat) -> bool {
        &&& 1 <= self.precision <= 32
        &&& self.taps.len() == to
        &&& forall|i: int|
            0 <= i < to ==> {
                &&& (#[trigger] self.taps[i]).first + self.taps[i].weights.len() <= from
                &&& self.taps[i].weights.len() <= 0x40_0000
            }
    }

    /// [`fits`](Self::fits), computed.
    pub fn check(&self, from: usize, to: usize) -> (r: bool)
        ensures
            r == self.fits(from as nat, to as nat),
    {
        if !(1 <= self.precision && self.precision <= 32) || self.taps.len() != to {
            return false;
        }
        let mut i: usize = 0;
        while i < to
            invariant
                self.taps.len() == to,
                i <= to,
                forall|j: int|
                    0 <= j < i ==> {
                        &&& (#[trigger] self.taps[j]).first + self.taps[j].weights.len() <= from
                        &&& self.taps[j].weights.len() <= 0x40_0000
                    },
            decreases to - i,
        {
            let n: usize = self.taps[i].weights.len();
            if n > 0x40_0000 || n > from || self.taps[i].first > from - n {
                return false;
            }
            i += 1;
        }
        true
    }
}

/// The weighted sum of the first `n` inputs of a window whose elements are
/// `stride` apart, on top of one half.
pub open spec fn weighted(src: Seq<u8>, at: int, stride: int, weights: Seq<i32>, n: nat, precision: nat) -> int
    decreases n,
{
    if n == 0 {
        pow2((precision - 1) as nat) as int
    } else {
        weighted(src, at, stride, weights, (n - 1) as nat, precision) + src[at + (n - 1) * stride] * weights[n - 1]
    }
}

/// A fixed-point sum as an 8-bit sample: scaled down (rounding towards
/// minus infinity) and clamped.
pub open spec fn clip8(ss: int, precision: nat) -> u8 {
    let v = ss / (pow2(precision) as int);
    if v < 0 {
        0
    } else if v > 255 {
        255
    } else {
        v as u8
    }
}

/// The sample of a window.
pub open spec fn resampled(src: Seq<u8>, at: int, stride: int, tap: Tap, precision: nat) -> u8 {
    clip8(weighted(src, at, stride, tap.weights@, tap.weights@.len(), precision), precision)
}

/// An image of `h` rows resampled from width `w` to `ow`.
pub open spec fn passed_across(src: Seq<u8>, w: nat, h: nat, ow: nat, axis: Axis) -> Seq<u8> {
    Seq::new(
        (h * ow) * 3,
        |i: int|
            {
                let y = i / (3 * ow as int);
                let x = i % (3 * ow as int) / 3;
                let tap = axis.taps[x];
                resampled(src, (y * w + tap.first) * 3 + i % 3, 3, tap, axis.precision as nat)
            },
    )
}

/// An image of width `w` resampled to height `oh`.
pub open spec fn passed_down(src: Seq<u8>, w: nat, oh: nat, axis: Axis) -> Seq<u8> {
    Seq::new(
        (oh * w) * 3,
        |i: int|
            {
                let y = i / (3 * w as int);
                let x = i % (3 * w as int);
                let tap = axis.taps[y];
                resampled(src, (tap.first * w) * 3 + x, 3 * w as int, tap, axis.precision as nat)
            },
    )
}

fn sample(src: &[u8], at: usize, stride: usize, tap: &Tap, precision: u32) -> (r: u8)
    requires
        1 <= precision <= 32,
        tap.weights.len() <= 0x40_0000,
        tap.weights.len() > 0 ==> at + (tap.weights.len() - 1) * stride < src.len(),
    ensures
        r == resampled(src@, at as int, stride as int, *tap, precision as nat),
{
    let half: u128 = power(precision - 1);
    let unit: u128 = power(precision);
    proof {
        vstd::arithmetic::power2::lemma2_to64();
        if precision < 32 {
            vstd::arithmetic::power2::lemma_pow2_strictly_increases(precision as nat, 32);
        }
        vstd::arithmetic::power2::lemma_pow2_unfold(precision as nat);
    }
    let n: usize = tap.weights.len();
    let mut ss: i64 = half as i64;
    let mut k: usize = 0;
    while k < n
        invariant
            n == tap.weights.len(),
            n <= 0x40_0000,
            k <= n,
            n > 0 ==> at + (n - 1) * stride < src.len(),
            ss == weighted(src@, at as int, stride as int, tap.weights@, k as nat, precision as nat),
            -(0x80_0000_0000 * k) <= ss <= 0x8000_0000 + 0x80_0000_0000 * k,
        decreases n - k,
    {
        proof {
            assert(0 <= k * stride <= (n - 1) * stride) by (nonlinear_arith)
                requires
                    0 <= k <= n - 1,
                    stride >= 0,
            ;
        }
        let v: i64 = src[at + k * stride] as i64;
        let kv: i64 = tap.weights[k] as i64;
        proof {
            assert(-0x80_0000_0000 <= v * kv <= 0x80_0000_0000) by (nonlinear_arith)
                requires
                    0 <= v <= 255,
                    -0x8000_0000 <= kv <= 0x7fff_ffff,
            ;
        }
        ss += v * kv;
        k += 1;
    }
    proof {
        let u = unit as int;
        if ss < 0 {
            vstd::arithmetic::div_mod::lemma_fundamental_div_mod(ss as int, u);
            assert((ss as int) / u < 0) by (nonlinear_arith)
                requires
                    ss as int == u * ((ss as int) / u) + (ss as int) % u,
                    (ss as int) % u >= 0,
                    ss < 0,
                    u > 0,
            ;
        }
    }
    if ss < 0 {
        0
    } else {
        let v: i64 = ss / (unit as i64);
        if v > 255 {
            255
        } else {
            v as u8
        }
    }
}

/// The horizontal pass.
pub fn across(src: &[u8], w: usize, h: usize, ow: usize, axis: &Axis) -> (r: Vec<u8>)
    requires
        src.len() == w * h * 3,
        axis.fits(w as nat, ow as nat),
        ow * h * 3 <= usize::MAX,
    ensures
        r@ == passed_across(src@, w as nat, h as nat, ow as nat, *axis),
{
    let mut out: Vec<u8> = Vec::new();
    proof {
        assert(ow * h == h * ow) by (nonlinear_arith);
    }
    let total: usize = ow * h * 3;
    let mut i: usize = 0;
    while i < total
        invariant
            src.len() == w * h * 3,
            axis.fits(w as nat, ow as nat),
            total == ow * h * 3,
            total == (h as nat * ow as nat) * 3,
            i <= total,
            out.len() == i,
            forall|j: int| 0 <= j < i ==> out[j] == passed_across(src@, w as nat, h as nat, ow as nat, *axis)[j],
        decreases total - i,
    {
        proof {
            across_bounds(w as int, h as int, ow as int, i as int);
        }
        let y: usize = i / (3 * ow);
        let x: usize = i % (3 * ow) / 3;
        let tap = &axis.taps[x];
        proof {
            let n = tap.weights.len() as int;
            assert((y * w + w) * 3 <= w * h * 3) by (nonlinear_arith)
                requires
                    0 <= y < h,
                    w >= 0,
            ;
            assert(y * w >= 0) by (nonlinear_arith)
                requires
                    y >= 0,
                    w >= 0,
            ;
            assert(y * w + tap.first + n <= y * w + w);
        }
        if tap.weights.len() == 0 {
            out.push(sample(src, 0, 3, tap, axis.precision));
            proof {
                empty_window(src@, 0, (y * w + tap.first) * 3 + i % 3, 3, *tap, axis.precision as nat);
            }
        } else {
            out.push(sample(src, (y * w + tap.first) * 3 + i % 3, 3, tap, axis.precision));
        }
        i += 1;
    }
    proof {
        assert(out@ =~= passed_across(src@, w as nat, h as nat, ow as nat, *axis));
    }
    out
}

proof fn empty_window(src: Seq<u8>, a: int, b: int, stride: int, tap: Tap, precision: nat)
    requires
        tap.weights.len() == 0,
    ensures
        resampled(src, a, stride, tap, precision) == resampled(src, b, stride, tap, precision),
{
}

proof fn across_bounds(w: int, h: int, ow: int, i: int)
    requires
        0 <= i < ow * h * 3,
        ow >= 0,
        h >= 0,
        w >= 0,
    ensures
        ow > 0,
        3 * ow <= ow * h * 3,
        0 <= i / (3 * ow) < h,
        0 <= i % (3 * ow) / 3 < ow,
{
    assert(ow > 0 && h > 0) by (nonlinear_arith)
        requires
            0 < ow * h * 3,
            ow >= 0,
            h >= 0,
    ;
    let row = 3 * ow;
    assert(ow * h * 3 == row * h) by (nonlinear_arith)
        requires
            row == 3 * ow,
    ;
    assert(row <= row * h) by (nonlinear_arith)
        requires
            h >= 1,
            row >= 0,
    ;
    vstd::arithmetic::div_mod::lemma_fundamental_div_mod(i, row);
    let q = i / row;
    assert(0 <= q < h) by (nonlinear_arith)
        requires
            i == row * q + i % row,
            0 <= i % row < row,
            0 <= i < row * h,
            row > 0,
    ;
}

/// The vertical pass.
pub fn down(src: &[u8], w: usize, h: usize, oh: usize, axis: &Axis) -> (r: Vec<u8>)
    requires
        src.len() == w * h * 3,
        axis.fits(h as nat, oh as nat),
        w * oh * 3 <= usize::MAX,
    ensures
        r@ == passed_down(src@, w as nat, oh as nat, *axis),
{
    let mut out: Vec<u8> = Vec::new();
    proof {
        assert(w * oh == oh * w) by (nonlinear_arith);
    }
    let total: usize = w * oh * 3;
    let mut i: usize = 0;
    while i < total
        invariant
            src.len() == w * h * 3,
            axis.fits(h as nat, oh as nat),
            total == w * oh * 3,
            total == (oh as nat * w as nat) * 3,
            i <= total,
            out.len() == i,
            forall|j: int| 0 <= j < i ==> out[j] == passed_down(src@, w as nat, oh as nat, *axis)[j],
        decreases total - i,
    {
        proof {
            across_bounds(w as int, oh as int, w as int, i as int);
        }
        let row: usize = 3 * w;
        let y: usize = i / row;
        let x: usize = i % row;
        let tap = &axis.taps[y];
        if tap.weights.len() == 0 {
            out.push(sample(src, 0, row, tap, axis.precision));
            proof {
                empty_window(src@, 0, (tap.first * w) * 3 + x, 3 * w as int, *tap, axis.precision as nat);
            }
        } else {
            proof {
                let n = tap.weights.len() as int;
                let f = tap.first as int;
                assert((f * w) * 3 + x + (n - 1) * row < w * h * 3) by (nonlinear_arith)
                    requires
                        f + n <= h,
                        0 <= x < row,
                        row == 3 * w,
                        n >= 1,
                        f >= 0,
                        w >= 0,
                ;
                assert(0 <= (n - 1) * row) by (nonlinear_arith)
                    requires
                        n >= 1,
                        row >= 0,
                ;
                assert(0 <= f * w) by (nonlinear_arith)
                    requires
                        f >= 0,
                        w >= 0,
                ;
            }
            out.push(sample(src, (tap.first * w) * 3 + x, row, tap, axis.precision));
        }
        i += 1;
    }
    proof {
        assert(out@ =~= passed_down(src@, w as nat, oh as nat, *axis));
    }
    out
}

/// The two passes, each only where the size changes.
pub open spec fn skipping(src: Seq<u8>, w: nat, h: nat, ow: nat, oh: nat, horizontal: Axis, vertical: Axis) -> Seq<u8> {
    let tmp = if ow != w {
        passed_across(src, w, h, ow, horizontal)
    } else {
        src
    };
    if oh != h {
        passed_down(tmp, ow, oh, vertical)
    } else {
        tmp
    }
}

/// Resizes, horizontal pass first; a pass whose size does not change is
/// skipped.
pub fn resize_skipping(src: &[u8], w: usize, h: usize, ow: usize, oh: usize, horizontal: &Axis, vertical: &Axis) -> (r:
    Vec<u8>)
    requires
        src.len() == w * h * 3,
        ow != w ==> horizontal.fits(w as nat, ow as nat),
        oh != h ==> vertical.fits(h as nat, oh as nat),
        ow * h * 3 <= usize::MAX,
        ow * oh * 3 <= usize::MAX,
    ensures
        r@ == skipping(src@, w as nat, h as nat, ow as nat, oh as nat, *horizontal, *vertical),
{
    proof {
        assert(ow * h == h * ow) by (nonlinear_arith);
    }
    let tmp: Vec<u8> = if ow != w {
        across(src, w, h, ow, horizontal)
    } else {
        vstd::slice::slice_to_vec(src)
    };
    if oh == h {
        return tmp;
    }
    down(&tmp, ow, h, oh, vertical)
}

/// Resizing to the same size leaves the image.
pub proof fn same_size_is_a_copy(src: Seq<u8>, w: nat, h: nat, horizontal: Axis, vertical: Axis)
    ensures
        skipping(src, w, h, w, h, horizontal, vertical) == src,
{
}

/// The sum of the first `n` weights.
pub open spec fn weight_sum(weights: Seq<i32>, n: nat) -> int
    decreases n,
{
    if n == 0 {
        0
    } else {
        weight_sum(weights, (n - 1) as nat) + weights[n - 1]
    }
}

/// A flat window stays flat, whatever its weights, as long as they sum to
/// one up to a rounding error that cannot move the 8-bit result.
pub proof fn flat_stays_flat(src: Seq<u8>, at: int, stride: int, tap: Tap, precision: nat, v: u8)
    requires
        precision >= 1,
        forall|k: int| 0 <= k < tap.weights.len() ==> #[trigger] src[at + k * stride] == v,
        -pow2((precision - 1) as nat) <= v * (weight_sum(tap.weights@, tap.weights@.len()) - pow2(precision))
            < pow2((precision - 1) as nat),
    ensures
        resampled(src, at, stride, tap, precision) == v,
{
    let n = tap.weights@.len();
    let s = weight_sum(tap.weights@, n);
    let u = pow2(precision) as int;
    let half = pow2((precision - 1) as nat) as int;
    flat_sum(src, at, stride, tap, n, precision, v);
    vstd::arithmetic::power2::lemma_pow2_unfold(precision);
    vstd::arithmetic::power2::lemma_pow2_pos((precision - 1) as nat);
    let vi = v as int;
    let rem = half + vi * (s - u);
    assert(half + vi * s == vi * u + rem) by (nonlinear_arith)
        requires
            rem == half + vi * (s - u),
    ;
    vstd::arithmetic::div_mod::lemma_fundamental_div_mod_converse(half + vi * s, u, vi, rem);
}

proof fn flat_sum(src: Seq<u8>, at: int, stride: int, tap: Tap, n: nat, precision: nat, v: u8)
    requires
        n <= tap.weights.len(),
        forall|k: int| 0 <= k < tap.weights.len() ==> #[trigger] src[at + k * stride] == v,
    ensures
        weighted(src, at, stride, tap.weights@, n, precision) == pow2((precision - 1) as nat) + v * weight_sum(
            tap.weights@,
            n,
        ),
    decreases n,
{
    let vi = v as int;
    if n == 0 {
        assert(vi * 0 == 0);
    } else {
        flat_sum(src, at, stride, tap, (n - 1) as nat, precision, v);
        let s = weight_sum(tap.weights@, (n - 1) as nat);
        let x = tap.weights@[n - 1] as int;
        assert(src[at + (n - 1) * stride] == v);
        assert(vi * (s + x) == vi * s + vi * x) by (nonlinear_arith);
    }
}

// ----------------------------------------------------------------------------
// Planes
// ----------------------------------------------------------------------------

/// `r` holds the three planes of `n` interleaved pixels, each level as `f`
/// scales it in its channel.
pub open spec fn are_planes<F: Fn(u8, usize) -> u32>(f: F, rgb: Seq<u8>, n: int, r: Seq<u32>) -> bool {
    &&& r.len() == 3 * n
    &&& forall|i: int| 0 <= i < r.len() ==> call_ensures(f, (rgb[(i % n) * 3 + i / n], (i / n) as usize), #[trigger] r[i])
}

/// Interleaved pixels to three planes of scaled levels.
pub fn planes<F: Fn(u8, usize) -> u32>(rgb: &[u8], f: &F) -> (r: Vec<u32>)
    requires
        rgb.len() % 3 == 0,
        forall|v: u8, c: usize| c < 3 ==> #[trigger] call_requires(*f, (v, c)),
    ensures
        are_planes(*f, rgb@, (rgb.len() / 3) as int, r@),
{
    let n: usize = rgb.len() / 3;
    let total: usize = rgb.len();
    let mut r: Vec<u32> = Vec::new();
    let mut i: usize = 0;
    while i < total
        invariant
            n == rgb.len() / 3,
            total == rgb.len(),
            total == 3 * n,
            forall|v: u8, c: usize| c < 3 ==> #[trigger] call_requires(*f, (v, c)),
            i <= total,
            r.len() == i,
            forall|j: int|
                0 <= j < i ==> call_ensures(
                    *f,
                    (rgb@[(j % (n as int)) * 3 + j / (n as int)], (j / (n as int)) as usize),
                    #[trigger] r[j],
                ),
        decreases total - i,
    {
        proof {
            crate::arith::index_parts(i as int, 3, n as int);
        }
        let (c, p): (usize, usize) = (i / n, i % n);
        let v: u32 = f(rgb[p * 3 + c], c);
        r.push(v);
        i += 1;
    }
    r
}

/// Every sample keeps its pixel and its channel: plane `c`, place `p` comes
/// from the `c`th of pixel `p`.
pub proof fn planes_keep_pixels<F: Fn(u8, usize) -> u32>(f: F, rgb: Seq<u8>, n: int, r: Seq<u32>, c: int, p: int)
    requires
        are_planes(f, rgb, n, r),
        0 <= c < 3,
        0 <= p < n,
    ensures
        call_ensures(f, (rgb[p * 3 + c], c as usize), r[c * n + p]),
{
    crate::arith::split_index(c, p, n);
    crate::arith::index_bound(c, p, 3, n);
}

} // verus!
