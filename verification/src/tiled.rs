//! Tiled activation buffers: bfloat16 `[H, C/8, W, 8]`, the layout the
//! device convolutions read and write.
//!
//! Single-precision sums and products come from the caller (`Ops`), on bit
//! patterns; everything else here -- which elements meet, in which order,
//! and every rounding to bfloat16 -- is stated and proved.

use crate::arith::{index_bound, index_parts, split_index};
use crate::bf16::{below_zero, bf16_to_f32, f32_to_bf16_canonical, narrow_canonical, negative, wide};
use vstd::prelude::*;

verus! {

/// Single-precision addition and multiplication, on bit patterns.
pub struct Ops<A, M> {
    pub add: A,
    pub mul: M,
}

impl<A: Fn(u32, u32) -> u32, M: Fn(u32, u32) -> u32> Ops<A, M> {
    /// Both take every pair of operands.
    pub open spec fn total(&self) -> bool {
        &&& forall|a: u32, b: u32| call_requires(self.add, (a, b))
        &&& forall|a: u32, b: u32| call_requires(self.mul, (a, b))
    }

    /// `r` is a sum of `a` and `b`.
    pub open spec fn sum(&self, a: u32, b: u32, r: u32) -> bool {
        call_ensures(self.add, (a, b), r)
    }

    /// `r` is a product of `a` and `b`.
    pub open spec fn product(&self, a: u32, b: u32, r: u32) -> bool {
        call_ensures(self.mul, (a, b), r)
    }

    pub fn plus(&self, a: u32, b: u32) -> (r: u32)
        requires
            self.total(),
        ensures
            self.sum(a, b, r),
    {
        (self.add)(a, b)
    }

    pub fn times(&self, a: u32, b: u32) -> (r: u32)
        requires
            self.total(),
        ensures
            self.product(a, b, r),
    {
        (self.mul)(a, b)
    }
}

// ----------------------------------------------------------------------------
// The layout
// ----------------------------------------------------------------------------

/// Where lane `lane` of column `x` of channel group `g` of row `y` stands,
/// with `ng` groups and `w` columns.
pub open spec fn tile(w: int, ng: int, y: int, g: int, x: int, lane: int) -> int {
    ((y * ng + g) * w + x) * 8 + lane
}

/// Where channel `ch`, row `y`, column `x` stands.
pub open spec fn tile_at(c: int, w: int, ch: int, y: int, x: int) -> int {
    tile(w, c / 8, y, ch / 8, x, ch % 8)
}

/// The elements of `h` rows of `ng` groups of `w` columns.
pub open spec fn tile_len(h: int, ng: int, w: int) -> int {
    h * ng * w * 8
}

/// The parts of an index into a tiled buffer.
pub open spec fn lane_of(i: int) -> int {
    i % 8
}

pub open spec fn x_of(i: int, w: int) -> int {
    i / 8 % w
}

pub open spec fn group_of(i: int, w: int, ng: int) -> int {
    i / 8 / w % ng
}

pub open spec fn y_of(i: int, w: int, ng: int) -> int {
    i / 8 / w / ng
}

/// An index of a tiled buffer is the place of its parts.
pub proof fn tile_parts(i: int, h: int, ng: int, w: int)
    requires
        0 <= i < tile_len(h, ng, w),
        0 <= h,
        0 <= ng,
        0 <= w,
    ensures
        0 <= lane_of(i) < 8,
        0 <= x_of(i, w) < w,
        0 <= group_of(i, w, ng) < ng,
        0 <= y_of(i, w, ng) < h,
        i == tile(w, ng, y_of(i, w, ng), group_of(i, w, ng), x_of(i, w), lane_of(i)),
{
    assert(0 < w && 0 < ng) by (nonlinear_arith)
        requires
            0 <= i < h * ng * w * 8,
            0 <= h,
            0 <= ng,
            0 <= w,
    ;
    index_parts(i, h * ng * w, 8);
    index_parts(i / 8, h * ng, w);
    index_parts(i / 8 / w, h, ng);
}

/// The place of parts in range is an index, whose parts they are.
pub proof fn tile_index(h: int, ng: int, w: int, y: int, g: int, x: int, lane: int)
    requires
        0 <= y < h,
        0 <= g < ng,
        0 <= x < w,
        0 <= lane < 8,
    ensures
        0 <= tile(w, ng, y, g, x, lane) < tile_len(h, ng, w),
        lane_of(tile(w, ng, y, g, x, lane)) == lane,
        x_of(tile(w, ng, y, g, x, lane), w) == x,
        group_of(tile(w, ng, y, g, x, lane), w, ng) == g,
        y_of(tile(w, ng, y, g, x, lane), w, ng) == y,
{
    let a = y * ng + g;
    let b = a * w + x;
    index_bound(y, g, h, ng);
    index_bound(a, x, h * ng, w);
    index_bound(b, lane, h * ng * w, 8);
    split_index(b, lane, 8);
    split_index(a, x, w);
    split_index(y, g, ng);
}

/// No two places of a tiled buffer are the same.
pub proof fn tile_at_injective(c: int, h: int, w: int, a: (int, int, int), b: (int, int, int))
    requires
        c % 8 == 0,
        0 <= a.0 < c && 0 <= a.1 < h && 0 <= a.2 < w,
        0 <= b.0 < c && 0 <= b.1 < h && 0 <= b.2 < w,
        tile_at(c, w, a.0, a.1, a.2) == tile_at(c, w, b.0, b.1, b.2),
    ensures
        a == b,
{
    tile_index(h, c / 8, w, a.1, a.0 / 8, a.2, a.0 % 8);
    tile_index(h, c / 8, w, b.1, b.0 / 8, b.2, b.0 % 8);
}

/// A buffer of `c` channels has `c * h * w` elements.
pub proof fn tile_len_is(c: int, h: int, w: int)
    requires
        c % 8 == 0,
    ensures
        tile_len(h, c / 8, w) == c * h * w,
{
    let ng = c / 8;
    assert(h * ng * w * 8 == (8 * ng) * h * w) by (nonlinear_arith);
}

/// A tiled activation buffer.
#[derive(Debug)]
pub struct Buf {
    pub v: Vec<u16>,
    pub c: usize,
    pub h: usize,
    pub w: usize,
}

impl Buf {
    /// There is one element for each channel of a whole group, row and
    /// column, and the channels, rows and columns can be counted.
    pub open spec fn wf(&self) -> bool {
        &&& self.v@.len() == tile_len(self.h as int, self.c as int / 8, self.w as int)
        &&& self.c * self.h * self.w <= usize::MAX
    }

    /// The channels are whole groups.
    pub open spec fn whole(&self) -> bool {
        self.c % 8 == 0
    }

    /// Where there are elements, every channel is in a whole group and has
    /// one of `n` values.
    pub open spec fn per_channel(&self, n: int) -> bool {
        self.h == 0 || self.w == 0 || (self.whole() && self.c <= n)
    }

    /// The element of channel `ch`, row `y`, column `x`.
    pub open spec fn at(&self, ch: int, y: int, x: int) -> u16 {
        self.v@[tile_at(self.c as int, self.w as int, ch, y, x)]
    }

    pub open spec fn holds(&self, ch: int, y: int, x: int) -> bool {
        0 <= ch < self.c && 0 <= y < self.h && 0 <= x < self.w
    }

    pub open spec fn same_shape(&self, o: &Buf) -> bool {
        self.c == o.c && self.h == o.h && self.w == o.w
    }
}

/// The index of channel `ch`, row `y`, column `x`.
pub fn tidx(c: usize, h: usize, w: usize, ch: usize, y: usize, x: usize) -> (r: usize)
    requires
        ch / 8 < c / 8,
        y < h,
        x < w,
        tile_len(h as int, c as int / 8, w as int) <= usize::MAX,
    ensures
        r == tile_at(c as int, w as int, ch as int, y as int, x as int),
        r < tile_len(h as int, c as int / 8, w as int),
{
    let ng: usize = c / 8;
    let g: usize = ch / 8;
    proof {
        let (hi, ni, wi) = (h as int, ng as int, w as int);
        tile_index(hi, ni, wi, y as int, g as int, x as int, ch as int % 8);
        index_bound(y as int, g as int, hi, ni);
        index_bound(y * ni + g, x as int, hi * ni, wi);
        product_bounds(hi, ni, wi);
        assert(0 <= y * ni) by (nonlinear_arith)
            requires
                y >= 0,
                ni >= 0,
        ;
        assert(0 <= (y * ni + g) * wi) by (nonlinear_arith)
            requires
                y * ni + g >= 0,
                wi >= 0,
        ;
    }
    ((y * ng + g) * w + x) * 8 + ch % 8
}

/// The partial products of a buffer's size are no larger than it.
pub proof fn product_bounds(h: int, ng: int, w: int)
    requires
        h >= 0,
        ng >= 0,
        w >= 0,
        tile_len(h, ng, w) <= usize::MAX,
    ensures
        w > 0 ==> h * ng <= h * ng * w,
        0 <= h * ng * w <= usize::MAX,
        h * ng * w * 8 <= usize::MAX,
{
    assert(0 <= h * ng) by (nonlinear_arith)
        requires
            h >= 0,
            ng >= 0,
    ;
    let a = h * ng;
    assert(0 <= a * w) by (nonlinear_arith)
        requires
            a >= 0,
            w >= 0,
    ;
    if w > 0 {
        assert(a <= a * w) by (nonlinear_arith)
            requires
                a >= 0,
                w >= 1,
        ;
    }
}

// ----------------------------------------------------------------------------
// Moving elements
// ----------------------------------------------------------------------------

/// Channel groups `g0 .. g0 + ngroups` of `src`, the width zero-padded to
/// `wp`, element by element.
pub open spec fn sliced(src: &Buf, g0: int, ngroups: int, wp: int) -> Seq<u16> {
    Seq::new(
        tile_len(src.h as int, ngroups, wp) as nat,
        |i: int|
            if x_of(i, wp) < src.w {
                src.v@[tile(
                    src.w as int,
                    src.c as int / 8,
                    y_of(i, wp, ngroups),
                    g0 + group_of(i, wp, ngroups),
                    x_of(i, wp),
                    lane_of(i),
                )]
            } else {
                0
            },
    )
}

/// Extracts channel groups `g0 .. g0 + ngroups` into a fresh tiled buffer,
/// zero-padding the width from `src.w` up to `wp`.
pub fn slice_groups_wpad(src: &Buf, g0: usize, ngroups: usize, wp: usize) -> (out: Vec<u16>)
    requires
        src.wf(),
        g0 + ngroups <= src.c / 8,
        src.w <= wp,
        tile_len(src.h as int, ngroups as int, wp as int) <= usize::MAX,
    ensures
        out@ == sliced(src, g0 as int, ngroups as int, wp as int),
{
    let n: usize = src.v.len();
    let ng: usize = src.c / 8;
    let ghost (hi, gi, wi) = (src.h as int, ngroups as int, wp as int);
    let ghost want = sliced(src, g0 as int, gi, wi);
    let mut out: Vec<u16> = Vec::new();
    proof {
        product_bounds(hi, gi, wi);
        product_bounds(hi, ng as int, src.w as int);
        assert(0 <= hi * gi) by (nonlinear_arith)
            requires
                hi >= 0,
                gi >= 0,
        ;
    }
    let total: usize = if ngroups == 0 || wp == 0 || src.h == 0 {
        proof {
            assert(hi * gi * wi * 8 == 0) by (nonlinear_arith)
                requires
                    hi == 0 || gi == 0 || wi == 0,
            ;
        }
        0
    } else {
        src.h * ngroups * wp * 8
    };
    let mut i: usize = 0;
    while i < total
        invariant
            src.wf(),
            g0 + ngroups <= ng,
            ng == src.c / 8,
            src.w <= wp,
            hi == src.h,
            gi == ngroups,
            wi == wp,
            n == src.v@.len(),
            total == tile_len(hi, gi, wi),
            want == sliced(src, g0 as int, gi, wi),
            i <= total,
            out@ == want.take(i as int),
        decreases total - i,
    {
        proof {
            tile_parts(i as int, hi, gi, wi);
        }
        let x: usize = i / 8 % wp;
        let v: u16 = if x < src.w {
            let lane: usize = i % 8;
            let g: usize = i / 8 / wp % ngroups;
            let y: usize = i / 8 / wp / ngroups;
            let at: usize = tidx(src.c, src.h, src.w, (g0 + g) * 8 + lane, y, x);
            src.v[at]
        } else {
            0
        };
        proof {
            assert(want.take(i + 1) =~= want.take(i as int).push(v));
        }
        out.push(v);
        i += 1;
    }
    proof {
        assert(want.take(total as int) =~= want);
    }
    out
}

/// Every `stride`th row and column of `src`, element by element.
pub open spec fn subsampled(src: &Buf, stride: int) -> Seq<u16> {
    let (oh, ng, ow) = (src.h as int / stride, src.c as int / 8, src.w as int / stride);
    Seq::new(
        tile_len(oh, ng, ow) as nat,
        |i: int|
            src.v@[tile(
                src.w as int,
                ng,
                stride * y_of(i, ow, ng),
                group_of(i, ow, ng),
                stride * x_of(i, ow),
                lane_of(i),
            )],
    )
}

proof fn stride_bound(q: int, n: int, stride: int)
    requires
        stride > 0,
        n >= 0,
        0 <= q < n / stride,
    ensures
        0 <= stride * q < n,
{
    vstd::arithmetic::div_mod::lemma_fundamental_div_mod(n, stride);
    assert(0 <= stride * q < n) by (nonlinear_arith)
        requires
            stride > 0,
            0 <= q < n / stride,
            n == stride * (n / stride) + n % stride,
            0 <= n % stride,
    ;
}

/// Every `stride`th row and column.
pub fn subsample_tiled(src: &Buf, stride: usize) -> (r: Buf)
    requires
        src.wf(),
        stride > 0,
    ensures
        r.wf(),
        r.c == src.c,
        r.h == src.h / stride,
        r.w == src.w / stride,
        r.v@ == subsampled(src, stride as int),
{
    let n: usize = src.v.len();
    let oh: usize = src.h / stride;
    let ow: usize = src.w / stride;
    let ng: usize = src.c / 8;
    let ghost (hi, gi, wi) = (oh as int, ng as int, ow as int);
    let ghost want = subsampled(src, stride as int);
    proof {
        let (h, w, s) = (src.h as int, src.w as int, stride as int);
        assert(h / s <= h && w / s <= w) by (nonlinear_arith)
            requires
                s >= 1,
                h >= 0,
                w >= 0,
        ;
        assert(hi * gi * wi * 8 <= h * gi * w * 8) by (nonlinear_arith)
            requires
                0 <= hi <= h,
                0 <= wi <= w,
                0 <= gi,
        ;
        let c = src.c as int;
        assert(c * hi * wi <= c * h * w) by (nonlinear_arith)
            requires
                0 <= hi <= h,
                0 <= wi <= w,
                0 <= c,
        ;
        product_bounds(hi, gi, wi);
        assert(0 <= hi * gi) by (nonlinear_arith)
            requires
                hi >= 0,
                gi >= 0,
        ;
    }
    let total: usize = if ng == 0 || ow == 0 || oh == 0 {
        proof {
            assert(hi * gi * wi * 8 == 0) by (nonlinear_arith)
                requires
                    hi == 0 || gi == 0 || wi == 0,
            ;
        }
        0
    } else {
        oh * ng * ow * 8
    };
    let mut out: Vec<u16> = Vec::new();
    let mut i: usize = 0;
    while i < total
        invariant
            src.wf(),
            stride > 0,
            oh == src.h / stride,
            ow == src.w / stride,
            ng == src.c / 8,
            hi == oh,
            gi == ng,
            wi == ow,
            n == src.v@.len(),
            total == tile_len(hi, gi, wi),
            want == subsampled(src, stride as int),
            i <= total,
            out@ == want.take(i as int),
        decreases total - i,
    {
        proof {
            tile_parts(i as int, hi, gi, wi);
            stride_bound(y_of(i as int, wi, gi), src.h as int, stride as int);
            stride_bound(x_of(i as int, wi), src.w as int, stride as int);
        }
        let lane: usize = i % 8;
        let x: usize = i / 8 % ow;
        let g: usize = i / 8 / ow % ng;
        let y: usize = i / 8 / ow / ng;
        let at: usize = tidx(src.c, src.h, src.w, g * 8 + lane, stride * y, stride * x);
        let v: u16 = src.v[at];
        proof {
            assert(want.take(i + 1) =~= want.take(i as int).push(v));
        }
        out.push(v);
        i += 1;
    }
    proof {
        assert(want.take(total as int) =~= want);
    }
    Buf { v: out, c: src.c, h: oh, w: ow }
}

/// Subsampling keeps channels and takes row `stride * y`, column
/// `stride * x` for row `y`, column `x`.
pub proof fn subsample_at(src: &Buf, stride: int, r: &Buf, ch: int, y: int, x: int)
    requires
        src.wf(),
        stride > 0,
        r.wf(),
        r.c == src.c,
        r.h == src.h as int / stride,
        r.w == src.w as int / stride,
        r.v@ == subsampled(src, stride),
        src.whole(),
        r.holds(ch, y, x),
    ensures
        r.at(ch, y, x) == src.at(ch, stride * y, stride * x),
        src.holds(ch, stride * y, stride * x),
{
    tile_index(r.h as int, r.c as int / 8, r.w as int, y, ch / 8, x, ch % 8);
    stride_bound(y, src.h as int, stride);
    stride_bound(x, src.w as int, stride);
}

/// A slice holds the channels from group `g0` on, and zeros beyond the
/// source's width.
pub proof fn slice_at(src: &Buf, g0: int, ngroups: int, wp: int, ch: int, y: int, x: int)
    requires
        src.wf(),
        0 <= g0,
        g0 + ngroups <= src.c as int / 8,
        src.w <= wp,
        0 <= ch < 8 * ngroups,
        0 <= y < src.h,
        0 <= x < wp,
    ensures
        sliced(src, g0, ngroups, wp)[tile_at(8 * ngroups, wp, ch, y, x)] == (if x < src.w {
            src.at(8 * g0 + ch, y, x)
        } else {
            0
        }),
{
    assert(8 * ngroups / 8 == ngroups);
    tile_index(src.h as int, ngroups, wp, y, ch / 8, x, ch % 8);
}

/// The channel of index `i`.
pub open spec fn channel_of(i: int, c: int, w: int) -> int {
    group_of(i, w, c / 8) * 8 + lane_of(i)
}

/// The channel of the place of channel `ch` is `ch`.
pub proof fn channel_at(c: int, h: int, w: int, ch: int, y: int, x: int)
    requires
        c % 8 == 0,
        0 <= ch < c,
        0 <= y < h,
        0 <= x < w,
    ensures
        channel_of(tile_at(c, w, ch, y, x), c, w) == ch,
{
    tile_index(h, c / 8, w, y, ch / 8, x, ch % 8);
}

fn channel(i: usize, b: &Buf) -> (r: usize)
    requires
        b.wf(),
        i < b.v@.len(),
    ensures
        r == channel_of(i as int, b.c as int, b.w as int),
        r < b.c,
        b.h > 0,
        b.w > 0,
{
    proof {
        tile_parts(i as int, b.h as int, b.c as int / 8, b.w as int);
    }
    i / 8 / b.w % (b.c / 8) * 8 + i % 8
}

// ----------------------------------------------------------------------------
// Arithmetic
// ----------------------------------------------------------------------------

impl<A: Fn(u32, u32) -> u32, M: Fn(u32, u32) -> u32> Ops<A, M> {
    /// `r` is `x * scale + shift`, rounded to bfloat16.
    pub open spec fn affine(&self, x: u16, scale: u16, shift: u16, r: u16) -> bool {
        exists|p: u32, q: u32| #[trigger]
            self.product(wide(x), wide(scale), p) && #[trigger] self.sum(p, wide(shift), q) && r == narrow_canonical(q)
    }

    /// `r` is `x + y`, rounded to bfloat16.
    pub open spec fn plus16(&self, x: u16, y: u16, r: u16) -> bool {
        exists|q: u32| #[trigger] self.sum(wide(x), wide(y), q) && r == narrow_canonical(q)
    }

    /// `r` is the bfloat16 `t` where it is not below zero, else
    /// `alpha * t`, rounded to bfloat16.
    pub open spec fn prelu(&self, t: u16, alpha: u16, r: u16) -> bool {
        if below_zero(wide(t)) {
            exists|q: u32| #[trigger] self.product(wide(alpha), wide(t), q) && r == narrow_canonical(q)
        } else {
            r == narrow_canonical(wide(t))
        }
    }

    /// `r` is the PReLU of `x + bias`; the sum is rounded first.
    pub open spec fn prelu_bias(&self, x: u16, alpha: u16, bias: u16, r: u16) -> bool {
        exists|t: u16| #[trigger] self.plus16(x, bias, t) && self.prelu(t, alpha, r)
    }

    pub(crate) fn add16(&self, x: u16, y: u16) -> (r: u16)
        requires
            self.total(),
        ensures
            self.plus16(x, y, r),
    {
        f32_to_bf16_canonical(self.plus(bf16_to_f32(x), bf16_to_f32(y)))
    }

    pub(crate) fn affine16(&self, x: u16, scale: u16, shift: u16) -> (r: u16)
        requires
            self.total(),
        ensures
            self.affine(x, scale, shift, r),
    {
        let p: u32 = self.times(bf16_to_f32(x), bf16_to_f32(scale));
        f32_to_bf16_canonical(self.plus(p, bf16_to_f32(shift)))
    }

    pub(crate) fn prelu16(&self, x: u16, alpha: u16, bias: u16) -> (r: u16)
        requires
            self.total(),
        ensures
            self.prelu_bias(x, alpha, bias, r),
    {
        let s: u16 = self.add16(x, bias);
        let t: u32 = bf16_to_f32(s);
        let q: u32 = if negative(t) {
            self.times(bf16_to_f32(alpha), t)
        } else {
            t
        };
        f32_to_bf16_canonical(q)
    }
}

/// A per-channel affine map, `scale * x + shift`.
pub fn affine_tiled<A: Fn(u32, u32) -> u32, M: Fn(u32, u32) -> u32>(
    src: &Buf,
    scale: &[u16],
    shift: &[u16],
    ops: &Ops<A, M>,
) -> (r: Buf)
    requires
        src.wf(),
        src.per_channel(scale.len() as int),
        src.per_channel(shift.len() as int),
        ops.total(),
    ensures
        r.wf(),
        r.same_shape(src),
        forall|i: int| #![trigger r.v@[i]]
            0 <= i < r.v@.len() ==> ops.affine(
                src.v@[i],
                scale@[channel_of(i, src.c as int, src.w as int)],
                shift@[channel_of(i, src.c as int, src.w as int)],
                r.v@[i],
            ),
{
    let mut v: Vec<u16> = Vec::new();
    let mut i: usize = 0;
    while i < src.v.len()
        invariant
            src.wf(),
            src.per_channel(scale.len() as int),
            src.per_channel(shift.len() as int),
            ops.total(),
            i <= src.v@.len(),
            v@.len() == i,
            forall|k: int| #![trigger v@[k]]
                0 <= k < i ==> ops.affine(
                    src.v@[k],
                    scale@[channel_of(k, src.c as int, src.w as int)],
                    shift@[channel_of(k, src.c as int, src.w as int)],
                    v@[k],
                ),
        decreases src.v@.len() - i,
    {
        let ch: usize = channel(i, src);
        v.push(ops.affine16(src.v[i], scale[ch], shift[ch]));
        i += 1;
    }
    Buf { v, c: src.c, h: src.h, w: src.w }
}

/// Fused per-channel bias add and PReLU, in place. The bias add rounds to
/// bfloat16 before the PReLU.
pub fn prelu_bias_tiled<A: Fn(u32, u32) -> u32, M: Fn(u32, u32) -> u32>(
    buf: &mut Buf,
    alpha: &[u16],
    bias: &[u16],
    ops: &Ops<A, M>,
)
    requires
        old(buf).wf(),
        old(buf).per_channel(alpha.len() as int),
        old(buf).per_channel(bias.len() as int),
        ops.total(),
    ensures
        final(buf).wf(),
        final(buf).same_shape(old(buf)),
        forall|i: int| #![trigger final(buf).v@[i]]
            0 <= i < final(buf).v@.len() ==> ops.prelu_bias(
                old(buf).v@[i],
                alpha@[channel_of(i, old(buf).c as int, old(buf).w as int)],
                bias@[channel_of(i, old(buf).c as int, old(buf).w as int)],
                final(buf).v@[i],
            ),
{
    let mut v: Vec<u16> = Vec::new();
    let mut i: usize = 0;
    while i < buf.v.len()
        invariant
            *buf == *old(buf),
            buf.wf(),
            buf.per_channel(alpha.len() as int),
            buf.per_channel(bias.len() as int),
            ops.total(),
            i <= buf.v@.len(),
            v@.len() == i,
            forall|k: int| #![trigger v@[k]]
                0 <= k < i ==> ops.prelu_bias(
                    buf.v@[k],
                    alpha@[channel_of(k, buf.c as int, buf.w as int)],
                    bias@[channel_of(k, buf.c as int, buf.w as int)],
                    v@[k],
                ),
        decreases buf.v@.len() - i,
    {
        let ch: usize = channel(i, buf);
        v.push(ops.prelu16(buf.v[i], alpha[ch], bias[ch]));
        i += 1;
    }
    buf.v = v;
}

/// Per-channel bias add, in place.
pub fn bias_tiled<A: Fn(u32, u32) -> u32, M: Fn(u32, u32) -> u32>(buf: &mut Buf, bias: &[u16], ops: &Ops<A, M>)
    requires
        old(buf).wf(),
        old(buf).per_channel(bias.len() as int),
        ops.total(),
    ensures
        final(buf).wf(),
        final(buf).same_shape(old(buf)),
        forall|i: int| #![trigger final(buf).v@[i]]
            0 <= i < final(buf).v@.len() ==> ops.plus16(
                old(buf).v@[i],
                bias@[channel_of(i, old(buf).c as int, old(buf).w as int)],
                final(buf).v@[i],
            ),
{
    let mut v: Vec<u16> = Vec::new();
    let mut i: usize = 0;
    while i < buf.v.len()
        invariant
            *buf == *old(buf),
            buf.wf(),
            buf.per_channel(bias.len() as int),
            ops.total(),
            i <= buf.v@.len(),
            v@.len() == i,
            forall|k: int| #![trigger v@[k]]
                0 <= k < i ==> ops.plus16(buf.v@[k], bias@[channel_of(k, buf.c as int, buf.w as int)], v@[k]),
        decreases buf.v@.len() - i,
    {
        let ch: usize = channel(i, buf);
        v.push(ops.add16(buf.v[i], bias[ch]));
        i += 1;
    }
    buf.v = v;
}

/// The element-wise sum of two buffers of one shape.
pub fn add_tiled<A: Fn(u32, u32) -> u32, M: Fn(u32, u32) -> u32>(a: &Buf, b: &Buf, ops: &Ops<A, M>) -> (r: Buf)
    requires
        a.wf(),
        a.v@.len() <= b.v@.len(),
        ops.total(),
    ensures
        r.wf(),
        r.same_shape(a),
        forall|i: int| #![trigger r.v@[i]] 0 <= i < r.v@.len() ==> ops.plus16(a.v@[i], b.v@[i], r.v@[i]),
{
    let mut v: Vec<u16> = Vec::new();
    let mut i: usize = 0;
    while i < a.v.len()
        invariant
            a.v@.len() <= b.v@.len(),
            ops.total(),
            i <= a.v@.len(),
            v@.len() == i,
            forall|k: int| #![trigger v@[k]] 0 <= k < i ==> ops.plus16(a.v@[k], b.v@[k], v@[k]),
        decreases a.v@.len() - i,
    {
        v.push(ops.add16(a.v[i], b.v[i]));
        i += 1;
    }
    Buf { v, c: a.c, h: a.h, w: a.w }
}

// ----------------------------------------------------------------------------
// Other layouts
// ----------------------------------------------------------------------------

/// Channel-major `[c, h, w]` single precision, element by element.
pub open spec fn planar(b: &Buf) -> Seq<u32> {
    Seq::new(
        (b.c * b.h * b.w) as nat,
        |i: int| wide(b.at(i / b.w as int / b.h as int, i / b.w as int % b.h as int, i % b.w as int)),
    )
}

/// Converts a tiled buffer to channel-major single precision.
pub fn tiled_to_nchw(b: &Buf) -> (out: Vec<u32>)
    requires
        b.wf(),
        b.whole(),
    ensures
        out@ == planar(b),
{
    let n: usize = b.v.len();
    let ghost want = planar(b);
    let ghost (ci, hi, wi) = (b.c as int, b.h as int, b.w as int);
    proof {
        tile_len_is(ci, hi, wi);
    }
    let mut out: Vec<u32> = Vec::new();
    let mut i: usize = 0;
    while i < n
        invariant
            b.wf(),
            b.whole(),
            ci == b.c,
            hi == b.h,
            wi == b.w,
            n == b.v@.len(),
            n == ci * hi * wi,
            want == planar(b),
            i <= n,
            out@ == want.take(i as int),
        decreases n - i,
    {
        proof {
            assert(0 < wi && 0 < hi) by (nonlinear_arith)
                requires
                    0 <= i < ci * hi * wi,
                    ci >= 0,
                    hi >= 0,
                    wi >= 0,
            ;
            index_parts(i as int, ci * hi, wi);
            index_parts(i as int / wi, ci, hi);
        }
        let x: usize = i % b.w;
        let y: usize = i / b.w % b.h;
        let ch: usize = i / b.w / b.h;
        let at: usize = tidx(b.c, b.h, b.w, ch, y, x);
        let v: u32 = bf16_to_f32(b.v[at]);
        proof {
            assert(want.take(i + 1) =~= want.take(i as int).push(v));
        }
        out.push(v);
        i += 1;
    }
    proof {
        assert(want.take(n as int) =~= want);
    }
    out
}

/// The tiled elements of the channel-major single-precision image `chw`:
/// channels it does not have are zero.
pub open spec fn tiled_image(chw: Seq<u32>, c: int, h: int, w: int) -> Seq<u16> {
    Seq::new(
        tile_len(h, c / 8, w) as nat,
        |i: int|
            {
                let at = (channel_of(i, c, w) * h + y_of(i, w, c / 8)) * w + x_of(i, w);
                if at < chw.len() {
                    narrow_canonical(chw[at])
                } else {
                    0
                }
            },
    )
}

/// Tiles a channel-major image of at most `c` whole channels, rounding to
/// bfloat16 and filling the missing channels with zeros.
pub fn tile_image(chw: &[u32], c: usize, h: usize, w: usize) -> (r: Buf)
    requires
        c % 8 == 0,
        c * h * w <= usize::MAX,
        chw.len() <= c * h * w,
    ensures
        r.wf(),
        r.whole(),
        r.c == c,
        r.h == h,
        r.w == w,
        r.v@ == tiled_image(chw@, c as int, h as int, w as int),
{
    let ng: usize = c / 8;
    let ghost (ci, hi, gi, wi) = (c as int, h as int, ng as int, w as int);
    let ghost want = tiled_image(chw@, ci, hi, wi);
    proof {
        tile_len_is(ci, hi, wi);
        product_bounds(hi, gi, wi);
        assert(0 <= hi * gi) by (nonlinear_arith)
            requires
                hi >= 0,
                gi >= 0,
        ;
    }
    let total: usize = if ng == 0 || w == 0 || h == 0 {
        proof {
            assert(hi * gi * wi * 8 == 0) by (nonlinear_arith)
                requires
                    hi == 0 || gi == 0 || wi == 0,
            ;
        }
        0
    } else {
        h * ng * w * 8
    };
    let mut v: Vec<u16> = Vec::new();
    let mut i: usize = 0;
    while i < total
        invariant
            c % 8 == 0,
            ci == c,
            hi == h,
            wi == w,
            gi == ng,
            ng == c / 8,
            c * h * w <= usize::MAX,
            total == tile_len(hi, gi, wi),
            want == tiled_image(chw@, ci, hi, wi),
            i <= total,
            v@ == want.take(i as int),
        decreases total - i,
    {
        proof {
            tile_parts(i as int, hi, gi, wi);
            let ch = channel_of(i as int, ci, wi);
            let y = y_of(i as int, wi, gi);
            let x = x_of(i as int, wi);
            index_bound(ch, y, ci, hi);
            index_bound(ch * hi + y, x, ci * hi, wi);
            assert(0 <= ch * hi) by (nonlinear_arith)
                requires
                    ch >= 0,
                    hi >= 0,
            ;
            assert(0 <= (ch * hi + y) * wi) by (nonlinear_arith)
                requires
                    ch * hi + y >= 0,
                    wi >= 0,
            ;
            assert(ci * hi <= ci * hi * wi) by (nonlinear_arith)
                requires
                    ci * hi >= 0,
                    wi >= 1,
            ;
        }
        let lane: usize = i % 8;
        let x: usize = i / 8 % w;
        let g: usize = i / 8 / w % ng;
        let y: usize = i / 8 / w / ng;
        let at: usize = ((g * 8 + lane) * h + y) * w + x;
        let e: u16 = if at < chw.len() {
            f32_to_bf16_canonical(chw[at])
        } else {
            0
        };
        proof {
            assert(want.take(i + 1) =~= want.take(i as int).push(e));
        }
        v.push(e);
        i += 1;
    }
    proof {
        assert(want.take(total as int) =~= want);
    }
    Buf { v, c, h, w }
}

/// The first `w` of `wp` columns of the single-precision sums `acc`,
/// rounded to bfloat16, element by element.
pub open spec fn cropped(acc: Seq<u32>, ng: int, h: int, wp: int, w: int) -> Seq<u16> {
    Seq::new(
        tile_len(h, ng, w) as nat,
        |i: int|
            narrow_canonical(
                acc[tile(wp, ng, y_of(i, w, ng), group_of(i, w, ng), x_of(i, w), lane_of(i))],
            ),
    )
}

/// Rounds the sums of a convolution with `c` output channels to bfloat16,
/// cropping the padded width `wp` to `w`.
pub fn crop(acc: &[u32], c: usize, h: usize, wp: usize, w: usize) -> (r: Buf)
    requires
        w <= wp,
        tile_len(h as int, c as int / 8, wp as int) <= acc.len(),
        c * h * w <= usize::MAX,
    ensures
        r.wf(),
        r.c == c,
        r.h == h,
        r.w == w,
        r.v@ == cropped(acc@, c as int / 8, h as int, wp as int, w as int),
{
    let ng: usize = c / 8;
    let n: usize = acc.len();
    let ghost (hi, gi, wi) = (h as int, ng as int, w as int);
    let ghost want = cropped(acc@, gi, hi, wp as int, wi);
    proof {
        assert(hi * gi * wi * 8 <= hi * gi * wp * 8) by (nonlinear_arith)
            requires
                0 <= wi <= wp,
                0 <= hi,
                0 <= gi,
        ;
        product_bounds(hi, gi, wi);
        product_bounds(hi, gi, wp as int);
        assert(0 <= hi * gi) by (nonlinear_arith)
            requires
                hi >= 0,
                gi >= 0,
        ;
    }
    let total: usize = if ng == 0 || w == 0 || h == 0 {
        proof {
            assert(hi * gi * wi * 8 == 0) by (nonlinear_arith)
                requires
                    hi == 0 || gi == 0 || wi == 0,
            ;
        }
        0
    } else {
        h * ng * w * 8
    };
    let mut v: Vec<u16> = Vec::new();
    let mut i: usize = 0;
    while i < total
        invariant
            ng == c / 8,
            hi == h,
            gi == ng,
            wi == w,
            w <= wp,
            n == acc.len(),
            tile_len(hi, gi, wp as int) <= n,
            total == tile_len(hi, gi, wi),
            want == cropped(acc@, gi, hi, wp as int, wi),
            i <= total,
            v@ == want.take(i as int),
        decreases total - i,
    {
        proof {
            tile_parts(i as int, hi, gi, wi);
        }
        let lane: usize = i % 8;
        let x: usize = i / 8 % w;
        let g: usize = i / 8 / w % ng;
        let y: usize = i / 8 / w / ng;
        let at: usize = tidx(c, h, wp, g * 8 + lane, y, x);
        let e: u16 = f32_to_bf16_canonical(acc[at]);
        proof {
            assert(want.take(i + 1) =~= want.take(i as int).push(e));
        }
        v.push(e);
        i += 1;
    }
    proof {
        assert(want.take(total as int) =~= want);
    }
    Buf { v, c, h, w }
}

/// Cropping keeps channel, row and column.
pub proof fn crop_at(acc: Seq<u32>, c: int, h: int, wp: int, w: int, ch: int, y: int, x: int)
    requires
        c % 8 == 0,
        0 <= ch < c,
        0 <= y < h,
        0 <= x < w <= wp,
    ensures
        cropped(acc, c / 8, h, wp, w)[tile_at(c, w, ch, y, x)] == narrow_canonical(acc[tile_at(c, wp, ch, y, x)]),
{
    tile_index(h, c / 8, w, y, ch / 8, x, ch % 8);
}

/// Tiling an image and reading it back channel-major rounds each value to
/// bfloat16 and changes nothing else.
pub proof fn image_reads_back(chw: Seq<u32>, b: &Buf, i: int)
    requires
        b.wf(),
        b.whole(),
        b.v@ == tiled_image(chw, b.c as int, b.h as int, b.w as int),
        chw.len() <= b.c * b.h * b.w,
        0 <= i < b.c * b.h * b.w,
    ensures
        planar(b)[i] == (if i < chw.len() {
            wide(narrow_canonical(chw[i]))
        } else {
            0
        }),
{
    let (c, h, w) = (b.c as int, b.h as int, b.w as int);
    assert(0 < w && 0 < h) by (nonlinear_arith)
        requires
            0 <= i < c * h * w,
            c >= 0,
            h >= 0,
            w >= 0,
    ;
    index_parts(i, c * h, w);
    index_parts(i / w, c, h);
    let (ch, y, x) = (i / w / h, i / w % h, i % w);
    tile_index(h, c / 8, w, y, ch / 8, x, ch % 8);
}

/// A tiled image holds channel `ch`, row `y`, column `x` of the image it was
/// made of, rounded, in the lanes of the channel's group of eight; a channel
/// the image does not have is zero.
pub proof fn an_image_is_tiled_by_channel(chw: Seq<u32>, c: int, h: int, w: int, ch: int, y: int, x: int)
    requires
        c % 8 == 0,
        0 <= ch < c,
        0 <= y < h,
        0 <= x < w,
    ensures
        tiled_image(chw, c, h, w)[((y * (c / 8) + ch / 8) * w + x) * 8 + ch % 8] == (if (ch * h + y) * w + x < chw.len() {
            narrow_canonical(chw[(ch * h + y) * w + x])
        } else {
            0
        }),
{
    tile_index(h, c / 8, w, y, ch / 8, x, ch % 8);
}

} // verus!
