//! What GAIC's network is fed and what its scores are made of, by pixel,
//! channel and box.

use crate::arith::{index_bound, split_index};
use crate::bf16::{is_nan, larger, narrow, order_key, wide};
use crate::gaic::{
    a_source_of, is_epilogue, is_feature, layers_in, maxpooled, passed, passes, relu_sum, relu_sum16, side, sound_convs_chain, stem_of, taps_are_neighbours, Backbone, Layer, Passed,
};
use crate::gaic_align::Place;
use crate::gaic_bundle::{bundle_of, kernel_in, BundleView, ConvView, KernelView};
use crate::gaic_features::{is_blended, levels_make, Levels};
use crate::gaic_score::{group_runs, group_scored, group_size, is_group, Fc1, GroupRun};
use crate::store::{DType, StoreView};
use vstd::prelude::*;

verus! {

/// The network's input goes from planes to pixels: channel `ch` of pixel
/// (`y`, `x`) is that place of plane `ch`, rounded.
pub proof fn planes_become_pixels(chw: Seq<u32>, w: nat, h: nat, y: int, x: int, ch: int)
    requires
        0 <= y < h,
        0 <= x < w,
        0 <= ch < 3,
    ensures
        stem_of(chw, w, h).len() == h * w * 3,
        stem_of(chw, w, h)[(y * w + x) * 3 + ch] == narrow(chw[ch * (h * w) + (y * w + x)]),
{
    index_bound(y, x, h as int, w as int);
    index_bound(y * w + x, ch, (h * w) as int, 3);
    split_index(y * w + x, ch, 3);
}

/// The larger of two values is one of them, and of numbers neither is above
/// it.
pub proof fn the_larger_is_not_below(a: u32, b: u32)
    ensures
        larger(a, b) == a || larger(a, b) == b,
        !is_nan(a) && !is_nan(b) ==> order_key(a) <= order_key(larger(a, b)) && order_key(b) <= order_key(larger(a, b)),
        is_nan(a) ==> larger(a, b) == b,
        !is_nan(a) && is_nan(b) ==> larger(a, b) == a,
{
}

/// The order is that of numbers: positive ones rise with their bits, negative
/// ones fall, and none is above a positive one.
pub proof fn keys_order_numbers(a: u32, b: u32)
    ensures
        a < 0x8000_0000 && b < 0x8000_0000 ==> (order_key(a) < order_key(b) <==> a < b),
        a >= 0x8000_0000 && b >= 0x8000_0000 ==> (order_key(a) < order_key(b) <==> a > b),
        a > 0x8000_0000 && b < 0x8000_0000 ==> order_key(a) < order_key(b),
        order_key(0) == order_key(0x8000_0000),
{
}

/// What a convolution multiplies with tap (`dy`, `dx`) for pixel (`y`, `x`) is
/// the input's pixel one less down and across, zero beyond its edges: row by
/// row, or, with whole windows a row, window by window.
pub proof fn convolutions_see_their_neighbours(
    act: Seq<u16>,
    l: Layer,
    h: nat,
    w: nat,
    y: int,
    x: int,
    dy: int,
    dx: int,
    ch: int,
)
    requires
        l.laid_out(),
        l.c > 0,
        0 <= y < h,
        0 <= x < w,
        0 <= dy < 3,
        0 <= dx < 3,
        0 <= ch < l.c,
    ensures
        ({
            let q = y * (w + 2) + x;
            let (p, c) = (l.p as int, l.c as int);
            let at = if l.window {
                (q / p) * l.k + (q % p) * (9 * c) + dx * (3 * c) + dy * c + ch
            } else {
                (q + dx) * l.d + dy * c + ch
            };
            0 <= at < a_source_of(act, l, h, w).len() ==> a_source_of(act, l, h, w)[at] == (if 0 <= y + dy - 1 < h && 0 <= x + dx - 1
                < w {
                act[((y + dy - 1) * w + (x + dx - 1)) * c + ch]
            } else {
                0
            })
        }),
{
    let (hi, wi, c, p) = (h as int, w as int, l.c as int, l.p as int);
    let q = y * (wi + 2) + x;
    index_bound(dy, ch, 3, c);
    index_bound(dx, dy * c + ch, 3, 3 * c);
    taps_are_neighbours(act, hi, wi, c, y, x, dy, dx, ch);
    if l.window {
        let e = dx * (3 * c) + (dy * c + ch);
        assert(q >= 0) by (nonlinear_arith)
            requires
                q == y * (wi + 2) + x,
                y >= 0,
                wi >= 0,
                x >= 0,
        ;
        vstd::arithmetic::div_mod::lemma_fundamental_div_mod(q, p);
        vstd::arithmetic::mul::lemma_mul_is_commutative(q / p, p);
        assert(3 * (3 * c) == 9 * c) by (nonlinear_arith);
        index_bound(q % p, e, p, 9 * c);
        assert(p * (9 * c) == p * 9 * c) by (nonlinear_arith);
        let j = (q % p) * (9 * c) + e;
        split_index(q / p, j, l.k as int);
        split_index(q % p, e, 9 * c);
        split_index(dx, dy * c + ch, 3 * c);
        assert(j % (3 * c) == dy * c + ch) by {
            assert(j == ((q % p) * 3 + dx) * (3 * c) + (dy * c + ch)) by (nonlinear_arith)
                requires
                    j == (q % p) * (9 * c) + (dx * (3 * c) + (dy * c + ch)),
            ;
            split_index((q % p) * 3 + dx, dy * c + ch, 3 * c);
        }
    } else {
        split_index(q + dx, dy * c + ch, l.d as int);
    }
}

/// A layer's next input is, at (`y`, `x`), the positive part of the output plus
/// the channel's bias, rounded; pooled, of the largest of four outputs.
pub proof fn layers_add_their_bias<A: Fn(u32, u32) -> u32>(
    act: Seq<u16>,
    out: Seq<u16>,
    h: nat,
    w: nat,
    oc: nat,
    bias: Seq<u32>,
    pool: bool,
    plus: A,
    y: int,
    x: int,
    o: int,
)
    requires
        is_epilogue(act, out, h, w, oc, bias, pool, plus),
        0 <= y < (if pool {
            h / 2
        } else {
            h
        }),
        0 <= x < (if pool {
            w / 2
        } else {
            w
        }),
        0 <= o < oc,
    ensures
        !pool ==> relu_sum16(plus, wide(out[(y * (w + 2) + x) * oc + o]), bias[o], act[(y * w + x) * oc + o]),
        pool ==> exists|m: u32|
            {
                let a = wide(out[((2 * y) * (w + 2) + 2 * x) * oc + o]);
                let b = wide(out[((2 * y) * (w + 2) + (2 * x + 1)) * oc + o]);
                let c = wide(out[((2 * y + 1) * (w + 2) + 2 * x) * oc + o]);
                let d = wide(out[((2 * y + 1) * (w + 2) + (2 * x + 1)) * oc + o]);
                &&& #[trigger] relu_sum16(plus, m, bias[o], act[(y * (w as int / 2) + x) * oc + o])
                &&& m == a || m == b || m == c || m == d
                &&& !is_nan(a) && !is_nan(b) && !is_nan(c) && !is_nan(d) ==> order_key(a) <= order_key(m) && order_key(b)
                    <= order_key(m) && order_key(c) <= order_key(m) && order_key(d) <= order_key(m)
            },
{
    let (ho, wo) = if pool {
        ((h / 2) as int, (w / 2) as int)
    } else {
        (h as int, w as int)
    };
    index_bound(y, x, ho, wo);
    index_bound(y * wo + x, o, ho * wo, oc as int);
    split_index(y * wo + x, o, oc as int);
    split_index(y, x, wo);
    let i = (y * wo + x) * oc + o;
    assert(relu_sum16(
        plus,
        crate::gaic::fed(out, w as int, oc as int, pool, y, x, o),
        bias[o],
        act[i],
    ));
    if pool {
        let m = crate::gaic::pooled(out, w as int, oc as int, y, x, o);
        assert(relu_sum16(plus, m, bias[o], act[i]));
    }
}

/// A feature map is the positive part of the output plus the channel's bias.
pub proof fn features_add_their_bias<A: Fn(u32, u32) -> u32>(
    f: Seq<u32>,
    out: Seq<u16>,
    h: nat,
    w: nat,
    oc: nat,
    bias: Seq<u32>,
    plus: A,
    y: int,
    x: int,
    o: int,
)
    requires
        is_feature(f, out, h, w, oc, bias, plus),
        0 <= y < h,
        0 <= x < w,
        0 <= o < oc,
    ensures
        relu_sum(plus, wide(out[(y * (w + 2) + x) * oc + o]), bias[o], f[(y * w + x) * oc + o]),
{
    index_bound(y, x, h as int, w as int);
    index_bound(y * w + x, o, (h * w) as int, oc as int);
    split_index(y * w + x, o, oc as int);
    split_index(y, x, w as int);
}

/// A sum's positive part is the sum where it is above zero, and zero where it
/// is not.
pub proof fn sums_are_cut_at_zero<A: Fn(u32, u32) -> u32>(plus: A, a: u32, b: u32, r: u32) -> (s: u32)
    requires
        relu_sum(plus, a, b, r),
    ensures
        call_ensures(plus, (a, b), s),
        s < 0x8000_0000 && !is_nan(s) ==> r == s,
        s > 0x8000_0000 && !is_nan(s) ==> r == 0,
        is_nan(s) ==> r == 0,
{
    choose|s: u32| call_ensures(plus, (a, b), s) && r == #[trigger] larger(s, 0)
}

/// Pooled, a feature is the largest of a square of four.
pub proof fn pools_take_the_largest(f: Seq<u32>, h: nat, w: nat, c: nat, y: int, x: int, o: int)
    requires
        0 <= y < h / 2,
        0 <= x < w / 2,
        0 <= o < c,
    ensures
        ({
            let m = maxpooled(f, h, w, c)[(y * (w as int / 2) + x) * c + o];
            let p = f[((2 * y) * w + 2 * x) * c + o];
            let q = f[((2 * y) * w + (2 * x + 1)) * c + o];
            let r = f[((2 * y + 1) * w + 2 * x) * c + o];
            let s = f[((2 * y + 1) * w + (2 * x + 1)) * c + o];
            &&& m == p || m == q || m == r || m == s
            &&& !is_nan(p) && !is_nan(q) && !is_nan(r) && !is_nan(s) ==> order_key(p) <= order_key(m) && order_key(q) <= order_key(
                m,
            ) && order_key(r) <= order_key(m) && order_key(s) <= order_key(m)
        }),
{
    let (ho, wo, ci) = ((h / 2) as int, (w / 2) as int, c as int);
    index_bound(y, x, ho, wo);
    index_bound(y * wo + x, o, ho * wo, ci);
    split_index(y * wo + x, o, ci);
    split_index(y, x, wo);
}

/// The map holds plane by plane what three maps hold pixel by pixel, with the
/// channel's bias.
pub proof fn maps_are_blended<
    P: Fn(&Vec<u32>, usize, usize, usize) -> u32,
    X: Fn(usize, usize, usize) -> (usize, u32),
    M: Fn(u32, u32, u32, u32, u32, u32) -> u32,
    B: Fn(u32, u32, u32, u32) -> u32,
>(
    parts: crate::gaic_features::Parts<P, X, M, B>,
    g3: Seq<u32>,
    g4: Seq<u32>,
    g5: Seq<u32>,
    bias: Seq<u32>,
    px: nat,
    map: Seq<u32>,
    k: int,
    p: int,
)
    requires
        is_blended(parts, g3, g4, g5, bias, px, map),
        0 <= k < bias.len(),
        0 <= p < px,
    ensures
        ({
            let r = bias.len() as int;
            call_ensures(parts.blend, (g3[p * r + k], g4[p * r + k], g5[p * r + k], bias[k]), map[k * px + p])
        }),
{
    index_bound(k, p, bias.len() as int, px as int);
    assert(bias.len() * px == px * bias.len()) by (nonlinear_arith);
    split_index(k, p, px as int);
    let j = k * px + p;
    assert(map[j] == map[k * px + p]);
}

/// The features of a box have its own planes first, then those of its
/// surroundings: channel `ch` at (`y`, `x`) is the mean of a square of samples
/// of the map's plane `ch`, taken at the places of the box or around it.
pub proof fn features_are_pooled_samples<
    I: Fn(usize, usize) -> Option<Place>,
    O: Fn(usize, usize) -> Option<Place>,
    T: Fn(u64, u64, u32, u32, u32, u32) -> u32,
    M: Fn(u32, u32, u32, u32) -> u32,
>(
    parts: &crate::gaic_align::Aligner<I, O, T, M>,
    map: Seq<u32>,
    c: nat,
    h: nat,
    w: nat,
    s: nat,
    inner: Seq<Option<Place>>,
    outer: Seq<Option<Place>>,
    grids: Seq<Seq<u32>>,
    out: Seq<u32>,
    around: bool,
    ch: int,
    y: int,
    x: int,
)
    requires
        parts.are_features(map, c, h, w, s, inner, outer, grids, out),
        0 <= ch < c,
        0 <= y < s,
        0 <= x < s,
    ensures
        ({
            let k = if around {
                c + ch
            } else {
                ch
            };
            let g = grids[k];
            let n = s + 1;
            &&& g.len() == n * n
            &&& call_ensures(
                parts.mean,
                (g[y * n + x], g[y * n + (x + 1)], g[(y + 1) * n + x], g[(y + 1) * n + (x + 1)]),
                out[k * (s * s) + (y * s + x)],
            )
            &&& forall|gy: int, gx: int| #![trigger g[gy * n + gx]]
                0 <= gy < n && 0 <= gx < n ==> {
                    let place = if around {
                        outer[gy * n + gx]
                    } else {
                        inner[gy * n + gx]
                    };
                    match place {
                        None => g[gy * n + gx] == 0,
                        Some(q) => {
                            let from = ch * (h * w) + (q.0 * w + q.1);
                            call_ensures(
                                parts.between,
                                (q.2, q.3, map[from], map[from + 1], map[from + w], map[from + w + 1]),
                                g[gy * n + gx],
                            )
                        },
                    }
                }
        }),
{
    let k = if around {
        c + ch
    } else {
        ch
    };
    let (ci, n, q) = (c as int, (s + 1) as int, (s * s) as int);
    let g = grids[k];
    let plane = out.subrange(k * q, (k + 1) * q);
    assert(parts.is_plane(map, c, h, w, s, inner, outer, k, g, plane));
    assert(k % ci == ch) by {
        if around {
            split_index(1, ch, ci);
        } else {
            split_index(0, ch, ci);
        }
    }
    index_bound(y, x, s as int, s as int);
    let j = y * s + x;
    split_index(y, x, s as int);
    index_bound(k, j, 2 * ci, q);
    assert((k + 1) * q <= (2 * ci) * q && (k + 1) * q == k * q + q && k * q >= 0) by (nonlinear_arith)
        requires
            0 <= k < 2 * ci,
            q >= 0,
    ;
    assert(plane[j] == out[k * q + j]);
    let i = y * n + x;
    assert((y + 1) * n + x == i + n && (y + 1) * n + (x + 1) == i + n + 1) by (nonlinear_arith)
        requires
            i == y * n + x,
    ;
    assert(call_ensures(parts.mean, (g[i], g[i + 1], g[i + n], g[i + n + 1]), plane[j]));
    assert forall|gy: int, gx: int| #![trigger g[gy * n + gx]] 0 <= gy < n && 0 <= gx < n implies {
        let place = if around {
            outer[gy * n + gx]
        } else {
            inner[gy * n + gx]
        };
        match place {
            None => g[gy * n + gx] == 0,
            Some(q) => {
                let from = ch * (h * w) + (q.0 * w + q.1);
                call_ensures(
                    parts.between,
                    (q.2, q.3, map[from], map[from + 1], map[from + w], map[from + w + 1]),
                    g[gy * n + gx],
                )
            },
        }
    } by {
        index_bound(gy, gx, n, n);
        let at = gy * n + gx;
        assert(parts.is_sample(
            map,
            ch * (h * w),
            w as int,
            if around {
                outer[at]
            } else {
                inner[at]
            },
            g[at],
        ));
    }
}

/// The score of a box is the head's of its own row: its features, rounded, are
/// a row of the operand, zeros behind them, and its hidden values are that row
/// of the answer plus the biases, cut at zero.
pub proof fn a_box_s_score_is_its_own<
    F: Fn(usize) -> Vec<u32>,
    D: Fn(&Vec<u16>) -> Result<Vec<u16>, String>,
    A: Fn(u32, u32) -> u32,
    H: Fn(&Vec<u32>) -> u32,
>(
    l: Fc1,
    first: usize,
    count: nat,
    f: F,
    dev: D,
    plus: A,
    head: H,
    t: GroupRun,
    s: Seq<u32>,
    i: int,
    e: int,
    j: int,
)
    requires
        group_runs(l, first, count, f, dev, plus, head, t, s),
        0 <= i < count,
        count <= l.rows,
        0 <= e < l.k_pad,
        0 <= j < l.n,
    ensures
        call_ensures(f, ((first + i) as usize,), t.feats[i]),
        t.a.len() == l.rows * l.k_pad,
        e < t.feats[i].len() ==> t.a[i * l.k_pad + e] == narrow(t.feats[i][e]),
        e >= t.feats[i].len() ==> t.a[i * l.k_pad + e] == 0,
        call_ensures(dev, (&t.a,), Ok::<Vec<u16>, String>(t.c)),
        t.hidden[i].len() == l.n,
        relu_sum(plus, wide(t.c[i * l.n + j]), l.bias[j], t.hidden[i][j]),
        call_ensures(head, (&t.hidden[i],), s[i]),
{
    index_bound(i, e, l.rows as int, l.k_pad as int);
    split_index(i, e, l.k_pad as int);
    assert(t.a@[i * l.k_pad + e] == l.operand(t.feats)[i * l.k_pad + e]);
    assert(crate::gaic_score::is_hidden(l, t.c@, i, plus, t.hidden[i]@));
    let h = t.hidden[i]@;
    assert(relu_sum(plus, wide(t.c@[i * l.n + j]), l.bias[j], h[j]));
}

/// A layer that pools before it sees half the height and width of the one
/// before, any other the same.
pub proof fn sides_halve_where_pooled(layers: Seq<Layer>, s: nat, i: int)
    requires
        0 < i < layers.len(),
        !layers[0].pool_before,
    ensures
        side(layers, s, 1) == s,
        layers[i].pool_before ==> side(layers, s, (i + 1) as nat) == side(layers, s, i as nat) / 2,
        !layers[i].pool_before ==> side(layers, s, (i + 1) as nat) == side(layers, s, i as nat),
{
    assert(side(layers, s, 0) == s);
}

/// In a run every layer works on what the one before it made: its operand is
/// made of its input, and its input, at (`y`, `x`), is the positive part of
/// the answer before plus that layer's bias, pooled where this layer pools
/// before it. The first layer works on the image.
pub proof fn a_layer_works_on_the_one_before<A: Fn(u32, u32) -> u32, D: Fn(usize, &Vec<u16>) -> Result<Vec<u16>, String>>(
    b: Backbone,
    w: nat,
    h: nat,
    chw: Seq<u32>,
    plus: A,
    dev: D,
    t: Passed,
    i: int,
    y: int,
    x: int,
    o: int,
)
    requires
        b.wf(),
        passed(b, w, h, chw, plus, dev, t, b.layers.len() as int),
        0 <= i < b.layers.len(),
        0 <= y < b.h_at(h, i),
        0 <= x < b.h_at(w, i),
        0 <= o < b.layers[i].c,
    ensures
        call_ensures(dev, (i as usize, &t.ins[i]), Ok::<Vec<u16>, String>(t.outs[i])),
        t.ins[i]@ == a_source_of(t.acts[i]@, b.layers[i], b.h_at(h, i), b.h_at(w, i)),
        i == 0 ==> t.acts[0][(y * w + x) * 3 + o] == narrow(chw[o * (h * w) + (y * w + x)]),
        i > 0 && !b.layers[i].pool_before ==> relu_sum16(
            plus,
            wide(t.outs[i - 1][(y * (b.h_at(w, i - 1) + 2) + x) * b.layers[i - 1].oc + o]),
            b.biases[i - 1][o],
            t.acts[i][(y * b.h_at(w, i - 1) + x) * b.layers[i - 1].oc + o],
        ),
        i > 0 && b.layers[i].pool_before ==> exists|m: u32|
            {
                let (v, oc, wp) = (t.outs[i - 1]@, b.layers[i - 1].oc as int, b.h_at(w, i - 1) + 2);
                let p = wide(v[((2 * y) * wp + 2 * x) * oc + o]);
                let q = wide(v[((2 * y) * wp + (2 * x + 1)) * oc + o]);
                let r = wide(v[((2 * y + 1) * wp + 2 * x) * oc + o]);
                let s = wide(v[((2 * y + 1) * wp + (2 * x + 1)) * oc + o]);
                &&& #[trigger] relu_sum16(plus, m, b.biases[i - 1][o], t.acts[i][(y * (b.h_at(w, i - 1) as int / 2) + x) * b.layers[i - 1].oc + o])
                &&& m == p || m == q || m == r || m == s
                &&& !is_nan(p) && !is_nan(q) && !is_nan(r) && !is_nan(s) ==> order_key(p) <= order_key(m) && order_key(q)
                    <= order_key(m) && order_key(r) <= order_key(m) && order_key(s) <= order_key(m)
            },
{
    assert(passes(b, w, h, chw, plus, dev, t, i));
    let l = b.layers[i];
    assert(l.laid_out());
    if i == 0 {
        assert(side(b.layers@, h, 0) == h && side(b.layers@, w, 0) == w);
        planes_become_pixels(chw, w, h, y, x, o);
    } else {
        sides_halve_where_pooled(b.layers@, h, i);
        sides_halve_where_pooled(b.layers@, w, i);
        layers_add_their_bias(
            t.acts[i]@,
            t.outs[i - 1]@,
            b.h_at(h, i - 1),
            b.h_at(w, i - 1),
            b.layers[i - 1].oc as nat,
            b.biases[i - 1]@,
            l.pool_before,
            plus,
            y,
            x,
            o,
        );
    }
}

/// `v` mixes the dot products of the four pixels around a place of `f`, an
/// image of `h x w` pixels, with row `k` of the weights from `off` on: those
/// that `axis` finds for row `y` of `oh` and column `x` of `ow`, and their
/// neighbours below and to the right, or themselves at the edge.
pub open spec fn mixes_neighbours<
    P: Fn(&Vec<u32>, usize, usize, usize) -> u32,
    X: Fn(usize, usize, usize) -> (usize, u32),
    M: Fn(u32, u32, u32, u32, u32, u32) -> u32,
    B: Fn(u32, u32, u32, u32) -> u32,
>(
    parts: crate::gaic_features::Parts<P, X, M, B>,
    f: Vec<u32>,
    h: nat,
    w: nat,
    off: usize,
    k: int,
    y: int,
    oh: nat,
    x: int,
    ow: nat,
    v: u32,
) -> bool {
    exists|ty: (usize, u32), tx: (usize, u32), a: u32, b: u32, c: u32, d: u32|
        {
            let below = if ty.0 + 1 < h {
                ty.0 + 1
            } else {
                ty.0 as int
            };
            let right = if tx.0 + 1 < w {
                tx.0 + 1
            } else {
                tx.0 as int
            };
            &&& #[trigger] call_ensures(parts.axis, (y as usize, h as usize, oh as usize), ty)
            &&& #[trigger] call_ensures(parts.axis, (x as usize, w as usize, ow as usize), tx)
            &&& call_ensures(parts.dot, (&f, (ty.0 * w + tx.0) as usize, off, k as usize), a)
            &&& call_ensures(parts.dot, (&f, (ty.0 * w + right) as usize, off, k as usize), b)
            &&& call_ensures(parts.dot, (&f, (below * w + tx.0) as usize, off, k as usize), c)
            &&& call_ensures(parts.dot, (&f, (below * w + right) as usize, off, k as usize), d)
            &&& #[trigger] call_ensures(parts.mix, (ty.1, tx.1, a, b, c, d), v)
        }
}

proof fn mixed_at<
    P: Fn(&Vec<u32>, usize, usize, usize) -> u32,
    X: Fn(usize, usize, usize) -> (usize, u32),
    M: Fn(u32, u32, u32, u32, u32, u32) -> u32,
    B: Fn(u32, u32, u32, u32) -> u32,
>(
    parts: crate::gaic_features::Parts<P, X, M, B>,
    f: Vec<u32>,
    h: nat,
    w: nat,
    off: usize,
    r: nat,
    p: Seq<u32>,
    ys: Seq<(usize, u32)>,
    xs: Seq<(usize, u32)>,
    oh: nat,
    ow: nat,
    g: Seq<u32>,
    k: int,
    y: int,
    x: int,
)
    requires
        0 < h <= usize::MAX,
        0 < w <= usize::MAX,
        oh <= usize::MAX,
        ow <= usize::MAX,
        parts.is_projected(f, h * w, off, r, p),
        parts.is_axis(h as usize, oh as usize, ys),
        parts.is_axis(w as usize, ow as usize, xs),
        parts.is_mixed(p, h, w, r, ys, xs, g),
        forall|d: usize, i: usize, o: usize, t: (usize, u32)|
            d < o && i > 0 && #[trigger] call_ensures(parts.axis, (d, i, o), t) ==> t.0 < i,
        0 <= k < r,
        0 <= y < oh,
        0 <= x < ow,
    ensures
        mixes_neighbours(parts, f, h, w, off, k, y, oh, x, ow, g[(y * ow + x) * r + k]),
{
    let (ty, tx) = (ys[y], xs[x]);
    assert(call_ensures(parts.axis, (y as usize, h as usize, oh as usize), ty));
    assert(call_ensures(parts.axis, (x as usize, w as usize, ow as usize), tx));
    let below = if ty.0 + 1 < h {
        ty.0 + 1
    } else {
        ty.0 as int
    };
    let right = if tx.0 + 1 < w {
        tx.0 + 1
    } else {
        tx.0 as int
    };
    projected_at(parts, f, h, w, off, r, p, ty.0 as int, tx.0 as int, k);
    projected_at(parts, f, h, w, off, r, p, ty.0 as int, right, k);
    projected_at(parts, f, h, w, off, r, p, below, tx.0 as int, k);
    projected_at(parts, f, h, w, off, r, p, below, right, k);
    index_bound(y, x, oh as int, ow as int);
    index_bound(y * ow + x, k, oh * ow as int, r as int);
    split_index(y * ow + x, k, r as int);
    split_index(y, x, ow as int);
    let i = (y * ow + x) * r + k;
    let at = |gy: int, gx: int| p[(gy * w + gx) * r + k];
    let v = g[i];
    assert(call_ensures(
        parts.mix,
        (ty.1, tx.1, at(ty.0 as int, tx.0 as int), at(ty.0 as int, right), at(below, tx.0 as int), at(below, right)),
        v,
    ));
}

proof fn projected_at<
    P: Fn(&Vec<u32>, usize, usize, usize) -> u32,
    X: Fn(usize, usize, usize) -> (usize, u32),
    M: Fn(u32, u32, u32, u32, u32, u32) -> u32,
    B: Fn(u32, u32, u32, u32) -> u32,
>(
    parts: crate::gaic_features::Parts<P, X, M, B>,
    f: Vec<u32>,
    h: nat,
    w: nat,
    off: usize,
    r: nat,
    p: Seq<u32>,
    y: int,
    x: int,
    k: int,
)
    requires
        parts.is_projected(f, h * w, off, r, p),
        0 <= y < h,
        0 <= x < w,
        0 <= k < r,
    ensures
        call_ensures(parts.dot, (&f, (y * w + x) as usize, off, k as usize), p[(y * w + x) * r + k]),
{
    index_bound(y, x, h as int, w as int);
    index_bound(y * w + x, k, h * w as int, r as int);
    split_index(y * w + x, k, r as int);
}

/// Channel `k` of the map at (`y`, `x`) blends three levels and its bias. The
/// second layer's pixel meets the weights from its channels on; the first
/// layer, under the weights from their start on, and the second one pooled,
/// under those from twice its channels on, are mixed from the pixels around
/// the place.
pub proof fn a_map_s_value_blends_three_levels<
    P: Fn(&Vec<u32>, usize, usize, usize) -> u32,
    X: Fn(usize, usize, usize) -> (usize, u32),
    M: Fn(u32, u32, u32, u32, u32, u32) -> u32,
    B: Fn(u32, u32, u32, u32) -> u32,
>(
    ch: usize,
    h3: nat,
    w3: nat,
    h4: nat,
    w4: nat,
    bias: Seq<u32>,
    parts: crate::gaic_features::Parts<P, X, M, B>,
    t: Levels,
    map: Seq<u32>,
    k: int,
    y: int,
    x: int,
) -> (v: (u32, u32, u32))
    requires
        levels_make(ch, h3, w3, h4, w4, bias, parts, t, map),
        forall|d: usize, i: usize, o: usize, n: (usize, u32)|
            d < o && i > 0 && #[trigger] call_ensures(parts.axis, (d, i, o), n) ==> n.0 < i,
        0 < h3 <= usize::MAX,
        0 < w3 <= usize::MAX,
        1 < h4 <= usize::MAX,
        1 < w4 <= usize::MAX,
        0 <= k < bias.len(),
        0 <= y < h4,
        0 <= x < w4,
    ensures
        call_ensures(parts.blend, (v.0, v.1, v.2, bias[k]), map[k * (h4 * w4) + (y * w4 + x)]),
        mixes_neighbours(parts, t.f3, h3, w3, 0, k, y, h4, x, w4, v.0),
        call_ensures(parts.dot, (&t.f4, (y * w4 + x) as usize, ch, k as usize), v.1),
        mixes_neighbours(parts, t.f5, h4 / 2, w4 / 2, (2 * ch) as usize, k, y, h4, x, w4, v.2),
        t.f5@ == maxpooled(t.f4@, h4, w4, ch as nat),
{
    let r = bias.len();
    let p = y * w4 + x;
    index_bound(y, x, h4 as int, w4 as int);
    maps_are_blended(parts, t.g3, t.g4, t.g5, bias, h4 * w4, map, k, p);
    mixed_at(parts, t.f3, h3, w3, 0, r, t.p3, t.ys3, t.xs3, h4, w4, t.g3, k, y, x);
    mixed_at(parts, t.f5, h4 / 2, w4 / 2, (2 * ch) as usize, r, t.p5, t.ys5, t.xs5, h4, w4, t.g5, k, y, x);
    projected_at(parts, t.f4, h4, w4, ch, r, t.g4, y, x, k);
    (t.g3[p * r + k], t.g4[p * r + k], t.g5[p * r + k])
}

/// Box `i` has its own score at place `i`, whatever group it was scored in:
/// the head's of the hidden values of its own features.
pub proof fn every_box_has_its_score<
    F: Fn(usize) -> Vec<u32>,
    D: Fn(&Vec<u16>) -> Result<Vec<u16>, String>,
    A: Fn(u32, u32) -> u32,
    H: Fn(&Vec<u32>) -> u32,
>(l: Fc1, n: nat, g: nat, f: F, dev: D, plus: A, head: H, s: Seq<u32>, i: int, e: int, j: int) -> (t: GroupRun)
    requires
        group_scored(l, n, g, f, dev, plus, head, s),
        s.len() == n,
        n <= usize::MAX,
        g * (l.rows as nat) <= i < n,
        i < g * (l.rows as nat) + l.rows,
        0 <= e < l.k_pad,
        0 <= j < l.n,
    ensures
        ({
            let r = i - g * (l.rows as nat);
            &&& 0 <= r < t.feats.len()
            &&& call_ensures(f, (i as usize,), t.feats[r])
            &&& e < t.feats[r].len() ==> t.a[r * l.k_pad + e] == narrow(t.feats[r][e])
            &&& e >= t.feats[r].len() ==> t.a[r * l.k_pad + e] == 0
            &&& call_ensures(dev, (&t.a,), Ok::<Vec<u16>, String>(t.c))
            &&& t.hidden[r].len() == l.n
            &&& relu_sum(plus, wide(t.c[r * l.n + j]), l.bias[j], t.hidden[r][j])
            &&& call_ensures(head, (&t.hidden[r],), s[i])
        }),
{
    let first = g * (l.rows as nat);
    let count = group_size(l, n, g);
    let part = s.subrange(first as int, (first + count) as int);
    let at = first as usize;
    assert(is_group(l, at, count, f, dev, plus, head, part));
    let t = choose|t: GroupRun| #[trigger] group_runs(l, at, count, f, dev, plus, head, t, part);
    let r = i - first;
    a_box_s_score_is_its_own(l, at, count, f, dev, plus, head, t, part, r, e, j);
    assert(part[r] == s[i]);
    t
}

/// A bundle's layers have the sizes of its convs, in order, and the operands
/// of the kernel that each conv names.
pub proof fn layers_have_their_kernels(ks: Seq<KernelView>, cs: Seq<ConvView>, ls: Seq<Layer>, i: int) -> (k: int)
    requires
        layers_in(ks, cs) == Ok::<Seq<Layer>, Seq<char>>(ls),
        0 <= i < cs.len(),
    ensures
        ls.len() == cs.len(),
        ls[i].c == cs[i].c && ls[i].oc == cs[i].oc && ls[i].pool_before == cs[i].pool_before,
        ls[i].m_chunk == cs[i].m_chunk && ls[i].p == cs[i].p && ls[i].window == cs[i].window && ls[i].d == cs[i].d,
        0 <= k < ks.len() && ks[k].key == cs[i].kernel,
        ls[i].k == ks[k].k && ls[i].a_elems == ks[k].a_elems && ls[i].c_elems == ks[k].c_elems,
    decreases cs.len(),
{
    let before = layers_in(ks, cs.drop_last())->Ok_0;
    assert(ls.drop_last() =~= before);
    if i < cs.len() - 1 {
        let k = layers_have_their_kernels(ks, cs.drop_last(), before, i);
        assert(ls[i] == before[i]);
        k
    } else {
        if cs.len() > 1 {
            let other = layers_have_their_kernels(ks, cs.drop_last(), before, 0);
        }
        named_kernel(ks, cs[i].kernel)
    }
}

proof fn named_kernel(ks: Seq<KernelView>, key: Seq<char>) -> (k: int)
    requires
        kernel_in(ks, key) is Ok,
    ensures
        0 <= k < ks.len() && ks[k].key == key && kernel_in(ks, key) == Ok::<KernelView, Seq<char>>(ks[k]),
    decreases ks.len(),
{
    if ks[0].key == key {
        0
    } else {
        let k = named_kernel(ks.skip(1), key);
        assert(ks.skip(1)[k] == ks[k + 1]);
        k + 1
    }
}

/// Tensor `name` is there with `n` values of single precision.
pub open spec fn has_values(st: StoreView, name: Seq<char>, n: int) -> bool {
    st.tensors.contains_key(name) && st.tensors[name].dtype == DType::F32 && st.tensors[name].elems() == n
}

/// Tensor `name` is there with `n` bytes.
pub open spec fn has_bytes(st: StoreView, name: Seq<char>, n: int) -> bool {
    st.tensors.contains_key(name) && st.slice(st.tensors[name]).len() == n
}

/// A bundle that loads has what its layers need: they chain, from the pooled
/// planes of a box and its surroundings to the one score, and every tensor
/// they name has their sizes.
pub proof fn a_bundle_that_loads_is_whole(
    dir: Seq<char>,
    text: Seq<char>,
    index: Option<Seq<char>>,
    data: Seq<u8>,
    b: BundleView,
)
    requires
        bundle_of(dir, text, index, data) == Ok::<BundleView, Seq<char>>(b),
    ensures
        b.fc1.k == 2 * (b.dimred.outputs * b.align_size * b.align_size),
        b.fc2.inputs == b.fc1.n,
        b.fc3.inputs == b.fc2.outputs,
        has_values(b.store, b.dimred.w, b.dimred.outputs * b.dimred.inputs),
        has_values(b.store, b.dimred.b, b.dimred.outputs as int),
        has_values(b.store, b.fc1.bias, b.fc1.n as int),
        has_values(b.store, b.fc2.w, b.fc2.outputs * b.fc2.inputs),
        has_values(b.store, b.fc2.b, b.fc2.outputs as int),
        has_values(b.store, b.fc3.w, b.fc3.inputs as int),
        has_values(b.store, b.fc3.b, 1),
        exists|k: int|
            {
                &&& 0 <= k < b.kernels.len() && (#[trigger] b.kernels[k]).key == b.fc1.kernel
                &&& b.kernels[k].m == b.fc1.m && b.kernels[k].k == b.fc1.k_pad && b.kernels[k].n == b.fc1.n
                &&& has_bytes(b.store, b.fc1.b, b.kernels[k].b_bytes as int)
            },
{
    let k = named_kernel(b.kernels, b.fc1.kernel);
    assert(2 * b.dimred.outputs * b.align_size * b.align_size == 2 * (b.dimred.outputs * b.align_size * b.align_size)) by (
    nonlinear_arith);
    assert(b.fc3.inputs == b.fc2.outputs);
}

/// Every layer of a bundle that loads is fed what the one before it makes,
/// the first the three colours, and has the tensors its kernel takes.
pub proof fn a_bundle_s_layers_chain(
    dir: Seq<char>,
    text: Seq<char>,
    index: Option<Seq<char>>,
    data: Seq<u8>,
    b: BundleView,
    i: int,
) -> (k: int)
    requires
        bundle_of(dir, text, index, data) == Ok::<BundleView, Seq<char>>(b),
        0 <= i < b.convs.len(),
        b.convs[i].m_chunk > 0,
        b.convs[i].p > 0,
    ensures
        i == 0 ==> b.convs[i].c == 3,
        i > 0 ==> b.convs[i].c == b.convs[i - 1].oc,
        0 <= k < b.kernels.len() && b.kernels[k].key == b.convs[i].kernel,
        has_values(b.store, b.convs[i].bias, b.convs[i].oc as int),
        has_bytes(b.store, b.convs[i].b, b.kernels[k].b_bytes as int),
{
    sound_convs_chain(b.kernels, b.convs, 3, i);
    let k = named_kernel(b.kernels, b.convs[i].kernel);
    conv_has_tensors(b, b.convs, i);
    k
}

proof fn conv_has_tensors(b: BundleView, cs: Seq<ConvView>, i: int)
    requires
        b.conv_tensor_fault(cs) is None,
        0 <= i < cs.len(),
    ensures
        kernel_in(b.kernels, cs[i].kernel) matches Ok(k) && has_bytes(b.store, cs[i].b, k.b_bytes as int),
        has_values(b.store, cs[i].bias, cs[i].oc as int),
    decreases cs.len(),
{
    if i > 0 {
        assert(cs.skip(1)[i - 1] == cs[i]);
        conv_has_tensors(b, cs.skip(1), i - 1);
    }
}

} // verus!
