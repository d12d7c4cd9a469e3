//! The feature map: the backbone's two feature layers and a pooled third one,
//! each reduced to a few channels, brought to one size and added up.
//!
//! Dot products, interpolation weights and sums in single precision come from
//! the caller, on bit patterns; which values meet and where the results go is
//! stated and proved here.

use crate::arith::{far, index_bound, index_parts, next_to};
use crate::gaic::{
    check_input, features_fail, features_to, input_fault, is_plan, maxpool_f32, maxpooled, plan_for, refuses, run_backbone,
    answers, Backbone, Plan,
};
use crate::gaic_bundle::{says, Error};
use vstd::prelude::*;

verus! {

/// Arithmetic in single precision, on bit patterns.
pub struct Parts<P, X, M, B> {
    /// The dot product of a map's pixel with a row of weights from an offset on.
    pub dot: P,
    /// For an output place, an input side and an output side: the near input
    /// place and the far one's weight.
    pub axis: X,
    /// Four neighbours under the weights of the far row and the far column.
    pub mix: M,
    /// The three levels and the bias, added up.
    pub blend: B,
}

impl<
    P: Fn(&Vec<u32>, usize, usize, usize) -> u32,
    X: Fn(usize, usize, usize) -> (usize, u32),
    M: Fn(u32, u32, u32, u32, u32, u32) -> u32,
    B: Fn(u32, u32, u32, u32) -> u32,
> Parts<P, X, M, B> {
    /// Every pixel of `ch` channels meets every one of `r` rows, every place
    /// has its neighbour inside, and all values mix.
    pub open spec fn total(&self, ch: nat, r: nat) -> bool {
        &&& forall|f: &Vec<u32>, p: usize, off: usize, k: usize|
            (p + 1) * ch <= f.len() && k < r ==> #[trigger] call_requires(self.dot, (f, p, off, k))
        &&& forall|d: usize, i: usize, o: usize| d < o && i > 0 ==> #[trigger] call_requires(self.axis, (d, i, o))
        &&& forall|d: usize, i: usize, o: usize, t: (usize, u32)|
            d < o && i > 0 && #[trigger] call_ensures(self.axis, (d, i, o), t) ==> t.0 < i
        &&& forall|y: u32, x: u32, a: u32, b: u32, c: u32, d: u32| #[trigger] call_requires(self.mix, (y, x, a, b, c, d))
        &&& forall|a: u32, b: u32, c: u32, d: u32| #[trigger] call_requires(self.blend, (a, b, c, d))
    }

    /// `g` holds, for each of `px` pixels of `f`, its dot products with the
    /// `r` rows of weights from `off` on.
    pub open spec fn is_projected(&self, f: Vec<u32>, px: nat, off: usize, r: nat, g: Seq<u32>) -> bool {
        &&& g.len() == px * r
        &&& forall|i: int|
            0 <= i < g.len() ==> call_ensures(
                self.dot,
                (&f, (i / (r as int)) as usize, off, (i % (r as int)) as usize),
                #[trigger] g[i],
            )
    }

    /// `taps` are the near places and far weights of `o` output places over
    /// `n` input places.
    pub open spec fn is_axis(&self, n: usize, o: usize, taps: Seq<(usize, u32)>) -> bool {
        &&& taps.len() == o
        &&& forall|d: int| 0 <= d < o ==> call_ensures(self.axis, (d as usize, n, o), #[trigger] taps[d])
    }

    /// `out` is the map `g` of `c` channels at every place of two axes.
    pub open spec fn is_mixed(
        &self,
        g: Seq<u32>,
        h: nat,
        w: nat,
        c: nat,
        ys: Seq<(usize, u32)>,
        xs: Seq<(usize, u32)>,
        out: Seq<u32>,
    ) -> bool {
        &&& out.len() == ys.len() * xs.len() * c
        &&& forall|i: int|
            0 <= i < out.len() ==> {
                let (p, k) = (i / (c as int), i % (c as int));
                let (ty, tx) = (ys[p / (xs.len() as int)], xs[p % (xs.len() as int)]);
                let at = |y: int, x: int| g[(y * w + x) * c + k];
                let (y0, x0) = (ty.0 as int, tx.0 as int);
                let (y1, x1) = (far(y0, h as int), far(x0, w as int));
                call_ensures(
                    self.mix,
                    (ty.1, tx.1, at(y0, x0), at(y0, x1), at(y1, x0), at(y1, x1)),
                    #[trigger] out[i],
                )
            }
    }
}

/// A map of `channels` planes of `h x w`, in single precision, of an input of
/// `input_w x input_h`.
pub struct Features {
    pub input_w: usize,
    pub input_h: usize,
    pub h: usize,
    pub w: usize,
    pub channels: usize,
    pub map: Vec<u32>,
}

/// Whether the reduced maps of a `w x h` input fit the machine.
pub open spec fn maps_fit(b: Backbone, w: nat, h: nat, r: nat) -> bool {
    &&& b.h_at(h, b.f3 as int) * b.h_at(w, b.f3 as int) * r <= usize::MAX
    &&& b.h_at(h, b.f4 as int) * b.h_at(w, b.f4 as int) * r <= usize::MAX
}

/// Whether all sizes of a `w x h` input fit the machine.
pub open spec fn sizes_fit(b: Backbone, w: nat, h: nat, r: nat) -> bool {
    b.fits(w, h) && maps_fit(b, w, h, r)
}

/// The product of three sizes, unless it leaves the machine.
fn volume(a: usize, b: usize, c: usize) -> (r: Option<usize>)
    ensures
        match r {
            Some(v) => v == a * b * c,
            None => a * b * c > usize::MAX,
        },
{
    if a == 0 || b == 0 || c == 0 {
        proof {
            assert(a * b * c == 0) by (nonlinear_arith)
                requires
                    a == 0 || b == 0 || c == 0,
            ;
        }
        return Some(0);
    }
    match a.checked_mul(b) {
        Some(ab) => ab.checked_mul(c),
        None => {
            proof {
                assert(a * b * c >= a * b) by (nonlinear_arith)
                    requires
                        a * b >= 0,
                        c > 0,
                ;
            }
            None
        },
    }
}

/// Checks an input of `len` values for `w x h` pixels and plans its layers.
pub fn prepare(b: &Backbone, len: usize, w: usize, h: usize, r: usize) -> (res: Result<Plan, Error>)
    requires
        b.wf(),
    ensures
        match (res, input_fault(w as nat, h as nat, len as nat)) {
            (Ok(p), None) => sizes_fit(*b, w as nat, h as nat, r as nat) && is_plan(p, b.layers@, w as nat, h as nat),
            (Err(e), None) => !sizes_fit(*b, w as nat, h as nat, r as nat) && says(e, "sizes overflow"@),
            (Err(e), Some(m)) => refuses(e, m),
            (Ok(_), Some(_)) => false,
        },
{
    match check_input(w, h, len) {
        Ok(_) => {},
        Err(e) => {
            return Err(e);
        },
    }
    proof {
        assert forall|i: int| 0 <= i < b.layers.len() implies (#[trigger] b.layers[i]).wf() by {
            assert(b.layers[i].laid_out());
        }
    }
    let p = match plan_for(&b.layers, w, h) {
        Ok(p) => p,
        Err(e) => {
            return Err(e);
        },
    };
    let mut i: usize = 0;
    while i < p.layers.len()
        invariant
            input_fault(w as nat, h as nat, len as nat) is None,
            is_plan(p, b.layers@, w as nat, h as nat),
            i <= p.layers.len(),
            forall|j: int|
                0 <= j < i ==> (#[trigger] b.layers[j]).pixels(b.h_at(h as nat, j), b.h_at(w as nat, j)) + 3 <= usize::MAX,
        decreases p.layers.len() - i,
    {
        if p.layers[i].pixels > usize::MAX - 3 {
            proof {
                assert(p.layers[i as int].pixels == b.layers[i as int].pixels(
                    b.h_at(h as nat, i as int),
                    b.h_at(w as nat, i as int),
                ));
            }
            return Err(Error::Bundle("sizes overflow".to_string()));
        }
        i += 1;
    }
    proof {
        assert(p.layers[b.f3 as int].h == b.h_at(h as nat, b.f3 as int));
        assert(p.layers[b.f4 as int].h == b.h_at(h as nat, b.f4 as int));
    }
    let (l3, l4) = (&p.layers[b.f3], &p.layers[b.f4]);
    if volume(l3.h, l3.w, r).is_none() || volume(l4.h, l4.w, r).is_none() {
        return Err(Error::Bundle("sizes overflow".to_string()));
    }
    Ok(p)
}

fn project<
    P: Fn(&Vec<u32>, usize, usize, usize) -> u32,
    X: Fn(usize, usize, usize) -> (usize, u32),
    M: Fn(u32, u32, u32, u32, u32, u32) -> u32,
    B: Fn(u32, u32, u32, u32) -> u32,
>(f: &Vec<u32>, px: usize, ch: usize, off: usize, r: usize, parts: &Parts<P, X, M, B>) -> (g: Vec<u32>)
    requires
        parts.total(ch as nat, r as nat),
        f.len() == px * ch,
        px * r <= usize::MAX,
    ensures
        parts.is_projected(*f, px as nat, off, r as nat, g@),
{
    let total: usize = px * r;
    let mut g: Vec<u32> = Vec::new();
    let mut i: usize = 0;
    while i < total
        invariant
            parts.total(ch as nat, r as nat),
            f.len() == px * ch,
            total == px * r,
            i <= total,
            g.len() == i,
            forall|j: int|
                0 <= j < i ==> call_ensures(
                    parts.dot,
                    (f, (j / (r as int)) as usize, off, (j % (r as int)) as usize),
                    #[trigger] g[j],
                ),
        decreases total - i,
    {
        proof {
            assert(r > 0) by (nonlinear_arith)
                requires
                    i < px * r,
            ;
            index_parts(i as int, px as int, r as int);
            let p = i as int / r as int;
            assert((p + 1) * ch <= px * ch) by (nonlinear_arith)
                requires
                    0 <= p < px,
            ;
        }
        let (p, k): (usize, usize) = (i / r, i % r);
        let v: u32 = (parts.dot)(f, p, off, k);
        g.push(v);
        i += 1;
    }
    g
}

fn axis<
    P: Fn(&Vec<u32>, usize, usize, usize) -> u32,
    X: Fn(usize, usize, usize) -> (usize, u32),
    M: Fn(u32, u32, u32, u32, u32, u32) -> u32,
    B: Fn(u32, u32, u32, u32) -> u32,
>(n: usize, o: usize, Ghost(ch): Ghost<nat>, Ghost(r): Ghost<nat>, parts: &Parts<P, X, M, B>) -> (taps: Vec<(usize, u32)>)
    requires
        parts.total(ch, r),
        n > 0,
    ensures
        parts.is_axis(n, o, taps@),
        forall|d: int| 0 <= d < o ==> (#[trigger] taps[d]).0 < n,
{
    let mut taps: Vec<(usize, u32)> = Vec::new();
    let mut d: usize = 0;
    while d < o
        invariant
            parts.total(ch, r),
            n > 0,
            d <= o,
            taps.len() == d,
            forall|j: int| 0 <= j < d ==> call_ensures(parts.axis, (j as usize, n, o), #[trigger] taps[j]),
            forall|j: int| 0 <= j < d ==> (#[trigger] taps[j]).0 < n,
        decreases o - d,
    {
        let t: (usize, u32) = (parts.axis)(d, n, o);
        taps.push(t);
        d += 1;
    }
    taps
}

/// A place of two axes and a channel lie inside the map.
proof fn tap_inside(y: int, x: int, k: int, h: int, w: int, c: int)
    requires
        0 <= y < h,
        0 <= x < w,
        0 <= k < c,
    ensures
        0 <= (y * w + x) * c + k < h * w * c,
        0 <= y * w + x < h * w,
        0 <= y * w,
        y * w + x <= (y * w + x) * c,
{
    index_bound(y, x, h, w);
    index_bound(y * w + x, k, h * w, c);
    assert(0 <= y * w) by (nonlinear_arith)
        requires
            0 <= y,
            0 <= w,
    ;
    assert(y * w + x <= (y * w + x) * c) by (nonlinear_arith)
        requires
            0 <= y * w + x,
            1 <= c,
    ;
}

fn mixed<
    P: Fn(&Vec<u32>, usize, usize, usize) -> u32,
    X: Fn(usize, usize, usize) -> (usize, u32),
    M: Fn(u32, u32, u32, u32, u32, u32) -> u32,
    B: Fn(u32, u32, u32, u32) -> u32,
>(
    g: &Vec<u32>,
    h: usize,
    w: usize,
    c: usize,
    ys: &Vec<(usize, u32)>,
    xs: &Vec<(usize, u32)>,
    Ghost(ch): Ghost<nat>,
    Ghost(r): Ghost<nat>,
    parts: &Parts<P, X, M, B>,
) -> (out: Vec<u32>)
    requires
        parts.total(ch, r),
        g.len() == h * w * c,
        ys.len() * xs.len() * c <= usize::MAX,
        ys.len() * xs.len() <= usize::MAX,
        forall|d: int| 0 <= d < ys.len() ==> (#[trigger] ys[d]).0 < h,
        forall|d: int| 0 <= d < xs.len() ==> (#[trigger] xs[d]).0 < w,
    ensures
        parts.is_mixed(g@, h as nat, w as nat, c as nat, ys@, xs@, out@),
{
    let places: usize = ys.len() * xs.len();
    let total: usize = places * c;
    let mut out: Vec<u32> = Vec::new();
    let mut i: usize = 0;
    while i < total
        invariant
            parts.total(ch, r),
            g.len() == h * w * c,
            places == ys.len() * xs.len(),
            total == places * c,
            forall|d: int| 0 <= d < ys.len() ==> (#[trigger] ys[d]).0 < h,
            forall|d: int| 0 <= d < xs.len() ==> (#[trigger] xs[d]).0 < w,
            i <= total,
            out.len() == i,
            forall|j: int|
                0 <= j < i ==> {
                    let (p, k) = (j / (c as int), j % (c as int));
                    let (ty, tx) = (ys@[p / (xs@.len() as int)], xs@[p % (xs@.len() as int)]);
                    let at = |y: int, x: int| g@[(y * w + x) * c + k];
                    let (y0, x0) = (ty.0 as int, tx.0 as int);
                    let (y1, x1) = (far(y0, h as int), far(x0, w as int));
                    call_ensures(
                        parts.mix,
                        (ty.1, tx.1, at(y0, x0), at(y0, x1), at(y1, x0), at(y1, x1)),
                        #[trigger] out@[j],
                    )
                },
        decreases total - i,
    {
        proof {
            assert(c > 0 && places > 0) by (nonlinear_arith)
                requires
                    i < places * c,
            ;
            assert(xs.len() > 0) by (nonlinear_arith)
                requires
                    ys.len() * xs.len() > 0,
            ;
            index_parts(i as int, places as int, c as int);
            index_parts(i as int / c as int, ys.len() as int, xs.len() as int);
        }
        let (p, k): (usize, usize) = (i / c, i % c);
        let (ty, tx): ((usize, u32), (usize, u32)) = (ys[p / xs.len()], xs[p % xs.len()]);
        let (y0, x0): (usize, usize) = (ty.0, tx.0);
        let (y1, x1): (usize, usize) = (next_to(y0, h), next_to(x0, w));
        proof {
            tap_inside(y0 as int, x0 as int, k as int, h as int, w as int, c as int);
            tap_inside(y0 as int, x1 as int, k as int, h as int, w as int, c as int);
            tap_inside(y1 as int, x0 as int, k as int, h as int, w as int, c as int);
            tap_inside(y1 as int, x1 as int, k as int, h as int, w as int, c as int);
        }
        let (a, b): (u32, u32) = (g[(y0 * w + x0) * c + k], g[(y0 * w + x1) * c + k]);
        let (d, e): (u32, u32) = (g[(y1 * w + x0) * c + k], g[(y1 * w + x1) * c + k]);
        let v: u32 = (parts.mix)(ty.1, tx.1, a, b, d, e);
        out.push(v);
        i += 1;
    }
    out
}

/// What the map was made of: the feature layers, the pooled one, their
/// reductions, the axes they were brought to one size by, and the results.
pub struct Levels {
    pub f3: Vec<u32>,
    pub f4: Vec<u32>,
    pub f5: Vec<u32>,
    pub p3: Seq<u32>,
    pub p5: Seq<u32>,
    pub ys3: Seq<(usize, u32)>,
    pub xs3: Seq<(usize, u32)>,
    pub ys5: Seq<(usize, u32)>,
    pub xs5: Seq<(usize, u32)>,
    pub g3: Seq<u32>,
    pub g4: Seq<u32>,
    pub g5: Seq<u32>,
}

/// `map` is what becomes of levels `t`, of `ch` channels, whose sizes are
/// `h3 x w3` and `h4 x w4`.
pub open spec fn levels_make<
    P: Fn(&Vec<u32>, usize, usize, usize) -> u32,
    X: Fn(usize, usize, usize) -> (usize, u32),
    M: Fn(u32, u32, u32, u32, u32, u32) -> u32,
    B: Fn(u32, u32, u32, u32) -> u32,
>(
    ch: usize,
    h3: nat,
    w3: nat,
    h4: nat,
    w4: nat,
    bias: Seq<u32>,
    parts: Parts<P, X, M, B>,
    t: Levels,
    map: Seq<u32>,
) -> bool {
    let r = bias.len();
    &&& t.f5@ == maxpooled(t.f4@, h4, w4, ch as nat)
    &&& parts.is_projected(t.f3, h3 * w3, 0, r, t.p3)
    &&& parts.is_projected(t.f4, h4 * w4, ch, r, t.g4)
    &&& parts.is_projected(t.f5, (h4 / 2) * (w4 / 2), (2 * ch) as usize, r, t.p5)
    &&& parts.is_axis(h3 as usize, h4 as usize, t.ys3) && parts.is_axis(w3 as usize, w4 as usize, t.xs3)
    &&& parts.is_axis((h4 / 2) as usize, h4 as usize, t.ys5) && parts.is_axis((w4 / 2) as usize, w4 as usize, t.xs5)
    &&& parts.is_mixed(t.p3, h3, w3, r, t.ys3, t.xs3, t.g3)
    &&& parts.is_mixed(t.p5, h4 / 2, w4 / 2, r, t.ys5, t.xs5, t.g5)
    &&& is_blended(parts, t.g3, t.g4, t.g5, bias, h4 * w4, map)
}

/// `map` is made of feature layers that the backbone gives for an input.
pub open spec fn is_map<
    A: Fn(u32, u32) -> u32,
    D: Fn(usize, &Vec<u16>) -> Result<Vec<u16>, String>,
    P: Fn(&Vec<u32>, usize, usize, usize) -> u32,
    X: Fn(usize, usize, usize) -> (usize, u32),
    M: Fn(u32, u32, u32, u32, u32, u32) -> u32,
    B: Fn(u32, u32, u32, u32) -> u32,
>(
    b: Backbone,
    w: nat,
    h: nat,
    chw: Seq<u32>,
    bias: Seq<u32>,
    plus: A,
    dev: D,
    parts: Parts<P, X, M, B>,
    map: Seq<u32>,
) -> bool {
    exists|t: Levels|
        features_to(b, w, h, chw, plus, dev, t.f3@, t.f4@) && #[trigger] levels_make(
            b.layers[b.f4 as int].oc,
            b.h_at(h, b.f3 as int),
            b.h_at(w, b.f3 as int),
            b.h_at(h, b.f4 as int),
            b.h_at(w, b.f4 as int),
            bias,
            parts,
            t,
            map,
        )
}

/// `map` holds, plane by plane, the sums of three maps pixel by pixel and
/// each channel's bias.
pub open spec fn is_blended<
    P: Fn(&Vec<u32>, usize, usize, usize) -> u32,
    X: Fn(usize, usize, usize) -> (usize, u32),
    M: Fn(u32, u32, u32, u32, u32, u32) -> u32,
    B: Fn(u32, u32, u32, u32) -> u32,
>(parts: Parts<P, X, M, B>, g3: Seq<u32>, g4: Seq<u32>, g5: Seq<u32>, bias: Seq<u32>, px: nat, map: Seq<u32>) -> bool {
    let r = bias.len() as int;
    &&& map.len() == px * r
    &&& forall|j: int|
        0 <= j < map.len() ==> {
            let (k, p) = (j / (px as int), j % (px as int));
            call_ensures(parts.blend, (g3[p * r + k], g4[p * r + k], g5[p * r + k], bias[k]), #[trigger] map[j])
        }
}

fn blended<
    P: Fn(&Vec<u32>, usize, usize, usize) -> u32,
    X: Fn(usize, usize, usize) -> (usize, u32),
    M: Fn(u32, u32, u32, u32, u32, u32) -> u32,
    B: Fn(u32, u32, u32, u32) -> u32,
>(g3: &Vec<u32>, g4: &Vec<u32>, g5: &Vec<u32>, bias: &Vec<u32>, px: usize, Ghost(ch): Ghost<nat>, parts: &Parts<P, X, M, B>) -> (map:
    Vec<u32>)
    requires
        parts.total(ch, bias.len() as nat),
        px * bias.len() <= usize::MAX,
        g3.len() == px * bias.len(),
        g4.len() == px * bias.len(),
        g5.len() == px * bias.len(),
    ensures
        is_blended(*parts, g3@, g4@, g5@, bias@, px as nat, map@),
{
    let r: usize = bias.len();
    let total: usize = px * r;
    let mut map: Vec<u32> = Vec::new();
    let mut j: usize = 0;
    while j < total
        invariant
            parts.total(ch, bias.len() as nat),
            r == bias.len(),
            total == px * r,
            g3.len() == px * r,
            g4.len() == px * r,
            g5.len() == px * r,
            j <= total,
            map.len() == j,
            forall|i: int|
                0 <= i < j ==> {
                    let (k, p) = (i / (px as int), i % (px as int));
                    call_ensures(parts.blend, (g3@[p * r + k], g4@[p * r + k], g5@[p * r + k], bias@[k]), #[trigger] map@[i])
                },
        decreases total - j,
    {
        proof {
            assert(px > 0) by (nonlinear_arith)
                requires
                    j < px * r,
            ;
            assert(px * r == r * px) by (nonlinear_arith);
            index_parts(j as int, r as int, px as int);
            index_bound(j as int % px as int, j as int / px as int, px as int, r as int);
            assert(0 <= (j as int % px as int) * r) by (nonlinear_arith)
                requires
                    0 <= j as int % px as int,
                    r >= 0,
            ;
        }
        let (k, p): (usize, usize) = (j / px, j % px);
        let i: usize = p * r + k;
        let v: u32 = (parts.blend)(g3[i], g4[i], g5[i], bias[k]);
        map.push(v);
        j += 1;
    }
    map
}

/// The two feature layers to the map they make.
#[verifier::rlimit(40)]
fn reduce<
    P: Fn(&Vec<u32>, usize, usize, usize) -> u32,
    X: Fn(usize, usize, usize) -> (usize, u32),
    M: Fn(u32, u32, u32, u32, u32, u32) -> u32,
    B: Fn(u32, u32, u32, u32) -> u32,
>(
    f3: &Vec<u32>,
    f4: &Vec<u32>,
    ch: usize,
    h3: usize,
    w3: usize,
    h4: usize,
    w4: usize,
    bias: &Vec<u32>,
    parts: &Parts<P, X, M, B>,
) -> (map: Vec<u32>)
    requires
        parts.total(ch as nat, bias.len() as nat),
        2 * ch <= usize::MAX,
        h3 > 0,
        w3 > 0,
        h4 >= 2,
        w4 >= 2,
        f3.len() == h3 * w3 * ch,
        f4.len() == h4 * w4 * ch,
        h3 * w3 <= usize::MAX,
        h4 * w4 <= usize::MAX,
        h3 * w3 * bias.len() <= usize::MAX,
        h4 * w4 * bias.len() <= usize::MAX,
    ensures
        exists|t: Levels|
            t.f3 == *f3 && t.f4 == *f4 && #[trigger] levels_make(
                ch,
                h3 as nat,
                w3 as nat,
                h4 as nat,
                w4 as nat,
                bias@,
                *parts,
                t,
                map@,
            ),
{
    let r: usize = bias.len();
    let (h5, w5): (usize, usize) = (h4 / 2, w4 / 2);
    let ghost (cn, rn) = (ch as nat, r as nat);
    proof {
        assert(h5 * w5 <= h4 * w4) by (nonlinear_arith)
            requires
                0 <= h5 <= h4,
                0 <= w5 <= w4,
        ;
        assert((h5 * w5) * r <= (h4 * w4) * r) by (nonlinear_arith)
            requires
                h5 * w5 <= h4 * w4,
                r >= 0,
        ;
    }
    let f5: Vec<u32> = maxpool_f32(f4, h4, w4, ch);
    let p3: Vec<u32> = project(f3, h3 * w3, ch, 0, r, parts);
    let g4: Vec<u32> = project(f4, h4 * w4, ch, ch, r, parts);
    let p5: Vec<u32> = project(&f5, h5 * w5, ch, 2 * ch, r, parts);
    let ys3: Vec<(usize, u32)> = axis(h3, h4, Ghost(cn), Ghost(rn), parts);
    let xs3: Vec<(usize, u32)> = axis(w3, w4, Ghost(cn), Ghost(rn), parts);
    let ys5: Vec<(usize, u32)> = axis(h5, h4, Ghost(cn), Ghost(rn), parts);
    let xs5: Vec<(usize, u32)> = axis(w5, w4, Ghost(cn), Ghost(rn), parts);
    let g3: Vec<u32> = mixed(&p3, h3, w3, r, &ys3, &xs3, Ghost(cn), Ghost(rn), parts);
    let g5: Vec<u32> = mixed(&p5, h5, w5, r, &ys5, &xs5, Ghost(cn), Ghost(rn), parts);
    let map: Vec<u32> = blended(&g3, &g4, &g5, bias, h4 * w4, Ghost(cn), parts);
    proof {
        let t = Levels {
            f3: *f3,
            f4: *f4,
            f5,
            p3: p3@,
            p5: p5@,
            ys3: ys3@,
            xs3: xs3@,
            ys5: ys5@,
            xs5: xs5@,
            g3: g3@,
            g4: g4@,
            g5: g5@,
        };
        assert(levels_make(ch, h3 as nat, w3 as nat, h4 as nat, w4 as nat, bias@, *parts, t, map@));
    }
    map
}

/// The feature layers have their layers' sizes, which fit the machine.
proof fn feature_sizes<A: Fn(u32, u32) -> u32, D: Fn(usize, &Vec<u16>) -> Result<Vec<u16>, String>>(
    b: Backbone,
    w: nat,
    h: nat,
    chw: Seq<u32>,
    plus: A,
    dev: D,
    f3: Seq<u32>,
    f4: Seq<u32>,
)
    requires
        b.wf(),
        b.f3 != b.f4,
        b.fits(w, h),
        features_to(b, w, h, chw, plus, dev, f3, f4),
    ensures
        f3.len() == b.h_at(h, b.f3 as int) * b.h_at(w, b.f3 as int) * (b.layers[b.f3 as int].oc as nat),
        f4.len() == b.h_at(h, b.f4 as int) * b.h_at(w, b.f4 as int) * (b.layers[b.f4 as int].oc as nat),
        b.h_at(h, b.f3 as int) * b.h_at(w, b.f3 as int) <= usize::MAX,
        b.h_at(h, b.f4 as int) * b.h_at(w, b.f4 as int) <= usize::MAX,
{
    let (h3, w3) = (b.h_at(h, b.f3 as int), b.h_at(w, b.f3 as int));
    let (h4, w4) = (b.h_at(h, b.f4 as int), b.h_at(w, b.f4 as int));
    assert(b.layers[b.f3 as int].fits(h3, w3));
    assert(b.layers[b.f4 as int].fits(h4, w4));
    assert(h3 * w3 <= h3 * (w3 + 2) && h4 * w4 <= h4 * (w4 + 2)) by (nonlinear_arith);
}

/// Makes the feature map of a `3 x h x w` input.
pub fn features<
    A: Fn(u32, u32) -> u32,
    D: Fn(usize, &Vec<u16>) -> Result<Vec<u16>, String>,
    P: Fn(&Vec<u32>, usize, usize, usize) -> u32,
    X: Fn(usize, usize, usize) -> (usize, u32),
    M: Fn(u32, u32, u32, u32, u32, u32) -> u32,
    B: Fn(u32, u32, u32, u32) -> u32,
>(b: &Backbone, plan: &Plan, chw: &Vec<u32>, bias: &Vec<u32>, plus: &A, dev: &D, parts: &Parts<P, X, M, B>) -> (r: Result<
    Features,
    Error,
>)
    requires
        b.wf(),
        b.f3 != b.f4,
        b.layers[b.f3 as int].oc == b.layers[b.f4 as int].oc,
        2 * b.layers[b.f4 as int].oc <= usize::MAX,
        is_plan(*plan, b.layers@, plan.w as nat, plan.h as nat),
        sizes_fit(*b, plan.w as nat, plan.h as nat, bias.len() as nat),
        b.h_at(plan.h as nat, b.f3 as int) > 0,
        b.h_at(plan.w as nat, b.f3 as int) > 0,
        b.h_at(plan.h as nat, b.f4 as int) >= 2,
        b.h_at(plan.w as nat, b.f4 as int) >= 2,
        chw.len() == 3 * plan.w * plan.h,
        forall|x: u32, y: u32| call_requires(*plus, (x, y)),
        answers(*b, plan.w as nat, plan.h as nat, *dev),
        parts.total(b.layers[b.f4 as int].oc as nat, bias.len() as nat),
    ensures
        match r {
            Ok(f) => {
                let (w, h) = (plan.w as nat, plan.h as nat);
                &&& f.input_w == w && f.input_h == h
                &&& f.h == b.h_at(h, b.f4 as int) && f.w == b.h_at(w, b.f4 as int)
                &&& f.channels == bias.len()
                &&& is_map(*b, w, h, chw@, bias@, *plus, *dev, *parts, f.map@)
            },
            Err(e) => e matches Error::Npu(m) && features_fail(*b, plan.w as nat, plan.h as nat, chw@, *plus, *dev, m@),
        },
{
    let (f3, f4): (Vec<u32>, Vec<u32>) = match run_backbone(b, chw, plan.w, plan.h, plus, dev) {
        Ok(f) => f,
        Err(e) => {
            return Err(e);
        },
    };
    let ch: usize = b.layers[b.f4].oc;
    let (h3, w3): (usize, usize) = (plan.layers[b.f3].h, plan.layers[b.f3].w);
    let (h4, w4): (usize, usize) = (plan.layers[b.f4].h, plan.layers[b.f4].w);
    proof {
        feature_sizes(*b, plan.w as nat, plan.h as nat, chw@, *plus, *dev, f3@, f4@);
    }
    let map: Vec<u32> = reduce(&f3, &f4, ch, h3, w3, h4, w4, bias, parts);
    Ok(Features { input_w: plan.w, input_h: plan.h, h: h4, w: w4, channels: bias.len(), map })
}

/// A map has a value for every channel of every pixel of the second feature
/// layer.
pub proof fn maps_are_full<
    A: Fn(u32, u32) -> u32,
    D: Fn(usize, &Vec<u16>) -> Result<Vec<u16>, String>,
    P: Fn(&Vec<u32>, usize, usize, usize) -> u32,
    X: Fn(usize, usize, usize) -> (usize, u32),
    M: Fn(u32, u32, u32, u32, u32, u32) -> u32,
    B: Fn(u32, u32, u32, u32) -> u32,
>(
    b: Backbone,
    w: nat,
    h: nat,
    chw: Seq<u32>,
    bias: Seq<u32>,
    plus: A,
    dev: D,
    parts: Parts<P, X, M, B>,
    map: Seq<u32>,
)
    requires
        is_map(b, w, h, chw, bias, plus, dev, parts, map),
    ensures
        map.len() == b.h_at(h, b.f4 as int) * b.h_at(w, b.f4 as int) * bias.len(),
{
}

} // verus!
