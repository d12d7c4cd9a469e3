//! From the model's outputs to instances: the queries that score high enough,
//! their boxes in the image's pixels and their masks at the image's size.
//!
//! Single-precision arithmetic comes from the caller, on bit patterns; which
//! queries stay, and which values meet, is stated and proved here.

use crate::arith::{far, index_bound, index_parts, next_to};
use vstd::prelude::*;

verus! {

/// The model's outputs for one image and prompt, in single precision.
pub struct Output {
    /// A logit for every query.
    pub logits: Vec<u32>,
    /// Four corners for every query, from 0 to 1.
    pub boxes: Vec<u32>,
    pub presence: u32,
    /// A `size x size` mask of logits for every query.
    pub masks: Vec<u32>,
    /// A `size x size` map of the prompt's logits.
    pub semantic: Vec<u32>,
}

impl Output {
    /// Every query has its box and its mask.
    pub open spec fn wf(&self, size: nat) -> bool {
        &&& size * size <= usize::MAX
        &&& self.boxes.len() == self.logits.len() * 4
        &&& self.masks.len() == self.logits.len() * (size * size)
    }
}

/// One instance, in image pixels.
pub struct Instance {
    pub score: u32,
    /// Left, top, right and bottom.
    pub bbox: [u32; 4],
    /// A row of the image after the other.
    pub mask: Vec<bool>,
}

/// Arithmetic in single precision, on bit patterns.
pub struct Scoring<S, K, B, P, X, M> {
    /// A query's score from its logit and the presence.
    pub score: S,
    /// Whether a score is high enough.
    pub keep: K,
    /// A corner in pixels of a side.
    pub stretch: B,
    /// A probability from its logit.
    pub probability: P,
    /// For a place on an image side: the near place on the mask's side and
    /// the far one's weight.
    pub axis: X,
    /// Four neighbours under the weights of the far row and the far column:
    /// whether their mean is high enough.
    pub on: M,
}

/// How a mask is brought to the image's size.
pub struct Axes {
    pub ys: Seq<(usize, u32)>,
    pub xs: Seq<(usize, u32)>,
}

impl<
    S: Fn(u32, u32) -> u32,
    K: Fn(u32) -> bool,
    B: Fn(u32, usize) -> u32,
    P: Fn(u32) -> u32,
    X: Fn(usize, usize, usize) -> (usize, u32),
    M: Fn(u32, u32, u32, u32, u32, u32) -> bool,
> Scoring<S, K, B, P, X, M> {
    pub open spec fn total(&self) -> bool {
        &&& forall|a: u32, b: u32| #[trigger] call_requires(self.score, (a, b))
        &&& forall|a: u32| #[trigger] call_requires(self.keep, (a,))
        &&& forall|a: u32, n: usize| #[trigger] call_requires(self.stretch, (a, n))
        &&& forall|a: u32| #[trigger] call_requires(self.probability, (a,))
        &&& forall|d: usize, i: usize, o: usize| d < o && i > 0 ==> #[trigger] call_requires(self.axis, (d, i, o))
        &&& forall|d: usize, i: usize, o: usize, t: (usize, u32)|
            d < o && i > 0 && #[trigger] call_ensures(self.axis, (d, i, o), t) ==> t.0 < i
        &&& forall|y: u32, x: u32, a: u32, b: u32, c: u32, d: u32| #[trigger] call_requires(self.on, (y, x, a, b, c, d))
    }

    /// `scores` and `keeps` say of every query what it scores and whether it
    /// stays.
    pub open spec fn are_scores(&self, out: Output, scores: Seq<u32>, keeps: Seq<bool>) -> bool {
        &&& scores.len() == out.logits.len() && keeps.len() == out.logits.len()
        &&& forall|q: int|
            0 <= q < scores.len() ==> call_ensures(self.score, (out.logits[q], out.presence), #[trigger] scores[q])
        &&& forall|q: int| 0 <= q < keeps.len() ==> call_ensures(self.keep, (scores[q],), #[trigger] keeps[q])
    }

    pub open spec fn are_axes(&self, size: usize, w: usize, h: usize, t: Axes) -> bool {
        &&& t.ys.len() == h && t.xs.len() == w
        &&& forall|d: int| 0 <= d < h ==> call_ensures(self.axis, (d as usize, size, h), #[trigger] t.ys[d])
        &&& forall|d: int| 0 <= d < w ==> call_ensures(self.axis, (d as usize, size, w), #[trigger] t.xs[d])
    }

    /// `b` is query `q`'s box in a `w x h` image.
    pub open spec fn is_box(&self, out: Output, q: int, w: usize, h: usize, b: [u32; 4]) -> bool {
        &&& call_ensures(self.stretch, (out.boxes[q * 4], w), b@[0])
        &&& call_ensures(self.stretch, (out.boxes[q * 4 + 1], h), b@[1])
        &&& call_ensures(self.stretch, (out.boxes[q * 4 + 2], w), b@[2])
        &&& call_ensures(self.stretch, (out.boxes[q * 4 + 3], h), b@[3])
    }

    /// `probs` are the probabilities of query `q`'s mask.
    pub open spec fn are_probabilities(&self, out: Output, size: nat, q: int, probs: Seq<u32>) -> bool {
        &&& probs.len() == size * size
        &&& forall|i: int|
            0 <= i < probs.len() ==> call_ensures(self.probability, (out.masks[q * (size * size) + i],), #[trigger] probs[i])
    }

    /// Pixel `p` of a mask made of `probs`.
    pub open spec fn is_pixel(&self, size: int, t: Axes, probs: Seq<u32>, p: int, on: bool) -> bool {
        let (ty, tx) = (t.ys[p / (t.xs.len() as int)], t.xs[p % (t.xs.len() as int)]);
        let at = |y: int, x: int| probs[y * size + x];
        let (y0, x0) = (ty.0 as int, tx.0 as int);
        let (y1, x1) = (far(y0, size), far(x0, size));
        call_ensures(self.on, (ty.1, tx.1, at(y0, x0), at(y0, x1), at(y1, x0), at(y1, x1)), on)
    }

    /// `mask` is query `q`'s, at the image's size.
    pub open spec fn is_mask(&self, out: Output, size: nat, q: int, t: Axes, mask: Seq<bool>) -> bool {
        exists|probs: Seq<u32>| #[trigger]
            self.are_probabilities(out, size, q, probs) && mask.len() == t.ys.len() * t.xs.len() && forall|p: int|
                0 <= p < mask.len() ==> self.is_pixel(size as int, t, probs, p, #[trigger] mask[p])
    }

    /// `i` is query `q`'s instance.
    pub open spec fn is_instance(
        &self,
        out: Output,
        size: nat,
        w: usize,
        h: usize,
        scores: Seq<u32>,
        t: Axes,
        q: int,
        i: Instance,
    ) -> bool {
        &&& i.score == scores[q]
        &&& self.is_box(out, q, w, h, i.bbox)
        &&& self.is_mask(out, size, q, t, i.mask@)
    }

    /// `r` are the instances of all queries that stay, in their order.
    pub open spec fn are_instances(
        &self,
        out: Output,
        size: usize,
        w: usize,
        h: usize,
        scores: Seq<u32>,
        keeps: Seq<bool>,
        t: Axes,
        r: Seq<Instance>,
    ) -> bool {
        &&& self.are_scores(out, scores, keeps)
        &&& self.are_axes(size, w, h, t)
        &&& r.len() == staying(keeps).len()
        &&& forall|k: int|
            0 <= k < r.len() ==> self.is_instance(out, size as nat, w, h, scores, t, staying(keeps)[k], #[trigger] r[k])
    }

    fn axis_of(&self, size: usize, o: usize) -> (taps: Vec<(usize, u32)>)
        requires
            self.total(),
            size > 0,
        ensures
            taps.len() == o,
            forall|d: int| 0 <= d < o ==> call_ensures(self.axis, (d as usize, size, o), #[trigger] taps[d]),
            forall|d: int| 0 <= d < o ==> (#[trigger] taps[d]).0 < size,
    {
        let mut taps: Vec<(usize, u32)> = Vec::new();
        let mut d: usize = 0;
        while d < o
            invariant
                self.total(),
                size > 0,
                d <= o,
                taps.len() == d,
                forall|j: int| 0 <= j < d ==> call_ensures(self.axis, (j as usize, size, o), #[trigger] taps[j]),
                forall|j: int| 0 <= j < d ==> (#[trigger] taps[j]).0 < size,
            decreases o - d,
        {
            let t: (usize, u32) = (self.axis)(d, size, o);
            taps.push(t);
            d += 1;
        }
        taps
    }

    fn probabilities(&self, out: &Output, size: usize, q: usize) -> (probs: Vec<u32>)
        requires
            self.total(),
            out.wf(size as nat),
            q < out.logits.len(),
        ensures
            self.are_probabilities(*out, size as nat, q as int, probs@),
    {
        let px: usize = size * size;
        proof {
            assert(q * px + px <= out.logits.len() * px && 0 <= q * px) by (nonlinear_arith)
                requires
                    0 <= q < out.logits.len(),
                    px >= 0,
            ;
        }
        let first: usize = q * px;
        let mut probs: Vec<u32> = Vec::new();
        let mut i: usize = 0;
        while i < px
            invariant
                self.total(),
                px == size * size,
                first == q * px,
                first + px <= out.masks.len(),
                i <= px,
                probs.len() == i,
                forall|j: int|
                    0 <= j < i ==> call_ensures(self.probability, (out.masks[q * (size * size) + j],), #[trigger] probs[j]),
            decreases px - i,
        {
            let v: u32 = (self.probability)(out.masks[first + i]);
            probs.push(v);
            i += 1;
        }
        probs
    }

    fn mask_of(
        &self,
        out: &Output,
        size: usize,
        q: usize,
        ys: &Vec<(usize, u32)>,
        xs: &Vec<(usize, u32)>,
    ) -> (mask: Vec<bool>)
        requires
            self.total(),
            out.wf(size as nat),
            q < out.logits.len(),
            ys.len() * xs.len() <= usize::MAX,
            forall|d: int| 0 <= d < ys.len() ==> (#[trigger] ys[d]).0 < size,
            forall|d: int| 0 <= d < xs.len() ==> (#[trigger] xs[d]).0 < size,
        ensures
            self.is_mask(*out, size as nat, q as int, (Axes { ys: ys@, xs: xs@ }), mask@),
    {
        let probs: Vec<u32> = self.probabilities(out, size, q);
        let ghost t = Axes { ys: ys@, xs: xs@ };
        let total: usize = ys.len() * xs.len();
        let mut mask: Vec<bool> = Vec::new();
        let mut p: usize = 0;
        while p < total
            invariant
                self.total(),
                total == ys.len() * xs.len(),
                t == (Axes { ys: ys@, xs: xs@ }),
                probs.len() == size * size,
                forall|d: int| 0 <= d < ys.len() ==> (#[trigger] ys[d]).0 < size,
                forall|d: int| 0 <= d < xs.len() ==> (#[trigger] xs[d]).0 < size,
                p <= total,
                mask.len() == p,
                forall|j: int| 0 <= j < p ==> self.is_pixel(size as int, t, probs@, j, #[trigger] mask@[j]),
            decreases total - p,
        {
            proof {
                assert(xs.len() > 0) by (nonlinear_arith)
                    requires
                        p < ys.len() * xs.len(),
                ;
                index_parts(p as int, ys.len() as int, xs.len() as int);
            }
            let (ty, tx): ((usize, u32), (usize, u32)) = (ys[p / xs.len()], xs[p % xs.len()]);
            let (y0, x0): (usize, usize) = (ty.0, tx.0);
            let (y1, x1): (usize, usize) = (next_to(y0, size), next_to(x0, size));
            proof {
                index_bound(y0 as int, x0 as int, size as int, size as int);
                index_bound(y0 as int, x1 as int, size as int, size as int);
                index_bound(y1 as int, x0 as int, size as int, size as int);
                index_bound(y1 as int, x1 as int, size as int, size as int);
                assert(0 <= y0 * size && 0 <= y1 * size) by (nonlinear_arith)
                    requires
                        0 <= y0,
                        0 <= y1,
                        0 <= size,
                ;
            }
            let (a, b): (u32, u32) = (probs[y0 * size + x0], probs[y0 * size + x1]);
            let (c, d): (u32, u32) = (probs[y1 * size + x0], probs[y1 * size + x1]);
            let on: bool = (self.on)(ty.1, tx.1, a, b, c, d);
            mask.push(on);
            p += 1;
        }
        proof {
            assert(self.are_probabilities(*out, size as nat, q as int, probs@));
        }
        mask
    }

    fn box_of(&self, out: &Output, q: usize, w: usize, h: usize) -> (b: [u32; 4])
        requires
            self.total(),
            out.boxes.len() == out.logits.len() * 4,
            q < out.logits.len(),
        ensures
            self.is_box(*out, q as int, w, h, b),
    {
        let x0: u32 = (self.stretch)(out.boxes[q * 4], w);
        let y0: u32 = (self.stretch)(out.boxes[q * 4 + 1], h);
        let x1: u32 = (self.stretch)(out.boxes[q * 4 + 2], w);
        let y1: u32 = (self.stretch)(out.boxes[q * 4 + 3], h);
        [x0, y0, x1, y1]
    }
}

/// The places of the trues, in order.
pub open spec fn staying(keeps: Seq<bool>) -> Seq<int>
    decreases keeps.len(),
{
    if keeps.len() == 0 {
        seq![]
    } else {
        let before = staying(keeps.drop_last());
        if keeps.last() {
            before.push(keeps.len() - 1)
        } else {
            before
        }
    }
}

/// The instances of a `w x h` image, in query order.
pub fn instances<
    S: Fn(u32, u32) -> u32,
    K: Fn(u32) -> bool,
    B: Fn(u32, usize) -> u32,
    P: Fn(u32) -> u32,
    X: Fn(usize, usize, usize) -> (usize, u32),
    M: Fn(u32, u32, u32, u32, u32, u32) -> bool,
>(out: &Output, size: usize, w: usize, h: usize, parts: &Scoring<S, K, B, P, X, M>) -> (r: Vec<Instance>)
    requires
        parts.total(),
        size > 0,
        out.wf(size as nat),
        h * w <= usize::MAX,
    ensures
        exists|scores: Seq<u32>, keeps: Seq<bool>, t: Axes| #[trigger]
            parts.are_instances(*out, size, w, h, scores, keeps, t, r@),
{
    let ys: Vec<(usize, u32)> = parts.axis_of(size, h);
    let xs: Vec<(usize, u32)> = parts.axis_of(size, w);
    let ghost t = Axes { ys: ys@, xs: xs@ };
    let ghost mut scores: Seq<u32> = seq![];
    let ghost mut keeps: Seq<bool> = seq![];
    let mut r: Vec<Instance> = Vec::new();
    let mut q: usize = 0;
    while q < out.logits.len()
        invariant
            parts.total(),
            size > 0,
            out.wf(size as nat),
            ys.len() == h,
            xs.len() == w,
            h * w <= usize::MAX,
            forall|d: int| 0 <= d < ys.len() ==> (#[trigger] ys[d]).0 < size,
            forall|d: int| 0 <= d < xs.len() ==> (#[trigger] xs[d]).0 < size,
            t == (Axes { ys: ys@, xs: xs@ }),
            q <= out.logits.len(),
            scores.len() == q,
            keeps.len() == q,
            forall|j: int| 0 <= j < q ==> call_ensures(parts.score, (out.logits[j], out.presence), #[trigger] scores[j]),
            forall|j: int| 0 <= j < q ==> call_ensures(parts.keep, (scores[j],), #[trigger] keeps[j]),
            r.len() == staying(keeps).len(),
            forall|k: int| 0 <= k < r.len() ==> 0 <= #[trigger] staying(keeps)[k] < q,
            forall|k: int|
                0 <= k < r.len() ==> parts.is_instance(
                    *out,
                    size as nat,
                    w,
                    h,
                    scores,
                    t,
                    staying(keeps)[k],
                    #[trigger] r@[k],
                ),
        decreases out.logits.len() - q,
    {
        let score: u32 = (parts.score)(out.logits[q], out.presence);
        let keep: bool = (parts.keep)(score);
        let ghost (old_scores, old_keeps) = (scores, keeps);
        proof {
            scores = scores.push(score);
            keeps = keeps.push(keep);
            assert(keeps.drop_last() =~= old_keeps);
            assert forall|k: int| 0 <= k < r.len() implies parts.is_instance(
                *out,
                size as nat,
                w,
                h,
                scores,
                t,
                staying(old_keeps)[k],
                #[trigger] r@[k],
            ) by {
                assert(0 <= staying(old_keeps)[k] < q);
                assert(parts.is_instance(*out, size as nat, w, h, old_scores, t, staying(old_keeps)[k], r@[k]));
            }
        }
        if keep {
            let bbox: [u32; 4] = parts.box_of(out, q, w, h);
            let mask: Vec<bool> = parts.mask_of(out, size, q, &ys, &xs);
            r.push(Instance { score, bbox, mask });
        }
        q += 1;
    }
    proof {
        assert(parts.are_instances(*out, size, w, h, scores, keeps, t, r@));
    }
    r
}

/// The queries that stay are those that score high enough, each once and in
/// order.
pub proof fn staying_lists_the_kept(keeps: Seq<bool>)
    ensures
        forall|k: int|
            0 <= k < staying(keeps).len() ==> 0 <= #[trigger] staying(keeps)[k] < keeps.len() && keeps[staying(keeps)[k]],
        forall|i: int, j: int|
            0 <= i < j < staying(keeps).len() ==> #[trigger] staying(keeps)[i] < #[trigger] staying(keeps)[j],
        forall|q: int| 0 <= q < keeps.len() && #[trigger] keeps[q] ==> staying(keeps).contains(q),
    decreases keeps.len(),
{
    if keeps.len() > 0 {
        let init = keeps.drop_last();
        let before = staying(init);
        staying_lists_the_kept(init);
        assert forall|q: int| 0 <= q < keeps.len() && #[trigger] keeps[q] implies staying(keeps).contains(q) by {
            if q < keeps.len() - 1 {
                assert(init[q]);
                let k = choose|k: int| 0 <= k < before.len() && before[k] == q;
                assert(staying(keeps)[k] == q);
            } else {
                assert(staying(keeps)[before.len() as int] == q);
            }
        }
        assert forall|k: int| 0 <= k < staying(keeps).len() implies 0 <= #[trigger] staying(keeps)[k] < keeps.len()
            && keeps[staying(keeps)[k]] by {
            if k < before.len() {
                assert(staying(keeps)[k] == before[k]);
                assert(init[before[k]]);
            }
        }
        assert forall|i: int, j: int| 0 <= i < j < staying(keeps).len() implies #[trigger] staying(keeps)[i]
            < #[trigger] staying(keeps)[j] by {
            assert(staying(keeps)[i] == before[i]);
            if j < before.len() {
                assert(staying(keeps)[j] == before[j]);
            }
        }
    }
}

/// Instance `k` is a query whose score, of its own logit and the presence, is
/// high enough: its box is the query's, `x` by the image's width and `y` by its
/// height, and its mask is as large as the image.
pub proof fn instances_are_queries<
    S: Fn(u32, u32) -> u32,
    K: Fn(u32) -> bool,
    B: Fn(u32, usize) -> u32,
    P: Fn(u32) -> u32,
    X: Fn(usize, usize, usize) -> (usize, u32),
    M: Fn(u32, u32, u32, u32, u32, u32) -> bool,
>(
    parts: &Scoring<S, K, B, P, X, M>,
    out: Output,
    size: usize,
    w: usize,
    h: usize,
    scores: Seq<u32>,
    keeps: Seq<bool>,
    t: Axes,
    r: Seq<Instance>,
    k: int,
) -> (q: int)
    requires
        parts.are_instances(out, size, w, h, scores, keeps, t, r),
        0 <= k < r.len(),
    ensures
        0 <= q < out.logits.len(),
        call_ensures(parts.score, (out.logits[q], out.presence), r[k].score),
        call_ensures(parts.keep, (r[k].score,), true),
        call_ensures(parts.stretch, (out.boxes[4 * q], w), r[k].bbox@[0]),
        call_ensures(parts.stretch, (out.boxes[4 * q + 1], h), r[k].bbox@[1]),
        call_ensures(parts.stretch, (out.boxes[4 * q + 2], w), r[k].bbox@[2]),
        call_ensures(parts.stretch, (out.boxes[4 * q + 3], h), r[k].bbox@[3]),
        r[k].mask.len() == h * w,
        parts.is_mask(out, size as nat, q, t, r[k].mask@),
        forall|j: int| #![trigger r[j]] 0 <= j < k ==> staying(keeps)[j] < q,
        q == staying(keeps)[k],
{
    staying_lists_the_kept(keeps);
    let q = staying(keeps)[k];
    assert(parts.is_instance(out, size as nat, w, h, scores, t, q, r[k]));
    assert(keeps[q]);
    q
}

/// Every query that scores high enough is an instance.
pub proof fn every_kept_query_is_an_instance<
    S: Fn(u32, u32) -> u32,
    K: Fn(u32) -> bool,
    B: Fn(u32, usize) -> u32,
    P: Fn(u32) -> u32,
    X: Fn(usize, usize, usize) -> (usize, u32),
    M: Fn(u32, u32, u32, u32, u32, u32) -> bool,
>(
    parts: &Scoring<S, K, B, P, X, M>,
    out: Output,
    size: usize,
    w: usize,
    h: usize,
    scores: Seq<u32>,
    keeps: Seq<bool>,
    t: Axes,
    r: Seq<Instance>,
    q: int,
) -> (k: int)
    requires
        parts.are_instances(out, size, w, h, scores, keeps, t, r),
        0 <= q < out.logits.len(),
        keeps[q],
    ensures
        0 <= k < r.len(),
        r[k].score == scores[q],
        call_ensures(parts.stretch, (out.boxes[4 * q], w), r[k].bbox@[0]),
        call_ensures(parts.score, (out.logits[q], out.presence), r[k].score),
{
    staying_lists_the_kept(keeps);
    let k = choose|k: int| 0 <= k < staying(keeps).len() && staying(keeps)[k] == q;
    assert(parts.is_instance(out, size as nat, w, h, scores, t, q, r[k]));
    k
}

/// Pixel (`y`, `x`) of a mask is told by four probabilities of the query's
/// mask: at the row and column that the axes give for `y` and `x`, and those
/// next to them, the last ones next to themselves.
pub proof fn masks_are_interpolated<
    S: Fn(u32, u32) -> u32,
    K: Fn(u32) -> bool,
    B: Fn(u32, usize) -> u32,
    P: Fn(u32) -> u32,
    X: Fn(usize, usize, usize) -> (usize, u32),
    M: Fn(u32, u32, u32, u32, u32, u32) -> bool,
>(
    parts: &Scoring<S, K, B, P, X, M>,
    out: Output,
    size: usize,
    w: usize,
    h: usize,
    q: int,
    t: Axes,
    mask: Seq<bool>,
    y: int,
    x: int,
)
    requires
        parts.is_mask(out, size as nat, q, t, mask),
        parts.are_axes(size, w, h, t),
        0 <= y < h,
        0 <= x < w,
        t.ys[y].0 < size,
        t.xs[x].0 < size,
    ensures
        call_ensures(parts.axis, (y as usize, size, h), t.ys[y]),
        call_ensures(parts.axis, (x as usize, size, w), t.xs[x]),
        exists|a: u32, b: u32, c: u32, d: u32|
            {
                let (y0, x0) = (t.ys[y].0 as int, t.xs[x].0 as int);
                let y1 = if y0 + 1 < size {
                    y0 + 1
                } else {
                    y0
                };
                let x1 = if x0 + 1 < size {
                    x0 + 1
                } else {
                    x0
                };
                let from = q * (size * size);
                &&& call_ensures(parts.probability, (out.masks[from + y0 * size + x0],), a)
                &&& call_ensures(parts.probability, (out.masks[from + y0 * size + x1],), b)
                &&& call_ensures(parts.probability, (out.masks[from + y1 * size + x0],), c)
                &&& call_ensures(parts.probability, (out.masks[from + y1 * size + x1],), d)
                &&& #[trigger] call_ensures(parts.on, (t.ys[y].1, t.xs[x].1, a, b, c, d), mask[y * w + x])
            },
{
    let probs = choose|probs: Seq<u32>| #[trigger]
        parts.are_probabilities(out, size as nat, q, probs) && mask.len() == t.ys.len() * t.xs.len() && forall|p: int|
            0 <= p < mask.len() ==> parts.is_pixel(size as int, t, probs, p, #[trigger] mask[p]);
    let n = size as int;
    index_bound(y, x, h as int, w as int);
    crate::arith::split_index(y, x, w as int);
    let p = y * w + x;
    assert(parts.is_pixel(n, t, probs, p, mask[p]));
    let (y0, x0) = (t.ys[y].0 as int, t.xs[x].0 as int);
    let (y1, x1) = (far(y0, n), far(x0, n));
    index_bound(y0, x0, n, n);
    index_bound(y0, x1, n, n);
    index_bound(y1, x0, n, n);
    index_bound(y1, x1, n, n);
    let (a, b, c, d) = (probs[y0 * n + x0], probs[y0 * n + x1], probs[y1 * n + x0], probs[y1 * n + x1]);
    assert(call_ensures(parts.on, (t.ys[y].1, t.xs[x].1, a, b, c, d), mask[p]));
}

} // verus!
