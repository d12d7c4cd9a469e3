//! What batching leaves alone: an image's embedding does not depend on the
//! images that share its pass.
//!
//! That is a property of the parts an encoder is made of as much as of the
//! encoder: each part must be a function of the values it is given, the
//! patch embedding must take each patch by itself, and the tower must keep
//! the rows of one image to that image.

use crate::arith::{index_bound, index_parts, split_index};
use crate::clip::{groups_from, is_token, patch_bounds, patch_place, Group};
use crate::clip_encode::{
    every, group_bounds, inputs_find_their_group, is_pass, passes, row_at, ImageRun, Images, Pass, Vision,
};
use crate::sam3::Error;
use vstd::prelude::*;

verus! {

/// The values of image `k`.
pub open spec fn image_at(pixels: Seq<u32>, v: Vision, k: int) -> Seq<u32> {
    row_at(pixels, 3 * (v.image_size * v.image_size), k)
}

/// The tower's rows of image `k` of a pass.
pub open spec fn rows_of(x: Seq<u32>, v: Vision, k: int) -> Seq<u32> {
    row_at(x, v.stride * v.dim, k)
}

impl<
    A: Fn(u32, u32) -> u32,
    E: Fn(&Vec<u32>) -> Vec<u32>,
    P: Fn(&Vec<u32>) -> Vec<u32>,
    R: Fn(&Vec<u32>) -> Result<Vec<u32>, Error>,
    H: Fn(&Vec<u32>) -> Vec<u32>,
> Images<A, E, P, R, H> {
    /// The patch embedding takes each patch by itself, whichever it is.
    pub open spec fn patches_apart(&self, v: Vision) -> bool {
        forall|p: &Vec<u32>, q: &Vec<u32>, a: Vec<u32>, b: Vec<u32>, i: int, j: int|
            #![trigger call_ensures(self.embed, (p,), a), call_ensures(self.embed, (q,), b), row_at(a@, v.dim as int, i),
                row_at(b@, v.dim as int, j)]
            call_ensures(self.embed, (p,), a) && call_ensures(self.embed, (q,), b) && 0 <= i && (i + 1) * v.patch_len()
                <= p.len() && 0 <= j && (j + 1) * v.patch_len() <= q.len() && row_at(p@, v.patch_len(), i) == row_at(
                q@,
                v.patch_len(),
                j,
            ) ==> row_at(a@, v.dim as int, i) == row_at(b@, v.dim as int, j)
    }

    /// The tower keeps the rows of one image to that image, wherever in the
    /// pass it stands.
    pub open spec fn images_apart(&self, v: Vision) -> bool {
        forall|p: &Vec<u32>, q: &Vec<u32>, a: Vec<u32>, b: Vec<u32>, i: int, j: int|
            #![trigger call_ensures(self.run, (p,), Ok(a)), call_ensures(self.run, (q,), Ok(b)), rows_of(a@, v, i),
                rows_of(b@, v, j)]
            call_ensures(self.run, (p,), Ok::<Vec<u32>, Error>(a)) && call_ensures(
                self.run,
                (q,),
                Ok::<Vec<u32>, Error>(b),
            ) && 0 <= i < v.batch && 0 <= j < v.batch && rows_of(p@, v, i) == rows_of(q@, v, j) ==> rows_of(a@, v, i)
                == rows_of(b@, v, j)
    }

    /// Sums, norms and heads are functions of the values given.
    pub open spec fn by_value(&self) -> bool {
        &&& forall|a: u32, b: u32, r: u32, s: u32| #[trigger]
            call_ensures(self.plus, (a, b), r) && #[trigger] call_ensures(self.plus, (a, b), s) ==> r == s
        &&& forall|p: &Vec<u32>, q: &Vec<u32>, a: Vec<u32>, b: Vec<u32>| #[trigger]
            call_ensures(self.norm, (p,), a) && #[trigger] call_ensures(self.norm, (q,), b) && p@ == q@ ==> a@ == b@
        &&& forall|p: &Vec<u32>, q: &Vec<u32>, a: Vec<u32>, b: Vec<u32>| #[trigger]
            call_ensures(self.head, (p,), a) && #[trigger] call_ensures(self.head, (q,), b) && p@ == q@ ==> a@ == b@
    }

    /// What one image becomes depends on that image alone.
    pub open spec fn apart(&self, v: Vision) -> bool {
        self.patches_apart(v) && self.images_apart(v) && self.by_value()
    }
}

/// The value of patch `q`, column `c` of image `l` of a group stands in the
/// image at a place that depends on `q` and `c` alone.
proof fn place_in_image(v: Vision, first: int, count: int, l: int, q: int, c: int) -> (at: int)
    requires
        v.wf(),
        0 <= first,
        0 <= l < count,
        0 <= q < v.grid * v.grid,
        0 <= c < v.patch_len(),
    ensures
        ({
            let i = (l * (v.grid * v.grid) + q) * v.patch_len() + c;
            let img = 3 * (v.image_size * v.image_size);
            &&& 0 <= i < (count * (v.grid * v.grid)) * v.patch_len()
            &&& 0 <= at < img
            &&& at == patch_place(0, v.grid as int, v.patch as int, v.image_size as int, q * v.patch_len() + c)
            &&& patch_place(first, v.grid as int, v.patch as int, v.image_size as int, i) == (first + l) * img + at
        }),
{
    let (g, ps, s) = (v.grid as int, v.patch as int, v.image_size as int);
    let (gg, kp) = (g * g, 3 * (ps * ps));
    let i = (l * gg + q) * kp + c;
    let k = q * kp + c;
    index_bound(l, q, count, gg);
    index_bound(l * gg + q, c, count * gg, kp);
    index_bound(q, c, gg, kp);
    assert((1 * gg) * kp == gg * kp) by (nonlinear_arith);
    split_index(l * gg + q, c, kp);
    split_index(l, q, gg);
    split_index(q, c, kp);
    split_index(0, q, gg);
    assert(0 * gg + q == q) by (nonlinear_arith);
    patch_bounds(first, count, g, ps, s, i);
    patch_bounds(0, 1, g, ps, s, k);
    assert(0 * (3 * (s * s)) == 0) by (nonlinear_arith);
    patch_place(0, g, ps, s, k)
}

/// One image, twice: in group `g` of `p` as image `l`, in group `h` of `q`
/// as image `m`.
pub struct Twice {
    pub p: Seq<u32>,
    pub g: Group,
    pub l: int,
    pub q: Seq<u32>,
    pub h: Group,
    pub m: int,
}

impl Twice {
    pub open spec fn wf(self, v: Vision) -> bool {
        let img = 3 * (v.image_size * v.image_size);
        &&& v.wf()
        &&& 0 <= self.l < self.g.count <= v.batch
        &&& 0 <= self.m < self.h.count <= v.batch
        &&& (self.g.first + self.g.count) * img <= self.p.len()
        &&& (self.h.first + self.h.count) * img <= self.q.len()
        &&& image_at(self.p, v, self.g.first + self.l) == image_at(self.q, v, self.h.first + self.m)
    }
}

proof fn row_value(v: Seq<u32>, dim: int, r: int, j: int, rows: int)
    requires
        0 <= r < rows,
        0 <= j < dim,
        rows * dim <= v.len(),
    ensures
        0 <= r * dim <= r * dim + j < (r + 1) * dim <= v.len(),
        row_at(v, dim, r).len() == dim,
        row_at(v, dim, r)[j] == v[r * dim + j],
{
    assert(0 <= r * dim && (r + 1) * dim == r * dim + dim && (r + 1) * dim <= rows * dim) by (nonlinear_arith)
        requires
            0 <= r < rows,
            0 < dim,
    ;
}

/// The patches of the image are the same in both groups.
proof fn same_patch(v: Vision, w: Twice, t: ImageRun, u: ImageRun, k: int)
    requires
        w.wf(v),
        0 <= k < v.grid * v.grid,
        t.patches@ == Seq::new(
            ((w.g.count * (v.grid * v.grid)) * v.patch_len()) as nat,
            |i: int| w.p[patch_place(w.g.first as int, v.grid as int, v.patch as int, v.image_size as int, i)],
        ),
        u.patches@ == Seq::new(
            ((w.h.count * (v.grid * v.grid)) * v.patch_len()) as nat,
            |i: int| w.q[patch_place(w.h.first as int, v.grid as int, v.patch as int, v.image_size as int, i)],
        ),
    ensures
        row_at(t.patches@, v.patch_len(), w.l * (v.grid * v.grid) + k) == row_at(
            u.patches@,
            v.patch_len(),
            w.m * (v.grid * v.grid) + k,
        ),
{
    let (gg, kp, img) = (v.grid * v.grid, v.patch_len(), 3 * (v.image_size * v.image_size));
    let (a, b) = (w.l * gg + k, w.m * gg + k);
    index_bound(w.l, k, w.g.count as int, gg);
    index_bound(w.m, k, w.h.count as int, gg);
    assert(kp > 0 && img > 0) by (nonlinear_arith)
        requires
            kp == 3 * (v.patch * v.patch),
            img == 3 * (v.image_size * v.image_size),
            v.patch > 0,
            v.image_size > 0,
    ;
    let (x, y) = (row_at(t.patches@, kp, a), row_at(u.patches@, kp, b));
    row_value(t.patches@, kp, a, 0, w.g.count * gg);
    row_value(u.patches@, kp, b, 0, w.h.count * gg);
    assert forall|c: int| 0 <= c < kp implies x[c] == y[c] by {
        let at = place_in_image(v, w.g.first as int, w.g.count as int, w.l, k, c);
        let to = place_in_image(v, w.h.first as int, w.h.count as int, w.m, k, c);
        row_value(t.patches@, kp, a, c, w.g.count * gg);
        row_value(u.patches@, kp, b, c, w.h.count * gg);
        row_value(w.p, img, w.g.first + w.l, at, w.g.first + w.g.count);
        row_value(w.q, img, w.h.first + w.m, to, w.h.first + w.h.count);
    }
    assert(x =~= y);
}

/// The tower is given the same rows for the image in both groups.
proof fn same_rows<
    A: Fn(u32, u32) -> u32,
    E: Fn(&Vec<u32>) -> Vec<u32>,
    P: Fn(&Vec<u32>) -> Vec<u32>,
    R: Fn(&Vec<u32>) -> Result<Vec<u32>, Error>,
    H: Fn(&Vec<u32>) -> Vec<u32>,
>(
    parts: &Images<A, E, P, R, H>,
    v: Vision,
    cls: Seq<u32>,
    pos: Seq<u32>,
    w: Twice,
    t: ImageRun,
    u: ImageRun,
    x: Seq<u32>,
    y: Seq<u32>,
)
    requires
        w.wf(v),
        parts.total(v),
        parts.apart(v),
        parts.is_input(v, w.p, cls, pos, w.g, t, x),
        parts.is_input(v, w.q, cls, pos, w.h, u, y),
    ensures
        rows_of(x, v, w.l) == rows_of(y, v, w.m),
{
    let (d, st) = (v.dim as int, v.stride as int);
    let block = st * d;
    assert(w.g.count * st <= v.rows && w.h.count * st <= v.rows) by (nonlinear_arith)
        requires
            w.g.count <= v.batch,
            w.h.count <= v.batch,
            v.batch * st <= v.rows,
            st >= 0,
    ;
    assert(block > 0) by (nonlinear_arith)
        requires
            block == st * d,
            st > 0,
            d > 0,
    ;
    assert(v.batch * block <= x.len() && v.batch * block <= y.len()) by (nonlinear_arith)
        requires
            v.batch * st <= v.rows,
            block == st * d,
            x.len() == v.rows * d,
            y.len() == v.rows * d,
            d > 0,
    ;
    row_value(x, block, w.l, 0, v.batch as int);
    row_value(y, block, w.m, 0, v.batch as int);
    let (a, b) = (rows_of(x, v, w.l), rows_of(y, v, w.m));
    assert forall|i: int| 0 <= i < block implies a[i] == b[i] by {
        index_parts(i, st, d);
        let (r, j) = (i / d, i % d);
        index_bound(w.l, r, w.g.count as int, st);
        index_bound(w.m, r, w.h.count as int, st);
        row_value(x, block, w.l, i, v.batch as int);
        row_value(y, block, w.m, i, v.batch as int);
        row_value(x, d, w.l * st + r, j, v.rows as int);
        row_value(y, d, w.m * st + r, j, v.rows as int);
        assert(w.l * block + i == (w.l * st + r) * d + j && w.m * block + i == (w.m * st + r) * d + j)
            by (nonlinear_arith)
            requires
                block == st * d,
                i == r * d + j,
        ;
        same_row(parts, v, cls, pos, w, t, u, x, y, r);
    }
    assert(a =~= b);
}

/// Row `r` of the image is the same in both groups.
proof fn same_row<
    A: Fn(u32, u32) -> u32,
    E: Fn(&Vec<u32>) -> Vec<u32>,
    P: Fn(&Vec<u32>) -> Vec<u32>,
    R: Fn(&Vec<u32>) -> Result<Vec<u32>, Error>,
    H: Fn(&Vec<u32>) -> Vec<u32>,
>(
    parts: &Images<A, E, P, R, H>,
    v: Vision,
    cls: Seq<u32>,
    pos: Seq<u32>,
    w: Twice,
    t: ImageRun,
    u: ImageRun,
    x: Seq<u32>,
    y: Seq<u32>,
    r: int,
)
    requires
        w.wf(v),
        parts.total(v),
        parts.apart(v),
        parts.is_input(v, w.p, cls, pos, w.g, t, x),
        parts.is_input(v, w.q, cls, pos, w.h, u, y),
        0 <= r < v.stride,
    ensures
        row_at(x, v.dim as int, w.l * v.stride + r) == row_at(y, v.dim as int, w.m * v.stride + r),
{
    let (d, st) = (v.dim as int, v.stride as int);
    let (a, b) = (w.l * st + r, w.m * st + r);
    index_bound(w.l, r, w.g.count as int, st);
    index_bound(w.m, r, w.h.count as int, st);
    split_index(w.l, r, st);
    split_index(w.m, r, st);
    assert(parts.row_normed(v, t.tokens, t.inputs, t.normed, x, a));
    assert(parts.row_normed(v, u.tokens, u.inputs, u.normed, y, b));
    if r < v.tokens {
        row_value(t.tokens, d, a, 0, w.g.count * st);
        row_value(u.tokens, d, b, 0, w.h.count * st);
        let (f, g) = (row_at(t.tokens, d, a), row_at(u.tokens, d, b));
        assert forall|j: int| 0 <= j < d implies f[j] == g[j] by {
            same_token(parts, v, cls, pos, w, t, u, x, y, r, j);
            row_value(t.tokens, d, a, j, w.g.count * st);
            row_value(u.tokens, d, b, j, w.h.count * st);
        }
        assert(f =~= g);
        assert(call_ensures(parts.norm, (&t.inputs[a],), t.normed[a]));
        assert(call_ensures(parts.norm, (&u.inputs[b],), u.normed[b]));
    }
}

/// Element `j` of token `r` of the image is the same in both groups.
proof fn same_token<
    A: Fn(u32, u32) -> u32,
    E: Fn(&Vec<u32>) -> Vec<u32>,
    P: Fn(&Vec<u32>) -> Vec<u32>,
    R: Fn(&Vec<u32>) -> Result<Vec<u32>, Error>,
    H: Fn(&Vec<u32>) -> Vec<u32>,
>(
    parts: &Images<A, E, P, R, H>,
    v: Vision,
    cls: Seq<u32>,
    pos: Seq<u32>,
    w: Twice,
    t: ImageRun,
    u: ImageRun,
    x: Seq<u32>,
    y: Seq<u32>,
    r: int,
    j: int,
)
    requires
        w.wf(v),
        parts.total(v),
        parts.apart(v),
        parts.is_input(v, w.p, cls, pos, w.g, t, x),
        parts.is_input(v, w.q, cls, pos, w.h, u, y),
        0 <= r < v.tokens,
        0 <= j < v.dim,
    ensures
        t.tokens[(w.l * v.stride + r) * v.dim + j] == u.tokens[(w.m * v.stride + r) * v.dim + j],
{
    let (d, st, tk) = (v.dim as int, v.stride as int, v.tokens as int);
    let (gg, kp) = (v.grid * v.grid, v.patch_len());
    let (a, b) = (w.l * st + r, w.m * st + r);
    index_bound(w.l, r, w.g.count as int, st);
    index_bound(w.m, r, w.h.count as int, st);
    index_bound(a, j, w.g.count * st, d);
    index_bound(b, j, w.h.count * st, d);
    split_index(a, j, d);
    split_index(b, j, d);
    split_index(w.l, r, st);
    split_index(w.m, r, st);
    let (c, e) = (t.tokens[a * d + j], u.tokens[b * d + j]);
    assert(is_token(parts.plus, cls, t.embedded@, pos, tk, st, d, a * d + j, c));
    assert(is_token(parts.plus, cls, u.embedded@, pos, tk, st, d, b * d + j, e));
    if r > 0 {
        let k = r - 1;
        same_patch(v, w, t, u, k);
        let (f, h) = (w.l * gg + k, w.m * gg + k);
        index_bound(w.l, k, w.g.count as int, gg);
        index_bound(w.m, k, w.h.count as int, gg);
        assert(kp > 0) by (nonlinear_arith)
            requires
                kp == 3 * (v.patch * v.patch),
                v.patch > 0,
        ;
        embedded_len(t.embedded.len() as int, w.g.count * gg, kp, d);
        embedded_len(u.embedded.len() as int, w.h.count * gg, kp, d);
        row_value(t.patches@, kp, f, 0, w.g.count * gg);
        row_value(u.patches@, kp, h, 0, w.h.count * gg);
        row_value(t.embedded@, d, f, j, w.g.count * gg);
        row_value(u.embedded@, d, h, j, w.h.count * gg);
        assert(row_at(t.embedded@, d, f) == row_at(u.embedded@, d, h));
    }
}

proof fn embedded_len(m: int, n: int, kp: int, d: int)
    requires
        m * kp == (n * kp) * d,
        kp > 0,
    ensures
        m == n * d,
{
    assert(m == n * d) by (nonlinear_arith)
        requires
            m * kp == (n * kp) * d,
            kp > 0,
    ;
}

/// The image has the same embedding in both groups, `s` and `z` the
/// embeddings of the two.
proof fn same_embedding<
    A: Fn(u32, u32) -> u32,
    E: Fn(&Vec<u32>) -> Vec<u32>,
    P: Fn(&Vec<u32>) -> Vec<u32>,
    R: Fn(&Vec<u32>) -> Result<Vec<u32>, Error>,
    H: Fn(&Vec<u32>) -> Vec<u32>,
>(
    parts: &Images<A, E, P, R, H>,
    v: Vision,
    cls: Seq<u32>,
    pos: Seq<u32>,
    w: Twice,
    s: Seq<u32>,
    z: Seq<u32>,
)
    requires
        w.wf(v),
        parts.total(v),
        parts.apart(v),
        parts.is_encoded(v, w.p, cls, pos, w.g, s),
        parts.is_encoded(v, w.q, cls, pos, w.h, z),
    ensures
        row_at(s, v.embed_dim as int, w.l) == row_at(z, v.embed_dim as int, w.m),
{
    let (d, st, e) = (v.dim as int, v.stride as int, v.embed_dim as nat);
    let (at, to) = (every(w.g.count as nat, st), every(w.h.count as nat, st));
    let (t, x) = choose|t: ImageRun, x: Vec<u32>| #[trigger]
        parts.is_input(v, w.p, cls, pos, w.g, t, x@) && #[trigger] passes(parts.run, parts.head, d, at, e, x, s);
    let (u, y) = choose|t: ImageRun, x: Vec<u32>| #[trigger]
        parts.is_input(v, w.q, cls, pos, w.h, t, x@) && #[trigger] passes(parts.run, parts.head, d, to, e, x, z);
    let a = choose|a: Pass| a.x == x && #[trigger] is_pass(parts.run, parts.head, d, at, e, a, s);
    let b = choose|b: Pass| b.x == y && #[trigger] is_pass(parts.run, parts.head, d, to, e, b, z);
    same_rows(parts, v, cls, pos, w, t, u, x@, y@);
    let (f, h) = (rows_of(a.y@, v, w.l), rows_of(b.y@, v, w.m));
    assert(f == h);
    let block = st * d;
    assert(block >= d > 0) by (nonlinear_arith)
        requires
            block == st * d,
            st > 0,
            d > 0,
    ;
    assert(v.batch * block <= v.rows * d) by (nonlinear_arith)
        requires
            v.batch * st <= v.rows,
            block == st * d,
            d > 0,
    ;
    assert(w.l * block == (w.l * st) * d && w.m * block == (w.m * st) * d) by (nonlinear_arith)
        requires
            block == st * d,
    ;
    assert((w.l * st + 1) * d == w.l * block + d && (w.m * st + 1) * d == w.m * block + d) by (nonlinear_arith)
        requires
            block == st * d,
    ;
    row_value(a.y@, block, w.l, 0, v.batch as int);
    row_value(b.y@, block, w.m, 0, v.batch as int);
    let (i, j) = (a.states[w.l], b.states[w.m]);
    assert(i@ =~= f.subrange(0, d));
    assert(j@ =~= h.subrange(0, d));
    assert(call_ensures(parts.head, (&a.states[w.l],), a.embeddings[w.l]));
    assert(call_ensures(parts.head, (&b.states[w.m],), b.embeddings[w.m]));
}

/// An image has one embedding, whichever images it is encoded with and
/// wherever among them it stands.
pub proof fn images_stand_alone<
    A: Fn(u32, u32) -> u32,
    E: Fn(&Vec<u32>) -> Vec<u32>,
    P: Fn(&Vec<u32>) -> Vec<u32>,
    R: Fn(&Vec<u32>) -> Result<Vec<u32>, Error>,
    H: Fn(&Vec<u32>) -> Vec<u32>,
>(
    parts: &Images<A, E, P, R, H>,
    v: Vision,
    cls: Seq<u32>,
    pos: Seq<u32>,
    p: Seq<u32>,
    s: Seq<u32>,
    i: nat,
    q: Seq<u32>,
    z: Seq<u32>,
    j: nat,
)
    requires
        v.wf(),
        parts.total(v),
        parts.apart(v),
        p.len() <= usize::MAX,
        q.len() <= usize::MAX,
        parts.encodes(v, p, cls, pos, s),
        parts.encodes(v, q, cls, pos, z),
        i < p.len() as int / (3 * (v.image_size * v.image_size)),
        j < q.len() as int / (3 * (v.image_size * v.image_size)),
        image_at(p, v, i as int) == image_at(q, v, j as int),
    ensures
        row_at(s, v.embed_dim as int, i as int) == row_at(z, v.embed_dim as int, j as int),
{
    let (k, g) = own_group(v, p.len(), i);
    let (n, h) = own_group(v, q.len(), j);
    let e = v.embed_dim as int;
    let w = Twice { p, g, l: i - g.first, q, h, m: j - h.first };
    let (a, b) = (
        s.subrange(g.first * e, (g.first + g.count) * e),
        z.subrange(h.first * e, (h.first + h.count) * e),
    );
    same_embedding(parts, v, cls, pos, w, a, b);
    own_row(s, e, g, i as int, p.len() as int / (3 * (v.image_size * v.image_size)));
    own_row(z, e, h, j as int, q.len() as int / (3 * (v.image_size * v.image_size)));
}

/// The group of image `i` of `len` values of images.
proof fn own_group(v: Vision, len: nat, i: nat) -> (r: (int, Group))
    requires
        v.wf(),
        0 < len <= usize::MAX,
        len as int % (3 * (v.image_size * v.image_size)) == 0,
        i < len as int / (3 * (v.image_size * v.image_size)),
    ensures
        ({
            let img = 3 * (v.image_size * v.image_size);
            let n = len as int / img;
            let gs = groups_from(0, n as nat, v.batch as nat);
            &&& 0 <= r.0 < gs.len() && r.1 == gs[r.0]
            &&& r.1.first <= i < r.1.first + r.1.count <= n
            &&& r.1.count <= v.batch
            &&& (r.1.first + r.1.count) * img <= len
        }),
{
    let img = 3 * (v.image_size * v.image_size);
    assert(img > 0) by (nonlinear_arith)
        requires
            img == 3 * (v.image_size * v.image_size),
            v.image_size > 0,
    ;
    vstd::arithmetic::div_mod::lemma_fundamental_div_mod(len as int, img);
    let n = (len as int / img) as nat;
    assert(n <= len) by (nonlinear_arith)
        requires
            len == img * n,
            img > 0,
    ;
    let k = inputs_find_their_group(n, v.batch as nat, i);
    group_bounds(n, v.batch as nat, k);
    let g = groups_from(0, n, v.batch as nat)[k];
    assert((g.first + g.count) * img <= img * n) by (nonlinear_arith)
        requires
            g.first + g.count <= n,
            img > 0,
    ;
    (k, g)
}

/// Row `i` of all is its row of its group.
proof fn own_row(s: Seq<u32>, e: int, g: Group, i: int, n: int)
    requires
        e >= 0,
        s.len() == n * e,
        g.first <= i < g.first + g.count <= n,
    ensures
        row_at(s.subrange(g.first * e, (g.first + g.count) * e), e, i - g.first) == row_at(s, e, i),
{
    let (f, c) = (g.first as int, g.count as int);
    assert(0 <= f * e <= i * e && (i + 1) * e <= (f + c) * e <= n * e) by (nonlinear_arith)
        requires
            0 <= f <= i,
            i + 1 <= f + c <= n,
            e >= 0,
    ;
    assert((i - f) * e == i * e - f * e && (i - f + 1) * e == (i + 1) * e - f * e && (i + 1) * e == i * e + e)
        by (nonlinear_arith);
    assert(row_at(s.subrange(f * e, (f + c) * e), e, i - f) =~= row_at(s, e, i));
}

/// Images encoded together have the embeddings they have encoded apart.
pub proof fn batches_join<
    A: Fn(u32, u32) -> u32,
    E: Fn(&Vec<u32>) -> Vec<u32>,
    P: Fn(&Vec<u32>) -> Vec<u32>,
    R: Fn(&Vec<u32>) -> Result<Vec<u32>, Error>,
    H: Fn(&Vec<u32>) -> Vec<u32>,
>(
    parts: &Images<A, E, P, R, H>,
    v: Vision,
    cls: Seq<u32>,
    pos: Seq<u32>,
    a: Seq<u32>,
    s: Seq<u32>,
    b: Seq<u32>,
    z: Seq<u32>,
    both: Seq<u32>,
)
    requires
        v.wf(),
        parts.total(v),
        parts.apart(v),
        a.len() + b.len() <= usize::MAX,
        parts.encodes(v, a, cls, pos, s),
        parts.encodes(v, b, cls, pos, z),
        parts.encodes(v, a + b, cls, pos, both),
    ensures
        both == s + z,
{
    let (img, e) = (3 * (v.image_size * v.image_size), v.embed_dim as int);
    assert(img > 0) by (nonlinear_arith)
        requires
            img == 3 * (v.image_size * v.image_size),
            v.image_size > 0,
    ;
    let (n, m) = (a.len() as int / img, b.len() as int / img);
    vstd::arithmetic::div_mod::lemma_fundamental_div_mod(a.len() as int, img);
    vstd::arithmetic::div_mod::lemma_fundamental_div_mod(b.len() as int, img);
    assert(a.len() + b.len() == (n + m) * img + 0) by (nonlinear_arith)
        requires
            a.len() == img * n,
            b.len() == img * m,
    ;
    split_index(n + m, 0, img);
    assert(n * img == img * n && m * img == img * m) by (nonlinear_arith);
    assert((n + m) * e == n * e + m * e) by (nonlinear_arith);
    assert forall|x: int| 0 <= x < both.len() implies both[x] == (s + z)[x] by {
        assert(e > 0) by (nonlinear_arith)
            requires
                0 <= x < (n + m) * e,
                e >= 0,
        ;
        index_parts(x, n + m, e);
        let (i, c) = (x / e, x % e);
        row_value(both, e, i, c, n + m);
        row_value(a + b, img, i, 0, n + m);
        if i < n {
            row_value(a, img, i, 0, n);
            assert(image_at(a + b, v, i) =~= image_at(a, v, i));
            images_stand_alone(parts, v, cls, pos, a + b, both, i as nat, a, s, i as nat);
            row_value(s, e, i, c, n);
        } else {
            let j = i - n;
            row_value(b, img, j, 0, m);
            assert(j * img == i * img - n * img && (j + 1) * img == (i + 1) * img - n * img) by (nonlinear_arith)
                requires
                    j == i - n,
            ;
            assert(image_at(a + b, v, i) =~= image_at(b, v, j));
            images_stand_alone(parts, v, cls, pos, a + b, both, i as nat, b, z, j as nat);
            row_value(z, e, j, c, m);
            assert(j * e == i * e - n * e) by (nonlinear_arith)
                requires
                    j == i - n,
            ;
        }
    }
    assert(both =~= s + z);
}

} // verus!
