//! CLIP's two encoders around their towers: inputs a batch at a time into
//! rows, the rows through the tower, and each input's row of the answer to
//! its embedding.
//!
//! Sums, projections and norms in single precision come from the caller, on
//! bit patterns; which values meet and where the results go is stated and
//! proved here.

use crate::arith::split_index;
use crate::clip::{
    check_ids, check_pixels, end_token, first_unknown, groups, groups_cover, groups_from, ids_fault, is_embedded, is_end,
    is_token, patch_place, patches, pixels_fault, prompt_rows, token_rows, vocabulary_fault, Group,
};
use crate::gather::{narrow_all, narrowed, widen, widened};
use crate::sam3::{rejects, Error};
use crate::tokenizer::{normalized, resized, Tokenizer};
use vstd::prelude::*;

verus! {

// ----------------------------------------------------------------------------
// Rows
// ----------------------------------------------------------------------------

/// Row `r` of rows `dim` wide.
pub open spec fn row_at(v: Seq<u32>, dim: int, r: int) -> Seq<u32> {
    v.subrange(r * dim, (r + 1) * dim)
}

pub open spec fn zeros(n: nat) -> Seq<u32> {
    Seq::new(n, |i: int| 0u32)
}

/// Rows `0, stride, 2 stride, ..`, `count` of them.
pub open spec fn every(count: nat, stride: int) -> Seq<int> {
    Seq::new(count, |k: int| k * stride)
}

pub open spec fn places(at: Seq<usize>) -> Seq<int> {
    at.map_values(|a: usize| a as int)
}

proof fn row_inside(r: int, dim: int, rows: int)
    requires
        0 <= r < rows,
        0 <= dim,
    ensures
        0 <= r * dim,
        (r + 1) * dim == r * dim + dim,
        (r + 1) * dim <= rows * dim,
{
    assert(0 <= r * dim && (r + 1) * dim == r * dim + dim && (r + 1) * dim <= rows * dim) by (nonlinear_arith)
        requires
            0 <= r < rows,
            0 <= dim,
    ;
}

fn row(v: &Vec<u32>, dim: usize, r: usize) -> (o: Vec<u32>)
    requires
        (r + 1) * dim <= v.len(),
    ensures
        o@ == row_at(v@, dim as int, r as int),
{
    proof {
        row_inside(r as int, dim as int, r as int + 1);
    }
    let first: usize = r * dim;
    let mut o: Vec<u32> = Vec::new();
    let mut j: usize = 0;
    while j < dim
        invariant
            first == r * dim,
            first + dim <= v.len(),
            j <= dim,
            o.len() == j,
            forall|k: int| 0 <= k < j ==> #[trigger] o[k] == v[first + k],
        decreases dim - j,
    {
        o.push(v[first + j]);
        j += 1;
    }
    proof {
        assert(o@ =~= row_at(v@, dim as int, r as int));
    }
    o
}

fn pad_to(v: &mut Vec<u32>, n: usize)
    requires
        old(v).len() <= n,
    ensures
        final(v)@ == old(v)@ + zeros((n - old(v).len()) as nat),
{
    let ghost was = v@;
    while v.len() < n
        invariant
            was.len() <= v.len() <= n,
            v@ == was + zeros((v.len() - was.len()) as nat),
        decreases n - v.len(),
    {
        let ghost before = v@;
        v.push(0);
        proof {
            assert(v@ =~= was + zeros((v.len() - was.len()) as nat));
        }
    }
}

// ----------------------------------------------------------------------------
// Through a tower
// ----------------------------------------------------------------------------

/// What a tower was given and answered, the states read from the answer and
/// their embeddings.
pub struct Pass {
    pub x: Vec<u32>,
    pub y: Vec<u32>,
    pub states: Seq<Vec<u32>>,
    pub embeddings: Seq<Vec<u32>>,
}

/// `s` are the embeddings, `e` values each, of rows `at` of a tower's answer.
pub open spec fn is_read<H: Fn(&Vec<u32>) -> Vec<u32>>(
    head: H,
    y: Seq<u32>,
    dim: int,
    at: Seq<int>,
    e: nat,
    states: Seq<Vec<u32>>,
    embeddings: Seq<Vec<u32>>,
    s: Seq<u32>,
) -> bool {
    &&& states.len() == at.len()
    &&& embeddings.len() == at.len()
    &&& s.len() == at.len() * e
    &&& forall|k: int|
        0 <= k < at.len() ==> {
            &&& (#[trigger] states[k])@ == row_at(y, dim, at[k])
            &&& call_ensures(head, (&states[k],), embeddings[k])
            &&& row_at(s, e as int, k) == embeddings[k]@
        }
}

/// `s` are the embeddings of rows `at` in pass `t`.
pub open spec fn is_pass<R: Fn(&Vec<u32>) -> Result<Vec<u32>, Error>, H: Fn(&Vec<u32>) -> Vec<u32>>(
    run: R,
    head: H,
    dim: int,
    at: Seq<int>,
    e: nat,
    t: Pass,
    s: Seq<u32>,
) -> bool {
    &&& call_ensures(run, (&t.x,), Ok(t.y))
    &&& is_read(head, t.y@, dim, at, e, t.states, t.embeddings, s)
}

/// `s` are the embeddings of rows `at` in a pass of `x`.
pub open spec fn passes<R: Fn(&Vec<u32>) -> Result<Vec<u32>, Error>, H: Fn(&Vec<u32>) -> Vec<u32>>(
    run: R,
    head: H,
    dim: int,
    at: Seq<int>,
    e: nat,
    x: Vec<u32>,
    s: Seq<u32>,
) -> bool {
    exists|t: Pass| t.x == x && #[trigger] is_pass(run, head, dim, at, e, t, s)
}

/// The tower takes every input and answers with `n` values or more.
pub open spec fn tower_answers<R: Fn(&Vec<u32>) -> Result<Vec<u32>, Error>>(run: R, n: nat) -> bool {
    &&& forall|x: &Vec<u32>| call_requires(run, (x,))
    &&& forall|x: &Vec<u32>, y: Vec<u32>| #[trigger]
        call_ensures(run, (x,), Ok::<Vec<u32>, Error>(y)) ==> y.len() >= n
}

/// The head takes every state and makes `e` values of it.
pub open spec fn head_makes<H: Fn(&Vec<u32>) -> Vec<u32>>(head: H, e: nat) -> bool {
    &&& forall|x: &Vec<u32>| call_requires(head, (x,))
    &&& forall|x: &Vec<u32>, v: Vec<u32>| #[trigger] call_ensures(head, (x,), v) ==> v.len() == e
}

fn read<H: Fn(&Vec<u32>) -> Vec<u32>>(y: &Vec<u32>, at: &Vec<usize>, dim: usize, e: usize, head: &H) -> (s: Vec<u32>)
    requires
        head_makes(*head, e as nat),
        forall|k: int| 0 <= k < at.len() ==> ((#[trigger] at[k]) + 1) * dim <= y.len(),
    ensures
        exists|states: Seq<Vec<u32>>, embeddings: Seq<Vec<u32>>| #[trigger]
            is_read(*head, y@, dim as int, places(at@), e as nat, states, embeddings, s@),
{
    let mut s: Vec<u32> = Vec::new();
    let ghost mut states: Seq<Vec<u32>> = seq![];
    let ghost mut embeddings: Seq<Vec<u32>> = seq![];
    let mut k: usize = 0;
    proof {
        assert(0 * e == 0) by (nonlinear_arith);
    }
    while k < at.len()
        invariant
            head_makes(*head, e as nat),
            forall|k: int| 0 <= k < at.len() ==> ((#[trigger] at[k]) + 1) * dim <= y.len(),
            k <= at.len(),
            states.len() == k,
            embeddings.len() == k,
            s.len() == k * e,
            forall|j: int|
                0 <= j < k ==> {
                    &&& (#[trigger] states[j])@ == row_at(y@, dim as int, at[j] as int)
                    &&& call_ensures(*head, (&states[j],), embeddings[j])
                    &&& row_at(s@, e as int, j) == embeddings[j]@
                },
        decreases at.len() - k,
    {
        let state: Vec<u32> = row(y, dim, at[k]);
        let mut v: Vec<u32> = head(&state);
        let ghost was = s@;
        let ghost new = v;
        s.append(&mut v);
        proof {
            assert(s@ =~= was + new@);
            assert((k + 1) * e == k * e + e) by (nonlinear_arith);
            assert forall|j: int| 0 <= j < k + 1 implies row_at(s@, e as int, j) == embeddings.push(new)[j]@ by {
                row_inside(j, e as int, k as int + 1);
                if j < k {
                    row_inside(j, e as int, k as int);
                    assert(states[j]@ == row_at(y@, dim as int, at[j] as int));
                    assert(row_at(s@, e as int, j) =~= row_at(was, e as int, j));
                } else {
                    assert(row_at(s@, e as int, j) =~= new@);
                }
            }
            states = states.push(state);
            embeddings = embeddings.push(new);
        }
        k += 1;
    }
    proof {
        let rows_read = places(at@);
        assert(is_read(*head, y@, dim as int, rows_read, e as nat, states, embeddings, s@));
    }
    s
}

/// Runs rows `x` through a tower and reads rows `at` of its answer.
fn through<R: Fn(&Vec<u32>) -> Result<Vec<u32>, Error>, H: Fn(&Vec<u32>) -> Vec<u32>>(
    x: &Vec<u32>,
    at: &Vec<usize>,
    rows: usize,
    dim: usize,
    e: usize,
    run: &R,
    head: &H,
) -> (r: Result<Vec<u32>, Error>)
    requires
        tower_answers(*run, (rows * dim) as nat),
        head_makes(*head, e as nat),
        forall|k: int| 0 <= k < at.len() ==> #[trigger] at[k] < rows,
    ensures
        match r {
            Ok(s) => passes(*run, *head, dim as int, places(at@), e as nat, *x, s@),
            Err(err) => call_ensures(*run, (x,), Err::<Vec<u32>, Error>(err)),
        },
{
    let y: Vec<u32> = match run(x) {
        Ok(y) => y,
        Err(err) => {
            return Err(err);
        },
    };
    proof {
        assert forall|k: int| 0 <= k < at.len() implies ((#[trigger] at[k]) + 1) * dim <= y.len() by {
            row_inside(at[k] as int, dim as int, rows as int);
        }
    }
    let s: Vec<u32> = read(&y, at, dim, e, head);
    proof {
        let rows_read = places(at@);
        let (states, embeddings) = choose|states: Seq<Vec<u32>>, embeddings: Seq<Vec<u32>>| #[trigger]
            is_read(*head, y@, dim as int, rows_read, e as nat, states, embeddings, s@);
        let t = Pass { x: *x, y, states, embeddings };
        assert(t.x == *x && is_pass(*run, *head, dim as int, places(at@), e as nat, t, s@));
    }
    Ok(s)
}

/// Row `r` of a tower's first operand: the norm of the stream's row, rounded.
pub open spec fn is_normed_row<P: Fn(&Vec<u32>) -> Vec<u32>>(
    norm: P,
    stream: Seq<u16>,
    input: Vec<u32>,
    normed: Vec<u32>,
    out: Seq<u16>,
) -> bool {
    &&& input@ == widened(stream)
    &&& call_ensures(norm, (&input,), normed)
    &&& out == narrowed(normed@)
}

/// `h` are the norms of a stream's rows, rounded.
pub open spec fn is_first<P: Fn(&Vec<u32>) -> Vec<u32>>(
    norm: P,
    stream: Seq<u16>,
    rows: int,
    dim: int,
    inputs: Seq<Vec<u32>>,
    normed: Seq<Vec<u32>>,
    h: Seq<u16>,
) -> bool {
    &&& inputs.len() == rows && normed.len() == rows
    &&& h.len() == rows * dim
    &&& forall|r: int|
        0 <= r < rows ==> is_normed_row(
            norm,
            stream.subrange(r * dim, (r + 1) * dim),
            #[trigger] inputs[r],
            normed[r],
            h.subrange(r * dim, (r + 1) * dim),
        )
}

/// `h` is the first operand of a tower whose stream starts as `stream`.
pub open spec fn starts_from<P: Fn(&Vec<u32>) -> Vec<u32>>(norm: P, stream: Seq<u16>, rows: int, dim: int, h: Seq<u16>) -> bool {
    exists|inputs: Seq<Vec<u32>>, normed: Seq<Vec<u32>>| #[trigger] is_first(norm, stream, rows, dim, inputs, normed, h)
}

/// What a tower starts from, of rows `x`: the residual stream in half
/// precision, and the norm of every row of it, the first kernel's operand.
pub fn tower_input<P: Fn(&Vec<u32>) -> Vec<u32>>(x: &Vec<u32>, rows: usize, dim: usize, norm: &P) -> (r: (Vec<u16>, Vec<u16>))
    requires
        x.len() == rows * dim,
        forall|p: &Vec<u32>| call_requires(*norm, (p,)),
        forall|p: &Vec<u32>, v: Vec<u32>| #[trigger] call_ensures(*norm, (p,), v) ==> v.len() == p.len(),
    ensures
        r.0@ == narrowed(x@),
        starts_from(*norm, r.0@, rows as int, dim as int, r.1@),
{
    let stream: Vec<u16> = narrow_all(x.as_slice());
    let again: Vec<u32> = widen(stream.as_slice());
    let mut h: Vec<u16> = Vec::new();
    let ghost mut inputs: Seq<Vec<u32>> = seq![];
    let ghost mut normed: Seq<Vec<u32>> = seq![];
    let mut r: usize = 0;
    proof {
        assert(0 * dim == 0) by (nonlinear_arith);
    }
    while r < rows
        invariant
            forall|p: &Vec<u32>| call_requires(*norm, (p,)),
            forall|p: &Vec<u32>, v: Vec<u32>| #[trigger] call_ensures(*norm, (p,), v) ==> v.len() == p.len(),
            stream.len() == rows * dim,
            again@ == widened(stream@),
            r <= rows,
            h.len() == r * dim,
            inputs.len() == r,
            normed.len() == r,
            forall|j: int|
                0 <= j < r ==> is_normed_row(
                    *norm,
                    stream@.subrange(j * dim, (j + 1) * dim),
                    #[trigger] inputs[j],
                    normed[j],
                    h@.subrange(j * dim, (j + 1) * dim),
                ),
        decreases rows - r,
    {
        proof {
            row_inside(r as int, dim as int, rows as int);
        }
        let input: Vec<u32> = row(&again, dim, r);
        let out: Vec<u32> = norm(&input);
        let mut rounded: Vec<u16> = narrow_all(out.as_slice());
        let ghost was = h@;
        let ghost new = rounded@;
        h.append(&mut rounded);
        proof {
            assert(h@ =~= was + new);
            assert(input@ =~= widened(stream@.subrange(r * dim, (r + 1) * dim)));
            let (ins, outs) = (inputs.push(input), normed.push(out));
            assert forall|j: int| 0 <= j < r + 1 implies is_normed_row(
                *norm,
                stream@.subrange(j * dim, (j + 1) * dim),
                #[trigger] ins[j],
                outs[j],
                h@.subrange(j * dim, (j + 1) * dim),
            ) by {
                row_inside(j, dim as int, r as int + 1);
                if j < r {
                    row_inside(j, dim as int, r as int);
                    assert(ins[j] == inputs[j] && outs[j] == normed[j]);
                    assert(h@.subrange(j * dim, (j + 1) * dim) =~= was.subrange(j * dim, (j + 1) * dim));
                } else {
                    assert(h@.subrange(j * dim, (j + 1) * dim) =~= new);
                }
            }
            inputs = ins;
            normed = outs;
        }
        r += 1;
    }
    proof {
        assert(is_first(*norm, stream@, rows as int, dim as int, inputs, normed, h@));
    }
    (stream, h)
}

// ----------------------------------------------------------------------------
// Images
// ----------------------------------------------------------------------------

/// The sizes of the vision tower and its input.
pub struct Vision {
    pub image_size: usize,
    pub patch: usize,
    pub grid: usize,
    pub dim: usize,
    pub tokens: usize,
    pub stride: usize,
    pub batch: usize,
    pub rows: usize,
    pub embed_dim: usize,
}

impl Vision {
    /// A token for every patch and one more, images `stride` rows apart, and
    /// a batch of them in the tower's rows.
    pub open spec fn wf(&self) -> bool {
        &&& self.image_size > 0 && 3 * (self.image_size * self.image_size) <= usize::MAX
        &&& self.patch > 0 && self.grid > 0 && self.grid * self.patch <= self.image_size
        &&& self.dim > 0 && self.batch > 0
        &&& self.tokens == self.grid * self.grid + 1 && self.tokens <= self.stride
        &&& self.batch * self.stride <= self.rows
        &&& self.rows * self.dim <= usize::MAX
        &&& (self.batch * (self.grid * self.grid)) * (3 * (self.patch * self.patch)) <= usize::MAX
    }

    /// Values of a patch.
    pub open spec fn patch_len(&self) -> int {
        3 * (self.patch * self.patch)
    }
}

/// Arithmetic of the image encoder, on bit patterns.
pub struct Images<A, E, P, R, H> {
    /// A sum.
    pub plus: A,
    /// Patches to their embeddings.
    pub embed: E,
    /// The norm of a token's row.
    pub norm: P,
    /// The tower.
    pub run: R,
    /// A state to its embedding.
    pub head: H,
}

/// What a group of images became on its way.
pub struct ImageRun {
    pub patches: Vec<u32>,
    pub embedded: Vec<u32>,
    pub tokens: Seq<u32>,
    pub inputs: Seq<Vec<u32>>,
    pub normed: Seq<Vec<u32>>,
}

impl<
    A: Fn(u32, u32) -> u32,
    E: Fn(&Vec<u32>) -> Vec<u32>,
    P: Fn(&Vec<u32>) -> Vec<u32>,
    R: Fn(&Vec<u32>) -> Result<Vec<u32>, Error>,
    H: Fn(&Vec<u32>) -> Vec<u32>,
> Images<A, E, P, R, H> {
    /// Everything is taken, and what comes back has its size.
    pub open spec fn total(&self, v: Vision) -> bool {
        &&& forall|a: u32, b: u32| call_requires(self.plus, (a, b))
        &&& forall|p: &Vec<u32>| call_requires(self.embed, (p,))
        &&& forall|p: &Vec<u32>, r: Vec<u32>| #[trigger]
            call_ensures(self.embed, (p,), r) ==> r.len() * v.patch_len() == p.len() * v.dim
        &&& forall|p: &Vec<u32>| call_requires(self.norm, (p,))
        &&& forall|p: &Vec<u32>, r: Vec<u32>| #[trigger] call_ensures(self.norm, (p,), r) ==> r.len() == p.len()
        &&& tower_answers(self.run, (v.rows * v.dim) as nat)
        &&& head_makes(self.head, v.embed_dim as nat)
    }

    /// Row `r` of `x` is the norm of row `r` of the tokens, or zero between
    /// images.
    pub open spec fn row_normed(
        &self,
        v: Vision,
        tokens: Seq<u32>,
        inputs: Seq<Vec<u32>>,
        normed: Seq<Vec<u32>>,
        x: Seq<u32>,
        r: int,
    ) -> bool {
        &&& inputs[r]@ == row_at(tokens, v.dim as int, r)
        &&& r % (v.stride as int) < v.tokens ==> call_ensures(self.norm, (&inputs[r],), normed[r])
        &&& r % (v.stride as int) >= v.tokens ==> normed[r]@ == zeros(v.dim as nat)
        &&& row_at(x, v.dim as int, r) == normed[r]@
    }

    /// `x` holds the token rows of `count` images, each normed, zeros between
    /// the images and after them.
    pub open spec fn is_normed(
        &self,
        v: Vision,
        count: int,
        tokens: Seq<u32>,
        inputs: Seq<Vec<u32>>,
        normed: Seq<Vec<u32>>,
        x: Seq<u32>,
    ) -> bool {
        &&& x.len() == v.rows * v.dim
        &&& inputs.len() == count * v.stride
        &&& normed.len() == count * v.stride
        &&& forall|r: int| 0 <= r < count * v.stride ==> #[trigger] self.row_normed(v, tokens, inputs, normed, x, r)
        &&& forall|i: int| (count * v.stride) * v.dim <= i < x.len() ==> #[trigger] x[i] == 0
    }

    /// `x` is what the tower is given for images `g`.
    pub open spec fn is_input(
        &self,
        v: Vision,
        pixels: Seq<u32>,
        cls: Seq<u32>,
        pos: Seq<u32>,
        g: Group,
        t: ImageRun,
        x: Seq<u32>,
    ) -> bool {
        &&& t.patches@ == Seq::new(
            ((g.count * (v.grid * v.grid)) * v.patch_len()) as nat,
            |i: int| pixels[patch_place(g.first as int, v.grid as int, v.patch as int, v.image_size as int, i)],
        )
        &&& call_ensures(self.embed, (&t.patches,), t.embedded)
        &&& t.tokens.len() == (g.count * v.stride) * v.dim
        &&& forall|i: int|
            0 <= i < t.tokens.len() ==> is_token(
                self.plus,
                cls,
                t.embedded@,
                pos,
                v.tokens as int,
                v.stride as int,
                v.dim as int,
                i,
                #[trigger] t.tokens[i],
            )
        &&& self.is_normed(v, g.count as int, t.tokens, t.inputs, t.normed, x)
    }

    /// `s` are the embeddings of images `g`: those of their first tokens'
    /// states.
    pub open spec fn is_encoded(
        &self,
        v: Vision,
        pixels: Seq<u32>,
        cls: Seq<u32>,
        pos: Seq<u32>,
        g: Group,
        s: Seq<u32>,
    ) -> bool {
        exists|t: ImageRun, x: Vec<u32>| #[trigger]
            self.is_input(v, pixels, cls, pos, g, t, x@) && #[trigger] passes(
                self.run,
                self.head,
                v.dim as int,
                every(g.count as nat, v.stride as int),
                v.embed_dim as nat,
                x,
                s,
            )
    }

    /// `s` are the embeddings of all images in `pixels`, a batch at a time.
    pub open spec fn encodes(&self, v: Vision, pixels: Seq<u32>, cls: Seq<u32>, pos: Seq<u32>, s: Seq<u32>) -> bool {
        let img = 3 * (v.image_size * v.image_size);
        let n = (pixels.len() as int / img) as nat;
        let g = groups_from(0, n, v.batch as nat);
        &&& pixels.len() > 0 && pixels.len() as int % img == 0
        &&& s.len() == n * v.embed_dim
        &&& forall|k: int|
            0 <= k < g.len() ==> self.is_encoded(
                v,
                pixels,
                cls,
                pos,
                #[trigger] g[k],
                s.subrange(g[k].first * v.embed_dim, (g[k].first + g[k].count) * v.embed_dim),
            )
    }

    /// The tower refused images `g` with `err`.
    pub open spec fn is_refused(&self, v: Vision, pixels: Seq<u32>, cls: Seq<u32>, pos: Seq<u32>, g: Group, err: Error) -> bool {
        exists|t: ImageRun, x: Vec<u32>| #[trigger]
            self.is_input(v, pixels, cls, pos, g, t, x@) && #[trigger] call_ensures(
                self.run,
                (&x,),
                Err::<Vec<u32>, Error>(err),
            )
    }

    fn normed(&self, v: &Vision, count: usize, tokens: &Vec<u32>) -> (x: Vec<u32>)
        requires
            v.wf(),
            self.total(*v),
            count <= v.batch,
            tokens.len() == (count * v.stride) * v.dim,
        ensures
            exists|inputs: Seq<Vec<u32>>, normed: Seq<Vec<u32>>| #[trigger]
                self.is_normed(*v, count as int, tokens@, inputs, normed, x@),
    {
        let (d, st): (usize, usize) = (v.dim, v.stride);
        proof {
            assert(count * st <= v.batch * st) by (nonlinear_arith)
                requires
                    count <= v.batch,
            ;
            assert((count * st) * d <= v.rows * d) by (nonlinear_arith)
                requires
                    count * st <= v.rows,
            ;
            assert(0 * d == 0) by (nonlinear_arith);
        }
        let n: usize = count * st;
        let mut x: Vec<u32> = Vec::new();
        let ghost mut inputs: Seq<Vec<u32>> = seq![];
        let ghost mut normed: Seq<Vec<u32>> = seq![];
        let mut r: usize = 0;
        while r < n
            invariant
                v.wf(),
                self.total(*v),
                d == v.dim,
                st == v.stride,
                n == count * st,
                tokens.len() == n * d,
                r <= n,
                x.len() == r * d,
                inputs.len() == r,
                normed.len() == r,
                forall|j: int| 0 <= j < r ==> #[trigger] self.row_normed(*v, tokens@, inputs, normed, x@, j),
            decreases n - r,
        {
            proof {
                row_inside(r as int, d as int, n as int);
            }
            let input: Vec<u32> = row(tokens, d, r);
            let mut out: Vec<u32> = Vec::new();
            if r % st < v.tokens {
                out = (self.norm)(&input);
            } else {
                pad_to(&mut out, d);
                proof {
                    assert(out@ =~= zeros(d as nat));
                }
            }
            let ghost was = x@;
            let ghost new = out;
            x.append(&mut out);
            proof {
                assert(x@ =~= was + new@);
                let (ins, outs) = (inputs.push(input), normed.push(new));
                assert forall|j: int| 0 <= j < r + 1 implies #[trigger] self.row_normed(*v, tokens@, ins, outs, x@, j) by {
                    row_inside(j, d as int, r as int + 1);
                    if j < r {
                        row_inside(j, d as int, r as int);
                        assert(self.row_normed(*v, tokens@, inputs, normed, was, j));
                        assert(row_at(x@, d as int, j) =~= row_at(was, d as int, j));
                    } else {
                        assert(row_at(x@, d as int, j) =~= new@);
                    }
                }
                inputs = ins;
                normed = outs;
            }
            r += 1;
        }
        let ghost was = x@;
        pad_to(&mut x, v.rows * d);
        proof {
            assert forall|r: int| 0 <= r < count * v.stride implies #[trigger] self.row_normed(
                *v,
                tokens@,
                inputs,
                normed,
                x@,
                r,
            ) by {
                row_inside(r, d as int, n as int);
                assert(self.row_normed(*v, tokens@, inputs, normed, was, r));
                assert(row_at(x@, d as int, r) =~= row_at(was, d as int, r));
            }
            assert forall|i: int| (count * v.stride) * v.dim <= i < x.len() implies #[trigger] x[i] == 0 by {
                assert(was.len() == n * d);
            }
            assert(self.is_normed(*v, count as int, tokens@, inputs, normed, x@));
        }
        x
    }

    /// The tower's input for images `g`.
    fn input(&self, v: &Vision, pixels: &Vec<u32>, cls: &Vec<u32>, pos: &Vec<u32>, g: &Group) -> (x: Vec<u32>)
        requires
            v.wf(),
            self.total(*v),
            g.count <= v.batch,
            (g.first + g.count) * (3 * (v.image_size * v.image_size)) <= pixels.len(),
            cls.len() == v.dim,
            pos.len() == v.tokens * v.dim,
        ensures
            exists|t: ImageRun| #[trigger] self.is_input(*v, pixels@, cls@, pos@, *g, t, x@),
    {
        let ghost gg = v.grid * v.grid;
        let ghost kp = v.patch_len();
        proof {
            assert(g.count * gg <= v.batch * gg) by (nonlinear_arith)
                requires
                    g.count <= v.batch,
                    gg >= 0,
            ;
            assert(v.patch * v.patch > 0) by (nonlinear_arith)
                requires
                    v.patch > 0,
            ;
            assert((g.count * gg) * kp <= (v.batch * gg) * kp) by (nonlinear_arith)
                requires
                    g.count * gg <= v.batch * gg,
                    kp > 0,
            ;
            assert(gg >= 0) by (nonlinear_arith)
                requires
                    gg == v.grid * v.grid,
            ;
            assert(g.count * v.stride <= v.batch * v.stride) by (nonlinear_arith)
                requires
                    g.count <= v.batch,
            ;
            assert((g.count * v.stride) * v.dim <= v.rows * v.dim) by (nonlinear_arith)
                requires
                    g.count * v.stride <= v.rows,
            ;
        }
        let p: Vec<u32> = patches(pixels, g.first, g.count, v.grid, v.patch, v.image_size);
        let emb: Vec<u32> = (self.embed)(&p);
        proof {
            let (n, d, m) = ((g.count * gg) as int, v.dim as int, emb.len() as int);
            assert(p.len() == n * kp);
            assert(m == n * d) by (nonlinear_arith)
                requires
                    m * kp == (n * kp) * d,
                    kp > 0,
            ;
        }
        let rows: Vec<u32> = token_rows(cls, &emb, pos, g.count, v.tokens, v.stride, v.dim, &self.plus);
        let x: Vec<u32> = self.normed(v, g.count, &rows);
        proof {
            let (inputs, normed) = choose|inputs: Seq<Vec<u32>>, normed: Seq<Vec<u32>>| #[trigger]
                self.is_normed(*v, g.count as int, rows@, inputs, normed, x@);
            let t = ImageRun { patches: p, embedded: emb, tokens: rows@, inputs, normed };
            assert(self.is_input(*v, pixels@, cls@, pos@, *g, t, x@));
        }
        x
    }

    /// Encodes images `g`.
    fn group(&self, v: &Vision, pixels: &Vec<u32>, cls: &Vec<u32>, pos: &Vec<u32>, g: &Group) -> (r: Result<Vec<u32>, Error>)
        requires
            v.wf(),
            self.total(*v),
            g.count <= v.batch,
            (g.first + g.count) * (3 * (v.image_size * v.image_size)) <= pixels.len(),
            cls.len() == v.dim,
            pos.len() == v.tokens * v.dim,
        ensures
            match r {
                Ok(s) => s.len() == g.count * v.embed_dim && self.is_encoded(*v, pixels@, cls@, pos@, *g, s@),
                Err(err) => self.is_refused(*v, pixels@, cls@, pos@, *g, err),
            },
    {
        let x: Vec<u32> = self.input(v, pixels, cls, pos, g);
        let mut at: Vec<usize> = Vec::new();
        let mut k: usize = 0;
        while k < g.count
            invariant
                v.wf(),
                g.count <= v.batch,
                k <= g.count,
                at.len() == k,
                forall|j: int| 0 <= j < k ==> (#[trigger] at[j]) == j * v.stride && at[j] < v.rows,
            decreases g.count - k,
        {
            proof {
                assert(0 <= k * v.stride < v.batch * v.stride) by (nonlinear_arith)
                    requires
                        0 <= k < v.batch,
                        v.stride > 0,
                ;
            }
            at.push(k * v.stride);
            k += 1;
        }
        proof {
            assert(places(at@) =~= every(g.count as nat, v.stride as int));
        }
        match through(&x, &at, v.rows, v.dim, v.embed_dim, &self.run, &self.head) {
            Ok(s) => Ok(s),
            Err(err) => Err(err),
        }
    }
}

/// Group `k` of a sequence of `n` inputs ends among them, and the next one
/// starts where it ends.
pub(crate) proof fn group_bounds(n: nat, batch: nat, k: int)
    requires
        batch > 0,
        0 < n <= usize::MAX,
        0 <= k < groups_from(0, n, batch).len(),
    ensures
        ({
            let g = groups_from(0, n, batch);
            &&& 0 < g[k].count <= batch
            &&& g[k].first + g[k].count <= n
            &&& g[0].first == 0
            &&& k + 1 < g.len() ==> g[k + 1].first == g[k].first + g[k].count
            &&& k + 1 == g.len() ==> g[k].first + g[k].count == n
        }),
    decreases groups_from(0, n, batch).len() - k,
{
    groups_cover(0, n, batch);
    let g = groups_from(0, n, batch);
    if k + 1 < g.len() {
        group_bounds(n, batch, k + 1);
        assert(g[k + 1].first == g[k].first + g[k].count);
    }
}

/// Where group `k` starts; past the last, where the inputs end.
pub open spec fn starts_at(g: Seq<Group>, n: nat, k: int) -> nat {
    if k < g.len() {
        g[k].first as nat
    } else {
        n
    }
}

/// Images to their embeddings, one after the other: `pixels` are `n` images
/// of three planes.
pub fn encode_images<
    A: Fn(u32, u32) -> u32,
    E: Fn(&Vec<u32>) -> Vec<u32>,
    P: Fn(&Vec<u32>) -> Vec<u32>,
    R: Fn(&Vec<u32>) -> Result<Vec<u32>, Error>,
    H: Fn(&Vec<u32>) -> Vec<u32>,
>(v: &Vision, pixels: &Vec<u32>, cls: &Vec<u32>, pos: &Vec<u32>, parts: &Images<A, E, P, R, H>) -> (r: Result<Vec<u32>, Error>)
    requires
        v.wf(),
        parts.total(*v),
        cls.len() == v.dim,
        pos.len() == v.tokens * v.dim,
    ensures
        ({
            let img = 3 * (v.image_size * v.image_size);
            let n = (pixels.len() as int / img) as nat;
            let g = groups_from(0, n, v.batch as nat);
            match r {
                Ok(s) => parts.encodes(*v, pixels@, cls@, pos@, s@),
                Err(err) => if pixels.len() == 0 || pixels.len() as int % img != 0 {
                    rejects(err, pixels_fault(v.image_size as nat))
                } else {
                    exists|k: int| 0 <= k < g.len() && parts.is_refused(*v, pixels@, cls@, pos@, #[trigger] g[k], err)
                },
            }
        }),
{
    let ghost img = 3 * (v.image_size * v.image_size);
    let n: usize = match check_pixels(pixels.len(), v.image_size) {
        Ok(n) => n,
        Err(err) => {
            return Err(err);
        },
    };
    proof {
        assert(img > 0) by (nonlinear_arith)
            requires
                img == 3 * (v.image_size * v.image_size),
                v.image_size > 0,
        ;
        split_index(n as int, 0, img);
    }
    let gs: Vec<Group> = groups(n, v.batch);
    let ghost g = groups_from(0, n as nat, v.batch as nat);
    let e: usize = v.embed_dim;
    let mut s: Vec<u32> = Vec::new();
    let mut k: usize = 0;
    proof {
        groups_cover(0, n as nat, v.batch as nat);
        assert(0 * e == 0) by (nonlinear_arith);
    }
    while k < gs.len()
        invariant
            v.wf(),
            parts.total(*v),
            cls.len() == v.dim,
            pos.len() == v.tokens * v.dim,
            img == 3 * (v.image_size * v.image_size),
            img > 0,
            n > 0,
            n * img == pixels.len(),
            n == pixels.len() as int / img,
            pixels.len() as int % img == 0,
            g == groups_from(0, n as nat, v.batch as nat),
            gs@ == g,
            e == v.embed_dim,
            k <= gs.len(),
            s.len() == starts_at(g, n as nat, k as int) * e,
            forall|j: int|
                0 <= j < k ==> (#[trigger] g[j]).first + g[j].count <= starts_at(g, n as nat, k as int)
                    && parts.is_encoded(
                    *v,
                    pixels@,
                    cls@,
                    pos@,
                    g[j],
                    s@.subrange(g[j].first * e, (g[j].first + g[j].count) * e),
                ),
        decreases gs.len() - k,
    {
        proof {
            group_bounds(n as nat, v.batch as nat, k as int);
            assert((g[k as int].first + g[k as int].count) * img <= n * img) by (nonlinear_arith)
                requires
                    g[k as int].first + g[k as int].count <= n,
                    img > 0,
            ;
        }
        let mut part: Vec<u32> = match parts.group(v, pixels, cls, pos, &gs[k]) {
            Ok(p) => p,
            Err(err) => {
                proof {
                    assert(parts.is_refused(*v, pixels@, cls@, pos@, g[k as int], err));
                }
                return Err(err);
            },
        };
        let ghost was = s@;
        let ghost new = part@;
        s.append(&mut part);
        proof {
            let (a, c) = (g[k as int].first as int, g[k as int].count as int);
            assert(s@ =~= was + new);
            assert((a + c) * e == a * e + c * e) by (nonlinear_arith);
            let next = starts_at(g, n as nat, k + 1);
            assert(next == a + c);
            assert forall|j: int| 0 <= j < k + 1 implies (#[trigger] g[j]).first + g[j].count <= next && parts.is_encoded(
                *v,
                pixels@,
                cls@,
                pos@,
                g[j],
                s@.subrange(g[j].first * e, (g[j].first + g[j].count) * e),
            ) by {
                let (f, m) = (g[j].first as int, g[j].count as int);
                assert(0 <= f * e <= (f + m) * e) by (nonlinear_arith)
                    requires
                        0 <= f,
                        0 <= m,
                        e >= 0,
                ;
                if j < k {
                    assert((f + m) * e <= a * e) by (nonlinear_arith)
                        requires
                            f + m <= a,
                            e >= 0,
                    ;
                    assert(s@.subrange(f * e, (f + m) * e) =~= was.subrange(f * e, (f + m) * e));
                } else {
                    assert(s@.subrange(f * e, (f + m) * e) =~= new);
                }
            }
        }
        k += 1;
    }
    Ok(s)
}

// ----------------------------------------------------------------------------
// Prompts
// ----------------------------------------------------------------------------

/// The sizes of the text tower and its input, and what ends a prompt.
pub struct Words {
    pub context: usize,
    pub dim: usize,
    pub pad: usize,
    pub batch: usize,
    pub rows: usize,
    pub embed_dim: usize,
    pub vocab: usize,
    pub eos: u32,
    pub highest: bool,
}

impl Words {
    /// Prompts `pad` rows apart, and a batch of them in the tower's rows.
    pub open spec fn wf(&self) -> bool {
        &&& self.dim > 0 && self.batch > 0
        &&& 0 < self.context <= self.pad
        &&& self.batch * self.pad <= self.rows
        &&& self.rows * self.dim <= usize::MAX
    }

    /// Prompt `i`'s token ids.
    pub open spec fn prompt(&self, ids: Seq<u32>, i: int) -> Seq<u32> {
        row_at(ids, self.context as int, i)
    }

    /// `at` are the rows of the end tokens of prompts `g`.
    pub open spec fn are_ends(&self, ids: Seq<u32>, g: Group, at: Seq<int>) -> bool {
        &&& at.len() == g.count
        &&& forall|k: int|
            0 <= k < g.count ==> is_end(self.prompt(ids, g.first + k), self.eos, self.highest, #[trigger] at[k] - k * self.pad)
    }
}

/// Arithmetic of the text encoder, on bit patterns.
pub struct Prompts<A, R, H> {
    /// A sum.
    pub plus: A,
    /// The tower.
    pub run: R,
    /// A state to its embedding.
    pub head: H,
}

impl<A: Fn(u32, u32) -> u32, R: Fn(&Vec<u32>) -> Result<Vec<u32>, Error>, H: Fn(&Vec<u32>) -> Vec<u32>> Prompts<A, R, H> {
    /// Everything is taken, and what comes back has its size.
    pub open spec fn total(&self, w: Words) -> bool {
        &&& forall|a: u32, b: u32| call_requires(self.plus, (a, b))
        &&& tower_answers(self.run, (w.rows * w.dim) as nat)
        &&& head_makes(self.head, w.embed_dim as nat)
    }

    /// `x` is what the tower is given for prompts `g`: their tokens' rows,
    /// zeros between the prompts and after them.
    pub open spec fn is_input(&self, w: Words, ids: Seq<u32>, tok: Seq<u32>, pos: Seq<u32>, g: Group, x: Seq<u32>) -> bool {
        &&& x.len() == w.rows * w.dim
        &&& forall|i: int|
            0 <= i < (g.count * w.pad) * w.dim ==> is_embedded(
                self.plus,
                ids,
                g.first as int,
                w.context as int,
                w.pad as int,
                w.dim as int,
                tok,
                pos,
                i,
                #[trigger] x[i],
            )
        &&& forall|i: int| (g.count * w.pad) * w.dim <= i < x.len() ==> #[trigger] x[i] == 0
    }

    /// `s` are the embeddings of prompts `g`: those of their end tokens'
    /// states.
    pub open spec fn is_encoded(&self, w: Words, ids: Seq<u32>, tok: Seq<u32>, pos: Seq<u32>, g: Group, s: Seq<u32>) -> bool {
        exists|x: Vec<u32>, at: Seq<int>|
            self.is_input(w, ids, tok, pos, g, x@) && w.are_ends(ids, g, at) && #[trigger] passes(
                self.run,
                self.head,
                w.dim as int,
                at,
                w.embed_dim as nat,
                x,
                s,
            )
    }

    /// The tower refused prompts `g` with `err`.
    pub open spec fn is_refused(&self, w: Words, ids: Seq<u32>, tok: Seq<u32>, pos: Seq<u32>, g: Group, err: Error) -> bool {
        exists|x: Vec<u32>|
            self.is_input(w, ids, tok, pos, g, x@) && #[trigger] call_ensures(
                self.run,
                (&x,),
                Err::<Vec<u32>, Error>(err),
            )
    }

    /// `r` is what becomes of ids, `context` each: the embeddings of all
    /// prompts in order, or what is wrong with them, or the tower's refusal.
    pub open spec fn answers(
        &self,
        w: Words,
        ids: Seq<u32>,
        tok: Seq<u32>,
        pos: Seq<u32>,
        r: Result<Vec<u32>, Error>,
    ) -> bool {
        let n = (ids.len() as int / (w.context as int)) as nat;
        let g = groups_from(0, n, w.batch as nat);
        match r {
            Ok(s) => {
                &&& ids.len() > 0 && ids.len() as int % (w.context as int) == 0
                &&& first_unknown(ids, w.vocab as nat) is None
                &&& s.len() == n * w.embed_dim
                &&& forall|k: int|
                    0 <= k < g.len() ==> self.is_encoded(
                        w,
                        ids,
                        tok,
                        pos,
                        #[trigger] g[k],
                        s@.subrange(g[k].first * w.embed_dim, (g[k].first + g[k].count) * w.embed_dim),
                    )
            },
            Err(err) => if ids.len() == 0 || ids.len() as int % (w.context as int) != 0 {
                rejects(err, ids_fault(w.context as nat))
            } else {
                match first_unknown(ids, w.vocab as nat) {
                    Some(id) => rejects(err, vocabulary_fault(id as nat, w.vocab as nat)),
                    None => exists|k: int| 0 <= k < g.len() && self.is_refused(w, ids, tok, pos, #[trigger] g[k], err),
                }
            },
        }
    }

    /// Encodes prompts `g`.
    fn group(&self, w: &Words, ids: &Vec<u32>, tok: &Vec<u32>, pos: &Vec<u32>, g: &Group) -> (r: Result<Vec<u32>, Error>)
        requires
            w.wf(),
            self.total(*w),
            g.count <= w.batch,
            (g.first + g.count) * w.context <= ids.len(),
            forall|i: int| 0 <= i < ids.len() ==> #[trigger] ids[i] < w.vocab,
            w.vocab * w.dim <= tok.len(),
            w.context * w.dim <= pos.len(),
        ensures
            match r {
                Ok(s) => s.len() == g.count * w.embed_dim && self.is_encoded(*w, ids@, tok@, pos@, *g, s@),
                Err(err) => self.is_refused(*w, ids@, tok@, pos@, *g, err),
            },
    {
        let (l, d, sp): (usize, usize, usize) = (w.context, w.dim, w.pad);
        proof {
            assert forall|i: int| 0 <= i < ids.len() implies (#[trigger] ids[i]) * d + d <= tok.len() by {
                row_inside(ids[i] as int, d as int, w.vocab as int);
            }
            assert(g.count * sp <= w.batch * sp) by (nonlinear_arith)
                requires
                    g.count <= w.batch,
            ;
            assert((g.count * sp) * d <= w.rows * d) by (nonlinear_arith)
                requires
                    g.count * sp <= w.rows,
            ;
        }
        let mut x: Vec<u32> = prompt_rows(ids, g.first, g.count, l, sp, d, tok, pos, &self.plus);
        let ghost was = x@;
        pad_to(&mut x, w.rows * d);
        proof {
            assert forall|i: int| 0 <= i < (g.count * w.pad) * w.dim implies is_embedded(
                self.plus,
                ids@,
                g.first as int,
                w.context as int,
                w.pad as int,
                w.dim as int,
                tok@,
                pos@,
                i,
                #[trigger] x@[i],
            ) by {
                assert(x@[i] == was[i]);
            }
            assert(self.is_input(*w, ids@, tok@, pos@, *g, x@));
        }
        let mut at: Vec<usize> = Vec::new();
        let mut k: usize = 0;
        while k < g.count
            invariant
                w.wf(),
                l == w.context,
                sp == w.pad,
                g.count <= w.batch,
                (g.first + g.count) * l <= ids.len(),
                k <= g.count,
                at.len() == k,
                forall|j: int|
                    0 <= j < k ==> (#[trigger] at[j]) < w.rows && is_end(
                        w.prompt(ids@, g.first + j),
                        w.eos,
                        w.highest,
                        at[j] - j * sp,
                    ),
            decreases g.count - k,
        {
            proof {
                row_inside(g.first + k, l as int, g.first + g.count);
                assert(g.first + g.count <= (g.first + g.count) * l) by (nonlinear_arith)
                    requires
                        l >= 1,
                        g.first + g.count >= 0,
                ;
                assert(k * sp + sp <= w.batch * sp && 0 <= k * sp) by (nonlinear_arith)
                    requires
                        0 <= k < w.batch,
                        sp >= 0,
                ;
            }
            let prompt: Vec<u32> = row(ids, l, g.first + k);
            let end: usize = end_token(prompt.as_slice(), w.eos, w.highest);
            at.push(k * sp + end);
            k += 1;
        }
        proof {
            assert(w.are_ends(ids@, *g, places(at@)));
        }
        match through(&x, &at, w.rows, d, w.embed_dim, &self.run, &self.head) {
            Ok(s) => Ok(s),
            Err(err) => Err(err),
        }
    }
}

/// Prompts' token ids, `context` each, to their embeddings, one after the
/// other.
pub fn encode_token_ids<
    A: Fn(u32, u32) -> u32,
    R: Fn(&Vec<u32>) -> Result<Vec<u32>, Error>,
    H: Fn(&Vec<u32>) -> Vec<u32>,
>(w: &Words, ids: &Vec<u32>, tok: &Vec<u32>, pos: &Vec<u32>, parts: &Prompts<A, R, H>) -> (r: Result<Vec<u32>, Error>)
    requires
        w.wf(),
        parts.total(*w),
        w.vocab * w.dim <= tok.len(),
        w.context * w.dim <= pos.len(),
    ensures
        parts.answers(*w, ids@, tok@, pos@, r),
{
    let ghost l = w.context as int;
    let n: usize = match check_ids(ids, w.context, w.vocab) {
        Ok(n) => n,
        Err(err) => {
            return Err(err);
        },
    };
    proof {
        split_index(n as int, 0, l);
        assert(n * l > 0) by (nonlinear_arith)
            requires
                n > 0,
                l > 0,
        ;
        all_known(ids@, w.vocab as nat);
    }
    let gs: Vec<Group> = groups(n, w.batch);
    let ghost g = groups_from(0, n as nat, w.batch as nat);
    let e: usize = w.embed_dim;
    let mut s: Vec<u32> = Vec::new();
    let mut k: usize = 0;
    proof {
        groups_cover(0, n as nat, w.batch as nat);
        assert(0 * e == 0) by (nonlinear_arith);
    }
    while k < gs.len()
        invariant
            w.wf(),
            parts.total(*w),
            w.vocab * w.dim <= tok.len(),
            w.context * w.dim <= pos.len(),
            l == w.context,
            n > 0,
            n * l == ids.len(),
            ids.len() > 0,
            n == ids.len() as int / l,
            ids.len() as int % l == 0,
            forall|i: int| 0 <= i < ids.len() ==> #[trigger] ids[i] < w.vocab,
            first_unknown(ids@, w.vocab as nat) is None,
            g == groups_from(0, n as nat, w.batch as nat),
            gs@ == g,
            e == w.embed_dim,
            k <= gs.len(),
            s.len() == starts_at(g, n as nat, k as int) * e,
            forall|j: int|
                0 <= j < k ==> (#[trigger] g[j]).first + g[j].count <= starts_at(g, n as nat, k as int)
                    && parts.is_encoded(
                    *w,
                    ids@,
                    tok@,
                    pos@,
                    g[j],
                    s@.subrange(g[j].first * e, (g[j].first + g[j].count) * e),
                ),
        decreases gs.len() - k,
    {
        proof {
            group_bounds(n as nat, w.batch as nat, k as int);
            assert((g[k as int].first + g[k as int].count) * l <= n * l) by (nonlinear_arith)
                requires
                    g[k as int].first + g[k as int].count <= n,
                    l > 0,
            ;
        }
        let mut part: Vec<u32> = match parts.group(w, ids, tok, pos, &gs[k]) {
            Ok(p) => p,
            Err(err) => {
                proof {
                    assert(parts.is_refused(*w, ids@, tok@, pos@, g[k as int], err));
                    assert(exists|k: int| 0 <= k < g.len() && parts.is_refused(*w, ids@, tok@, pos@, #[trigger] g[k], err));
                }
                return Err(err);
            },
        };
        let ghost was = s@;
        let ghost new = part@;
        s.append(&mut part);
        proof {
            let (a, c) = (g[k as int].first as int, g[k as int].count as int);
            assert(s@ =~= was + new);
            assert((a + c) * e == a * e + c * e) by (nonlinear_arith);
            let next = starts_at(g, n as nat, k + 1);
            assert(next == a + c);
            assert forall|j: int| 0 <= j < k + 1 implies (#[trigger] g[j]).first + g[j].count <= next && parts.is_encoded(
                *w,
                ids@,
                tok@,
                pos@,
                g[j],
                s@.subrange(g[j].first * e, (g[j].first + g[j].count) * e),
            ) by {
                let (f, m) = (g[j].first as int, g[j].count as int);
                assert(0 <= f * e <= (f + m) * e) by (nonlinear_arith)
                    requires
                        0 <= f,
                        0 <= m,
                        e >= 0,
                ;
                if j < k {
                    assert((f + m) * e <= a * e) by (nonlinear_arith)
                        requires
                            f + m <= a,
                            e >= 0,
                    ;
                    assert(s@.subrange(f * e, (f + m) * e) =~= was.subrange(f * e, (f + m) * e));
                } else {
                    assert(s@.subrange(f * e, (f + m) * e) =~= new);
                }
            }
        }
        k += 1;
    }
    Ok(s)
}

/// The ids of texts, one after the other.
pub open spec fn all_ids(t: Tokenizer, texts: Seq<String>) -> Seq<u32>
    decreases texts.len(),
{
    if texts.len() == 0 {
        seq![]
    } else {
        all_ids(t, texts.drop_last()) + resized(t.ids(normalized(texts.last()@)), t.max_len as nat, t.pad)
    }
}

/// Tokenizes texts, one after the other.
pub fn token_ids(t: &Tokenizer, texts: &Vec<String>) -> (r: Vec<u32>)
    ensures
        r@ == all_ids(*t, texts@),
{
    let mut out: Vec<u32> = Vec::new();
    let mut i: usize = 0;
    while i < texts.len()
        invariant
            i <= texts.len(),
            out@ == all_ids(*t, texts@.take(i as int)),
        decreases texts.len() - i,
    {
        let (mut ids, _mask): (Vec<u32>, Vec<u32>) = t.encode(texts[i].as_str());
        out.append(&mut ids);
        proof {
            assert(texts@.take(i + 1).drop_last() =~= texts@.take(i as int));
        }
        i += 1;
    }
    proof {
        assert(texts@.take(texts.len() as int) =~= texts@);
    }
    out
}

/// Texts to their embeddings, one after the other.
pub fn encode_texts<
    A: Fn(u32, u32) -> u32,
    R: Fn(&Vec<u32>) -> Result<Vec<u32>, Error>,
    H: Fn(&Vec<u32>) -> Vec<u32>,
>(w: &Words, t: &Tokenizer, texts: &Vec<String>, tok: &Vec<u32>, pos: &Vec<u32>, parts: &Prompts<A, R, H>) -> (r: Result<
    Vec<u32>,
    Error,
>)
    requires
        w.wf(),
        parts.total(*w),
        w.vocab * w.dim <= tok.len(),
        w.context * w.dim <= pos.len(),
    ensures
        parts.answers(*w, all_ids(*t, texts@), tok@, pos@, r),
{
    let ids: Vec<u32> = token_ids(t, texts);
    encode_token_ids(w, &ids, tok, pos, parts)
}

/// Texts tokenized to the context's length make a row of ids each.
pub proof fn texts_make_rows(t: Tokenizer, texts: Seq<String>)
    ensures
        all_ids(t, texts).len() == texts.len() * t.max_len,
    decreases texts.len(),
{
    if texts.len() > 0 {
        texts_make_rows(t, texts.drop_last());
        let (n, m) = (texts.len() as int, t.max_len as int);
        assert(n * m == (n - 1) * m + m) by (nonlinear_arith);
    } else {
        assert(texts.len() * t.max_len == 0) by (nonlinear_arith)
            requires
                texts.len() == 0,
        ;
    }
}

/// Ids that are all in the vocabulary hold none that is not.
proof fn all_known(ids: Seq<u32>, vocab: nat)
    requires
        forall|i: int| 0 <= i < ids.len() ==> #[trigger] ids[i] < vocab,
    ensures
        first_unknown(ids, vocab) is None,
    decreases ids.len(),
{
    if ids.len() > 0 {
        assert forall|i: int| 0 <= i < ids.skip(1).len() implies #[trigger] ids.skip(1)[i] < vocab by {
            assert(ids.skip(1)[i] == ids[i + 1]);
        }
        all_known(ids.skip(1), vocab);
    }
}

/// Input `i` of a batched sequence is in one group, at its own place after
/// the group's first.
pub proof fn inputs_find_their_group(n: nat, batch: nat, i: nat) -> (k: int)
    requires
        batch > 0,
        i < n <= usize::MAX,
    ensures
        ({
            let g = groups_from(0, n, batch);
            0 <= k < g.len() && g[k].first <= i < g[k].first + g[k].count
        }),
{
    let g = groups_from(0, n, batch);
    groups_cover(0, n, batch);
    find_from(n, batch, i, 0)
}

proof fn find_from(n: nat, batch: nat, i: nat, k: int) -> (r: int)
    requires
        batch > 0,
        i < n <= usize::MAX,
        0 <= k < groups_from(0, n, batch).len(),
        groups_from(0, n, batch)[k].first <= i,
    ensures
        ({
            let g = groups_from(0, n, batch);
            0 <= r < g.len() && g[r].first <= i < g[r].first + g[r].count
        }),
    decreases groups_from(0, n, batch).len() - k,
{
    group_bounds(n, batch, k);
    let g = groups_from(0, n, batch);
    if i < g[k].first + g[k].count {
        k
    } else {
        find_from(n, batch, i, k + 1)
    }
}

} // verus!
