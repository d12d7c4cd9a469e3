//! What CLIP's encoders do around the device: checking and grouping their
//! inputs, laying tokens out in rows, and finding what to pool.

use crate::arith::{index_bound, index_parts};
use crate::sam3::{rejects, Error};
use crate::text::{cat2, cat5, chars_of, decimal, decimal_of, starts_with, string_of};
use vstd::prelude::*;

verus! {

// ----------------------------------------------------------------------------
// Groups
// ----------------------------------------------------------------------------

/// Inputs `first..first + count`.
#[derive(Debug, Clone, Copy, PartialEq, Eq)]
pub struct Group {
    pub first: usize,
    pub count: usize,
}

/// `n` inputs from `first` on, `batch` at a time, the last group what is
/// left.
pub open spec fn groups_from(first: nat, n: nat, batch: nat) -> Seq<Group>
    decreases
            if first < n {
                n - first
            } else {
                0
            },
{
    if first >= n || batch == 0 {
        Seq::empty()
    } else {
        let count = if n - first < batch {
            (n - first) as nat
        } else {
            batch
        };
        seq![Group { first: first as usize, count: count as usize }] + groups_from(first + batch, n, batch)
    }
}

/// `n` inputs, `batch` at a time.
pub fn groups(n: usize, batch: usize) -> (r: Vec<Group>)
    requires
        batch > 0,
    ensures
        r@ == groups_from(0, n as nat, batch as nat),
{
    let mut out: Vec<Group> = Vec::new();
    let mut first: usize = 0;
    let mut more = n > 0;
    proof {
        assert(out@ + groups_from(0, n as nat, batch as nat) =~= groups_from(0, n as nat, batch as nat));
    }
    while more
        invariant
            batch > 0,
            more ==> first < n,
            more ==> out@ + groups_from(first as nat, n as nat, batch as nat) == groups_from(0, n as nat, batch as nat),
            !more ==> out@ == groups_from(0, n as nat, batch as nat),
        decreases n - first, more as int,
    {
        let rest: usize = n - first;
        let count: usize = if rest < batch {
            rest
        } else {
            batch
        };
        let ghost before = out@;
        let ghost tail = groups_from((first + batch) as nat, n as nat, batch as nat);
        out.push(Group { first, count });
        proof {
            assert(before + (seq![Group { first, count }] + tail) =~= out@ + tail);
        }
        if rest <= batch {
            proof {
                assert(tail =~= Seq::empty());
                assert(out@ + tail =~= out@);
            }
            more = false;
        } else {
            first = first + batch;
        }
    }
    out
}

/// The groups take every input once, in order: each begins where the one
/// before ends.
pub proof fn groups_cover(first: nat, n: nat, batch: nat)
    requires
        batch > 0,
        first < n <= usize::MAX,
    ensures
        ({
            let g = groups_from(first, n, batch);
            &&& g.len() > 0
            &&& g[0].first == first
            &&& g.last().first + g.last().count == n
            &&& forall|i: int| 0 <= i < g.len() ==> 0 < (#[trigger] g[i]).count <= batch
            &&& forall|i: int| 0 < i < g.len() ==> (#[trigger] g[i]).first == g[i - 1].first + g[i - 1].count
        }),
    decreases n - first,
{
    let g = groups_from(first, n, batch);
    let t = groups_from(first + batch, n, batch);
    if first + batch < n {
        groups_cover(first + batch, n, batch);
        assert(g.last() == t.last());
        assert forall|i: int| 0 < i < g.len() implies (#[trigger] g[i]).first == g[i - 1].first + g[i - 1].count by {
            assert(g[i] == t[i - 1]);
            if i > 1 {
                assert(g[i - 1] == t[i - 2]);
            }
        }
        assert forall|i: int| 0 <= i < g.len() implies 0 < (#[trigger] g[i]).count <= batch by {
            if i > 0 {
                assert(g[i] == t[i - 1]);
            }
        }
    } else {
        assert(t =~= Seq::empty());
    }
}

// ----------------------------------------------------------------------------
// Images
// ----------------------------------------------------------------------------

pub open spec fn pixels_fault(size: nat) -> Seq<char> {
    "pixels must be [n, 3, "@ + decimal(size) + ", "@ + decimal(size) + "]"@
}

/// How many images of `size` pixels a side `len` values are.
pub fn check_pixels(len: usize, size: usize) -> (r: Result<usize, Error>)
    requires
        0 < size,
        3 * (size * size) <= usize::MAX,
    ensures
        match r {
            Ok(n) => n > 0 && n * (3 * (size * size)) == len,
            Err(e) => (len == 0 || len as int % (3 * (size * size)) != 0) && rejects(e, pixels_fault(size as nat)),
        },
{
    proof {
        assert(size * size > 0) by (nonlinear_arith)
            requires
                size > 0,
        ;
    }
    let img: usize = 3 * (size * size);
    if len == 0 || len % img != 0 {
        let s = decimal_of(size as u128);
        return Err(Error::Input(cat5("pixels must be [n, 3, ", s.as_str(), ", ", s.as_str(), "]")));
    }
    let n: usize = len / img;
    proof {
        vstd::arithmetic::div_mod::lemma_fundamental_div_mod(len as int, img as int);
        assert(n * img == len) by (nonlinear_arith)
            requires
                len == img * n + 0,
        ;
        assert(n > 0) by (nonlinear_arith)
            requires
                n * img == len,
                len > 0,
                n >= 0,
        ;
    }
    Ok(n)
}

/// Where in the images the value of a patch matrix stands: its row is the
/// image and the patch (row-major), its column the channel and the pixel
/// inside the patch (row-major).
pub open spec fn patch_place(first: int, g: int, ps: int, s: int, i: int) -> int {
    let (row, col) = (i / (3 * (ps * ps)), i % (3 * (ps * ps)));
    let (image, patch) = (first + row / (g * g), row % (g * g));
    let (ch, pixel) = (col / (ps * ps), col % (ps * ps));
    let (y, x) = ((patch / g) * ps + pixel / ps, (patch % g) * ps + pixel % ps);
    image * (3 * (s * s)) + (ch * (s * s) + (y * s + x))
}

pub(crate) proof fn patch_bounds(first: int, count: int, g: int, ps: int, s: int, i: int)
    requires
        0 <= first,
        0 <= count,
        0 < g,
        0 < ps,
        g * ps <= s,
        0 <= i < (count * (g * g)) * (3 * (ps * ps)),
    ensures
        ({
            let (row, col) = (i / (3 * (ps * ps)), i % (3 * (ps * ps)));
            let (image, patch) = (first + row / (g * g), row % (g * g));
            let (ch, pixel) = (col / (ps * ps), col % (ps * ps));
            let (y, x) = ((patch / g) * ps + pixel / ps, (patch % g) * ps + pixel % ps);
            &&& ps * ps > 0 && g * g > 0
            &&& 0 <= row
            &&& 0 <= row / (g * g) < count
            &&& 0 <= patch / g && 0 <= patch % g
            &&& 0 <= (patch / g) * ps && 0 <= (patch % g) * ps
            &&& 0 <= ch < 3
            &&& 0 <= y < s && 0 <= x < s
            &&& 0 <= y * s && y * s + x < s * s
            &&& 0 <= ch * (s * s) && ch * (s * s) + (y * s + x) < 3 * (s * s)
            &&& 0 <= image * (3 * (s * s))
            &&& patch_place(first, g, ps, s, i) < (first + count) * (3 * (s * s))
        }),
{
    let (q, gg) = (ps * ps, g * g);
    assert(q > 0 && gg > 0) by (nonlinear_arith)
        requires
            ps > 0,
            g > 0,
            q == ps * ps,
            gg == g * g,
    ;
    index_parts(i, count * gg, 3 * q);
    let (row, col) = (i / (3 * q), i % (3 * q));
    index_parts(row, count, gg);
    let patch = row % gg;
    index_parts(col, 3, q);
    let (ch, pixel) = (col / q, col % q);
    index_parts(pixel, ps, ps);
    index_parts(patch, g, g);
    index_bound(patch / g, pixel / ps, g, ps);
    index_bound(patch % g, pixel % ps, g, ps);
    let (y, x) = ((patch / g) * ps + pixel / ps, (patch % g) * ps + pixel % ps);
    index_bound(y, x, s, s);
    index_bound(ch, y * s + x, 3, s * s);
    let image = first + row / gg;
    index_bound(image, ch * (s * s) + (y * s + x), first + count, 3 * (s * s));
    assert(0 <= (patch / g) * ps && 0 <= (patch % g) * ps && 0 <= y * s && 0 <= ch * (s * s) && 0 <= image * (3 * (s * s)))
        by (nonlinear_arith)
        requires
            patch / g >= 0,
            patch % g >= 0,
            ps >= 0,
            y >= 0,
            s >= 0,
            ch >= 0,
            image >= 0,
    ;
}

/// The patches of images `first..first + count`, `grid` a side of `patch`
/// pixels, one a row.
pub fn patches(pixels: &Vec<u32>, first: usize, count: usize, grid: usize, patch: usize, size: usize) -> (r: Vec<u32>)
    requires
        0 < grid,
        0 < patch,
        grid * patch <= size,
        (first + count) * (3 * (size * size)) <= pixels.len(),
        (count * (grid * grid)) * (3 * (patch * patch)) <= usize::MAX,
    ensures
        r@ == Seq::new(
            ((count * (grid * grid)) * (3 * (patch * patch))) as nat,
            |i: int| pixels@[patch_place(first as int, grid as int, patch as int, size as int, i)],
        ),
{
    let mut out: Vec<u32> = Vec::new();
    if count == 0 {
        proof {
            let (gg, kp) = (grid * grid, 3 * (patch * patch));
            assert((count * gg) * kp == 0) by (nonlinear_arith)
                requires
                    count == 0,
            ;
            assert(out@ =~= Seq::new(
                0,
                |i: int| pixels@[patch_place(first as int, grid as int, patch as int, size as int, i)],
            ));
        }
        return out;
    }
    let ghost (f, c, g, ps, s) = (first as int, count as int, grid as int, patch as int, size as int);
    proof {
        assert(ps * ps >= 1 && g * g >= 1) by (nonlinear_arith)
            requires
                ps >= 1,
                g >= 1,
        ;
        let (gg, kp) = (g * g, 3 * (ps * ps));
        assert(gg <= c * gg && c * gg <= (c * gg) * kp && kp <= (c * gg) * kp) by (nonlinear_arith)
            requires
                c >= 1,
                gg >= 1,
                kp >= 1,
        ;
        assert(s * s <= (f + c) * (3 * (s * s))) by (nonlinear_arith)
            requires
                f >= 0,
                c >= 1,
        ;
        assert(3 * (s * s) <= (f + c) * (3 * (s * s))) by (nonlinear_arith)
            requires
                f >= 0,
                c >= 1,
        ;
        assert(g * ps >= 1) by (nonlinear_arith)
            requires
                g >= 1,
                ps >= 1,
        ;
        assert(s <= s * s) by (nonlinear_arith)
            requires
                s >= 1,
        ;
        assert(f + c <= (f + c) * (3 * (s * s))) by (nonlinear_arith)
            requires
                f + c >= 0,
                s * s >= 1,
        ;
    }
    let area: usize = grid * grid;
    let cell: usize = patch * patch;
    let plane: usize = size * size;
    let image_len: usize = 3 * plane;
    let total: usize = (count * area) * (3 * cell);
    let ghost want = Seq::new(total as nat, |i: int| pixels@[patch_place(f, g, ps, s, i)]);
    let mut i: usize = 0;
    while i < total
        invariant
            f == first,
            c == count,
            g == grid,
            ps == patch,
            s == size,
            0 < g,
            0 < ps,
            g * ps <= s,
            c >= 1,
            first + count <= usize::MAX,
            area == g * g,
            cell == ps * ps,
            plane == s * s,
            image_len == 3 * plane,
            total == (c * (g * g)) * (3 * (ps * ps)),
            (f + c) * (3 * (s * s)) <= pixels.len(),
            want == Seq::new(total as nat, |i: int| pixels@[patch_place(f, g, ps, s, i)]),
            i <= total,
            out@ =~= want.take(i as int),
            area > 0,
            cell > 0,
            3 * cell <= usize::MAX,
        decreases total - i,
    {
        proof {
            patch_bounds(f, c, g, ps, s, i as int);
        }
        let row: usize = i / (3 * cell);
        let col: usize = i % (3 * cell);
        let p: usize = row % area;
        let ch: usize = col / cell;
        let pixel: usize = col % cell;
        let y: usize = (p / grid) * patch + pixel / patch;
        let x: usize = (p % grid) * patch + pixel % patch;
        let at: usize = (first + row / area) * image_len + (ch * plane + (y * size + x));
        assert(at == patch_place(f, g, ps, s, i as int));
        out.push(pixels[at]);
        i = i + 1;
    }
    proof {
        assert(want.take(total as int) =~= want);
    }
    out
}

/// The first term of element `j` of a token: the class embedding for the
/// first token of an image, a patch's for the others.
pub open spec fn token_term(cls: Seq<u32>, emb: Seq<u32>, image: int, tok: int, patches: int, d: int, j: int) -> u32 {
    if tok == 0 {
        cls[j]
    } else {
        emb[(image * patches + (tok - 1)) * d + j]
    }
}

/// Whether `v` is element `i` of the token rows: a token's embedding plus
/// its position's, and zero in the rows between images.
pub open spec fn is_token<A: Fn(u32, u32) -> u32>(
    plus: A,
    cls: Seq<u32>,
    emb: Seq<u32>,
    pos: Seq<u32>,
    tokens: int,
    stride: int,
    d: int,
    i: int,
    v: u32,
) -> bool {
    let (row, j) = (i / d, i % d);
    let (image, tok) = (row / stride, row % stride);
    if tok >= tokens {
        v == 0
    } else {
        call_ensures(plus, (token_term(cls, emb, image, tok, tokens - 1, d, j), pos[tok * d + j]), v)
    }
}

/// `[CLS | patches]` plus the position embedding, image `k`'s tokens in
/// rows `k * stride ..`, before their LayerNorm.
pub fn token_rows<A: Fn(u32, u32) -> u32>(
    cls: &Vec<u32>,
    emb: &Vec<u32>,
    pos: &Vec<u32>,
    images: usize,
    tokens: usize,
    stride: usize,
    d: usize,
    plus: &A,
) -> (r: Vec<u32>)
    requires
        0 < d,
        0 < tokens <= stride,
        cls.len() == d,
        emb.len() == (images * (tokens - 1)) * d,
        pos.len() == tokens * d,
        (images * stride) * d <= usize::MAX,
        forall|a: u32, b: u32| call_requires(*plus, (a, b)),
    ensures
        r.len() == (images * stride) * d,
        forall|i: int|
            0 <= i < r.len() ==> is_token(
                *plus,
                cls@,
                emb@,
                pos@,
                tokens as int,
                stride as int,
                d as int,
                i,
                #[trigger] r[i],
            ),
{
    let mut out: Vec<u32> = Vec::new();
    if images == 0 {
        proof {
            assert((images * stride) * d == 0) by (nonlinear_arith)
                requires
                    images == 0,
            ;
        }
        return out;
    }
    proof {
        assert(images * stride <= (images * stride) * d) by (nonlinear_arith)
            requires
                d >= 1,
                images >= 0,
                stride >= 0,
        ;
    }
    let total: usize = (images * stride) * d;
    let mut i: usize = 0;
    while i < total
        invariant
            0 < d,
            0 < tokens <= stride,
            images >= 1,
            cls.len() == d,
            emb.len() == (images * (tokens - 1)) * d,
            pos.len() == tokens * d,
            total == (images * stride) * d,
            forall|a: u32, b: u32| call_requires(*plus, (a, b)),
            i <= total,
            out.len() == i,
            forall|k: int|
                0 <= k < i ==> is_token(
                    *plus,
                    cls@,
                    emb@,
                    pos@,
                    tokens as int,
                    stride as int,
                    d as int,
                    k,
                    #[trigger] out[k],
                ),
        decreases total - i,
    {
        proof {
            index_parts(i as int, images * stride, d as int);
            index_parts((i as int) / (d as int), images as int, stride as int);
        }
        let row: usize = i / d;
        let j: usize = i % d;
        let image: usize = row / stride;
        let tok: usize = row % stride;
        let v: u32 = if tok >= tokens {
            0
        } else {
            proof {
                index_bound(tok as int, j as int, tokens as int, d as int);
                assert(0 <= tok * d) by (nonlinear_arith)
                    requires
                        tok >= 0,
                        d >= 0,
                ;
            }
            let e: u32 = if tok == 0 {
                cls[j]
            } else {
                proof {
                    index_bound(image as int, tok - 1, images as int, tokens - 1);
                    let r = image * (tokens - 1) + (tok - 1);
                    index_bound(r, j as int, images * (tokens - 1), d as int);
                    assert(0 <= image * (tokens - 1) && 0 <= r * d && r <= r * d) by (nonlinear_arith)
                        requires
                            image >= 0,
                            tokens >= 1,
                            r >= 0,
                            d >= 1,
                    ;
                }
                emb[(image * (tokens - 1) + (tok - 1)) * d + j]
            };
            plus(e, pos[tok * d + j])
        };
        assert(is_token(*plus, cls@, emb@, pos@, tokens as int, stride as int, d as int, i as int, v));
        out.push(v);
        i = i + 1;
    }
    out
}

// ----------------------------------------------------------------------------
// Texts
// ----------------------------------------------------------------------------

pub open spec fn ids_fault(context: nat) -> Seq<char> {
    "token ids must be [n, "@ + decimal(context) + "]"@
}

pub open spec fn vocabulary_fault(id: nat, vocab: nat) -> Seq<char> {
    "token id "@ + decimal(id) + " >= vocabulary size "@ + decimal(vocab)
}

/// The first of `ids` outside a vocabulary of `vocab`.
pub open spec fn first_unknown(ids: Seq<u32>, vocab: nat) -> Option<u32>
    decreases ids.len(),
{
    if ids.len() == 0 {
        None
    } else if ids[0] >= vocab {
        Some(ids[0])
    } else {
        first_unknown(ids.skip(1), vocab)
    }
}

proof fn first_unknown_at(ids: Seq<u32>, vocab: nat, i: int)
    requires
        0 <= i <= ids.len(),
        forall|k: int| 0 <= k < i ==> ids[k] < vocab,
        i < ids.len() ==> ids[i] >= vocab,
    ensures
        first_unknown(ids, vocab) == (if i < ids.len() {
            Some(ids[i])
        } else {
            None::<u32>
        }),
    decreases i,
{
    if i > 0 {
        let t = ids.skip(1);
        assert(forall|k: int| 0 <= k < t.len() ==> t[k] == ids[k + 1]);
        first_unknown_at(t, vocab, i - 1);
    }
}

/// How many rows of `context` token ids `ids` are, all of them known.
pub fn check_ids(ids: &Vec<u32>, context: usize, vocab: usize) -> (r: Result<usize, Error>)
    requires
        context > 0,
    ensures
        match r {
            Ok(n) => n > 0 && n * context == ids.len() && forall|i: int| 0 <= i < ids.len() ==> #[trigger] ids[i] < vocab,
            Err(e) => if ids.len() == 0 || ids.len() as int % context as int != 0 {
                rejects(e, ids_fault(context as nat))
            } else {
                first_unknown(ids@, vocab as nat) matches Some(id) && rejects(
                    e,
                    vocabulary_fault(id as nat, vocab as nat),
                )
            },
        },
{
    if ids.len() == 0 || ids.len() % context != 0 {
        let c = decimal_of(context as u128);
        return Err(Error::Input(cat2("token ids must be [n, ", c.as_str()).concat("]")));
    }
    let mut i: usize = 0;
    while i < ids.len()
        invariant
            i <= ids.len(),
            ids.len() > 0,
            ids.len() as int % context as int == 0,
            forall|k: int| 0 <= k < i ==> #[trigger] ids[k] < vocab,
        decreases ids.len() - i,
    {
        if ids[i] as u64 >= vocab as u64 {
            proof {
                first_unknown_at(ids@, vocab as nat, i as int);
            }
            let a = decimal_of(ids[i] as u128);
            let b = decimal_of(vocab as u128);
            return Err(
                Error::Input(cat2("token id ", a.as_str()).concat(" >= vocabulary size ").concat(b.as_str())),
            );
        }
        i = i + 1;
    }
    let n: usize = ids.len() / context;
    proof {
        vstd::arithmetic::div_mod::lemma_fundamental_div_mod(ids.len() as int, context as int);
        assert(n * context == ids.len()) by (nonlinear_arith)
            requires
                ids.len() == context * n + 0,
        ;
        assert(n > 0) by (nonlinear_arith)
            requires
                n * context == ids.len(),
                ids.len() > 0,
                n >= 0,
        ;
    }
    Ok(n)
}

/// Whether `v` is element `i` of the prompts' rows: a token's embedding
/// plus its position's, and zero in the rows between prompts.
pub open spec fn is_embedded<A: Fn(u32, u32) -> u32>(
    plus: A,
    ids: Seq<u32>,
    first: int,
    context: int,
    pad: int,
    d: int,
    tok: Seq<u32>,
    pos: Seq<u32>,
    i: int,
    v: u32,
) -> bool {
    let (row, j) = (i / d, i % d);
    let (prompt, s) = (row / pad, row % pad);
    if s < context {
        let id = ids[(first + prompt) * context + s];
        call_ensures(plus, (tok[id * d + j], pos[s * d + j]), v)
    } else {
        v == 0
    }
}

/// Prompts `first..first + count` of `ids`, prompt `k`'s tokens in rows
/// `k * pad ..`.
pub fn prompt_rows<A: Fn(u32, u32) -> u32>(
    ids: &Vec<u32>,
    first: usize,
    count: usize,
    context: usize,
    pad: usize,
    d: usize,
    tok: &Vec<u32>,
    pos: &Vec<u32>,
    plus: &A,
) -> (r: Vec<u32>)
    requires
        0 < d,
        0 < context <= pad,
        (first + count) * context <= ids.len(),
        forall|i: int| 0 <= i < ids.len() ==> (#[trigger] ids[i]) * d + d <= tok.len(),
        pos.len() >= context * d,
        (count * pad) * d <= usize::MAX,
        forall|a: u32, b: u32| call_requires(*plus, (a, b)),
    ensures
        r.len() == (count * pad) * d,
        forall|i: int|
            0 <= i < r.len() ==> is_embedded(
                *plus,
                ids@,
                first as int,
                context as int,
                pad as int,
                d as int,
                tok@,
                pos@,
                i,
                #[trigger] r[i],
            ),
{
    let mut out: Vec<u32> = Vec::new();
    if count == 0 {
        proof {
            assert((count * pad) * d == 0) by (nonlinear_arith)
                requires
                    count == 0,
            ;
        }
        return out;
    }
    proof {
        assert(count * pad <= (count * pad) * d) by (nonlinear_arith)
            requires
                d >= 1,
                count >= 0,
                pad >= 0,
        ;
        assert(first + count <= (first + count) * context) by (nonlinear_arith)
            requires
                context >= 1,
                first + count >= 0,
        ;
    }
    let total: usize = (count * pad) * d;
    let mut i: usize = 0;
    while i < total
        invariant
            0 < d,
            0 < context <= pad,
            count >= 1,
            first + count <= usize::MAX,
            (first + count) * context <= ids.len(),
            forall|i: int| 0 <= i < ids.len() ==> (#[trigger] ids[i]) * d + d <= tok.len(),
            pos.len() >= context * d,
            total == (count * pad) * d,
            forall|a: u32, b: u32| call_requires(*plus, (a, b)),
            i <= total,
            out.len() == i,
            forall|k: int|
                0 <= k < i ==> is_embedded(
                    *plus,
                    ids@,
                    first as int,
                    context as int,
                    pad as int,
                    d as int,
                    tok@,
                    pos@,
                    k,
                    #[trigger] out[k],
                ),
        decreases total - i,
    {
        proof {
            index_parts(i as int, count * pad, d as int);
            index_parts((i as int) / (d as int), count as int, pad as int);
        }
        let row: usize = i / d;
        let j: usize = i % d;
        let prompt: usize = row / pad;
        let s: usize = row % pad;
        let v: u32 = if s < context {
            proof {
                index_bound(first + prompt, s as int, first + count, context as int);
                index_bound(s as int, j as int, context as int, d as int);
                assert(0 <= (first + prompt) * context && 0 <= s * d) by (nonlinear_arith)
                    requires
                        first + prompt >= 0,
                        context >= 0,
                        s >= 0,
                        d >= 0,
                ;
            }
            let id: u32 = ids[(first + prompt) * context + s];
            proof {
                assert(0 <= id * d) by (nonlinear_arith)
                    requires
                        id >= 0,
                        d >= 0,
                ;
            }
            plus(tok[id as usize * d + j], pos[s * d + j])
        } else {
            0
        };
        assert(is_embedded(
            *plus,
            ids@,
            first as int,
            context as int,
            pad as int,
            d as int,
            tok@,
            pos@,
            i as int,
            v,
        ));
        out.push(v);
        i = i + 1;
    }
    out
}

/// Whether position `e` of `row` is the end token's: the first of the
/// highest ids, or the first `eos` (the row's start where there is none).
pub open spec fn is_end(row: Seq<u32>, eos: u32, highest: bool, e: int) -> bool {
    if highest {
        &&& 0 <= e < row.len()
        &&& forall|i: int| 0 <= i < row.len() ==> row[i] <= row[e]
        &&& forall|i: int| 0 <= i < e ==> row[i] < row[e]
    } else if row.contains(eos) {
        &&& 0 <= e < row.len()
        &&& row[e] == eos
        &&& forall|i: int| 0 <= i < e ==> row[i] != eos
    } else {
        e == 0
    }
}

/// Where a prompt's end token is: the token whose state is the prompt's
/// embedding.
pub fn end_token(row: &[u32], eos: u32, highest: bool) -> (r: usize)
    requires
        row.len() > 0,
    ensures
        r < row.len(),
        is_end(row@, eos, highest, r as int),
{
    if highest {
        let mut best: usize = 0;
        let mut i: usize = 1;
        while i < row.len()
            invariant
                row.len() > 0,
                best < i <= row.len(),
                forall|k: int| 0 <= k < i ==> row@[k] <= row@[best as int],
                forall|k: int| 0 <= k < best ==> row@[k] < row@[best as int],
            decreases row.len() - i,
        {
            if row[i] > row[best] {
                best = i;
            }
            i = i + 1;
        }
        best
    } else {
        let mut i: usize = 0;
        while i < row.len()
            invariant
                !highest,
                i <= row.len(),
                forall|k: int| 0 <= k < i ==> row@[k] != eos,
            decreases row.len() - i,
        {
            if row[i] == eos {
                assert(row@.contains(eos));
                return i;
            }
            i = i + 1;
        }
        assert(!row@.contains(eos));
        0
    }
}

/// There is one end token.
pub proof fn end_is_unique(row: Seq<u32>, eos: u32, highest: bool, a: int, b: int)
    requires
        is_end(row, eos, highest, a),
        is_end(row, eos, highest, b),
    ensures
        a == b,
{
    if a < b {
        if highest {
            assert(row[a] < row[b]);
            assert(row[b] <= row[a]);
        }
    } else if b < a {
        if highest {
            assert(row[b] < row[a]);
            assert(row[a] <= row[b]);
        }
    }
}

// ----------------------------------------------------------------------------
// Prompts
// ----------------------------------------------------------------------------

/// `s` with each `p` replaced by `by`, from the left.
pub open spec fn replaced(s: Seq<char>, p: Seq<char>, by: Seq<char>) -> Seq<char>
    decreases s.len(),
{
    if s.len() == 0 || p.len() == 0 {
        s
    } else if starts_with(s, p) {
        by + replaced(s.skip(p.len() as int), p, by)
    } else {
        seq![s[0]] + replaced(s.skip(1), p, by)
    }
}

/// A class label's prompt: the template with the label for each `{}`
/// (`a photo of a {}`).
pub fn prompt(template: &str, label: &str) -> (r: String)
    ensures
        r@ == replaced(template@, "{}"@, label@),
{
    let c = chars_of(template);
    let n: usize = c.len();
    let mut out = String::new();
    let mut i: usize = 0;
    proof {
        reveal_strlit("{}");
        assert(template@.skip(0) =~= template@);
        assert(out@ + replaced(template@, "{}"@, label@) =~= replaced(template@, "{}"@, label@));
    }
    while i < n
        invariant
            c@ == template@,
            n == c.len(),
            i <= n,
            "{}"@.len() == 2,
            "{}"@[0] == '{',
            "{}"@[1] == '}',
            out@ + replaced(template@.skip(i as int), "{}"@, label@) == replaced(template@, "{}"@, label@),
        decreases n - i,
    {
        let ghost rest = template@.skip(i as int);
        let ghost before = out@;
        if c[i] == '{' && i + 1 < n && c[i + 1] == '}' {
            proof {
                assert(rest.take(2) =~= "{}"@);
                assert(rest.skip(2) =~= template@.skip(i + 2));
                let t = replaced(template@.skip(i + 2), "{}"@, label@);
                assert(before + (label@ + t) =~= (before + label@) + t);
            }
            out.append(label);
            i = i + 2;
        } else {
            proof {
                if starts_with(rest, "{}"@) {
                    assert(rest.take(2)[0] == rest[0] && rest.take(2)[1] == rest[1]);
                }
                assert(rest.skip(1) =~= template@.skip(i + 1));
                let t = replaced(template@.skip(i + 1), "{}"@, label@);
                assert(before + (seq![rest[0]] + t) =~= before.push(c@[i as int]) + t);
            }
            let one = string_of(c.as_slice(), i, i + 1);
            out.append(one.as_str());
            proof {
                assert(one@ =~= seq![c@[i as int]]);
                assert(out@ =~= before.push(c@[i as int]));
            }
            i = i + 1;
        }
    }
    proof {
        assert(template@.skip(n as int) =~= Seq::empty());
        assert(out@ + Seq::<char>::empty() =~= out@);
    }
    out
}

/// A template without a place for the label is the prompt itself.
pub proof fn plain_template_is_the_prompt(template: Seq<char>, label: Seq<char>)
    requires
        !crate::text::occurs(template, "{}"@),
    ensures
        replaced(template, "{}"@, label) == template,
    decreases template.len(),
{
    assert(template.skip(0) =~= template);
    if template.len() > 0 && "{}"@.len() > 0 {
        let t = template.skip(1);
        if crate::text::occurs(t, "{}"@) {
            let k = choose|k: int| 0 <= k <= t.len() && #[trigger] starts_with(t.skip(k), "{}"@);
            assert(t.skip(k) =~= template.skip(k + 1));
            assert(starts_with(template.skip(k + 1), "{}"@));
        }
        plain_template_is_the_prompt(t, label);
        assert(!starts_with(template.skip(0), "{}"@));
        assert(seq![template[0]] + t =~= template);
    }
}

} // verus!
