//! How activations are laid out between the SAM 3 stages: patches in window
//! order, attention heads, pixel shuffles, convolution rows, mask planes.

use crate::arith::{index_bound, index_parts, split_index};
use crate::bf16::{bf16_to_f32, f32_to_bf16, narrow, wide};
use crate::gather::{pick, picked};
use crate::sam3::{rejects, Error};
use crate::text::{cat5, decimal, decimal_of};
use crate::tiled::Ops;
use vstd::prelude::*;

verus! {

// ---------------------------------------------------------------------------
// Columns and shuffles.

/// Where element `i` of `n` columns, from column `off` of rows `width`
/// wide, stands.
pub open spec fn column_place(width: int, off: int, n: int, i: int) -> int {
    (i / n) * width + off + i % n
}

/// `n` columns from column `off` on, of `rows` rows.
pub fn columns(src: &Vec<u16>, rows: usize, width: usize, off: usize, n: usize) -> (r: Vec<u16>)
    requires
        off + n <= width,
        rows * width <= src.len(),
    ensures
        r@ == picked(src@, (rows * n) as nat, |i: int| column_place(width as int, off as int, n as int, i)),
{
    proof {
        assert(0 <= rows * n <= rows * width) by (nonlinear_arith)
            requires
                n <= width,
                n >= 0,
                rows >= 0,
        ;
    }
    let total: usize = rows * n;
    let ghost at = |i: int| column_place(width as int, off as int, n as int, i);
    let place = |i: usize| -> (j: usize)
        requires
            i < total,
        ensures
            j == at(i as int),
            j < src.len(),
        {
            proof {
                assert(n > 0) by {
                    if n == 0 {
                        assert(rows * n == 0) by (nonlinear_arith)
                            requires
                                n == 0,
                        ;
                    }
                }
                index_parts(i as int, rows as int, n as int);
                index_bound((i / n) as int, (off + i % n) as int, rows as int, width as int);
                assert((i / n) * width >= 0) by (nonlinear_arith)
                    requires
                        i / n >= 0,
                        width >= 0,
                ;
            }
            (i / n) * width + off + i % n
        };
    pick(src, total, place, Ghost(at))
}

/// Where element `i` of a pixel shuffle stands: output pixel (`y`, `x`) of
/// the doubled grid is tap (`y % 2`, `x % 2`) of pixel (`y / 2`, `x / 2`).
pub open spec fn shuffle_place(h: int, width: int, off: int, c: int, i: int) -> int {
    let (r, e) = (i / c, i % c);
    let (y, x) = (r / (2 * h), r % (2 * h));
    ((y / 2) * h + x / 2) * width + off + ((y % 2) * 2 + x % 2) * c + e
}

/// Four taps of `c` channels, side by side from column `off` on, of an
/// `h x h` map as the pixels of a `2h x 2h` one.
pub fn shuffle(src: &Vec<u16>, h: usize, width: usize, off: usize, c: usize) -> (r: Vec<u16>)
    requires
        off + 4 * c <= width,
        h * h * width <= src.len(),
    ensures
        r@ == picked(src@, (4 * (h * h) * c) as nat, |i: int| shuffle_place(h as int, width as int, off as int, c as int, i)),
{
    let ghost (hi, wi, ci) = (h as int, width as int, c as int);
    proof {
        let q = hi * hi;
        assert(q >= 0 && 0 <= 4 * q * ci <= q * wi) by (nonlinear_arith)
            requires
                4 * ci <= wi,
                ci >= 0,
                q == hi * hi,
        ;
        if c > 0 {
            assert(4 * q <= 4 * q * ci && q <= q * wi) by (nonlinear_arith)
                requires
                    ci >= 1,
                    q >= 0,
                    wi >= 4 * ci,
            ;
        }
    }
    if c == 0 {
        let out: Vec<u16> = Vec::new();
        proof {
            assert(4 * (h * h) * c == 0) by (nonlinear_arith)
                requires
                    c == 0,
            ;
            assert(out@ =~= picked(src@, 0, |i: int| shuffle_place(hi, wi, off as int, ci, i)));
        }
        return out;
    }
    let total: usize = 4 * (h * h) * c;
    let ghost at = |i: int| shuffle_place(hi, wi, off as int, ci, i);
    let place = |i: usize| -> (j: usize)
        requires
            i < total,
        ensures
            j == at(i as int),
            j < src.len(),
        {
            proof {
                let g = 2 * hi;
                assert(4 * (hi * hi) == g * g) by (nonlinear_arith)
                    requires
                        g == 2 * hi,
                ;
                index_parts(i as int, g * g, ci);
                assert(h > 0) by {
                    if h == 0 {
                        assert(g * g == 0) by (nonlinear_arith)
                            requires
                                g == 0,
                        ;
                    }
                }
                index_parts((i / c) as int, g, g);
                assert(g <= g * g && g * g <= g * g * ci) by (nonlinear_arith)
                    requires
                        g >= 1,
                        ci >= 1,
                ;
                let r = (i as int) / ci;
                let (y, x) = (r / g, r % g);
                index_bound(y / 2, x / 2, hi, hi);
                let p = (y / 2) * hi + x / 2;
                let tap = (y % 2) * 2 + x % 2;
                assert(0 <= tap <= 3);
                let q = off + tap * ci + (i as int) % ci;
                assert(0 <= tap * ci <= 3 * ci) by (nonlinear_arith)
                    requires
                        0 <= tap <= 3,
                        ci >= 0,
                ;
                index_bound(p, q, hi * hi, wi);
                assert(0 <= (y / 2) * hi <= p && 0 <= p * wi) by (nonlinear_arith)
                    requires
                        p == (y / 2) * hi + x / 2,
                        y / 2 >= 0,
                        x / 2 >= 0,
                        hi >= 0,
                        wi >= 0,
                ;
                assert(p <= p * wi) by (nonlinear_arith)
                    requires
                        p >= 0,
                        wi >= 1,
                ;
            }
            let r: usize = i / c;
            let y: usize = r / (2 * h);
            let x: usize = r % (2 * h);
            ((y / 2) * h + x / 2) * width + off + ((y % 2) * 2 + x % 2) * c + i % c
        };
    pick(src, total, place, Ghost(at))
}

/// A pixel shuffle keeps every tap of every pixel once: output pixel
/// (`2y + dy`, `2x + dx`) is tap (`dy`, `dx`) of pixel (`y`, `x`).
pub proof fn shuffle_spreads_taps(h: int, width: int, off: int, c: int, y: int, x: int, dy: int, dx: int, e: int)
    requires
        0 <= y < h,
        0 <= x < h,
        0 <= dy < 2,
        0 <= dx < 2,
        0 <= e < c,
    ensures
        shuffle_place(h, width, off, c, ((2 * y + dy) * (2 * h) + 2 * x + dx) * c + e) == (y * h + x) * width + off + (dy
            * 2 + dx) * c + e,
{
    let r = (2 * y + dy) * (2 * h) + (2 * x + dx);
    split_index(r, e, c);
    split_index(2 * y + dy, 2 * x + dx, 2 * h);
}

// ---------------------------------------------------------------------------
// Attention heads.

/// The token and head of row `r` of an attention: token-major rows for a
/// global layer, window by window and head by head (`ws2` tokens each)
/// otherwise.
pub open spec fn token_of(global: bool, heads: int, ws2: int, r: int) -> int {
    if global {
        r / heads
    } else {
        (r / ws2 / heads) * ws2 + r % ws2
    }
}

pub open spec fn head_of(global: bool, heads: int, ws2: int, r: int) -> int {
    if global {
        r % heads
    } else {
        r / ws2 % heads
    }
}

/// The row of a token's head.
pub open spec fn attention_row(global: bool, heads: int, ws2: int, token: int, head: int) -> int {
    if global {
        token * heads + head
    } else {
        ((token / ws2) * heads + head) * ws2 + token % ws2
    }
}

/// Rows and (token, head) pairs correspond one to one.
pub proof fn rows_and_heads_match(global: bool, heads: int, ws2: int, token: int, head: int)
    requires
        0 <= head < heads,
        0 < ws2,
        0 <= token,
    ensures
        token_of(global, heads, ws2, attention_row(global, heads, ws2, token, head)) == token,
        head_of(global, heads, ws2, attention_row(global, heads, ws2, token, head)) == head,
{
    if global {
        split_index(token, head, heads);
    } else {
        vstd::arithmetic::div_mod::lemma_fundamental_div_mod(token, ws2);
        split_index((token / ws2) * heads + head, token % ws2, ws2);
        split_index(token / ws2, head, heads);
        vstd::arithmetic::mul::lemma_mul_is_commutative(token / ws2, ws2);
    }
}

/// The token of a row is one of the tokens.
proof fn token_bound(global: bool, heads: int, ws2: int, tokens: int, r: int)
    requires
        0 < heads,
        0 < ws2,
        tokens % ws2 == 0,
        0 <= r < tokens * heads,
    ensures
        0 <= token_of(global, heads, ws2, r) < tokens,
        0 <= head_of(global, heads, ws2, r) < heads,
{
    if global {
        index_parts(r, tokens, heads);
    } else {
        vstd::arithmetic::div_mod::lemma_fundamental_div_mod(tokens, ws2);
        let wins = tokens / ws2;
        assert(tokens * heads == (wins * heads) * ws2) by (nonlinear_arith)
            requires
                tokens == ws2 * wins,
        ;
        index_parts(r, wins * heads, ws2);
        index_parts(r / ws2, wins, heads);
        index_bound(r / ws2 / heads, r % ws2, wins, ws2);
        assert(wins * ws2 == tokens) by (nonlinear_arith)
            requires
                tokens == ws2 * wins,
        ;
    }
}

proof fn row_bound(global: bool, heads: int, ws2: int, tokens: int, token: int, head: int)
    requires
        0 < heads,
        0 < ws2,
        tokens % ws2 == 0,
        0 <= token < tokens,
        0 <= head < heads,
    ensures
        0 <= attention_row(global, heads, ws2, token, head) < tokens * heads,
{
    if global {
        index_bound(token, head, tokens, heads);
    } else {
        vstd::arithmetic::div_mod::lemma_fundamental_div_mod(tokens, ws2);
        let wins = tokens / ws2;
        assert(wins * ws2 == tokens) by (nonlinear_arith)
            requires
                tokens == ws2 * wins,
        ;
        index_parts(token, wins, ws2);
        index_bound(token / ws2, head, wins, heads);
        index_bound((token / ws2) * heads + head, token % ws2, wins * heads, ws2);
        assert((wins * heads) * ws2 == tokens * heads) by (nonlinear_arith)
            requires
                tokens == ws2 * wins,
        ;
    }
}

/// Where element `i` of the rows of projection `part` (of three, `dim` wide
/// each) stands.
pub open spec fn part_place(global: bool, heads: int, ws2: int, hd: int, dim: int, part: int, i: int) -> int {
    let r = i / hd;
    token_of(global, heads, ws2, r) * (3 * dim) + part * dim + head_of(global, heads, ws2, r) * hd + i % hd
}

/// Where element `i` of the token-major output of an attention stands.
pub open spec fn merge_place(global: bool, heads: int, ws2: int, hd: int, i: int) -> int {
    let dim = heads * hd;
    attention_row(global, heads, ws2, i / dim, i % dim / hd) * hd + i % hd
}

/// What a part's place needs, step by step.
proof fn part_bounds(global: bool, heads: int, ws2: int, hd: int, part: int, tokens: int, i: int)
    requires
        0 < heads,
        0 < hd,
        0 < ws2,
        0 <= part < 3,
        tokens % ws2 == 0,
        0 <= i < tokens * (heads * hd),
    ensures
        ({
            let dim = heads * hd;
            let r = i / hd;
            let (tok, h) = (token_of(global, heads, ws2, r), head_of(global, heads, ws2, r));
            &&& 0 <= r < tokens * heads
            &&& 0 <= tok < tokens
            &&& 0 <= h < heads
            &&& 0 <= tok * (3 * dim)
            &&& 0 <= part * dim
            &&& 0 <= h * hd
            &&& tok * (3 * dim) + part * dim + h * hd + i % hd < tokens * (3 * dim)
        }),
{
    let dim = heads * hd;
    assert(tokens * dim == (tokens * heads) * hd) by (nonlinear_arith)
        requires
            dim == heads * hd,
    ;
    index_parts(i, tokens * heads, hd);
    let r = i / hd;
    token_bound(global, heads, ws2, tokens, r);
    let (tok, h) = (token_of(global, heads, ws2, r), head_of(global, heads, ws2, r));
    index_bound(h, i % hd, heads, hd);
    index_bound(part, h * hd + i % hd, 3, dim);
    index_bound(tok, part * dim + h * hd + i % hd, tokens, 3 * dim);
    assert(0 <= tok * (3 * dim) && 0 <= part * dim && 0 <= h * hd) by (nonlinear_arith)
        requires
            tok >= 0,
            part >= 0,
            h >= 0,
            hd >= 0,
            dim >= 0,
    ;
}

/// The rows of projection `part` (0 q, 1 k, 2 v) of `[tokens, 3 dim]`, one
/// head of one token each.
pub fn split_heads(qkv: &Vec<u16>, tokens: usize, heads: usize, hd: usize, ws2: usize, global: bool, part: usize) -> (r:
    Vec<u16>)
    requires
        heads > 0,
        hd > 0,
        ws2 > 0,
        part < 3,
        tokens % ws2 == 0,
        tokens * (3 * (heads * hd)) <= qkv.len(),
    ensures
        r@ == picked(
            qkv@,
            (tokens * (heads * hd)) as nat,
            |i: int|
                part_place(global, heads as int, ws2 as int, hd as int, (heads * hd) as int, part as int, i),
        ),
{
    let ghost (hs, w, e) = (heads as int, ws2 as int, hd as int);
    let ghost d = hs * e;
    proof {
        assert(d >= 1 && d <= 3 * d) by (nonlinear_arith)
            requires
                d == hs * e,
                hs >= 1,
                e >= 1,
        ;
        assert(0 <= tokens * d <= tokens * (3 * d)) by (nonlinear_arith)
            requires
                d >= 0,
                tokens >= 0,
        ;
    }
    if tokens == 0 {
        let out: Vec<u16> = Vec::new();
        proof {
            assert(tokens * d == 0) by (nonlinear_arith)
                requires
                    tokens == 0,
            ;
            assert(out@ =~= picked(qkv@, 0, |i: int| part_place(global, hs, w, e, d, part as int, i)));
        }
        return out;
    }
    proof {
        assert(3 * d <= tokens * (3 * d)) by (nonlinear_arith)
            requires
                tokens >= 1,
                d >= 0,
        ;
    }
    let dim: usize = heads * hd;
    let total: usize = tokens * dim;
    let ghost at = |i: int| part_place(global, hs, w, e, d, part as int, i);
    let place = |i: usize| -> (j: usize)
        requires
            i < total,
        ensures
            j == at(i as int),
            j < qkv.len(),
        {
            proof {
                part_bounds(global, hs, w, e, part as int, tokens as int, i as int);
            }
            let r: usize = i / hd;
            let (tok, h): (usize, usize) = if global {
                (r / heads, r % heads)
            } else {
                proof {
                    token_bound(global, hs, w, tokens as int, r as int);
                    assert((r / ws2 / heads) * ws2 >= 0) by (nonlinear_arith)
                        requires
                            r / ws2 / heads >= 0,
                            ws2 >= 0,
                    ;
                }
                ((r / ws2 / heads) * ws2 + r % ws2, r / ws2 % heads)
            };
            tok * (3 * dim) + part * dim + h * hd + i % hd
        };
    pick(qkv, total, place, Ghost(at))
}

/// An attention's output rows as `[tokens, heads * hd]`.
pub fn merge_heads(o: &Vec<u16>, tokens: usize, heads: usize, hd: usize, ws2: usize, global: bool) -> (r: Vec<u16>)
    requires
        heads > 0,
        hd > 0,
        ws2 > 0,
        tokens % ws2 == 0,
        tokens * (heads * hd) <= o.len(),
    ensures
        r@ == picked(
            o@,
            (tokens * (heads * hd)) as nat,
            |i: int| merge_place(global, heads as int, ws2 as int, hd as int, i),
        ),
{
    let ghost (hs, w, e) = (heads as int, ws2 as int, hd as int);
    let ghost d = hs * e;
    proof {
        assert(d >= 1) by (nonlinear_arith)
            requires
                d == hs * e,
                hs >= 1,
                e >= 1,
        ;
    }
    if tokens == 0 {
        let out: Vec<u16> = Vec::new();
        proof {
            assert(tokens * d == 0) by (nonlinear_arith)
                requires
                    tokens == 0,
            ;
            assert(out@ =~= picked(o@, 0, |i: int| merge_place(global, hs, w, e, i)));
        }
        return out;
    }
    proof {
        assert(d <= tokens * d) by (nonlinear_arith)
            requires
                tokens >= 1,
                d >= 0,
        ;
    }
    let dim: usize = heads * hd;
    let total: usize = tokens * dim;
    let ghost at = |i: int| merge_place(global, hs, w, e, i);
    let place = |i: usize| -> (j: usize)
        requires
            i < total,
        ensures
            j == at(i as int),
            j < o.len(),
        {
            let ghost tokn = tokens as int;
            proof {
                merge_bounds(global, hs, w, e, tokn, i as int);
            }
            let tok: usize = i / dim;
            let h: usize = i % dim / hd;
            let r: usize = if global {
                tok * heads + h
            } else {
                ((tok / ws2) * heads + h) * ws2 + tok % ws2
            };
            r * hd + i % hd
        };
    pick(o, total, place, Ghost(at))
}

proof fn merge_bounds(global: bool, heads: int, ws2: int, hd: int, tokens: int, i: int)
    requires
        0 < heads,
        0 < hd,
        0 < ws2,
        tokens % ws2 == 0,
        0 <= i < tokens * (heads * hd),
    ensures
        ({
            let dim = heads * hd;
            let (tok, h) = (i / dim, i % dim / hd);
            let r = attention_row(global, heads, ws2, tok, h);
            &&& 0 <= tok < tokens
            &&& 0 <= h < heads
            &&& 0 <= tok * heads
            &&& 0 <= (tok / ws2) * heads <= ((tok / ws2) * heads + h) * ws2 + ws2
            &&& (tok / ws2) * heads + h <= ((tok / ws2) * heads + h) * ws2
            &&& 0 <= r < tokens * heads
            &&& 0 <= r * hd
            &&& 0 <= r * hd + i % hd < tokens * dim
            &&& tokens * heads <= tokens * dim
        }),
{
    let dim = heads * hd;
    assert(dim > 0) by (nonlinear_arith)
        requires
            dim == heads * hd,
            heads > 0,
            hd > 0,
    ;
    index_parts(i, tokens, dim);
    let (tok, h) = (i / dim, i % dim / hd);
    index_parts(i % dim, heads, hd);
    row_bound(global, heads, ws2, tokens, tok, h);
    let r = attention_row(global, heads, ws2, tok, h);
    vstd::arithmetic::div_mod::lemma_fundamental_div_mod(i, dim);
    assert(i % hd == (i % dim) % hd) by {
        let q = i / dim;
        assert(i == (q * heads) * hd + i % dim) by (nonlinear_arith)
            requires
                i == dim * q + i % dim,
                dim == heads * hd,
        ;
        vstd::arithmetic::div_mod::lemma_mod_multiples_vanish(q * heads, i % dim, hd);
        assert(hd * (q * heads) == (q * heads) * hd) by (nonlinear_arith);
    }
    index_bound(r, i % hd, tokens * heads, hd);
    assert((tokens * heads) * hd == tokens * dim && tokens * heads <= tokens * dim) by (nonlinear_arith)
        requires
            dim == heads * hd,
            hd >= 1,
            tokens >= 0,
            heads >= 1,
    ;
    let a = (tok / ws2) * heads;
    assert(0 <= tok * heads && 0 <= a && a + h <= (a + h) * ws2 && 0 <= r * hd) by (nonlinear_arith)
        requires
            a == (tok / ws2) * heads,
            tok / ws2 >= 0,
            tok >= 0,
            heads >= 1,
            h >= 0,
            ws2 >= 1,
            r >= 0,
            hd >= 0,
    ;
}

/// Merging undoes splitting: element (`token`, `head`, `e`) of the merged
/// output is element `e` of the row that held that token's head.
pub proof fn merging_undoes_splitting(global: bool, heads: int, ws2: int, hd: int, tokens: int, token: int, head: int, e: int)
    requires
        0 < heads,
        0 < hd,
        0 < ws2,
        tokens % ws2 == 0,
        0 <= token < tokens,
        0 <= head < heads,
        0 <= e < hd,
    ensures
        ({
            let dim = heads * hd;
            let i = token * dim + head * hd + e;
            part_place(global, heads, ws2, hd, dim, 0, merge_place(global, heads, ws2, hd, i)) == token * (3 * dim)
                + head * hd + e
        }),
{
    let dim = heads * hd;
    let i = token * dim + head * hd + e;
    index_bound(head, e, heads, hd);
    split_index(token, head * hd + e, dim);
    split_index(head, e, hd);
    assert(i % hd == e) by {
        assert(i == (token * heads + head) * hd + e) by (nonlinear_arith)
            requires
                i == token * dim + head * hd + e,
                dim == heads * hd,
        ;
        split_index(token * heads + head, e, hd);
    }
    let r = attention_row(global, heads, ws2, token, head);
    split_index(r, e, hd);
    rows_and_heads_match(global, heads, ws2, token, head);
    assert(0 * dim == 0);
}

// ---------------------------------------------------------------------------
// Patches and tokens.

/// Checks that `len` values are a `[3, size, size]` image.
pub fn check_pixels(len: usize, size: usize) -> (r: Result<(), Error>)
    ensures
        match r {
            Ok(_) => len == 3 * size * size,
            Err(e) => len != 3 * size * size && rejects(
                e,
                "pixels must be [3, "@ + decimal(size as nat) + ", "@ + decimal(size as nat) + "]"@,
            ),
        },
{
    let fits: bool = match crate::arith::mul3(3, size, size) {
        Some(n) => n == len,
        None => false,
    };
    if fits {
        Ok(())
    } else {
        let s = decimal_of(size as u128);
        Err(Error::Input(cat5("pixels must be [3, ", s.as_str(), ", ", s.as_str(), "]")))
    }
}

/// Pixel (`ky`, `kx`) of channel `ch` of patch `p`: patches of `ps` pixels a
/// side, `g` of them a row, in planes of `s x s`.
pub open spec fn patch_pixel(g: int, ps: int, s: int, p: int, ch: int, ky: int, kx: int) -> int {
    ch * (s * s) + ((p / g) * ps + ky) * s + (p % g) * ps + kx
}

/// Element `i` of the patch rows: row `j` is patch `perm[j]`, columns
/// (channel, ky, kx), zero from there to `width`.
pub open spec fn patch_element(pixels: Seq<u32>, perm: Seq<i32>, g: int, ps: int, s: int, width: int, i: int) -> u16 {
    let (j, col) = (i / width, i % width);
    if col < 3 * (ps * ps) {
        narrow(pixels[patch_pixel(g, ps, s, perm[j] as int, col / (ps * ps), col % (ps * ps) / ps, col % ps)])
    } else {
        0
    }
}

/// Whether `perm` names a patch of the grid for every row.
pub open spec fn patch_order(perm: Seq<i32>, g: int) -> bool {
    perm.len() == g * g && forall|j: int| 0 <= j < perm.len() ==> 0 <= #[trigger] perm[j] < g * g
}

proof fn patch_bounds(g: int, ps: int, s: int, p: int, col: int)
    requires
        0 < g,
        0 < ps,
        g * ps <= s,
        0 <= p < g * g,
        0 <= col < 3 * (ps * ps),
    ensures
        ({
            let q = ps * ps;
            let (ch, ky, kx) = (col / q, col % q / ps, col % ps);
            let (py, px) = (p / g, p % g);
            &&& 0 <= ch < 3
            &&& 0 <= ky < ps
            &&& 0 <= kx < ps
            &&& 0 <= py < g
            &&& 0 <= px < g
            &&& 0 <= py * ps
            &&& py * ps + ky < s
            &&& 0 <= (py * ps + ky) * s
            &&& 0 <= px * ps
            &&& px * ps + kx < s
            &&& 0 <= ch * (s * s)
            &&& 0 <= patch_pixel(g, ps, s, p, ch, ky, kx) < 3 * (s * s)
            &&& s <= s * s
        }),
{
    let q = ps * ps;
    assert(q > 0) by (nonlinear_arith)
        requires
            q == ps * ps,
            ps > 0,
    ;
    index_parts(col, 3, q);
    index_parts(col % q, ps, ps);
    assert(col % ps == (col % q) % ps) by {
        vstd::arithmetic::div_mod::lemma_fundamental_div_mod(col, q);
        let c = col / q;
        assert(col == ps * (c * ps) + col % q) by (nonlinear_arith)
            requires
                col == q * c + col % q,
                q == ps * ps,
        ;
        vstd::arithmetic::div_mod::lemma_mod_multiples_vanish(c * ps, col % q, ps);
    }
    index_parts(p, g, g);
    let (ch, ky, kx) = (col / q, col % q / ps, col % ps);
    let (py, px) = (p / g, p % g);
    index_bound(py, ky, g, ps);
    index_bound(px, kx, g, ps);
    index_bound(py * ps + ky, px * ps + kx, s, s);
    index_bound(ch, (py * ps + ky) * s + px * ps + kx, 3, s * s);
    assert(0 <= py * ps && 0 <= px * ps && 0 <= (py * ps + ky) * s && 0 <= ch * (s * s) && s <= s * s) by (nonlinear_arith)
        requires
            py >= 0,
            px >= 0,
            ps >= 0,
            py * ps + ky >= 0,
            s >= 1,
            ch >= 0,
    ;
}

/// The patches of an image in window order, in bf16.
pub fn patches(pixels: &Vec<u32>, perm: &Vec<i32>, grid: usize, patch: usize, size: usize, width: usize) -> (r: Vec<u16>)
    requires
        grid > 0,
        patch > 0,
        grid * patch <= size,
        patch_order(perm@, grid as int),
        pixels.len() == 3 * size * size,
        3 * (patch * patch) <= width,
        (grid * grid) * width <= usize::MAX,
    ensures
        r@ == Seq::new(
            ((grid * grid) * width) as nat,
            |i: int| patch_element(pixels@, perm@, grid as int, patch as int, size as int, width as int, i),
        ),
{
    let ghost (g, ps, s, w) = (grid as int, patch as int, size as int, width as int);
    proof {
        assert(ps * ps >= 1 && g * g >= 1) by (nonlinear_arith)
            requires
                ps >= 1,
                g >= 1,
        ;
        assert(g * g <= (g * g) * w) by (nonlinear_arith)
            requires
                w >= 1,
                g * g >= 0,
        ;
        assert(3 * s * s == 3 * (s * s)) by (nonlinear_arith);
        assert(s * s >= 0) by (nonlinear_arith);
    }
    let total: usize = (grid * grid) * width;
    let area: usize = patch * patch;
    let plane: usize = pixels.len() / 3;
    let mut out: Vec<u16> = Vec::new();
    let mut i: usize = 0;
    while i < total
        invariant
            g == grid,
            ps == patch,
            s == size,
            w == width,
            g > 0,
            ps > 0,
            g * ps <= s,
            patch_order(perm@, g),
            pixels.len() == 3 * (s * s),
            plane == s * s,
            area == ps * ps,
            area >= 1,
            3 * area <= w,
            total == (g * g) * w,
            i <= total,
            out@ =~= Seq::new(total as nat, |i: int| patch_element(pixels@, perm@, g, ps, s, w, i)).take(i as int),
        decreases total - i,
    {
        proof {
            index_parts(i as int, g * g, w);
        }
        let j: usize = i / width;
        let col: usize = i % width;
        assert(0 <= perm@[j as int] < g * g);
        if col < 3 * area {
            let p: usize = perm[j] as usize;
            proof {
                patch_bounds(g, ps, s, p as int, col as int);
            }
            let y: usize = (p / grid) * patch + col % area / patch;
            let x: usize = (p % grid) * patch + col % patch;
            let ch: usize = col / area;
            proof {
                assert(ch * plane + y * size <= 3 * (s * s)) by {
                    index_bound(y as int, x as int, s, s);
                    index_bound(ch as int, y * s + x, 3, s * s);
                }
            }
            out.push(f32_to_bf16(pixels[ch * plane + y * size + x]));
        } else {
            out.push(0);
        }
        i += 1;
    }
    out
}

/// One more than the last of the first `n` rows that goes to row `r`; zero
/// if none does.
pub open spec fn source_row(perm: Seq<i32>, n: nat, r: int) -> nat
    decreases n,
{
    if n == 0 {
        0
    } else if perm[n - 1] == r {
        n
    } else {
        source_row(perm, (n - 1) as nat, r)
    }
}

/// Element `i` of rows `dim` wide put where `perm` says: row `j` becomes
/// row `perm[j]`, and a row that none becomes is zero.
pub open spec fn raster_element(x: Seq<u32>, perm: Seq<i32>, dim: int, i: int) -> u32 {
    let j = source_row(perm, perm.len(), i / dim);
    if j == 0 {
        0
    } else {
        x[(j - 1) * dim + i % dim]
    }
}

proof fn source_row_bound(perm: Seq<i32>, n: nat, r: int)
    ensures
        source_row(perm, n, r) <= n,
    decreases n,
{
    if n > 0 {
        source_row_bound(perm, (n - 1) as nat, r);
    }
}

proof fn source_row_of(perm: Seq<i32>, n: nat, j: int)
    requires
        perm.no_duplicates(),
        0 <= j < n <= perm.len(),
    ensures
        source_row(perm, n, perm[j] as int) == j + 1,
    decreases n,
{
    if j < n - 1 {
        assert(perm[n - 1] != perm[j]);
        source_row_of(perm, (n - 1) as nat, j);
    }
}

/// Under a permutation, row `j` stands at row `perm[j]`.
pub proof fn rows_go_where_told(x: Seq<u32>, perm: Seq<i32>, dim: int, j: int, e: int)
    requires
        perm.no_duplicates(),
        0 <= j < perm.len(),
        0 <= e < dim,
    ensures
        raster_element(x, perm, dim, perm[j] * dim + e) == x[j * dim + e],
{
    split_index(perm[j] as int, e, dim);
    source_row_of(perm, perm.len(), j);
}

/// Rows in window order back in raster order.
pub fn to_raster(x: &Vec<u32>, perm: &Vec<i32>, dim: usize) -> (r: Vec<u32>)
    requires
        x.len() == perm.len() * dim,
        forall|j: int| 0 <= j < perm.len() ==> 0 <= #[trigger] perm[j] < perm.len(),
    ensures
        r@ == Seq::new(x@.len(), |i: int| raster_element(x@, perm@, dim as int, i)),
{
    let n: usize = perm.len();
    let mut from: Vec<usize> = Vec::new();
    let mut z: usize = 0;
    while z < n
        invariant
            z <= n,
            from.len() == z,
            forall|k: int| 0 <= k < z ==> #[trigger] from[k] == 0,
        decreases n - z,
    {
        from.push(0);
        z += 1;
    }
    let mut j: usize = 0;
    while j < n
        invariant
            n == perm.len(),
            from.len() == n,
            forall|j: int| 0 <= j < n ==> 0 <= #[trigger] perm[j] < n,
            j <= n,
            forall|k: int| 0 <= k < n ==> #[trigger] from[k] == source_row(perm@, j as nat, k),
        decreases n - j,
    {
        assert(0 <= perm@[j as int] < n);
        from.set(perm[j] as usize, j + 1);
        j += 1;
    }
    let mut out: Vec<u32> = Vec::new();
    let mut i: usize = 0;
    while i < x.len()
        invariant
            n == perm.len(),
            x.len() == n * dim,
            from.len() == n,
            forall|k: int| 0 <= k < n ==> #[trigger] from[k] == source_row(perm@, n as nat, k),
            i <= x.len(),
            out@ =~= Seq::new(x@.len(), |i: int| raster_element(x@, perm@, dim as int, i)).take(i as int),
        decreases x.len() - i,
    {
        proof {
            assert(dim > 0) by {
                if dim == 0 {
                    assert(n * dim == 0) by (nonlinear_arith)
                        requires
                            dim == 0,
                    ;
                }
            }
            index_parts(i as int, n as int, dim as int);
            source_row_bound(perm@, n as nat, (i / dim) as int);
        }
        let s: usize = from[i / dim];
        if s == 0 {
            out.push(0);
        } else {
            proof {
                index_bound(s - 1, (i % dim) as int, n as int, dim as int);
                assert((s - 1) * dim >= 0) by (nonlinear_arith)
                    requires
                        s >= 1,
                        dim >= 0,
                ;
            }
            out.push(x[(s - 1) * dim + i % dim]);
        }
        i += 1;
    }
    out
}

// ---------------------------------------------------------------------------
// Convolution rows.

/// Element `i` of a 3 x 3 convolution's rows, `d` wide, one for each pixel
/// of the bordered image: three rows' pixels one below the other.
pub open spec fn conv_element(x: Seq<u16>, side: int, c: int, d: int, i: int) -> u16 {
    if i % d < 3 * c {
        crate::gaic::y_at(x, side, side, c, i / d, i % d)
    } else {
        0
    }
}

/// The rows of a 3 x 3 convolution over `x` (`[side, side, C]`).
pub fn conv_rows(x: &Vec<u16>, side: usize, c: usize, d: usize) -> (r: Vec<u16>)
    requires
        c > 0,
        3 * c <= d,
        x.len() == side * side * c,
        side * (side + 2) * d <= usize::MAX,
    ensures
        r@ == Seq::new(
            (side * (side + 2) * d) as nat,
            |i: int| conv_element(x@, side as int, c as int, d as int, i),
        ),
{
    let ghost (si, ci, di) = (side as int, c as int, d as int);
    let ghost n = si * (si + 2);
    proof {
        assert(n >= 0 && n <= n * di) by (nonlinear_arith)
            requires
                n == si * (si + 2),
                si >= 0,
                di >= 1,
        ;
        if side > 0 {
            assert(si + 2 <= n) by (nonlinear_arith)
                requires
                    n == si * (si + 2),
                    si >= 1,
            ;
        }
    }
    let mut out: Vec<u16> = Vec::new();
    if side == 0 {
        proof {
            assert(n * di == 0) by (nonlinear_arith)
                requires
                    n == si * (si + 2),
                    si == 0,
            ;
            assert(out@ =~= Seq::new(0, |i: int| conv_element(x@, si, ci, di, i)));
        }
        return out;
    }
    let total: usize = side * (side + 2) * d;
    let mut i: usize = 0;
    while i < total
        invariant
            si == side,
            ci == c,
            di == d,
            n == si * (si + 2),
            n <= usize::MAX,
            c > 0,
            3 * c <= d,
            x.len() == side * side * c,
            total == n * di,
            i <= total,
            out@ =~= Seq::new(total as nat, |i: int| conv_element(x@, si, ci, di, i)).take(i as int),
        decreases total - i,
    {
        proof {
            index_parts(i as int, n, di);
        }
        let e: usize = i % d;
        if e < 3 * c {
            out.push(crate::gaic::y_of(x, side, side, c, i / d, e));
        } else {
            out.push(0);
        }
        i += 1;
    }
    out
}

/// Where element `i` of a `[side, side, oc]` map stands in rows of
/// `side + 2` pixels, the last two of each dropped.
pub open spec fn unpadded_place(side: int, oc: int, i: int) -> int {
    let p = i / oc;
    (p / side * (side + 2) + p % side) * oc + i % oc
}

/// A convolution's output without the two junk pixels of every row.
pub fn drop_border(out: &Vec<u16>, side: usize, oc: usize) -> (r: Vec<u16>)
    requires
        side * (side + 2) * oc <= out.len(),
    ensures
        r@ == picked(out@, (side * side * oc) as nat, |i: int| unpadded_place(side as int, oc as int, i)),
{
    let ghost (si, c) = (side as int, oc as int);
    if side == 0 || oc == 0 {
        let r: Vec<u16> = Vec::new();
        proof {
            assert(si * si * c == 0) by (nonlinear_arith)
                requires
                    si == 0 || c == 0,
            ;
            assert(r@ =~= picked(out@, 0, |i: int| unpadded_place(si, c, i)));
        }
        return r;
    }
    proof {
        let (a, b) = (si * si, si * (si + 2));
        assert(1 <= a <= b && a * c <= b * c && a <= a * c && b <= b * c && si + 2 <= b) by (nonlinear_arith)
            requires
                a == si * si,
                b == si * (si + 2),
                si >= 1,
                c >= 1,
        ;
    }
    let total: usize = side * side * oc;
    let ghost at = |i: int| unpadded_place(si, c, i);
    let place = |i: usize| -> (j: usize)
        requires
            i < total,
        ensures
            j == at(i as int),
            j < out.len(),
        {
            proof {
                index_parts(i as int, si * si, c);
                index_parts((i / oc) as int, si, si);
                let p = (i as int) / c;
                let q = p / si * (si + 2) + p % si;
                index_bound(p / si, p % si, si, si + 2);
                index_bound(q, (i as int) % c, si * (si + 2), c);
                assert(0 <= p / si * (si + 2) <= q && q <= q * c && 0 <= q * c) by (nonlinear_arith)
                    requires
                        q == p / si * (si + 2) + p % si,
                        p / si >= 0,
                        p % si >= 0,
                        si >= 1,
                        c >= 1,
                ;
            }
            let p: usize = i / oc;
            (p / side * (side + 2) + p % side) * oc + i % oc
        };
    pick(out, total, place, Ghost(at))
}

// ---------------------------------------------------------------------------
// Transposes.

/// Where element `i` of the transpose of `[rows, width]`'s first columns
/// stands.
pub open spec fn plane_place(rows: int, width: int, i: int) -> int {
    (i % rows) * width + i / rows
}

/// The first `planes` columns from column `off` on of `[rows, width]`, each
/// as a plane of `rows`.
pub fn transposed(src: &Vec<u16>, rows: usize, width: usize, off: usize, planes: usize) -> (r: Vec<u16>)
    requires
        off + planes <= width,
        rows * width <= src.len(),
        planes * rows <= usize::MAX,
    ensures
        r@ == picked(src@, (planes * rows) as nat, |i: int| plane_place(rows as int, width as int, i) + off),
{
    let total: usize = planes * rows;
    let ghost at = |i: int| plane_place(rows as int, width as int, i) + off;
    let place = |i: usize| -> (j: usize)
        requires
            i < total,
        ensures
            j == at(i as int),
            j < src.len(),
        {
            proof {
                assert(rows > 0) by {
                    if rows == 0 {
                        assert(planes * rows == 0) by (nonlinear_arith)
                            requires
                                rows == 0,
                        ;
                    }
                }
                index_parts(i as int, planes as int, rows as int);
                index_bound((i % rows) as int, (i / rows + off) as int, rows as int, width as int);
                assert((i % rows) * width >= 0) by (nonlinear_arith)
                    requires
                        i % rows >= 0,
                        width >= 0,
                ;
            }
            (i % rows) * width + i / rows + off
        };
    pick(src, total, place, Ghost(at))
}

/// Where element `i` of the values of an attention, head by head, stands in
/// rows `width` wide, from column `off` on.
pub open spec fn value_place(tokens: int, hd: int, width: int, off: int, i: int) -> int {
    let r = i / hd;
    (r % tokens) * width + off + (r / tokens) * hd + i % hd
}

/// `[tokens, heads * hd]` columns, from column `off` on, as
/// `[heads, tokens, hd]`.
pub fn by_head(src: &Vec<u16>, tokens: usize, heads: usize, hd: usize, width: usize, off: usize) -> (r: Vec<u16>)
    requires
        off + heads * hd <= width,
        tokens * width <= src.len(),
    ensures
        r@ == picked(
            src@,
            (heads * tokens * hd) as nat,
            |i: int| value_place(tokens as int, hd as int, width as int, off as int, i),
        ),
{
    let ghost (t, e, w, hs) = (tokens as int, hd as int, width as int, heads as int);
    if tokens == 0 || heads == 0 || hd == 0 {
        let r: Vec<u16> = Vec::new();
        proof {
            assert(hs * t * e == 0) by (nonlinear_arith)
                requires
                    t == 0 || hs == 0 || e == 0,
            ;
            assert(r@ =~= picked(src@, 0, |i: int| value_place(t, e, w, off as int, i)));
        }
        return r;
    }
    proof {
        assert(hs * e >= 1) by (nonlinear_arith)
            requires
                hs >= 1,
                e >= 1,
        ;
        assert(hs * t * e <= t * w && hs * t <= hs * t * e) by (nonlinear_arith)
            requires
                hs * e <= w,
                t >= 1,
                e >= 1,
                hs >= 1,
        ;
    }
    let total: usize = heads * tokens * hd;
    let ghost at = |i: int| value_place(t, e, w, off as int, i);
    let place = |i: usize| -> (j: usize)
        requires
            i < total,
        ensures
            j == at(i as int),
            j < src.len(),
        {
            proof {
                index_parts(i as int, hs * t, e);
                index_parts((i / hd) as int, hs, t);
                let r = (i as int) / e;
                index_bound(r / t, (i as int) % e, hs, e);
                index_bound(r % t, off + (r / t) * e + (i as int) % e, t, w);
                assert(0 <= (r % t) * w && 0 <= (r / t) * e) by (nonlinear_arith)
                    requires
                        r % t >= 0,
                        r / t >= 0,
                        w >= 0,
                        e >= 0,
                ;
            }
            let r: usize = i / hd;
            (r % tokens) * width + off + (r / tokens) * hd + i % hd
        };
    pick(src, total, place, Ghost(at))
}

/// Element `i` of a position bias `[heads, 1 + queries, g]` made of
/// `[queries, g, heads]`; the first row, the presence token's, is zero.
pub open spec fn bias_element(r: Seq<u32>, heads: int, queries: int, g: int, i: int) -> u32 {
    let (row, k) = (i / g, i % g);
    let (h, q) = (row / (queries + 1), row % (queries + 1));
    if q == 0 {
        0
    } else {
        r[((q - 1) * g + k) * heads + h]
    }
}

/// A per-axis position bias head by head, with a zero row before the
/// queries'.
pub fn bias_by_head(r: &Vec<u32>, heads: usize, queries: usize, g: usize) -> (out: Vec<u32>)
    requires
        r.len() == queries * g * heads,
        queries < usize::MAX,
        heads * (queries + 1) * g <= usize::MAX,
    ensures
        out@ == Seq::new(
            (heads * (queries + 1) * g) as nat,
            |i: int| bias_element(r@, heads as int, queries as int, g as int, i),
        ),
{
    let ghost (hs, qs, gi) = (heads as int, queries as int, g as int);
    let ghost n = hs * (qs + 1);
    let mut out: Vec<u32> = Vec::new();
    proof {
        assert(n >= 0) by (nonlinear_arith)
            requires
                n == hs * (qs + 1),
                hs >= 0,
                qs >= 0,
        ;
        if g > 0 {
            assert(n <= n * gi) by (nonlinear_arith)
                requires
                    n >= 0,
                    gi >= 1,
            ;
        }
    }
    if g == 0 {
        proof {
            assert(n * gi == 0) by (nonlinear_arith)
                requires
                    gi == 0,
            ;
            assert(out@ =~= Seq::new(0, |i: int| bias_element(r@, hs, qs, gi, i)));
        }
        return out;
    }
    let total: usize = heads * (queries + 1) * g;
    let mut i: usize = 0;
    while i < total
        invariant
            hs == heads,
            qs == queries,
            gi == g,
            g > 0,
            queries < usize::MAX,
            n == hs * (qs + 1),
            r.len() == queries * g * heads,
            total == n * gi,
            i <= total,
            out@ =~= Seq::new(total as nat, |i: int| bias_element(r@, hs, qs, gi, i)).take(i as int),
        decreases total - i,
    {
        proof {
            index_parts(i as int, n, gi);
            index_parts((i / g) as int, hs, qs + 1);
        }
        let row: usize = i / g;
        let k: usize = i % g;
        let h: usize = row / (queries + 1);
        let q: usize = row % (queries + 1);
        if q == 0 {
            out.push(0);
        } else {
            proof {
                let a = (q - 1) * gi + k;
                index_bound(q - 1, k as int, qs, gi);
                index_bound(a, h as int, qs * gi, hs);
                assert(0 <= (q - 1) * gi <= a && a <= a * hs && 0 <= a * hs) by (nonlinear_arith)
                    requires
                        a == (q - 1) * gi + k,
                        q >= 1,
                        k >= 0,
                        gi >= 0,
                        hs >= 1,
                ;
            }
            out.push(r[((q - 1) * g + k) * heads + h]);
        }
        i += 1;
    }
    out
}

// ---------------------------------------------------------------------------
// The prompt.

/// The length of the run of nonzero values a mask begins with.
pub open spec fn ones(mask: Seq<u32>) -> nat
    decreases mask.len(),
{
    if mask.len() > 0 && mask[0] != 0 {
        1 + ones(mask.skip(1))
    } else {
        0
    }
}

proof fn ones_is(mask: Seq<u32>, n: nat)
    requires
        n <= mask.len(),
        forall|i: int| 0 <= i < n ==> #[trigger] mask[i] != 0,
        n == mask.len() || mask[n as int] == 0,
    ensures
        ones(mask) == n,
    decreases mask.len(),
{
    if n > 0 {
        assert(mask[0] != 0);
        let t = mask.skip(1);
        assert forall|i: int| 0 <= i < n - 1 implies #[trigger] t[i] != 0 by {
            assert(t[i] == mask[i + 1]);
        }
        ones_is(t, (n - 1) as nat);
    }
}

/// Whether a mask is a run of nonzero values, not empty, before zeros only.
pub open spec fn is_prefix_mask(mask: Seq<u32>) -> bool {
    0 < ones(mask) && forall|i: int| ones(mask) <= i < mask.len() ==> #[trigger] mask[i] == 0
}

/// The number of valid tokens of a prompt of `len` ids: its mask must be a
/// non-empty prefix.
pub fn valid_tokens(ids: &Vec<u32>, mask: &Vec<u32>, len: usize) -> (r: Result<usize, Error>)
    ensures
        match r {
            Ok(n) => is_prefix_mask(mask@) && ids.len() == len && n == ones(mask@),
            Err(e) => !(is_prefix_mask(mask@) && ids.len() == len) && rejects(
                e,
                "the attention mask must be a non-empty prefix"@,
            ),
        },
{
    let mut n: usize = 0;
    while n < mask.len() && mask[n] != 0
        invariant
            n <= mask.len(),
            forall|i: int| 0 <= i < n ==> #[trigger] mask@[i] != 0,
        decreases mask.len() - n,
    {
        n += 1;
    }
    proof {
        ones_is(mask@, n as nat);
    }
    let mut clean: bool = true;
    let mut i: usize = n;
    while i < mask.len()
        invariant
            n <= i <= mask.len(),
            clean == (forall|k: int| n <= k < i ==> #[trigger] mask@[k] == 0),
        decreases mask.len() - i,
    {
        if mask[i] != 0 {
            clean = false;
        }
        i += 1;
    }
    if n == 0 || !clean || ids.len() != len {
        Err(Error::Input("the attention mask must be a non-empty prefix".to_string()))
    } else {
        Ok(n)
    }
}

// ---------------------------------------------------------------------------
// Rotary positions and skips.

/// The value with the opposite sign.
pub open spec fn negated(bits: u32) -> u32 {
    if bits < 0x8000_0000 {
        (bits + 0x8000_0000) as u32
    } else {
        (bits - 0x8000_0000) as u32
    }
}

pub open spec fn signed(bits: u32, minus: bool) -> u32 {
    if minus {
        negated(bits)
    } else {
        bits
    }
}

fn negate(bits: u32) -> (r: u32)
    ensures
        r == negated(bits),
{
    if bits < 0x8000_0000 {
        bits + 0x8000_0000
    } else {
        bits - 0x8000_0000
    }
}

/// `r` is `a * b + c * d` (or `- c * d`), every operation rounded, in bf16.
pub open spec fn two_products<A: Fn(u32, u32) -> u32, M: Fn(u32, u32) -> u32>(ops: Ops<A, M>, a: u32, b: u32, c: u32, d: u32, minus: bool, r: u16) -> bool {
    exists|x: u32, y: u32, s: u32| #[trigger]
        ops.product(a, b, x) && #[trigger] ops.product(c, d, y) && #[trigger] ops.sum(x, signed(y, minus), s) && r
            == narrow(s)
}

/// Element `i` of rotated rows (`hd` wide, halves paired): the first half
/// is `x1 cos - x2 sin`, the second `x2 cos + x1 sin`, the angles those of
/// the row's token.
pub open spec fn is_rotated<A: Fn(u32, u32) -> u32, M: Fn(u32, u32) -> u32>(
    ops: Ops<A, M>,
    rows: Seq<u16>,
    cos: Seq<u32>,
    sin: Seq<u32>,
    global: bool,
    heads: int,
    ws2: int,
    hd: int,
    i: int,
    r: u16,
) -> bool {
    let half = hd / 2;
    let (row, e) = (i / hd, i % hd);
    let d = if e < half {
        e
    } else {
        e - half
    };
    let at = token_of(global, heads, ws2, row) * half + d;
    let x1 = wide(rows[row * hd + d]);
    let x2 = wide(rows[row * hd + half + d]);
    if e < half {
        two_products(ops, x1, cos[at], x2, sin[at], true, r)
    } else {
        two_products(ops, x2, cos[at], x1, sin[at], false, r)
    }
}

fn rotate_one<A: Fn(u32, u32) -> u32, M: Fn(u32, u32) -> u32>(ops: &Ops<A, M>, a: u32, b: u32, c: u32, d: u32, minus: bool) -> (r: u16)
    requires
        ops.total(),
    ensures
        two_products(*ops, a, b, c, d, minus, r),
{
    let x: u32 = ops.times(a, b);
    let y: u32 = ops.times(c, d);
    let z: u32 = if minus {
        negate(y)
    } else {
        y
    };
    let s: u32 = ops.plus(x, z);
    proof {
        assert(ops.product(a, b, x) && ops.product(c, d, y) && ops.sum(x, signed(y, minus), s));
    }
    f32_to_bf16(s)
}

/// Rotary positions on attention rows (`[rows of hd]`, as [`split_heads`]
/// makes them): `cos` and `sin` hold half a row for each token.
#[verifier::rlimit(40)]
pub fn rotate<A: Fn(u32, u32) -> u32, M: Fn(u32, u32) -> u32>(
    ops: &Ops<A, M>,
    rows: &Vec<u16>,
    cos: &Vec<u32>,
    sin: &Vec<u32>,
    tokens: usize,
    heads: usize,
    hd: usize,
    ws2: usize,
    global: bool,
) -> (r: Vec<u16>)
    requires
        ops.total(),
        heads > 0,
        hd > 0,
        hd % 2 == 0,
        ws2 > 0,
        tokens % ws2 == 0,
        rows.len() == tokens * (heads * hd),
        cos.len() >= tokens * (hd / 2),
        sin.len() >= tokens * (hd / 2),
    ensures
        r.len() == rows.len(),
        forall|i: int|
            0 <= i < r.len() ==> is_rotated(
                *ops,
                rows@,
                cos@,
                sin@,
                global,
                heads as int,
                ws2 as int,
                hd as int,
                i,
                #[trigger] r[i],
            ),
{
    let half: usize = hd / 2;
    let ghost (hs, w, e0, t) = (heads as int, ws2 as int, hd as int, tokens as int);
    let total: usize = rows.len();
    let mut out: Vec<u16> = Vec::new();
    let mut i: usize = 0;
    while i < total
        invariant
            ops.total(),
            hs == heads,
            w == ws2,
            e0 == hd,
            t == tokens,
            hs > 0,
            e0 > 0,
            e0 % 2 == 0,
            w > 0,
            t % w == 0,
            half == hd / 2,
            total == rows.len(),
            total == t * (hs * e0),
            cos.len() >= t * half,
            sin.len() >= t * half,
            i <= total,
            out.len() == i,
            forall|k: int|
                0 <= k < i ==> is_rotated(*ops, rows@, cos@, sin@, global, hs, w, e0, k, #[trigger] out[k]),
        decreases total - i,
    {
        proof {
            rotate_bounds(global, hs, w, e0, t, i as int);
        }
        let row: usize = i / hd;
        let e: usize = i % hd;
        let d: usize = if e < half {
            e
        } else {
            e - half
        };
        let tok: usize = if global {
            row / heads
        } else {
            (row / ws2 / heads) * ws2 + row % ws2
        };
        proof {
            index_bound(tok as int, d as int, t, half as int);
            assert(0 <= tok * half) by (nonlinear_arith)
                requires
                    tok >= 0,
                    half >= 0,
            ;
        }
        let at: usize = tok * half + d;
        let x1: u32 = bf16_to_f32(rows[row * hd + d]);
        let x2: u32 = bf16_to_f32(rows[row * hd + half + d]);
        let v: u16 = if e < half {
            rotate_one(ops, x1, cos[at], x2, sin[at], true)
        } else {
            rotate_one(ops, x2, cos[at], x1, sin[at], false)
        };
        out.push(v);
        i += 1;
    }
    out
}

proof fn rotate_bounds(global: bool, heads: int, ws2: int, hd: int, tokens: int, i: int)
    requires
        0 < heads,
        0 < hd,
        0 < ws2,
        tokens % ws2 == 0,
        0 <= i < tokens * (heads * hd),
    ensures
        ({
            let row = i / hd;
            let tok = token_of(global, heads, ws2, row);
            &&& 0 <= row < tokens * heads
            &&& 0 <= tok < tokens
            &&& 0 <= row * hd
            &&& row * hd + hd <= tokens * (heads * hd)
            &&& 0 <= i % hd < hd
            &&& 0 <= (row / ws2 / heads) * ws2
            &&& !global ==> (row / ws2 / heads) * ws2 + row % ws2 == tok
        }),
{
    assert(tokens * (heads * hd) == (tokens * heads) * hd) by (nonlinear_arith);
    index_parts(i, tokens * heads, hd);
    let row = i / hd;
    token_bound(global, heads, ws2, tokens, row);
    index_bound(row, hd - 1, tokens * heads, hd);
    assert(0 <= row * hd) by (nonlinear_arith)
        requires
            row >= 0,
            hd >= 0,
    ;
    vstd::arithmetic::div_mod::lemma_div_pos_is_pos(row, ws2);
    vstd::arithmetic::div_mod::lemma_div_pos_is_pos(row / ws2, heads);
    let a = row / ws2 / heads;
    assert(0 <= a * ws2) by (nonlinear_arith)
        requires
            a >= 0,
            ws2 >= 0,
    ;
}

/// `r` is the sum of an upsampled element and a skip connection's, in bf16.
pub open spec fn is_upsampled<A: Fn(u32, u32) -> u32>(plus: A, p: Seq<u32>, skip: Seq<u32>, side: int, d: int, i: int, r: u16) -> bool {
    let px = i / d;
    let (y, x) = (px / (2 * side), px % (2 * side));
    let from = ((y / 2) * side + x / 2) * d + i % d;
    exists|s: u32| call_ensures(plus, (p[from], skip[i]), s) && r == #[trigger] narrow(s)
}

/// A `[side, side, d]` map doubled (nearest) plus a skip connection
/// `[2 side, 2 side, d]`.
pub fn upsample<A: Fn(u32, u32) -> u32>(p: &Vec<u32>, skip: &Vec<u32>, side: usize, d: usize, plus: &A) -> (r: Vec<u16>)
    requires
        side > 0,
        d > 0,
        p.len() == side * side * d,
        2 * side <= usize::MAX,
        skip.len() == (2 * side) * (2 * side) * d,
        forall|a: u32, b: u32| call_requires(*plus, (a, b)),
    ensures
        r.len() == skip.len(),
        forall|i: int| 0 <= i < r.len() ==> is_upsampled(*plus, p@, skip@, side as int, d as int, i, #[trigger] r[i]),
{
    let ghost (s, c) = (side as int, d as int);
    let s2: usize = 2 * side;
    let total: usize = skip.len();
    let mut out: Vec<u16> = Vec::new();
    let mut i: usize = 0;
    while i < total
        invariant
            s == side,
            c == d,
            s > 0,
            c > 0,
            s2 == 2 * s,
            p.len() == s * s * c,
            total == skip.len(),
            total == s2 * s2 * c,
            forall|a: u32, b: u32| call_requires(*plus, (a, b)),
            i <= total,
            out.len() == i,
            forall|k: int| 0 <= k < i ==> is_upsampled(*plus, p@, skip@, s, c, k, #[trigger] out[k]),
        decreases total - i,
    {
        proof {
            index_parts(i as int, s2 * s2, c);
            index_parts((i / d) as int, s2 as int, s2 as int);
            let px = (i as int) / c;
            let (y, x) = (px / (s2 as int), px % (s2 as int));
            let q = (y / 2) * s + x / 2;
            index_bound(y / 2, x / 2, s, s);
            index_bound(q, (i as int) % c, s * s, c);
            assert(0 <= (y / 2) * s <= q && q <= q * c && 0 <= q * c) by (nonlinear_arith)
                requires
                    q == (y / 2) * s + x / 2,
                    y / 2 >= 0,
                    x / 2 >= 0,
                    s >= 0,
                    c >= 1,
            ;
        }
        let px: usize = i / d;
        let y: usize = px / s2;
        let x: usize = px % s2;
        let from: usize = ((y / 2) * side + x / 2) * d + i % d;
        let z: u32 = plus(p[from], skip[i]);
        let v: u16 = f32_to_bf16(z);
        assert(is_upsampled(*plus, p@, skip@, s, c, i as int, v)) by {
            assert(v == narrow(z));
        }
        out.push(v);
        i += 1;
    }
    out
}

} // verus!
