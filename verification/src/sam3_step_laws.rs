//! What the steps of a running SAM 3 program do to single elements: which
//! row and column of an operand each element of a result is, or is made of.

use crate::arith::{index_bound, index_parts, split_index};
use crate::bf16::{narrow, wide};
use crate::sam3::Error;
use crate::sam3_layout::{negated, rows_and_heads_match, shuffle_spreads_taps};
use crate::sam3_machine::{step_gives, Fault, ModelView, Parts};
use crate::sam3_moves::{beside, moved};
use crate::sam3_stages::Sizes;
use crate::sam3_steps::{Op, Reg, StepView};
use crate::sam3_values::{halves, ids, reals, Value, ValueView};
use crate::store::{elems16, elems32, signed_elems32, DType};
use vstd::prelude::*;

verus! {

/// Row `r`, column `e` of a cut is column `off + e` of that row.
pub proof fn columns_are_cut_out(z: Sizes, ws2: int, s: StepView, regs: Map<Reg, ValueView>, x: Seq<u16>, v: Seq<u16>, width: usize, off: usize, n: usize, rows: int, r: int, e: int)
    requires
        s.op == (Op::Columns { width, off, n }),
        halves(regs, s, 0) == Some(x),
        moved(z, ws2, s, regs) == Some(ValueView::Halves(v)),
        x.len() == rows * width,
        0 <= r < rows,
        0 <= e < n,
    ensures
        v.len() == rows * n,
        v[r * n + e] == x[r * width + off + e],
{
    vstd::arithmetic::div_mod::lemma_div_multiples_vanish(rows, width as int);
    assert(rows * width == width * rows && rows * n >= 0) by (nonlinear_arith)
        requires
            rows >= 0,
            n >= 0,
    ;
    index_bound(r, e, rows, n as int);
    split_index(r, e, n as int);
}

/// Tap (`dy`, `dx`) of pixel (`y`, `x`) is pixel (`2y + dy`, `2x + dx`) of a grid
/// twice as fine.
pub proof fn taps_become_pixels(z: Sizes, ws2: int, s: StepView, regs: Map<Reg, ValueView>, x: Seq<u16>, v: Seq<u16>, h: usize, width: usize, off: usize, c: usize, y: int, px: int, dy: int, dx: int, e: int)
    requires
        s.op == (Op::Shuffle { h, width, off, c }),
        halves(regs, s, 0) == Some(x),
        moved(z, ws2, s, regs) == Some(ValueView::Halves(v)),
        0 <= y < h,
        0 <= px < h,
        0 <= dy < 2,
        0 <= dx < 2,
        0 <= e < c,
    ensures
        v.len() == (2 * h) * (2 * h) * c,
        v[((2 * y + dy) * (2 * h) + (2 * px + dx)) * c + e] == x[(y * h + px) * width + off + (2 * dy + dx) * c + e],
{
    shuffle_spreads_taps(h as int, width as int, off as int, c as int, y, px, dy, dx, e);
    assert(4 * (h * h) * c == (2 * h) * (2 * h) * c && 4 * (h * h) * c >= 0) by (nonlinear_arith);
    index_bound(2 * y + dy, 2 * px + dx, 2 * h, 2 * h);
    index_bound((2 * y + dy) * (2 * h) + (2 * px + dx), e, (2 * h) * (2 * h), c as int);
}

proof fn head_row(global: bool, heads: int, ws2: int, tokens: int, t: int, head: int)
    requires
        ws2 > 0,
        tokens % ws2 == 0,
        0 <= t < tokens,
        0 <= head < heads,
    ensures
        ({
            let row = if global { t * heads + head } else { ((t / ws2) * heads + head) * ws2 + t % ws2 };
            0 <= row < tokens * heads
        }),
{
    if global {
        index_bound(t, head, tokens, heads);
    } else {
        vstd::arithmetic::div_mod::lemma_fundamental_div_mod(tokens, ws2);
        let wins = tokens / ws2;
        assert(tokens == wins * ws2) by {
            vstd::arithmetic::mul::lemma_mul_is_commutative(wins, ws2);
        }
        index_parts(t, wins, ws2);
        index_bound(t / ws2, head, wins, heads);
        index_bound((t / ws2) * heads + head, t % ws2, wins * heads, ws2);
        assert(wins * heads * ws2 == tokens * heads) by (nonlinear_arith)
            requires
                tokens == wins * ws2,
        ;
    }
}

/// A head of a token is a row: token by token where attention is global, else
/// window by window and in a window head by head. Part `part` of the
/// projection starts `part` widths in.
pub proof fn projections_are_split_by_head(z: Sizes, ws2: int, s: StepView, regs: Map<Reg, ValueView>, x: Seq<u16>, v: Seq<u16>, part: usize, global: bool, heads: usize, hd: usize, dim: usize, t: int, head: int, e: int)
    requires
        s.op == (Op::SplitHeads { part, global, heads, hd, dim }),
        halves(regs, s, 0) == Some(x),
        moved(z, ws2, s, regs) == Some(ValueView::Halves(v)),
        0 <= t < z.tokens,
        0 <= head < heads,
        0 <= e < hd,
    ensures
        v.len() == z.tokens * (heads * hd),
        ({
            let row = if global { t * heads + head } else { ((t / ws2) * heads + head) * ws2 + t % ws2 };
            v[row * hd + e] == x[t * (3 * (heads * hd)) + part * (heads * hd) + head * hd + e]
        }),
{
    head_row(global, heads as int, ws2, z.tokens as int, t, head);
    let row = if global { t * heads + head } else { ((t / ws2) * heads + head) * ws2 + t % ws2 };
    rows_and_heads_match(global, heads as int, ws2, t, head);
    index_bound(row, e, z.tokens * heads, hd as int);
    split_index(row, e, hd as int);
    assert(z.tokens * heads * hd == z.tokens * (heads * hd)) by (nonlinear_arith);
}

/// Merged, a token has its heads side by side, each from the row it was in.
pub proof fn heads_are_merged_by_token(z: Sizes, ws2: int, s: StepView, regs: Map<Reg, ValueView>, x: Seq<u16>, v: Seq<u16>, global: bool, heads: usize, hd: usize, dim: usize, t: int, head: int, e: int)
    requires
        s.op == (Op::MergeHeads { global, heads, hd, dim }),
        halves(regs, s, 0) == Some(x),
        moved(z, ws2, s, regs) == Some(ValueView::Halves(v)),
        0 <= t < z.tokens,
        0 <= head < heads,
        0 <= e < hd,
    ensures
        v.len() == z.tokens * (heads * hd),
        ({
            let row = if global { t * heads + head } else { ((t / ws2) * heads + head) * ws2 + t % ws2 };
            v[t * (heads * hd) + head * hd + e] == x[row * hd + e]
        }),
{
    let d = heads * hd;
    index_bound(head, e, heads as int, hd as int);
    index_bound(t, head * hd + e, z.tokens as int, d);
    split_index(t, head * hd + e, d);
    split_index(head, e, hd as int);
    let i = t * d + head * hd + e;
    assert(i == (t * heads + head) * hd + e) by (nonlinear_arith)
        requires
            i == t * d + head * hd + e,
            d == heads * hd,
    ;
    split_index(t * heads + head, e, hd as int);
}

/// Head `head` of token `t` is row `t` of the head's rows.
pub proof fn values_are_split_by_head(z: Sizes, ws2: int, s: StepView, regs: Map<Reg, ValueView>, x: Seq<u16>, v: Seq<u16>, tokens: usize, heads: usize, hd: usize, width: usize, off: usize, t: int, head: int, e: int)
    requires
        s.op == (Op::ByHead { tokens, heads, hd, width, off }),
        halves(regs, s, 0) == Some(x),
        moved(z, ws2, s, regs) == Some(ValueView::Halves(v)),
        0 <= t < tokens,
        0 <= head < heads,
        0 <= e < hd,
    ensures
        v.len() == heads * tokens * hd,
        v[(head * tokens + t) * hd + e] == x[t * width + off + head * hd + e],
{
    index_bound(head, t, heads as int, tokens as int);
    index_bound(head * tokens + t, e, heads * tokens, hd as int);
    split_index(head * tokens + t, e, hd as int);
    split_index(head, t, tokens as int);
}

/// Column `off + p` of row `r` is place `r` of plane `p`.
pub proof fn columns_become_planes(z: Sizes, ws2: int, s: StepView, regs: Map<Reg, ValueView>, x: Seq<u16>, v: Seq<u16>, rows: usize, width: usize, off: usize, planes: usize, p: int, r: int)
    requires
        s.op == (Op::Planes { rows, width, off, planes }),
        halves(regs, s, 0) == Some(x),
        moved(z, ws2, s, regs) == Some(ValueView::Halves(v)),
        0 <= p < planes,
        0 <= r < rows,
    ensures
        v.len() == planes * rows,
        v[p * rows + r] == x[r * width + off + p],
{
    index_bound(p, r, planes as int, rows as int);
    split_index(p, r, rows as int);
}

/// Row (`y`, `q`) of a convolution's operand, the image bordered by zeros and
/// each row two longer than the image's, has the pixels of column `q - 1` in
/// rows `y - 1`, `y` and `y + 1`; zeros fill it up.
pub proof fn convolutions_see_three_rows(z: Sizes, ws2: int, s: StepView, regs: Map<Reg, ValueView>, x: Seq<u16>, v: Seq<u16>, side: usize, c: usize, d: usize, y: int, q: int, dy: int, ch: int)
    requires
        s.op == (Op::ConvRows { side, c, d }),
        halves(regs, s, 0) == Some(x),
        moved(z, ws2, s, regs) == Some(ValueView::Halves(v)),
        0 <= y < side,
        0 <= q < side + 2,
        0 <= dy < 3,
        0 <= ch < c,
    ensures
        v.len() == side * (side + 2) * d,
        v[(y * (side + 2) + q) * d + dy * c + ch] == (if 1 <= y + dy <= side && 1 <= q <= side {
            x[((y + dy - 1) * side + (q - 1)) * c + ch]
        } else {
            0
        }),
        forall|e: int| 3 * c <= e < d ==> #[trigger] v[(y * (side + 2) + q) * d + e] == 0,
{
    let (si, ci, di) = (side as int, c as int, d as int);
    index_bound(y, q, si, si + 2);
    index_bound(dy, ch, 3, ci);
    let r = y * (si + 2) + q;
    index_bound(r, dy * ci + ch, si * (si + 2), di);
    split_index(r, dy * ci + ch, di);
    split_index(y, q, si + 2);
    split_index(dy, ch, ci);
    assert forall|e: int| 3 * c <= e < d implies #[trigger] v[r * d + e] == 0 by {
        index_bound(r, e, si * (si + 2), di);
        split_index(r, e, di);
    }
}

/// Pixel (`y`, `q`) of a convolution is the one of its longer rows.
pub proof fn borders_are_dropped(z: Sizes, ws2: int, s: StepView, regs: Map<Reg, ValueView>, x: Seq<u16>, v: Seq<u16>, side: usize, oc: usize, y: int, q: int, e: int)
    requires
        s.op == (Op::DropBorder { side, oc }),
        halves(regs, s, 0) == Some(x),
        moved(z, ws2, s, regs) == Some(ValueView::Halves(v)),
        0 <= y < side,
        0 <= q < side,
        0 <= e < oc,
    ensures
        v.len() == side * side * oc,
        v[(y * side + q) * oc + e] == x[(y * (side + 2) + q) * oc + e],
{
    let (si, o) = (side as int, oc as int);
    index_bound(y, q, si, si);
    index_bound(y * si + q, e, si * si, o);
    split_index(y * si + q, e, o);
    split_index(y, q, si);
}

/// A bias of box `q` at place `k` for head `h` stands in the head's rows, one
/// below the presence token's, which has none.
pub proof fn biases_go_by_head(
    z: Sizes,
    ws2: int,
    s: StepView,
    regs: Map<Reg, ValueView>,
    x: Seq<u32>,
    v: Seq<u32>,
    heads: usize,
    boxes: usize,
    queries: usize,
    grid: usize,
    h: int,
    q: int,
    k: int,
)
    requires
        s.op == (Op::BiasByHead { heads, boxes, queries, grid }),
        reals(regs, s, 0) == Some(x),
        moved(z, ws2, s, regs) == Some(ValueView::Reals(v)),
        0 <= h < heads,
        0 <= q < boxes,
        0 <= k < grid,
    ensures
        v.len() == heads * (boxes + 1) * grid,
        v[(h * (boxes + 1) + (q + 1)) * grid + k] == x[(q * grid + k) * heads + h],
        v[(h * (boxes + 1)) * grid + k] == 0,
{
    let (b, g) = (boxes + 1, grid as int);
    index_bound(h, q + 1, heads as int, b);
    index_bound(h * b + (q + 1), k, heads * b, g);
    split_index(h * b + (q + 1), k, g);
    split_index(h, q + 1, b);
    index_bound(h, 0, heads as int, b);
    index_bound(h * b, k, heads * b, g);
    split_index(h * b, k, g);
    split_index(h, 0, b);
}

/// Rows move as wholes: stacked, the second's follow the first's; side by
/// side and rounded, a row is both rows in turn; the first rows stay, the
/// others go on from there, and padding is zeros behind.
pub proof fn rows_move_as_wholes(z: Sizes, ws2: int, s: StepView, regs: Map<Reg, ValueView>, x: Seq<u32>, y: Seq<u32>, i: int)
    requires
        reals(regs, s, 0) == Some(x),
        s.op is Stack || s.op is Beside ==> reals(regs, s, 1) == Some(y),
        moved(z, ws2, s, regs) is Some,
        0 <= i,
    ensures
        s.op is Copy ==> moved(z, ws2, s, regs) == Some(ValueView::Reals(x)),
        s.op is Stack ==> (moved(z, ws2, s, regs) matches Some(ValueView::Reals(v)) && v.len() == x.len() + y.len() && (i < x.len()
            ==> v[i] == x[i]) && (i < y.len() ==> v[x.len() + i] == y[i])),
        s.op is Narrow ==> (moved(z, ws2, s, regs) matches Some(ValueView::Halves(v)) && v.len() == x.len() && (i < x.len() ==> v[i]
            == narrow(x[i]))),
        s.op matches Op::FirstRows { rows } ==> (moved(z, ws2, s, regs) matches Some(ValueView::Reals(v)) && v.len() == rows * z.d
            && (i < v.len() ==> v[i] == x[i])),
        s.op matches Op::SkipRows { rows } ==> (moved(z, ws2, s, regs) matches Some(ValueView::Reals(v)) && v.len() == x.len()
            - rows * z.d && (i < v.len() ==> v[i] == x[rows * z.d + i])),
        s.op matches Op::PadRows { rows } ==> (moved(z, ws2, s, regs) matches Some(ValueView::Reals(v)) && v.len() == rows * z.d && (
        i < x.len() ==> v[i] == x[i]) && (x.len() <= i < v.len() ==> v[i] == 0)),
{
    match s.op {
        Op::FirstRows { rows } => {
            assert(rows * z.d >= 0) by (nonlinear_arith);
        },
        Op::SkipRows { rows } => {
            assert(rows * z.d >= 0) by (nonlinear_arith);
        },
        _ => {},
    }
}

/// Widening keeps every value.
pub proof fn widening_keeps_values(z: Sizes, ws2: int, s: StepView, regs: Map<Reg, ValueView>, x: Seq<u16>, i: int)
    requires
        s.op is Widen,
        halves(regs, s, 0) == Some(x),
        0 <= i < x.len(),
    ensures
        moved(z, ws2, s, regs) matches Some(ValueView::Reals(v)) && v.len() == x.len() && v[i] == x[i] * 0x1_0000,
{
}

proof fn beside_element(a: Seq<u32>, b: Seq<u32>, dim: int, rows: nat, r: int, e: int)
    requires
        0 <= r < rows,
        0 <= e < dim,
        rows * dim <= a.len(),
        rows * dim <= b.len(),
    ensures
        beside(a, b, dim, rows).len() == rows * (2 * dim),
        beside(a, b, dim, rows)[r * (2 * dim) + e] == narrow(a[r * dim + e]),
        beside(a, b, dim, rows)[r * (2 * dim) + dim + e] == narrow(b[r * dim + e]),
    decreases rows,
{
    let n = (rows - 1) as nat;
    assert(n * dim + dim == rows * dim && n * dim >= 0 && n * (2 * dim) + 2 * dim == rows * (2 * dim)) by (nonlinear_arith)
        requires
            n == rows - 1,
            rows >= 1,
            dim >= 0,
    ;
    let before = beside(a, b, dim, n);
    if n > 0 {
        beside_element(a, b, dim, n, if r < n { r } else { 0 }, e);
    } else {
        assert(0 * (2 * dim) == 0) by (nonlinear_arith);
    }
    assert(before.len() == n * (2 * dim));
    if r < n {
        assert(r * (2 * dim) + 2 * dim <= n * (2 * dim)) by (nonlinear_arith)
            requires
                r + 1 <= n,
                dim >= 0,
        ;
        assert(r * (2 * dim) >= 0) by (nonlinear_arith)
            requires
                r >= 0,
                dim >= 0,
        ;
    }
}

/// Side by side, row `r` is the row of the first operand, then that of the
/// second, rounded.
pub proof fn rows_stand_side_by_side(
    z: Sizes,
    ws2: int,
    s: StepView,
    regs: Map<Reg, ValueView>,
    x: Seq<u32>,
    y: Seq<u32>,
    v: Seq<u16>,
    dim: usize,
    both: usize,
    rows: int,
    r: int,
    e: int,
)
    requires
        s.op == (Op::Beside { dim, both }),
        reals(regs, s, 0) == Some(x),
        reals(regs, s, 1) == Some(y),
        moved(z, ws2, s, regs) == Some(ValueView::Halves(v)),
        x.len() == rows * dim,
        y.len() == rows * dim,
        0 <= r < rows,
        0 <= e < dim,
    ensures
        v.len() == rows * (2 * dim),
        v[r * (2 * dim) + e] == narrow(x[r * dim + e]),
        v[r * (2 * dim) + dim + e] == narrow(y[r * dim + e]),
{
    vstd::arithmetic::div_mod::lemma_div_multiples_vanish(rows, dim as int);
    assert(rows * dim == dim * rows) by (nonlinear_arith);
    beside_element(x, y, dim as int, rows as nat, r, e);
}

/// Row `j` is the patch the order names: channel by channel, its pixel (`ky`,
/// `kx`) is that far into the square at its place in the grid; zeros fill the
/// row up.
pub proof fn patches_are_squares_of_the_image<
    P: Fn(u32, u32) -> u32,
    M: Fn(u32, u32) -> u32,
    E: Fn(&Op, u32) -> u32,
    C: Fn(&Op, &Vec<&Value>, &Vec<Value>) -> Result<Value, Error>,
    D: Fn(&Op, &String, &Vec<&Value>) -> Result<Value, Error>,
>(
    parts: &Parts<P, M, E, C, D>,
    m: ModelView,
    s: StepView,
    regs: Map<Reg, ValueView>,
    px: Seq<u32>,
    order: Seq<i32>,
    v: Seq<u16>,
    tokens: usize,
    width: usize,
    j: int,
    ch: int,
    ky: int,
    kx: int,
)
    requires
        s.op == (Op::Patches { tokens, width }),
        reals(regs, s, 0) == Some(px),
        m.store.typed(s.name, DType::I32) matches Ok(b) && order == signed_elems32(b),
        step_gives(parts, m, s, regs, Ok::<ValueView, Fault>(ValueView::Halves(v))),
        0 <= j < m.z.grid * m.z.grid,
        0 <= ch < 3,
        0 <= ky < m.cfg.patch,
        0 <= kx < m.cfg.patch,
    ensures
        ({
            let (g, ps, size) = (m.z.grid as int, m.cfg.patch as int, m.cfg.image_size as int);
            let (row, col) = (order[j] as int / g, order[j] as int % g);
            v[j * width + (ch * ps + ky) * ps + kx] == narrow(px[(ch * size + (row * ps + ky)) * size + (col * ps + kx)])
        }),
        forall|e: int| 3 * m.cfg.patch * m.cfg.patch <= e < width ==> #[trigger] v[j * width + e] == 0,
{
    let (g, ps, size, w) = (m.z.grid as int, m.cfg.patch as int, m.cfg.image_size as int, width as int);
    let q = ps * ps;
    index_bound(ky, kx, ps, ps);
    index_bound(ch, ky * ps + kx, 3, q);
    let col = ch * q + (ky * ps + kx);
    assert((ch * ps + ky) * ps + kx == col) by (nonlinear_arith)
        requires
            col == ch * q + (ky * ps + kx),
            q == ps * ps,
    ;
    index_bound(j, col, g * g, w);
    split_index(j, col, w);
    split_index(ch, ky * ps + kx, q);
    split_index(ky, kx, ps);
    assert(col % ps == kx) by {
        split_index(ch * ps + ky, kx, ps);
    }
    let p = order[j] as int;
    assert((ch * size + ((p / g) * ps + ky)) * size + ((p % g) * ps + kx) == ch * (size * size) + ((p / g) * ps + ky) * size + (p % g)
        * ps + kx) by (nonlinear_arith);
    assert(3 * ps * ps == 3 * q) by (nonlinear_arith)
        requires
            q == ps * ps,
    ;
    assert forall|e: int| 3 * m.cfg.patch * m.cfg.patch <= e < width implies #[trigger] v[j * width + e] == 0 by {
        assert(e >= 0) by (nonlinear_arith)
            requires
                e >= 3 * q,
                q == ps * ps,
                ps >= 0,
        ;
        index_bound(j, e, g * g, w);
        split_index(j, e, w);
    }
}

/// Row `t` is the embedding of token `t` plus the embedding of its place.
pub proof fn tokens_are_embedded_with_their_positions<
    P: Fn(u32, u32) -> u32,
    M: Fn(u32, u32) -> u32,
    E: Fn(&Op, u32) -> u32,
    C: Fn(&Op, &Vec<&Value>, &Vec<Value>) -> Result<Value, Error>,
    D: Fn(&Op, &String, &Vec<&Value>) -> Result<Value, Error>,
>(
    parts: &Parts<P, M, E, C, D>,
    m: ModelView,
    s: StepView,
    regs: Map<Reg, ValueView>,
    v: Seq<u32>,
    tokens: Seq<u32>,
    words: Seq<u8>,
    places: Seq<u8>,
    rows: usize,
    cols: usize,
    t: int,
    e: int,
)
    requires
        s.op == (Op::Embed { rows, cols }),
        ids(regs, s, 0) == Some(tokens),
        m.store.typed(s.name + ".tok_emb"@, DType::Bf16) == Ok::<Seq<u8>, Seq<char>>(words),
        m.store.typed(s.name + ".pos_emb"@, DType::F32) == Ok::<Seq<u8>, Seq<char>>(places),
        step_gives(parts, m, s, regs, Ok::<ValueView, Fault>(ValueView::Reals(v))),
        0 <= t < rows,
        0 <= e < cols,
    ensures
        v.len() == rows * cols,
        call_ensures(
            parts.ops.add,
            (wide(elems16(words)[tokens[t] * cols + e]), elems32(places)[t * cols + e]),
            v[t * cols + e],
        ),
{
    index_bound(t, e, rows as int, cols as int);
    split_index(t, e, cols as int);
    let i = t * cols + e;
    assert(parts.ops.sum(wide(elems16(words)[tokens[i / cols as int] * cols + i % cols as int]), elems32(places)[i], v[i]));
}

/// Every row has the bias added, column by column.
pub proof fn a_bias_is_added_to_every_row<
    P: Fn(u32, u32) -> u32,
    M: Fn(u32, u32) -> u32,
    E: Fn(&Op, u32) -> u32,
    C: Fn(&Op, &Vec<&Value>, &Vec<Value>) -> Result<Value, Error>,
    D: Fn(&Op, &String, &Vec<&Value>) -> Result<Value, Error>,
>(
    parts: &Parts<P, M, E, C, D>,
    m: ModelView,
    s: StepView,
    regs: Map<Reg, ValueView>,
    x: Seq<u32>,
    v: Seq<u32>,
    bias: Seq<u8>,
    dim: usize,
    r: int,
    e: int,
)
    requires
        s.op == (Op::AddBias { dim }),
        reals(regs, s, 0) == Some(x),
        m.store.typed(s.name, DType::F32) == Ok::<Seq<u8>, Seq<char>>(bias),
        step_gives(parts, m, s, regs, Ok::<ValueView, Fault>(ValueView::Reals(v))),
        0 <= r,
        0 <= e < dim,
        r * dim + e < x.len(),
    ensures
        v.len() == x.len(),
        call_ensures(parts.ops.add, (x[r * dim + e], elems32(bias)[e]), v[r * dim + e]),
{
    split_index(r, e, dim as int);
    assert(r * dim >= 0) by (nonlinear_arith)
        requires
            r >= 0,
            dim >= 0,
    ;
    let i = r * dim + e;
    assert(parts.ops.sum(x[i], elems32(bias)[i % dim as int], v[i]));
}

/// Sums are of the elements at one place.
pub proof fn sums_go_element_by_element<
    P: Fn(u32, u32) -> u32,
    M: Fn(u32, u32) -> u32,
    E: Fn(&Op, u32) -> u32,
    C: Fn(&Op, &Vec<&Value>, &Vec<Value>) -> Result<Value, Error>,
    D: Fn(&Op, &String, &Vec<&Value>) -> Result<Value, Error>,
>(
    parts: &Parts<P, M, E, C, D>,
    m: ModelView,
    s: StepView,
    regs: Map<Reg, ValueView>,
    x: Seq<u32>,
    y: Seq<u32>,
    v: Seq<u32>,
    i: int,
)
    requires
        s.op is Add,
        reals(regs, s, 0) == Some(x),
        reals(regs, s, 1) == Some(y),
        step_gives(parts, m, s, regs, Ok::<ValueView, Fault>(ValueView::Reals(v))),
        0 <= i < x.len(),
        i < y.len(),
    ensures
        i < v.len(),
        call_ensures(parts.ops.add, (x[i], y[i]), v[i]),
{
    assert(parts.ops.sum(x[i], y[i], v[i]));
}

/// A residual sum is the stream plus the layer's element, widened, and its
/// bias, where there is one: the bias is added first.
pub proof fn a_residual_adds_to_the_stream<
    P: Fn(u32, u32) -> u32,
    M: Fn(u32, u32) -> u32,
    E: Fn(&Op, u32) -> u32,
    C: Fn(&Op, &Vec<&Value>, &Vec<Value>) -> Result<Value, Error>,
    D: Fn(&Op, &String, &Vec<&Value>) -> Result<Value, Error>,
>(
    parts: &Parts<P, M, E, C, D>,
    m: ModelView,
    s: StepView,
    regs: Map<Reg, ValueView>,
    x: Seq<u32>,
    c: Seq<u16>,
    v: Seq<u32>,
    bias: Seq<u8>,
    dim: usize,
    biased: bool,
    r: int,
    e: int,
)
    requires
        s.op == (Op::Residual { dim, bias: biased }),
        reals(regs, s, 0) == Some(x),
        halves(regs, s, 1) == Some(c),
        biased ==> m.store.typed(s.name, DType::F32) == Ok::<Seq<u8>, Seq<char>>(bias),
        step_gives(parts, m, s, regs, Ok::<ValueView, Fault>(ValueView::Reals(v))),
        0 <= r,
        0 <= e < dim,
        r * dim + e < x.len(),
        r * dim + e < c.len(),
    ensures
        r * dim + e < v.len() ==> exists|b: u32, t: u32| #[trigger]
            call_ensures(parts.ops.add, (wide(c[r * dim + e]), b), t) && call_ensures(
                parts.ops.add,
                (x[r * dim + e], t),
                v[r * dim + e],
            ) && b == (if biased {
                elems32(bias)[e]
            } else {
                0
            }),
{
    split_index(r, e, dim as int);
    assert(r * dim >= 0) by (nonlinear_arith)
        requires
            r >= 0,
            dim >= 0,
    ;
    let i = r * dim + e;
    if i < v.len() {
        let b = if biased {
            elems32(bias)[e]
        } else {
            0
        };
        assert(crate::sam3_machine::is_residual(&parts.ops, x[i], c[i], b, v[i]));
        let t = choose|t: u32| parts.ops.sum(wide(c[i]), b, t) && #[trigger] parts.ops.sum(x[i], t, v[i]);
        assert(call_ensures(parts.ops.add, (wide(c[i]), b), t));
    }
}

/// Pixel (`2y + dy`, `2q + dx`) is pixel (`y`, `q`) of the coarser map plus the
/// skip's own, rounded.
pub proof fn upsampling_repeats_pixels<
    P: Fn(u32, u32) -> u32,
    M: Fn(u32, u32) -> u32,
    E: Fn(&Op, u32) -> u32,
    C: Fn(&Op, &Vec<&Value>, &Vec<Value>) -> Result<Value, Error>,
    D: Fn(&Op, &String, &Vec<&Value>) -> Result<Value, Error>,
>(
    parts: &Parts<P, M, E, C, D>,
    m: ModelView,
    s: StepView,
    regs: Map<Reg, ValueView>,
    x: Seq<u32>,
    skip: Seq<u32>,
    v: Seq<u16>,
    side: usize,
    cols: usize,
    y: int,
    q: int,
    dy: int,
    dx: int,
    e: int,
)
    requires
        s.op == (Op::Upsample { side, cols }),
        reals(regs, s, 0) == Some(x),
        reals(regs, s, 1) == Some(skip),
        step_gives(parts, m, s, regs, Ok::<ValueView, Fault>(ValueView::Halves(v))),
        0 <= y < side,
        0 <= q < side,
        0 <= dy < 2,
        0 <= dx < 2,
        0 <= e < cols,
    ensures
        v.len() == skip.len(),
        exists|t: u32|
            {
                let i = ((2 * y + dy) * (2 * side) + (2 * q + dx)) * cols + e;
                call_ensures(parts.ops.add, (x[(y * side + q) * cols + e], skip[i]), t) && v[i] == #[trigger] narrow(t)
            },
{
    let (d, s2) = (cols as int, 2 * side);
    let p = (2 * y + dy) * s2 + (2 * q + dx);
    index_bound(2 * y + dy, 2 * q + dx, s2, s2);
    index_bound(p, e, s2 * s2, d);
    split_index(p, e, d);
    split_index(2 * y + dy, 2 * q + dx, s2);
    let i = p * d + e;
    assert(crate::sam3_layout::is_upsampled(parts.ops.add, x, skip, side as int, d, i, v[i]));
}

/// A rotated head pairs element `e` of its first half with that of its second:
/// `(a cos - b sin, b cos + a sin)`, the angle that of the token and pair.
pub proof fn rotation_turns_pairs<
    P: Fn(u32, u32) -> u32,
    M: Fn(u32, u32) -> u32,
    E: Fn(&Op, u32) -> u32,
    C: Fn(&Op, &Vec<&Value>, &Vec<Value>) -> Result<Value, Error>,
    D: Fn(&Op, &String, &Vec<&Value>) -> Result<Value, Error>,
>(
    parts: &Parts<P, M, E, C, D>,
    m: ModelView,
    s: StepView,
    regs: Map<Reg, ValueView>,
    qkv: Seq<u16>,
    cos: Seq<u32>,
    sin: Seq<u32>,
    v: Seq<u16>,
    part: usize,
    global: bool,
    heads: usize,
    hd: usize,
    dim: usize,
    ws2: int,
    t: int,
    head: int,
    e: int,
)
    requires
        s.op == (Op::Rotate { part, global, heads, hd, dim }),
        halves(regs, s, 0) == Some(qkv),
        reals(regs, s, 1) == Some(cos),
        reals(regs, s, 2) == Some(sin),
        step_gives(parts, m, s, regs, Ok::<ValueView, Fault>(ValueView::Halves(v))),
        ws2 == m.cfg.window * m.cfg.window,
        0 <= t < m.z.tokens,
        0 <= head < heads,
        0 <= e < hd as int / 2,
    ensures
        ({
            let row = if global { t * heads + head } else { ((t / ws2) * heads + head) * ws2 + t % ws2 };
            let half = hd as int / 2;
            let at = t * (3 * (heads * hd)) + part * (heads * hd) + head * hd + e;
            let (a, b) = (wide(qkv[at]), wide(qkv[at + half]));
            let (c, n) = (cos[t * half + e], sin[t * half + e]);
            &&& exists|p: u32, q: u32, r: u32| #[trigger]
                call_ensures(parts.ops.mul, (a, c), p) && #[trigger] call_ensures(parts.ops.mul, (b, n), q) && #[trigger] call_ensures(
                    parts.ops.add,
                    (p, negated(q)),
                    r,
                ) && v[row * hd + e] == narrow(r)
            &&& exists|p: u32, q: u32, r: u32| #[trigger]
                call_ensures(parts.ops.mul, (b, c), p) && #[trigger] call_ensures(parts.ops.mul, (a, n), q) && #[trigger] call_ensures(
                    parts.ops.add,
                    (p, q),
                    r,
                ) && v[row * hd + half + e] == narrow(r)
        }),
{
    let row = if global { t * heads + head } else { ((t / ws2) * heads + head) * ws2 + t % ws2 };
    let half = hd as int / 2;
    let (h, hs) = (hd as int, heads as int);
    head_row(global, hs, ws2, m.z.tokens as int, t, head);
    rows_and_heads_match(global, hs, ws2, t, head);
    let rows = crate::sam3_moves::part_rows(qkv, m.z.tokens as int, hs, h, ws2, global, part as int)->0;
    assert(m.z.tokens * hs * h == m.z.tokens * (hs * h)) by (nonlinear_arith);
    index_bound(row, e, m.z.tokens * hs, h);
    index_bound(row, half + e, m.z.tokens * hs, h);
    split_index(row, e, h);
    split_index(row, half + e, h);
    let at = t * (3 * (heads * hd)) + part * (heads * hd) + head * hd + e;
    assert(rows[row * h + e] == qkv[at]);
    assert(rows[row * h + half + e] == qkv[at + half]);
    assert(crate::sam3_layout::is_rotated(parts.ops, rows, cos, sin, global, hs, ws2, h, row * h + e, v[row * h + e]));
    assert(crate::sam3_layout::is_rotated(
        parts.ops,
        rows,
        cos,
        sin,
        global,
        hs,
        ws2,
        h,
        row * h + (half + e),
        v[row * h + (half + e)],
    ));
    let (a, b) = (wide(qkv[at]), wide(qkv[at + half]));
    let (c, n) = (cos[t * half + e], sin[t * half + e]);
    assert(crate::sam3_layout::two_products(parts.ops, a, c, b, n, true, v[row * h + e]));
    assert(crate::sam3_layout::two_products(parts.ops, b, c, a, n, false, v[row * h + (half + e)]));
    let (p, q, r) = choose|x: u32, y: u32, s: u32| #[trigger]
        parts.ops.product(a, c, x) && #[trigger] parts.ops.product(b, n, y) && #[trigger] parts.ops.sum(x, negated(y), s) && v[row * h + e]
            == narrow(s);
    assert(call_ensures(parts.ops.mul, (a, c), p) && call_ensures(parts.ops.mul, (b, n), q) && call_ensures(
        parts.ops.add,
        (p, negated(q)),
        r,
    ));
    let (p2, q2, r2) = choose|x: u32, y: u32, s: u32| #[trigger]
        parts.ops.product(b, c, x) && #[trigger] parts.ops.product(a, n, y) && #[trigger] parts.ops.sum(x, y, s) && v[row * h + (half + e)]
            == narrow(s);
    assert(call_ensures(parts.ops.mul, (b, c), p2) && call_ensures(parts.ops.mul, (a, n), q2) && call_ensures(
        parts.ops.add,
        (p2, q2),
        r2,
    ));
}

} // verus!
