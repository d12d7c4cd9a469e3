//! The steps of a SAM 3 program that only move or round values: what they
//! give of what the registers hold.

use crate::arith::{mul2, mul3};
use crate::clip_encode::zeros;
use crate::gather::{narrow_all, narrowed, picked, widen, widened};
use crate::sam3_layout::{
    bias_by_head, bias_element, by_head, column_place, columns, conv_element, conv_rows, drop_border, merge_heads,
    merge_place, part_place, plane_place, shuffle, shuffle_place, split_heads, transposed, unpadded_place, value_place,
};
use crate::sam3_stages::Sizes;
use crate::sam3_steps::{Op, Reg, Step, StepView};
use crate::sam3_values::{halves, reals, Machine, Value, ValueView};
use vstd::prelude::*;

verus! {

/// The rows of `a` and `b`, `dim` wide, side by side, the first `rows` of
/// them, rounded.
pub open spec fn beside(a: Seq<u32>, b: Seq<u32>, dim: int, rows: nat) -> Seq<u16>
    decreases rows,
{
    if rows == 0 {
        seq![]
    } else {
        let at = (rows - 1) * dim;
        beside(a, b, dim, (rows - 1) as nat) + narrowed(a.subrange(at, at + dim)) + narrowed(b.subrange(at, at + dim))
    }
}

/// Tokens in whole windows, with heads.
pub open spec fn heads_fit(tokens: int, heads: int, hd: int, ws2: int) -> bool {
    heads > 0 && hd > 0 && ws2 > 0 && tokens % ws2 == 0 && 3 * (heads * hd) <= usize::MAX
}

/// The rows of one of q, k and v, if all are there.
pub open spec fn part_rows(qkv: Seq<u16>, tokens: int, heads: int, hd: int, ws2: int, global: bool, part: int) -> Option<
    Seq<u16>,
> {
    if heads_fit(tokens, heads, hd, ws2) && part < 3 && tokens * (3 * (heads * hd)) <= qkv.len() {
        Some(
            picked(
                qkv,
                (tokens * (heads * hd)) as nat,
                |i: int| part_place(global, heads, ws2, hd, heads * hd, part, i),
            ),
        )
    } else {
        None
    }
}

/// What a step that moves or rounds values gives, `ws2` being the tokens of
/// a window; nothing if its operands are of other kinds or do not reach.
pub open spec fn moved(z: Sizes, ws2: int, s: StepView, regs: Map<Reg, ValueView>) -> Option<ValueView> {
    match s.op {
        Op::Zeros { rows, cols } => if rows * cols <= usize::MAX {
            Some(ValueView::Reals(zeros((rows * cols) as nat)))
        } else {
            None
        },
        Op::Copy => match reals(regs, s, 0) {
            Some(x) => Some(ValueView::Reals(x)),
            None => None,
        },
        Op::Narrow => match reals(regs, s, 0) {
            Some(x) => Some(ValueView::Halves(narrowed(x))),
            None => None,
        },
        Op::Widen => match halves(regs, s, 0) {
            Some(x) => Some(ValueView::Reals(widened(x))),
            None => None,
        },
        Op::Stack => match (reals(regs, s, 0), reals(regs, s, 1)) {
            (Some(x), Some(y)) => Some(ValueView::Reals(x + y)),
            _ => None,
        },
        Op::Beside { dim, .. } => match (reals(regs, s, 0), reals(regs, s, 1)) {
            (Some(x), Some(y)) => if dim > 0 && x.len() as int / dim as int * dim <= y.len() {
                Some(ValueView::Halves(beside(x, y, dim as int, (x.len() as int / dim as int) as nat)))
            } else {
                None
            },
            _ => None,
        },
        Op::FirstRows { rows } => match reals(regs, s, 0) {
            Some(x) => if rows * z.d <= x.len() {
                Some(ValueView::Reals(x.take(rows * z.d)))
            } else {
                None
            },
            None => None,
        },
        Op::SkipRows { rows } => match reals(regs, s, 0) {
            Some(x) => if rows * z.d <= x.len() {
                Some(ValueView::Reals(x.skip(rows * z.d)))
            } else {
                None
            },
            None => None,
        },
        Op::PadRows { rows } => match reals(regs, s, 0) {
            Some(x) => if x.len() <= rows * z.d <= usize::MAX {
                Some(ValueView::Reals(x + zeros((rows * z.d - x.len()) as nat)))
            } else {
                None
            },
            None => None,
        },
        Op::Columns { width, off, n } => match halves(regs, s, 0) {
            Some(x) => if width > 0 && off + n <= width {
                Some(
                    ValueView::Halves(
                        picked(
                            x,
                            (x.len() as int / width as int * n) as nat,
                            |i: int| column_place(width as int, off as int, n as int, i),
                        ),
                    ),
                )
            } else {
                None
            },
            None => None,
        },
        Op::Shuffle { h, width, off, c } => match halves(regs, s, 0) {
            Some(x) => if off + 4 * c <= width && h * h * width <= x.len() {
                Some(
                    ValueView::Halves(
                        picked(
                            x,
                            (4 * (h * h) * c) as nat,
                            |i: int| shuffle_place(h as int, width as int, off as int, c as int, i),
                        ),
                    ),
                )
            } else {
                None
            },
            None => None,
        },
        Op::SplitHeads { part, global, heads, hd, .. } => match halves(regs, s, 0) {
            Some(x) => match part_rows(x, z.tokens as int, heads as int, hd as int, ws2, global, part as int) {
                Some(v) => Some(ValueView::Halves(v)),
                None => None,
            },
            None => None,
        },
        Op::MergeHeads { global, heads, hd, .. } => match halves(regs, s, 0) {
            Some(x) => if heads_fit(z.tokens as int, heads as int, hd as int, ws2) && z.tokens * (heads * hd) <= x.len() {
                Some(
                    ValueView::Halves(
                        picked(
                            x,
                            (z.tokens * (heads * hd)) as nat,
                            |i: int| merge_place(global, heads as int, ws2, hd as int, i),
                        ),
                    ),
                )
            } else {
                None
            },
            None => None,
        },
        Op::ByHead { tokens, heads, hd, width, off } => match halves(regs, s, 0) {
            Some(x) => if off + heads * hd <= width && tokens * width <= x.len() {
                Some(
                    ValueView::Halves(
                        picked(
                            x,
                            (heads * tokens * hd) as nat,
                            |i: int| value_place(tokens as int, hd as int, width as int, off as int, i),
                        ),
                    ),
                )
            } else {
                None
            },
            None => None,
        },
        Op::Planes { rows, width, off, planes } => match halves(regs, s, 0) {
            Some(x) => if off + planes <= width && rows * width <= x.len() && planes * rows <= usize::MAX {
                Some(
                    ValueView::Halves(
                        picked(x, (planes * rows) as nat, |i: int| plane_place(rows as int, width as int, i) + off),
                    ),
                )
            } else {
                None
            },
            None => None,
        },
        Op::BiasByHead { heads, boxes, grid, .. } => match reals(regs, s, 0) {
            Some(x) => if x.len() == boxes * grid * heads && boxes < usize::MAX && heads * (boxes + 1) * grid
                <= usize::MAX {
                Some(
                    ValueView::Reals(
                        Seq::new(
                            (heads * (boxes + 1) * grid) as nat,
                            |i: int| bias_element(x, heads as int, boxes as int, grid as int, i),
                        ),
                    ),
                )
            } else {
                None
            },
            None => None,
        },
        Op::ConvRows { side, c, d } => match halves(regs, s, 0) {
            Some(x) => if c > 0 && 3 * c <= d && x.len() == side * side * c && side + 2 <= usize::MAX && side * (side + 2) * d
                <= usize::MAX {
                Some(
                    ValueView::Halves(
                        Seq::new(
                            (side * (side + 2) * d) as nat,
                            |i: int| conv_element(x, side as int, c as int, d as int, i),
                        ),
                    ),
                )
            } else {
                None
            },
            None => None,
        },
        Op::DropBorder { side, oc } => match halves(regs, s, 0) {
            Some(x) => if side + 2 <= usize::MAX && side * (side + 2) * oc <= x.len() {
                Some(
                    ValueView::Halves(
                        picked(x, (side * side * oc) as nat, |i: int| unpadded_place(side as int, oc as int, i)),
                    ),
                )
            } else {
                None
            },
            None => None,
        },
        _ => None,
    }
}

/// Whether `r` is the value `want`, if there is one.
pub open spec fn is_value(r: Option<Value>, want: Option<ValueView>) -> bool {
    match (r, want) {
        (Some(v), Some(w)) => v@ == w,
        (None, None) => true,
        _ => false,
    }
}

/// Whether `a * b` is at most `n`.
fn within2(a: usize, b: usize, n: usize) -> (r: bool)
    ensures
        r == (a * b <= n),
{
    match mul2(a, b) {
        Some(p) => p <= n,
        None => false,
    }
}

/// Whether `a * b * c` is at most `n`.
fn within3(a: usize, b: usize, c: usize, n: usize) -> (r: bool)
    ensures
        r == (a * b * c <= n),
{
    match mul3(a, b, c) {
        Some(p) => p <= n,
        None => false,
    }
}

pub(crate) fn zero_reals(n: usize) -> (r: Vec<u32>)
    ensures
        r@ == zeros(n as nat),
{
    let mut r: Vec<u32> = Vec::new();
    let mut i: usize = 0;
    while i < n
        invariant
            i <= n,
            r@ == zeros(i as nat),
        decreases n - i,
    {
        r.push(0);
        i += 1;
        proof {
            assert(r@ =~= zeros(i as nat));
        }
    }
    r
}

/// Elements `from` to `to` of `x`.
pub(crate) fn part_of(x: &Vec<u32>, from: usize, to: usize) -> (r: Vec<u32>)
    requires
        from <= to <= x.len(),
    ensures
        r@ == x@.subrange(from as int, to as int),
{
    let mut r: Vec<u32> = Vec::new();
    let mut i: usize = from;
    while i < to
        invariant
            from <= i <= to <= x.len(),
            r@ == x@.subrange(from as int, i as int),
        decreases to - i,
    {
        r.push(x[i]);
        i += 1;
        proof {
            assert(r@ =~= x@.subrange(from as int, i as int));
        }
    }
    r
}

fn side_by_side(a: &Vec<u32>, b: &Vec<u32>, dim: usize, rows: usize) -> (r: Vec<u16>)
    requires
        rows * dim <= a.len(),
        rows * dim <= b.len(),
    ensures
        r@ == beside(a@, b@, dim as int, rows as nat),
{
    let mut r: Vec<u16> = Vec::new();
    let mut i: usize = 0;
    while i < rows
        invariant
            i <= rows,
            rows * dim <= a.len(),
            rows * dim <= b.len(),
            r@ == beside(a@, b@, dim as int, i as nat),
        decreases rows - i,
    {
        proof {
            assert(i * dim + dim <= rows * dim && i * dim >= 0) by (nonlinear_arith)
                requires
                    0 <= i < rows,
                    0 <= dim,
            ;
        }
        let at: usize = i * dim;
        let mut left = narrow_all(part_of(a, at, at + dim).as_slice());
        let mut right = narrow_all(part_of(b, at, at + dim).as_slice());
        r.append(&mut left);
        r.append(&mut right);
        i += 1;
    }
    r
}

/// Whether tokens are in whole windows, with heads.
fn fit_heads(tokens: usize, heads: usize, hd: usize, ws2: usize) -> (r: bool)
    ensures
        r == heads_fit(tokens as int, heads as int, hd as int, ws2 as int),
{
    proof {
        assert(3 * heads * hd == 3 * (heads * hd)) by (nonlinear_arith);
    }
    heads > 0 && hd > 0 && ws2 > 0 && tokens % ws2 == 0 && within3(3, heads, hd, usize::MAX)
}

/// The rows of one of q, k and v.
pub(crate) fn rows_of_part(qkv: &Vec<u16>, tokens: usize, heads: usize, hd: usize, ws2: usize, global: bool, part: usize) -> (r:
    Option<Vec<u16>>)
    ensures
        match r {
            Some(v) => part_rows(qkv@, tokens as int, heads as int, hd as int, ws2 as int, global, part as int) == Some(v@),
            None => part_rows(qkv@, tokens as int, heads as int, hd as int, ws2 as int, global, part as int) is None,
        },
{
    if !fit_heads(tokens, heads, hd, ws2) || part >= 3 {
        return None;
    }
    proof {
        assert(3 * heads * hd == 3 * (heads * hd)) by (nonlinear_arith);
        assert(heads * hd >= 0) by (nonlinear_arith)
            requires
                heads >= 0,
                hd >= 0,
        ;
    }
    let dim: usize = heads * hd;
    if !within2(tokens, 3 * dim, qkv.len()) {
        return None;
    }
    let v = split_heads(qkv, tokens, heads, hd, ws2, global, part);
    proof {
        let want = part_rows(qkv@, tokens as int, heads as int, hd as int, ws2 as int, global, part as int)->0;
        assert(v@ =~= want);
    }
    Some(v)
}

/// Rounding, stacking and taking rows.
fn move_reals(z: &Sizes, s: &Step, m: &Machine, Ghost(ws2): Ghost<int>) -> (r: Option<Value>)
    requires
        s.op is Zeros || s.op is Copy || s.op is Narrow || s.op is Widen || s.op is Stack || s.op is Beside
            || s.op is FirstRows || s.op is SkipRows || s.op is PadRows || s.op is BiasByHead,
    ensures
        is_value(r, moved(*z, ws2, s@, m@)),
{
    match s.op {
        Op::Zeros { rows, cols } => match mul2(rows, cols) {
            Some(n) => Some(Value::Reals(zero_reals(n))),
            None => None,
        },
        Op::Copy => {
            let x = m.reals(s, 0)?;
            let v = part_of(x, 0, x.len());
            proof {
                assert(v@ =~= x@);
            }
            Some(Value::Reals(v))
        },
        Op::Narrow => {
            let x = m.reals(s, 0)?;
            Some(Value::Halves(narrow_all(x.as_slice())))
        },
        Op::Widen => {
            let x = m.halves(s, 0)?;
            Some(Value::Reals(widen(x.as_slice())))
        },
        Op::Stack => {
            let x = m.reals(s, 0)?;
            let y = m.reals(s, 1)?;
            let mut v = part_of(x, 0, x.len());
            let mut w = part_of(y, 0, y.len());
            v.append(&mut w);
            proof {
                assert(v@ =~= x@ + y@);
            }
            Some(Value::Reals(v))
        },
        Op::Beside { dim, .. } => {
            let x = m.reals(s, 0)?;
            let y = m.reals(s, 1)?;
            if dim == 0 {
                return None;
            }
            let rows: usize = x.len() / dim;
            proof {
                vstd::arithmetic::div_mod::lemma_fundamental_div_mod(x@.len() as int, dim as int);
                assert(dim * rows == rows * dim) by (nonlinear_arith);
            }
            if !within2(rows, dim, y.len()) {
                return None;
            }
            Some(Value::Halves(side_by_side(x, y, dim, rows)))
        },
        Op::FirstRows { rows } => {
            let x = m.reals(s, 0)?;
            if !within2(rows, z.d, x.len()) {
                return None;
            }
            let v = part_of(x, 0, rows * z.d);
            proof {
                assert(v@ =~= x@.take(rows * z.d));
            }
            Some(Value::Reals(v))
        },
        Op::SkipRows { rows } => {
            let x = m.reals(s, 0)?;
            if !within2(rows, z.d, x.len()) {
                return None;
            }
            let v = part_of(x, rows * z.d, x.len());
            proof {
                assert(v@ =~= x@.skip(rows * z.d));
            }
            Some(Value::Reals(v))
        },
        Op::PadRows { rows } => {
            let x = m.reals(s, 0)?;
            let n: usize = mul2(rows, z.d)?;
            if x.len() > n {
                return None;
            }
            let mut v = part_of(x, 0, x.len());
            let mut tail = zero_reals(n - x.len());
            v.append(&mut tail);
            proof {
                assert(v@ =~= x@ + zeros((rows * z.d - x@.len()) as nat));
            }
            Some(Value::Reals(v))
        },
        Op::BiasByHead { heads, boxes, grid, .. } => {
            let x = m.reals(s, 0)?;
            let have: usize = x.len();
            let n: usize = mul3(boxes, grid, heads)?;
            if have != n || boxes == usize::MAX || !within3(heads, boxes + 1, grid, usize::MAX) {
                return None;
            }
            Some(Value::Reals(bias_by_head(x, heads, boxes, grid)))
        },
        _ => None,
    }
}

/// Picking elements of half precision.
fn move_halves(z: &Sizes, ws2: usize, s: &Step, m: &Machine) -> (r: Option<Value>)
    requires
        s.op is Columns || s.op is Shuffle || s.op is SplitHeads || s.op is MergeHeads || s.op is ByHead || s.op is Planes
            || s.op is ConvRows || s.op is DropBorder,
    ensures
        is_value(r, moved(*z, ws2 as int, s@, m@)),
{
    let x = m.halves(s, 0)?;
    match s.op {
        Op::Columns { width, off, n } => {
            if width == 0 || off as u128 + n as u128 > width as u128 {
                return None;
            }
            let rows: usize = x.len() / width;
            proof {
                vstd::arithmetic::div_mod::lemma_fundamental_div_mod(x@.len() as int, width as int);
                assert(width * rows == rows * width) by (nonlinear_arith);
            }
            let v = columns(x, rows, width, off, n);
            proof {
                assert(ValueView::Halves(v@) =~= moved(*z, ws2 as int, s@, m@)->0);
            }
            Some(Value::Halves(v))
        },
        Op::Shuffle { h, width, off, c } => {
            if off as u128 + 4 * c as u128 > width as u128 || !within3(h, h, width, x.len()) {
                return None;
            }
            let v = shuffle(x, h, width, off, c);
            proof {
                assert(ValueView::Halves(v@) =~= moved(*z, ws2 as int, s@, m@)->0);
            }
            Some(Value::Halves(v))
        },
        Op::SplitHeads { part, global, heads, hd, .. } => {
            let v = rows_of_part(x, z.tokens, heads, hd, ws2, global, part)?;
            Some(Value::Halves(v))
        },
        Op::MergeHeads { global, heads, hd, .. } => {
            if !fit_heads(z.tokens, heads, hd, ws2) || !within3(z.tokens, heads, hd, x.len()) {
                proof {
                    assert(z.tokens * heads * hd == z.tokens * (heads * hd)) by (nonlinear_arith);
                }
                return None;
            }
            proof {
                assert(z.tokens * heads * hd == z.tokens * (heads * hd)) by (nonlinear_arith);
            }
            let v = merge_heads(x, z.tokens, heads, hd, ws2, global);
            proof {
                assert(ValueView::Halves(v@) =~= moved(*z, ws2 as int, s@, m@)->0);
            }
            Some(Value::Halves(v))
        },
        Op::ByHead { tokens, heads, hd, width, off } => {
            if off > width || !within2(heads, hd, width - off) || !within2(tokens, width, x.len()) {
                proof {
                    assert(heads * hd >= 0) by (nonlinear_arith)
                        requires
                            heads >= 0,
                            hd >= 0,
                    ;
                }
                return None;
            }
            let v = by_head(x, tokens, heads, hd, width, off);
            proof {
                assert(ValueView::Halves(v@) =~= moved(*z, ws2 as int, s@, m@)->0);
            }
            Some(Value::Halves(v))
        },
        Op::Planes { rows, width, off, planes } => {
            if off as u128 + planes as u128 > width as u128 || !within2(rows, width, x.len()) || !within2(
                planes,
                rows,
                usize::MAX,
            ) {
                return None;
            }
            let v = transposed(x, rows, width, off, planes);
            proof {
                assert(ValueView::Halves(v@) =~= moved(*z, ws2 as int, s@, m@)->0);
            }
            Some(Value::Halves(v))
        },
        Op::ConvRows { side, c, d } => {
            let n: usize = mul3(side, side, c)?;
            if c == 0 || 3 * c as u128 > d as u128 || x.len() != n || side > usize::MAX - 2 || !within3(
                side,
                side + 2,
                d,
                usize::MAX,
            ) {
                return None;
            }
            Some(Value::Halves(conv_rows(x, side, c, d)))
        },
        Op::DropBorder { side, oc } => {
            if side > usize::MAX - 2 || !within3(side, side + 2, oc, x.len()) {
                return None;
            }
            let v = drop_border(x, side, oc);
            proof {
                assert(ValueView::Halves(v@) =~= moved(*z, ws2 as int, s@, m@)->0);
            }
            Some(Value::Halves(v))
        },
        _ => None,
    }
}

/// A step that moves or rounds values.
pub(crate) fn move_values(z: &Sizes, ws2: usize, s: &Step, m: &Machine) -> (r: Option<Value>)
    ensures
        is_value(r, moved(*z, ws2 as int, s@, m@)),
{
    match s.op {
        Op::Zeros { .. }
        | Op::Copy
        | Op::Narrow
        | Op::Widen
        | Op::Stack
        | Op::Beside { .. }
        | Op::FirstRows { .. }
        | Op::SkipRows { .. }
        | Op::PadRows { .. }
        | Op::BiasByHead { .. } => move_reals(z, s, m, Ghost(ws2 as int)),
        Op::Columns { .. }
        | Op::Shuffle { .. }
        | Op::SplitHeads { .. }
        | Op::MergeHeads { .. }
        | Op::ByHead { .. }
        | Op::Planes { .. }
        | Op::ConvRows { .. }
        | Op::DropBorder { .. } => move_halves(z, ws2, s, m),
        _ => None,
    }
}

} // verus!
