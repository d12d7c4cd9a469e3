//! Values and shapes: what the registers of a running SAM 3 program hold has
//! the shapes the program is checked with.

use crate::gather::narrowed;
use crate::sam3::Error;
use crate::sam3_machine::{runs_to, step_gives, step_to, trace, Fault, ModelView, Parts};
use crate::sam3_moves::{beside, moved};
use crate::sam3_stages::Sizes;
use crate::sam3_steps::{after, at, result, runs, upto, Op, Reg, Shape, StepView};
use crate::sam3_values::{operand, Value, ValueView};
use vstd::prelude::*;

verus! {

/// A value has a shape: its kind, and an element for every row and column.
/// Token ids may go on behind those the shape counts.
pub open spec fn fits(v: ValueView, s: Shape) -> bool {
    match (v, s) {
        (ValueView::Reals(x), Shape::Reals(r, c)) => x.len() == r * c,
        (ValueView::Halves(x), Shape::Halves(r, c)) => x.len() == r * c,
        (ValueView::Packed(_), Shape::Packed(_, _)) => true,
        (ValueView::Resident(_), Shape::Resident(_)) => true,
        (ValueView::Flags(x), Shape::Flags(n)) => x.len() == n,
        (ValueView::Ids(x), Shape::Ids(n)) => x.len() >= n,
        (ValueView::Reals(_), Shape::Pixels) => true,
        _ => false,
    }
}

/// Every register with a shape holds a value of it.
pub open spec fn regs_fit(x: Map<Reg, ValueView>, e: Map<Reg, Shape>) -> bool {
    forall|r: Reg| #[trigger] e.contains_key(r) ==> x.contains_key(r) && fits(x[r], e[r])
}

/// The value comes from outside: a tensor, a computation or the device.
pub open spec fn outside(op: Op) -> bool {
    match op {
        Op::Tensor { .. }
        | Op::Linear { .. }
        | Op::Mlp { .. }
        | Op::LayerNorm { .. }
        | Op::Standardize { .. }
        | Op::GroupNormRelu { .. }
        | Op::SelfAttend { .. }
        | Op::Attend { .. }
        | Op::AttendValid { .. }
        | Op::AttendGrid { .. }
        | Op::BoxSine { .. }
        | Op::EdgeDistances { .. }
        | Op::Refine
        | Op::Corners
        | Op::MeanValid
        | Op::ScaledDot { .. }
        | Op::FoldScores { .. }
        | Op::FoldScoreBias { .. }
        | Op::FoldValues { .. }
        | Op::FoldHead { .. }
        | Op::FoldHeadBias { .. }
        | Op::SoftmaxValid { .. }
        | Op::Gemm { .. }
        | Op::GemmSlot { .. }
        | Op::GemmStay { .. }
        | Op::GemmOn { .. }
        | Op::Mha { .. }
        | Op::ConvGemm { .. } => true,
        _ => false,
    }
}

/// A step that counts by the model's sizes is given rows of those sizes.
pub open spec fn sized(op: Op, from: Seq<Reg>, e: Map<Reg, Shape>, z: Sizes) -> bool {
    match op {
        Op::FirstRows { .. } | Op::SkipRows { .. } | Op::PadRows { .. } => at(e, from, 0) matches Some(Shape::Reals(_, c))
            ==> c == z.d,
        Op::Patches { tokens, .. } => tokens == z.grid * z.grid,
        Op::Rotate { .. } | Op::SplitHeads { .. } | Op::MergeHeads { .. } => at(e, from, 0) matches Some(
            Shape::Halves(r, _),
        ) ==> r == z.tokens,
        _ => true,
    }
}

proof fn operand_fits(x: Map<Reg, ValueView>, s: StepView, e: Map<Reg, Shape>, k: int)
    requires
        regs_fit(x, e),
        0 <= k,
        at(e, s.from, k) is Some,
    ensures
        operand(x, s, k) is Some,
        fits(operand(x, s, k)->0, at(e, s.from, k)->0),
{
}

proof fn beside_len(a: Seq<u32>, b: Seq<u32>, dim: int, rows: nat)
    requires
        0 <= dim,
        rows * dim <= a.len(),
        rows * dim <= b.len(),
    ensures
        beside(a, b, dim, rows).len() == rows * (2 * dim),
    decreases rows,
{
    if rows > 0 {
        let n = (rows - 1) as nat;
        assert(n * dim + dim == rows * dim && n * dim >= 0 && n * (2 * dim) + 2 * dim == rows * (2 * dim)) by (nonlinear_arith)
            requires
                n == rows - 1,
                rows >= 1,
                dim >= 0,
        ;
        beside_len(a, b, dim, n);
        assert(narrowed(a.subrange(n * dim, n * dim + dim)).len() == dim);
        assert(narrowed(b.subrange(n * dim, n * dim + dim)).len() == dim);
    } else {
        assert(0 * (2 * dim) == 0) by (nonlinear_arith);
    }
}

/// Rows of a whole number.
proof fn rows_back(r: nat, c: nat)
    requires
        c > 0,
    ensures
        (r * c) as int / c as int == r,
{
    vstd::arithmetic::div_mod::lemma_div_multiples_vanish(r as int, c as int);
    assert(r * c == c * r) by (nonlinear_arith);
}

proof fn moved_reals_fit(z: Sizes, ws2: int, s: StepView, x: Map<Reg, ValueView>, e: Map<Reg, Shape>)
    requires
        regs_fit(x, e),
        result(s.op, s.from, e) is Some,
        sized(s.op, s.from, e, z),
        moved(z, ws2, s, x) is Some,
        s.op is Zeros || s.op is Copy || s.op is Narrow || s.op is Widen || s.op is Stack || s.op is Beside
            || s.op is FirstRows || s.op is SkipRows || s.op is PadRows || s.op is BiasByHead,
    ensures
        fits(moved(z, ws2, s, x)->0, result(s.op, s.from, e)->0),
{
    match s.op {
        Op::Zeros { .. } => {},
        Op::Stack => {
            operand_fits(x, s, e, 0);
            operand_fits(x, s, e, 1);
            match (at(e, s.from, 0), at(e, s.from, 1)) {
                (Some(Shape::Reals(r, c)), Some(Shape::Reals(t, _))) => {
                    assert(r * c + t * c == (r + t) * c) by (nonlinear_arith);
                },
                _ => {},
            }
        },
        Op::Beside { dim, both } => {
            operand_fits(x, s, e, 0);
            operand_fits(x, s, e, 1);
            match (at(e, s.from, 0), at(e, s.from, 1)) {
                (Some(Shape::Reals(r, c)), Some(Shape::Reals(_, _))) => {
                    rows_back(r, c);
                    let a = operand(x, s, 0)->0->Reals_0;
                    let b = operand(x, s, 1)->0->Reals_0;
                    beside_len(a, b, dim as int, r);
                },
                _ => {},
            }
        },
        Op::FirstRows { .. } => {
            operand_fits(x, s, e, 0);
        },
        Op::SkipRows { rows } => {
            operand_fits(x, s, e, 0);
            match at(e, s.from, 0) {
                Some(Shape::Reals(r, c)) => {
                    assert(r * c - rows * c == (r - rows) * c) by (nonlinear_arith);
                },
                _ => {},
            }
        },
        Op::BiasByHead { heads, boxes, queries, grid } => {
            operand_fits(x, s, e, 0);
        },
        _ => {
            operand_fits(x, s, e, 0);
        },
    }
}

proof fn moved_halves_fit(z: Sizes, ws2: int, s: StepView, x: Map<Reg, ValueView>, e: Map<Reg, Shape>)
    requires
        regs_fit(x, e),
        result(s.op, s.from, e) is Some,
        sized(s.op, s.from, e, z),
        moved(z, ws2, s, x) is Some,
        s.op is Columns || s.op is Shuffle || s.op is SplitHeads || s.op is MergeHeads || s.op is ByHead || s.op is Planes
            || s.op is ConvRows || s.op is DropBorder,
    ensures
        fits(moved(z, ws2, s, x)->0, result(s.op, s.from, e)->0),
{
    operand_fits(x, s, e, 0);
    match s.op {
        Op::Columns { width, n, .. } => {
            match at(e, s.from, 0) {
                Some(Shape::Halves(r, c)) => {
                    rows_back(r, c);
                    assert(r * n >= 0) by (nonlinear_arith);
                },
                _ => {},
            }
        },
        Op::Shuffle { h, c, .. } => {
            assert(4 * (h * h) * c == ((2 * h) * (2 * h)) * c && 4 * (h * h) * c >= 0) by (nonlinear_arith);
        },
        Op::SplitHeads { heads, hd, dim, .. } => {
            assert(z.tokens * (heads * hd) >= 0) by (nonlinear_arith);
        },
        Op::MergeHeads { heads, hd, dim, .. } => {
            assert(z.tokens * (heads * hd) >= 0) by (nonlinear_arith);
        },
        Op::ByHead { tokens, heads, hd, .. } => {
            assert(heads * tokens * hd >= 0) by (nonlinear_arith);
        },
        Op::ConvRows { side, d, .. } => {
            assert(side * (side + 2) * d >= 0) by (nonlinear_arith);
        },
        Op::DropBorder { side, oc } => {
            assert(side * side * oc >= 0) by (nonlinear_arith);
        },
        _ => {},
    }
}

/// A step leaves every register with its shape, as long as what comes from
/// outside has the shape it should.
pub proof fn a_step_keeps_the_shapes<
    P: Fn(u32, u32) -> u32,
    M: Fn(u32, u32) -> u32,
    E: Fn(&Op, u32) -> u32,
    C: Fn(&Op, &Vec<&Value>, &Vec<Value>) -> Result<Value, Error>,
    D: Fn(&Op, &String, &Vec<&Value>) -> Result<Value, Error>,
>(
    parts: &Parts<P, M, E, C, D>,
    m: ModelView,
    s: StepView,
    x: Map<Reg, ValueView>,
    y: Map<Reg, ValueView>,
    e: Map<Reg, Shape>,
)
    requires
        regs_fit(x, e),
        after(s, e) is Some,
        sized(s.op, s.from, e, m.z),
        step_to(parts, m, s, x, y),
        outside(s.op) ==> fits(y[s.to], result(s.op, s.from, e)->0),
    ensures
        regs_fit(y, after(s, e)->0),
{
    assert(fits(y[s.to], result(s.op, s.from, e)->0)) by {
        let ws2 = m.cfg.window * m.cfg.window;
        if !outside(s.op) {
            match s.op {
                Op::Zeros { .. }
                | Op::Copy
                | Op::Narrow
                | Op::Widen
                | Op::Stack
                | Op::Beside { .. }
                | Op::FirstRows { .. }
                | Op::SkipRows { .. }
                | Op::PadRows { .. }
                | Op::BiasByHead { .. } => {
                    moved_reals_fit(m.z, ws2, s, x, e);
                },
                Op::Columns { .. }
                | Op::Shuffle { .. }
                | Op::SplitHeads { .. }
                | Op::MergeHeads { .. }
                | Op::ByHead { .. }
                | Op::Planes { .. }
                | Op::ConvRows { .. }
                | Op::DropBorder { .. } => {
                    moved_halves_fit(m.z, ws2, s, x, e);
                },
                _ => {
                    summed_fit(parts, m, s, x, y, e);
                },
            }
        }
    }
    let f = after(s, e)->0;
    assert forall|r: Reg| #[trigger] f.contains_key(r) implies y.contains_key(r) && fits(y[r], f[r]) by {
        if r != s.to {
            assert(e.contains_key(r));
        }
    }
}

proof fn summed_fit<
    P: Fn(u32, u32) -> u32,
    M: Fn(u32, u32) -> u32,
    E: Fn(&Op, u32) -> u32,
    C: Fn(&Op, &Vec<&Value>, &Vec<Value>) -> Result<Value, Error>,
    D: Fn(&Op, &String, &Vec<&Value>) -> Result<Value, Error>,
>(
    parts: &Parts<P, M, E, C, D>,
    m: ModelView,
    s: StepView,
    x: Map<Reg, ValueView>,
    y: Map<Reg, ValueView>,
    e: Map<Reg, Shape>,
)
    requires
        regs_fit(x, e),
        result(s.op, s.from, e) is Some,
        sized(s.op, s.from, e, m.z),
        step_to(parts, m, s, x, y),
        s.op is Patches || s.op is Embed || s.op is ToRaster || s.op is Pack || s.op is Add || s.op is AddBias
            || s.op is Residual || s.op is Upsample || s.op is Rotate || s.op is Relu || s.op is Gelu || s.op is Sigmoid
            || s.op is Clamp || s.op is GeluHalves,
    ensures
        fits(y[s.to], result(s.op, s.from, e)->0),
{
    operand_fits(x, s, e, 0);
    match s.op {
        Op::Add => {
            operand_fits(x, s, e, 1);
        },
        Op::Residual { .. } => {
            operand_fits(x, s, e, 1);
        },
        Op::Pack { .. } => {
            operand_fits(x, s, e, 1);
        },
        Op::Upsample { .. } => {
            operand_fits(x, s, e, 1);
        },
        Op::Rotate { heads, hd, .. } => {
            operand_fits(x, s, e, 1);
            operand_fits(x, s, e, 2);
            assert(m.z.tokens * (heads * hd) >= 0) by (nonlinear_arith);
        },
        Op::Patches { tokens, width } => {
            assert((m.z.grid * m.z.grid) * width >= 0) by (nonlinear_arith);
        },
        _ => {},
    }
}

/// Every value that program `p` takes from outside has the shape it should,
/// where the registers have theirs.
pub open spec fn answers_fit<
    P: Fn(u32, u32) -> u32,
    M: Fn(u32, u32) -> u32,
    E: Fn(&Op, u32) -> u32,
    C: Fn(&Op, &Vec<&Value>, &Vec<Value>) -> Result<Value, Error>,
    D: Fn(&Op, &String, &Vec<&Value>) -> Result<Value, Error>,
>(
    parts: &Parts<P, M, E, C, D>,
    m: ModelView,
    p: Seq<StepView>,
    e: Map<Reg, Shape>,
) -> bool {
    forall|k: int, x: Map<Reg, ValueView>, v: ValueView| #[trigger]
        step_gives(parts, m, p[k], x, Ok::<ValueView, Fault>(v)) && 0 <= k < p.len() && outside(p[k].op) && regs_fit(
            x,
            upto(p, k as nat, e)->0,
        ) ==> fits(v, result(p[k].op, p[k].from, upto(p, k as nat, e)->0)->0)
}

/// Every step that counts by the model's sizes is given rows of those sizes.
pub open spec fn all_sized(p: Seq<StepView>, e: Map<Reg, Shape>, z: Sizes) -> bool {
    forall|k: int| 0 <= k < p.len() ==> sized((#[trigger] p[k]).op, p[k].from, upto(p, k as nat, e)->0, z)
}

proof fn upto_so_far(p: Seq<StepView>, k: nat, n: nat, e: Map<Reg, Shape>)
    requires
        k <= n,
        upto(p, n, e) is Some,
    ensures
        upto(p, k, e) is Some,
    decreases n - k,
{
    if k < n {
        upto_so_far(p, k, (n - 1) as nat, e);
    }
}

proof fn shapes_so_far<
    P: Fn(u32, u32) -> u32,
    M: Fn(u32, u32) -> u32,
    E: Fn(&Op, u32) -> u32,
    C: Fn(&Op, &Vec<&Value>, &Vec<Value>) -> Result<Value, Error>,
    D: Fn(&Op, &String, &Vec<&Value>) -> Result<Value, Error>,
>(
    parts: &Parts<P, M, E, C, D>,
    m: ModelView,
    p: Seq<StepView>,
    x: Map<Reg, ValueView>,
    tr: Seq<Map<Reg, ValueView>>,
    n: int,
    k: int,
    e: Map<Reg, Shape>,
)
    requires
        trace(parts, m, p, x, tr, n),
        regs_fit(x, e),
        runs(p, e) is Some,
        all_sized(p, e, m.z),
        answers_fit(parts, m, p, e),
        0 <= k <= n,
    ensures
        regs_fit(tr[k], upto(p, k as nat, e)->0),
    decreases k,
{
    if k > 0 {
        shapes_so_far(parts, m, p, x, tr, n, k - 1, e);
        upto_so_far(p, k as nat, p.len(), e);
        upto_so_far(p, (k - 1) as nat, p.len(), e);
        let (s, f) = (p[k - 1], upto(p, (k - 1) as nat, e)->0);
        assert(step_to(parts, m, s, tr[k - 1], tr[k - 1 + 1]));
        assert(step_gives(parts, m, p[k - 1], tr[k - 1], Ok::<ValueView, Fault>(tr[k][s.to])));
        a_step_keeps_the_shapes(parts, m, s, tr[k - 1], tr[k], f);
    }
}

/// After a program that every shape goes through, the registers hold values
/// of the shapes it ends with, as long as what comes from outside has the
/// shapes it should.
pub proof fn a_run_ends_with_its_shapes<
    P: Fn(u32, u32) -> u32,
    M: Fn(u32, u32) -> u32,
    E: Fn(&Op, u32) -> u32,
    C: Fn(&Op, &Vec<&Value>, &Vec<Value>) -> Result<Value, Error>,
    D: Fn(&Op, &String, &Vec<&Value>) -> Result<Value, Error>,
>(
    parts: &Parts<P, M, E, C, D>,
    m: ModelView,
    p: Seq<StepView>,
    x: Map<Reg, ValueView>,
    y: Map<Reg, ValueView>,
    e: Map<Reg, Shape>,
)
    requires
        runs_to(parts, m, p, x, Ok::<(), Fault>(()), y),
        regs_fit(x, e),
        runs(p, e) is Some,
        all_sized(p, e, m.z),
        answers_fit(parts, m, p, e),
    ensures
        regs_fit(y, runs(p, e)->0),
{
    let (tr, n) = choose|tr: Seq<Map<Reg, ValueView>>, n: int| #[trigger]
        trace(parts, m, p, x, tr, n) && y == tr.last() && n == p.len();
    shapes_so_far(parts, m, p, x, tr, n, n, e);
}

} // verus!
