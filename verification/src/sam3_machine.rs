//! SAM 3 programs, run: what every step gives of what the registers hold.
//!
//! Steps that move or round values are exact. Sums and products are made by
//! closures, and so are the functions of single precision: those applied to
//! every element, and the larger ones (linear layers, norms, attention), which
//! get the tensors of the bundle that they take. Kernels are the device's, a
//! closure too.

use crate::arith::{mul2, mul3};
use crate::bf16::{bf16_to_f32, f32_to_bf16, narrow, wide};
use crate::clip_encode::zeros;
use crate::manifest;
use crate::pack::{pack_b, pack_fits, packed_columns, Tiling};
use crate::sam3::{faults, rejects, Error};
use crate::sam3_bundle::{GemmSpec, GemmView, Manifest, ManifestView};
use crate::sam3_config::{Config, ConfigView};
use crate::sam3_layout::{
    check_pixels, is_rotated, is_upsampled, patch_element, patch_order, patches, raster_element, rotate, to_raster, upsample,
};
use crate::sam3_moves::{move_values, moved, part_rows, rows_of_part, zero_reals};
use crate::sam3_stages::Sizes;
use crate::sam3_steps::{spares, views, Kernel, Op, Reg, Step, StepView};
use crate::sam3_values::{halves, ids, operands, reals, seen, values, Machine, Value, ValueView};
use crate::store::{elems16, elems32, signed_elems32, DType, Store, StoreView};
use crate::text::{cat2, cat4, decimal, decimal_of};
use crate::tiled::Ops;
use vstd::prelude::*;

verus! {

/// Why a step gives nothing.
#[derive(Debug)]
pub enum Fault {
    /// A register is empty or holds another kind of value, or the sizes do
    /// not go together.
    Misfit,
    /// The bundle, the image, a computation or the device failed.
    Failed(Error),
}

/// What programs are run on: a bundle and its sizes.
pub struct Model<'a> {
    pub store: &'a Store,
    pub manifest: &'a Manifest,
    pub cfg: &'a Config,
    pub z: &'a Sizes,
}

pub struct ModelView {
    pub store: StoreView,
    pub manifest: ManifestView,
    pub cfg: ConfigView,
    pub z: Sizes,
}

impl<'a> View for Model<'a> {
    type V = ModelView;

    open spec fn view(&self) -> ModelView {
        ModelView { store: self.store@, manifest: self.manifest@, cfg: self.cfg@, z: *self.z }
    }
}

/// Arithmetic, functions and the device.
pub struct Parts<P, M, E, C, D> {
    /// Sums and products of single precision.
    pub ops: Ops<P, M>,
    /// A function applied to one element: the step that says which.
    pub each: E,
    /// A computation: its step, its operands, the tensors it takes.
    pub compute: C,
    /// A kernel: its step, the weights or the slot, its operands.
    pub device: D,
}

pub open spec fn viewed(r: Result<Value, Error>) -> Result<ValueView, Error> {
    match r {
        Ok(v) => Ok(v@),
        Err(e) => Err(e),
    }
}

impl<
    P: Fn(u32, u32) -> u32,
    M: Fn(u32, u32) -> u32,
    E: Fn(&Op, u32) -> u32,
    C: Fn(&Op, &Vec<&Value>, &Vec<Value>) -> Result<Value, Error>,
    D: Fn(&Op, &String, &Vec<&Value>) -> Result<Value, Error>,
> Parts<P, M, E, C, D> {
    /// They take every request.
    pub open spec fn total(&self) -> bool {
        &&& self.ops.total()
        &&& forall|o: &Op, x: u32| call_requires(self.each, (o, x))
        &&& forall|o: &Op, a: &Vec<&Value>, t: &Vec<Value>| call_requires(self.compute, (o, a, t))
        &&& forall|o: &Op, n: &String, a: &Vec<&Value>| call_requires(self.device, (o, n, a))
    }

    /// `y` is what the function of step `op` makes of `x`.
    pub open spec fn applies(&self, op: Op, x: u32, y: u32) -> bool {
        call_ensures(self.each, (&op, x), y)
    }

    /// `r` is an answer to computing step `op` of operands `a` with the
    /// tensors `t`.
    pub open spec fn computes(&self, op: Op, a: Seq<ValueView>, t: Seq<ValueView>, r: Result<ValueView, Error>) -> bool {
        exists|o: &Op, args: &Vec<&Value>, ts: &Vec<Value>, out: Result<Value, Error>|
            *o == op && seen(args@) == a && values(ts@) == t && viewed(out) == r && #[trigger] call_ensures(
                self.compute,
                (o, args, ts),
                out,
            )
    }

    /// `r` is the device's answer to step `op` on operands `a`, with the
    /// weights or the slot `name`.
    pub open spec fn launches(&self, op: Op, name: Seq<char>, a: Seq<ValueView>, r: Result<ValueView, Error>) -> bool {
        exists|o: &Op, n: &String, args: &Vec<&Value>, out: Result<Value, Error>|
            *o == op && n@ == name && seen(args@) == a && viewed(out) == r && #[trigger] call_ensures(
                self.device,
                (o, n, args),
                out,
            )
    }
}

// ----------------------------------------------------------------------------
// Tensors
// ----------------------------------------------------------------------------

/// A tensor a computation takes: in half precision if `half`; one that may
/// be lacking counts as no values then.
pub struct Want {
    name: String,
    half: bool,
    optional: bool,
}

#[verifier::ext_equal]
pub struct WantView {
    pub name: Seq<char>,
    pub half: bool,
    pub optional: bool,
}

impl View for Want {
    type V = WantView;

    closed spec fn view(&self) -> WantView {
        WantView { name: self.name@, half: self.half, optional: self.optional }
    }
}

pub open spec fn want_views(s: Seq<Want>) -> Seq<WantView> {
    s.map_values(|w: Want| w@)
}

pub open spec fn plain(name: Seq<char>) -> WantView {
    WantView { name, half: false, optional: false }
}

pub open spec fn bias(name: Seq<char>) -> WantView {
    WantView { name, half: false, optional: true }
}

/// The tensors of the first `n` linear layers under `name`.
pub open spec fn layers_wanted(name: Seq<char>, n: nat) -> Seq<WantView>
    decreases n,
{
    if n == 0 {
        seq![]
    } else {
        let at = name + "."@ + decimal(n);
        layers_wanted(name, (n - 1) as nat) + seq![plain(at + ".w"@), bias(at + ".b"@)]
    }
}

/// The tensors a computation takes, in order.
pub open spec fn wanted(s: StepView) -> Seq<WantView> {
    match s.op {
        Op::Linear { half, .. } => seq![
            WantView { name: s.name + ".w"@, half, optional: false },
            bias(s.name + ".b"@),
        ],
        Op::Mlp { layers, .. } => layers_wanted(s.name, layers as nat),
        Op::LayerNorm { .. } => seq![plain(s.name + ".w"@), plain(s.name + ".b"@)],
        Op::GroupNormRelu { .. } => seq![plain(s.name + ".w"@), plain(s.name + ".b"@)],
        Op::FoldScores { .. } => seq![plain(s.name + ".w"@)],
        Op::FoldScoreBias { .. } => seq![plain(s.name + ".b"@)],
        Op::FoldValues { .. } => seq![plain(s.name + ".w"@)],
        Op::FoldHead { .. } => seq![plain(s.name + ".inst.w"@), plain(s.name + ".sem.w"@)],
        Op::FoldHeadBias { .. } => seq![plain(s.name + ".inst.b"@), plain(s.name + ".sem.b"@)],
        _ => seq![],
    }
}

/// A tensor, or why the store has none such.
pub open spec fn tensor(st: StoreView, w: WantView) -> Result<ValueView, Seq<char>> {
    if w.optional && !st.tensors.contains_key(w.name) {
        Ok(ValueView::Reals(seq![]))
    } else if w.half {
        match st.typed(w.name, DType::Bf16) {
            Ok(b) => Ok(ValueView::Halves(elems16(b))),
            Err(m) => Err(m),
        }
    } else {
        match st.typed(w.name, DType::F32) {
            Ok(b) => Ok(ValueView::Reals(elems32(b))),
            Err(m) => Err(m),
        }
    }
}

/// All of them, or why the first that lacks does.
pub open spec fn tensors(st: StoreView, ws: Seq<WantView>) -> Result<Seq<ValueView>, Seq<char>>
    decreases ws.len(),
{
    if ws.len() == 0 {
        Ok(seq![])
    } else {
        match tensors(st, ws.drop_last()) {
            Err(m) => Err(m),
            Ok(v) => match tensor(st, ws.last()) {
                Err(m) => Err(m),
                Ok(x) => Ok(v.push(x)),
            },
        }
    }
}

// ----------------------------------------------------------------------------
// What a step gives
// ----------------------------------------------------------------------------

/// `r` is a misfit.
pub open spec fn misfit(r: Result<ValueView, Fault>) -> bool {
    r matches Err(Fault::Misfit)
}

/// `r` is the bundle's fault `m`.
pub open spec fn lacks(r: Result<ValueView, Fault>, m: Seq<char>) -> bool {
    r matches Err(Fault::Failed(e)) && faults(e, m)
}

/// `r` is what an outside answer `o` comes to.
pub open spec fn passed(o: Result<ValueView, Error>) -> Result<ValueView, Fault> {
    match o {
        Ok(v) => Ok(v),
        Err(e) => Err(Fault::Failed(e)),
    }
}

/// The patches of the image, in the order the named tensor gives.
pub open spec fn patches_give(m: ModelView, s: StepView, regs: Map<Reg, ValueView>, width: int, r: Result<ValueView, Fault>) -> bool {
    let (g, ps, size) = (m.z.grid as int, m.cfg.patch as int, m.cfg.image_size as int);
    match reals(regs, s, 0) {
        None => misfit(r),
        Some(px) => if px.len() != 3 * size * size {
            r matches Err(Fault::Failed(e)) && rejects(
                e,
                "pixels must be [3, "@ + decimal(size as nat) + ", "@ + decimal(size as nat) + "]"@,
            )
        } else if !(g > 0 && ps > 0 && g * ps <= size && 3 * (ps * ps) <= width && (g * g) * width <= usize::MAX) {
            misfit(r)
        } else {
            match m.store.typed(s.name, DType::I32) {
                Err(e) => lacks(r, e),
                Ok(b) => if !patch_order(signed_elems32(b), g) {
                    misfit(r)
                } else {
                    r == Ok::<ValueView, Fault>(
                        ValueView::Halves(
                            Seq::new(
                                ((g * g) * width) as nat,
                                |i: int| patch_element(px, signed_elems32(b), g, ps, size, width, i),
                            ),
                        ),
                    )
                },
            }
        },
    }
}

/// The tokens' rows of the embedding are there, and their positions.
pub open spec fn embeds(v: Seq<u32>, tok: Seq<u16>, pos: Seq<u32>, rows: int, cols: int) -> bool {
    &&& rows <= v.len()
    &&& rows * cols <= pos.len()
    &&& forall|t: int| 0 <= t < rows ==> ((#[trigger] v[t]) + 1) * cols <= tok.len()
}

/// The embeddings of the tokens plus their positions.
pub open spec fn embed_gives<
    P: Fn(u32, u32) -> u32,
    M: Fn(u32, u32) -> u32,
    E: Fn(&Op, u32) -> u32,
    C: Fn(&Op, &Vec<&Value>, &Vec<Value>) -> Result<Value, Error>,
    D: Fn(&Op, &String, &Vec<&Value>) -> Result<Value, Error>,
>(
    parts: &Parts<P, M, E, C, D>,
    m: ModelView,
    s: StepView,
    regs: Map<Reg, ValueView>,
    rows: int,
    cols: int,
    r: Result<ValueView, Fault>,
) -> bool {
    match (ids(regs, s, 0), m.store.typed(s.name + ".tok_emb"@, DType::Bf16), m.store.typed(s.name + ".pos_emb"@, DType::F32)) {
        (None, _, _) => misfit(r),
        (_, Err(e), _) => lacks(r, e),
        (_, _, Err(e)) => lacks(r, e),
        (Some(v), Ok(tok), Ok(pos)) => if !embeds(v, elems16(tok), elems32(pos), rows, cols) {
            misfit(r)
        } else {
            r matches Ok(ValueView::Reals(y)) && y.len() == rows * cols && forall|i: int| #![trigger y[i]]
                0 <= i < y.len() ==> parts.ops.sum(
                    wide(elems16(tok)[v[i / cols] * cols + i % cols]),
                    elems32(pos)[i],
                    y[i],
                )
        },
    }
}

/// Tokens in the order the named tensor gives.
pub open spec fn raster_gives(m: ModelView, s: StepView, regs: Map<Reg, ValueView>, r: Result<ValueView, Fault>) -> bool {
    match (reals(regs, s, 0), m.store.typed(s.name, DType::I32)) {
        (None, _) => misfit(r),
        (_, Err(e)) => lacks(r, e),
        (Some(x), Ok(b)) => {
            let perm = signed_elems32(b);
            if x.len() == perm.len() * m.z.vdim && forall|j: int| 0 <= j < perm.len() ==> 0 <= #[trigger] perm[j] < perm.len() {
                r == Ok::<ValueView, Fault>(
                    ValueView::Reals(Seq::new(x.len(), |i: int| raster_element(x, perm, m.z.vdim as int, i))),
                )
            } else {
                misfit(r)
            }
        },
    }
}

pub open spec fn tiling_of(g: GemmView) -> Tiling {
    Tiling {
        k: g.k as nat,
        n: g.n as nat,
        k_tile: g.tile_k as nat,
        n_tile: g.tile_n as nat,
        ct_k: g.ct_k as nat,
    }
}

/// Weights `b` with biases `c` can be packed for kernel `g`.
pub open spec fn packs(g: GemmView, b: Seq<u32>, c: Seq<u32>) -> bool {
    tiling_of(g).wf() && pack_fits(tiling_of(g)) && b.len() == g.k * g.n && c.len() >= g.n
}

/// Weights and biases packed for a kernel.
pub open spec fn pack_gives(m: ModelView, s: StepView, regs: Map<Reg, ValueView>, kernel: Kernel, r: Result<ValueView, Fault>) -> bool {
    match (reals(regs, s, 0), reals(regs, s, 1), m.manifest.gemm(kernel.named())) {
        (None, _, _) => misfit(r),
        (_, None, _) => misfit(r),
        (_, _, Err(e)) => lacks(r, e),
        (Some(b), Some(c), Ok(g)) => if packs(g, b, c) {
            r == Ok::<ValueView, Fault>(
                ValueView::Packed(packed_columns(b, Some(c), tiling_of(g), (g.n as int / g.tile_n as int) as nat)),
            )
        } else {
            misfit(r)
        },
    }
}

/// Sums of two values as far as both go.
pub open spec fn sum_gives<P: Fn(u32, u32) -> u32, M: Fn(u32, u32) -> u32>(
    ops: &Ops<P, M>,
    a: Option<Seq<u32>>,
    b: Option<Seq<u32>>,
    r: Result<ValueView, Fault>,
) -> bool {
    match (a, b) {
        (Some(x), Some(y)) => r matches Ok(ValueView::Reals(z)) && z.len() == (if x.len() <= y.len() {
            x.len()
        } else {
            y.len()
        }) && forall|i: int| #![trigger z[i]] 0 <= i < z.len() ==> ops.sum(x[i], y[i], z[i]),
        _ => misfit(r),
    }
}

/// Every row plus the bias.
pub open spec fn bias_gives<P: Fn(u32, u32) -> u32, M: Fn(u32, u32) -> u32>(
    ops: &Ops<P, M>,
    st: StoreView,
    name: Seq<char>,
    a: Option<Seq<u32>>,
    dim: int,
    r: Result<ValueView, Fault>,
) -> bool {
    match (a, st.typed(name, DType::F32)) {
        (None, _) => misfit(r),
        (_, Err(e)) => lacks(r, e),
        (Some(x), Ok(b)) => if 0 < dim <= elems32(b).len() {
            r matches Ok(ValueView::Reals(z)) && z.len() == x.len() && forall|i: int| #![trigger z[i]]
                0 <= i < z.len() ==> ops.sum(x[i], elems32(b)[i % dim], z[i])
        } else {
            misfit(r)
        },
    }
}

/// `r` is `x + (c + b)`.
pub open spec fn is_residual<P: Fn(u32, u32) -> u32, M: Fn(u32, u32) -> u32>(ops: &Ops<P, M>, x: u32, c: u16, b: u32, r: u32) -> bool {
    exists|t: u32| ops.sum(wide(c), b, t) && #[trigger] ops.sum(x, t, r)
}

/// A residual stream plus a layer's rows, with the bias where there is one.
pub open spec fn residual_gives<P: Fn(u32, u32) -> u32, M: Fn(u32, u32) -> u32>(
    ops: &Ops<P, M>,
    st: StoreView,
    name: Option<Seq<char>>,
    a: Option<Seq<u32>>,
    c: Option<Seq<u16>>,
    dim: int,
    r: Result<ValueView, Fault>,
) -> bool {
    match (a, c) {
        (Some(x), Some(y)) => match name {
            Some(n) => match st.typed(n, DType::F32) {
                Err(e) => lacks(r, e),
                Ok(b) => residual_rows(ops, x, y, elems32(b), dim, r),
            },
            None => residual_rows(ops, x, y, zeros(dim as nat), dim, r),
        },
        _ => misfit(r),
    }
}

pub open spec fn residual_rows<P: Fn(u32, u32) -> u32, M: Fn(u32, u32) -> u32>(
    ops: &Ops<P, M>,
    x: Seq<u32>,
    c: Seq<u16>,
    b: Seq<u32>,
    dim: int,
    r: Result<ValueView, Fault>,
) -> bool {
    if 0 < dim <= b.len() && x.len() <= c.len() {
        r matches Ok(ValueView::Reals(z)) && z.len() == x.len() && forall|i: int| #![trigger z[i]]
            0 <= i < z.len() ==> is_residual(ops, x[i], c[i], b[i % dim], z[i])
    } else {
        misfit(r)
    }
}

/// A coarser map doubled plus a finer one.
pub open spec fn upsample_gives<P: Fn(u32, u32) -> u32, M: Fn(u32, u32) -> u32>(
    ops: &Ops<P, M>,
    a: Option<Seq<u32>>,
    b: Option<Seq<u32>>,
    side: int,
    d: int,
    r: Result<ValueView, Fault>,
) -> bool {
    match (a, b) {
        (Some(p), Some(skip)) => if side > 0 && d > 0 && 2 * side <= usize::MAX && p.len() == side * side * d && skip.len() == (
        2 * side) * (2 * side) * d {
            r matches Ok(ValueView::Halves(z)) && z.len() == skip.len() && forall|i: int| #![trigger z[i]]
                0 <= i < z.len() ==> is_upsampled(ops.add, p, skip, side, d, i, z[i])
        } else {
            misfit(r)
        },
        _ => misfit(r),
    }
}

/// One of q and k, head by head, rotated by its tokens' positions.
pub open spec fn rotate_gives<P: Fn(u32, u32) -> u32, M: Fn(u32, u32) -> u32>(
    ops: &Ops<P, M>,
    tokens: int,
    ws2: int,
    qkv: Option<Seq<u16>>,
    cos: Option<Seq<u32>>,
    sin: Option<Seq<u32>>,
    part: int,
    global: bool,
    heads: int,
    hd: int,
    r: Result<ValueView, Fault>,
) -> bool {
    match (qkv, cos, sin) {
        (Some(x), Some(c), Some(n)) => match part_rows(x, tokens, heads, hd, ws2, global, part) {
            None => misfit(r),
            Some(rows) => if hd % 2 == 0 && c.len() >= tokens * (hd / 2) && n.len() >= tokens * (hd / 2) {
                r matches Ok(ValueView::Halves(z)) && z.len() == rows.len() && forall|i: int| #![trigger z[i]]
                    0 <= i < z.len() ==> is_rotated(*ops, rows, c, n, global, heads, ws2, hd, i, z[i])
            } else {
                misfit(r)
            },
        },
        _ => misfit(r),
    }
}

/// A function of every element.
pub open spec fn each_gives<
    P: Fn(u32, u32) -> u32,
    M: Fn(u32, u32) -> u32,
    E: Fn(&Op, u32) -> u32,
    C: Fn(&Op, &Vec<&Value>, &Vec<Value>) -> Result<Value, Error>,
    D: Fn(&Op, &String, &Vec<&Value>) -> Result<Value, Error>,
>(
    parts: &Parts<P, M, E, C, D>,
    op: Op,
    a: Option<Seq<u32>>,
    r: Result<ValueView, Fault>,
) -> bool {
    match a {
        None => misfit(r),
        Some(x) => r matches Ok(ValueView::Reals(z)) && z.len() == x.len() && forall|i: int| #![trigger z[i]]
            0 <= i < z.len() ==> parts.applies(op, x[i], z[i]),
    }
}

/// `y` is `x` through the function of `op`, rounded.
pub open spec fn is_rounded<
    P: Fn(u32, u32) -> u32,
    M: Fn(u32, u32) -> u32,
    E: Fn(&Op, u32) -> u32,
    C: Fn(&Op, &Vec<&Value>, &Vec<Value>) -> Result<Value, Error>,
    D: Fn(&Op, &String, &Vec<&Value>) -> Result<Value, Error>,
>(parts: &Parts<P, M, E, C, D>, op: Op, x: u16, y: u16) -> bool {
    exists|v: u32| #[trigger] parts.applies(op, wide(x), v) && y == narrow(v)
}

pub open spec fn halves_give<
    P: Fn(u32, u32) -> u32,
    M: Fn(u32, u32) -> u32,
    E: Fn(&Op, u32) -> u32,
    C: Fn(&Op, &Vec<&Value>, &Vec<Value>) -> Result<Value, Error>,
    D: Fn(&Op, &String, &Vec<&Value>) -> Result<Value, Error>,
>(
    parts: &Parts<P, M, E, C, D>,
    op: Op,
    a: Option<Seq<u16>>,
    r: Result<ValueView, Fault>,
) -> bool {
    match a {
        None => misfit(r),
        Some(x) => r matches Ok(ValueView::Halves(z)) && z.len() == x.len() && forall|i: int| #![trigger z[i]]
            0 <= i < z.len() ==> is_rounded(parts, op, x[i], z[i]),
    }
}

/// A computation of the operands, with the tensors it takes.
pub open spec fn compute_gives<
    P: Fn(u32, u32) -> u32,
    M: Fn(u32, u32) -> u32,
    E: Fn(&Op, u32) -> u32,
    C: Fn(&Op, &Vec<&Value>, &Vec<Value>) -> Result<Value, Error>,
    D: Fn(&Op, &String, &Vec<&Value>) -> Result<Value, Error>,
>(
    parts: &Parts<P, M, E, C, D>,
    m: ModelView,
    s: StepView,
    regs: Map<Reg, ValueView>,
    r: Result<ValueView, Fault>,
) -> bool {
    match (operands(regs, s), tensors(m.store, wanted(s))) {
        (None, _) => misfit(r),
        (_, Err(e)) => lacks(r, e),
        (Some(a), Ok(t)) => exists|o: Result<ValueView, Error>| #[trigger]
            parts.computes(s.op, a, t, o) && r == passed(o),
    }
}

/// A kernel on the operands.
pub open spec fn device_gives<
    P: Fn(u32, u32) -> u32,
    M: Fn(u32, u32) -> u32,
    E: Fn(&Op, u32) -> u32,
    C: Fn(&Op, &Vec<&Value>, &Vec<Value>) -> Result<Value, Error>,
    D: Fn(&Op, &String, &Vec<&Value>) -> Result<Value, Error>,
>(
    parts: &Parts<P, M, E, C, D>,
    s: StepView,
    regs: Map<Reg, ValueView>,
    r: Result<ValueView, Fault>,
) -> bool {
    match operands(regs, s) {
        None => misfit(r),
        Some(a) => exists|o: Result<ValueView, Error>| #[trigger]
            parts.launches(s.op, s.name, a, o) && r == passed(o),
    }
}

/// What step `s` gives of the registers.
pub open spec fn step_gives<
    P: Fn(u32, u32) -> u32,
    M: Fn(u32, u32) -> u32,
    E: Fn(&Op, u32) -> u32,
    C: Fn(&Op, &Vec<&Value>, &Vec<Value>) -> Result<Value, Error>,
    D: Fn(&Op, &String, &Vec<&Value>) -> Result<Value, Error>,
>(
    parts: &Parts<P, M, E, C, D>,
    m: ModelView,
    s: StepView,
    regs: Map<Reg, ValueView>,
    r: Result<ValueView, Fault>,
) -> bool {
    let ws2 = m.cfg.window * m.cfg.window;
    match s.op {
        Op::Tensor { .. } => match tensor(m.store, plain(s.name)) {
            Ok(v) => r == Ok::<ValueView, Fault>(v),
            Err(e) => lacks(r, e),
        },
        Op::Patches { width, .. } => patches_give(m, s, regs, width as int, r),
        Op::Embed { rows, cols } => embed_gives(parts, m, s, regs, rows as int, cols as int, r),
        Op::ToRaster => raster_gives(m, s, regs, r),
        Op::Pack { kernel } => pack_gives(m, s, regs, kernel, r),
        Op::Add => sum_gives(&parts.ops, reals(regs, s, 0), reals(regs, s, 1), r),
        Op::AddBias { dim } => bias_gives(&parts.ops, m.store, s.name, reals(regs, s, 0), dim as int, r),
        Op::Residual { dim, bias } => residual_gives(
            &parts.ops,
            m.store,
            if bias {
                Some(s.name)
            } else {
                None
            },
            reals(regs, s, 0),
            halves(regs, s, 1),
            dim as int,
            r,
        ),
        Op::Upsample { side, cols } => upsample_gives(
            &parts.ops,
            reals(regs, s, 0),
            reals(regs, s, 1),
            side as int,
            cols as int,
            r,
        ),
        Op::Rotate { part, global, heads, hd, .. } => if ws2 > usize::MAX {
            misfit(r)
        } else {
            rotate_gives(
                &parts.ops,
                m.z.tokens as int,
                ws2,
                halves(regs, s, 0),
                reals(regs, s, 1),
                reals(regs, s, 2),
                part as int,
                global,
                heads as int,
                hd as int,
                r,
            )
        },
        Op::Relu | Op::Gelu | Op::Sigmoid | Op::Clamp { .. } => each_gives(parts, s.op, reals(regs, s, 0), r),
        Op::GeluHalves => halves_give(parts, Op::Gelu, halves(regs, s, 0), r),
        Op::Linear { .. }
        | Op::Mlp { .. }
        | Op::LayerNorm { .. }
        | Op::Standardize { .. }
        | Op::GroupNormRelu { .. }
        | Op::SelfAttend { .. }
        | Op::Attend { .. }
        | Op::AttendValid { .. }
        | Op::AttendGrid { .. }
        | Op::BoxSine { .. }
        | Op::EdgeDistances { .. }
        | Op::Refine
        | Op::Corners
        | Op::MeanValid
        | Op::ScaledDot { .. }
        | Op::FoldScores { .. }
        | Op::FoldScoreBias { .. }
        | Op::FoldValues { .. }
        | Op::FoldHead { .. }
        | Op::FoldHeadBias { .. }
        | Op::SoftmaxValid { .. } => compute_gives(parts, m, s, regs, r),
        Op::Gemm { .. }
        | Op::GemmSlot { .. }
        | Op::GemmStay { .. }
        | Op::GemmOn { .. }
        | Op::Mha { .. }
        | Op::ConvGemm { .. } => device_gives(parts, s, regs, r),
        _ => if ws2 > usize::MAX {
            misfit(r)
        } else {
            match moved(m.z, ws2, s, regs) {
                Some(v) => r == Ok::<ValueView, Fault>(v),
                None => misfit(r),
            }
        },
    }
}

/// Step `s` takes the registers from `x` to `y`.
pub open spec fn step_to<
    P: Fn(u32, u32) -> u32,
    M: Fn(u32, u32) -> u32,
    E: Fn(&Op, u32) -> u32,
    C: Fn(&Op, &Vec<&Value>, &Vec<Value>) -> Result<Value, Error>,
    D: Fn(&Op, &String, &Vec<&Value>) -> Result<Value, Error>,
>(
    parts: &Parts<P, M, E, C, D>,
    m: ModelView,
    s: StepView,
    x: Map<Reg, ValueView>,
    y: Map<Reg, ValueView>,
) -> bool {
    y.contains_key(s.to) && y == x.insert(s.to, y[s.to]) && step_gives(parts, m, s, x, Ok::<ValueView, Fault>(y[s.to]))
}

/// `tr` are the registers before and after each of the first `n` steps.
pub open spec fn trace<
    P: Fn(u32, u32) -> u32,
    M: Fn(u32, u32) -> u32,
    E: Fn(&Op, u32) -> u32,
    C: Fn(&Op, &Vec<&Value>, &Vec<Value>) -> Result<Value, Error>,
    D: Fn(&Op, &String, &Vec<&Value>) -> Result<Value, Error>,
>(
    parts: &Parts<P, M, E, C, D>,
    m: ModelView,
    p: Seq<StepView>,
    x: Map<Reg, ValueView>,
    tr: Seq<Map<Reg, ValueView>>,
    n: int,
) -> bool {
    &&& 0 <= n <= p.len()
    &&& tr.len() == n + 1
    &&& tr[0] == x
    &&& forall|i: int| #![trigger tr[i + 1]] 0 <= i < n ==> step_to(parts, m, p[i], tr[i], tr[i + 1])
}

/// What running program `p` from the registers `x` comes to: after all its
/// steps the registers `y`; or the fault of the first step that has one, the
/// registers `y` as the steps before it left them.
pub open spec fn runs_to<
    P: Fn(u32, u32) -> u32,
    M: Fn(u32, u32) -> u32,
    E: Fn(&Op, u32) -> u32,
    C: Fn(&Op, &Vec<&Value>, &Vec<Value>) -> Result<Value, Error>,
    D: Fn(&Op, &String, &Vec<&Value>) -> Result<Value, Error>,
>(
    parts: &Parts<P, M, E, C, D>,
    m: ModelView,
    p: Seq<StepView>,
    x: Map<Reg, ValueView>,
    r: Result<(), Fault>,
    y: Map<Reg, ValueView>,
) -> bool {
    exists|tr: Seq<Map<Reg, ValueView>>, n: int| #[trigger]
        trace(parts, m, p, x, tr, n) && y == tr.last() && match r {
            Ok(_) => n == p.len(),
            Err(f) => n < p.len() && step_gives(parts, m, p[n], y, Err::<ValueView, Fault>(f)),
        }
}

// ----------------------------------------------------------------------------
// Taking a step
// ----------------------------------------------------------------------------

/// What a step that returned `r` gives.
pub open spec fn given(r: Result<Value, Fault>) -> Result<ValueView, Fault> {
    match r {
        Ok(v) => Ok(v@),
        Err(f) => Err(f),
    }
}

fn lift(e: manifest::Error) -> (r: Fault)
    ensures
        r matches Fault::Failed(x) && faults(x, e.shown()),
{
    Fault::Failed(Error::Bundle(e.message()))
}

fn plain_want(name: &str, tail: &str) -> (r: Want)
    ensures
        r@ == plain(name@ + tail@),
{
    Want { name: cat2(name, tail), half: false, optional: false }
}

fn bias_want(name: &str, tail: &str) -> (r: Want)
    ensures
        r@ == bias(name@ + tail@),
{
    Want { name: cat2(name, tail), half: false, optional: true }
}

fn two_wants(a: Want, b: Want) -> (r: Vec<Want>)
    ensures
        want_views(r@) == seq![a@, b@],
{
    let mut r: Vec<Want> = Vec::new();
    r.push(a);
    r.push(b);
    proof {
        assert(want_views(r@) =~= seq![a@, b@]);
    }
    r
}

fn one_want(a: Want) -> (r: Vec<Want>)
    ensures
        want_views(r@) == seq![a@],
{
    let mut r: Vec<Want> = Vec::new();
    r.push(a);
    proof {
        assert(want_views(r@) =~= seq![a@]);
    }
    r
}

fn want_layers(name: &str, n: usize) -> (r: Vec<Want>)
    ensures
        want_views(r@) == layers_wanted(name@, n as nat),
{
    let mut r: Vec<Want> = Vec::new();
    let mut l: usize = 0;
    proof {
        assert(want_views(r@) =~= seq![]);
    }
    while l < n
        invariant
            l <= n,
            want_views(r@) == layers_wanted(name@, l as nat),
        decreases n - l,
    {
        l += 1;
        let number = decimal_of(l as u128);
        let ghost before = r@;
        let w = Want { name: cat4(name, ".", number.as_str(), ".w"), half: false, optional: false };
        let b = Want { name: cat4(name, ".", number.as_str(), ".b"), half: false, optional: true };
        r.push(w);
        r.push(b);
        proof {
            let at = name@ + "."@ + decimal(l as nat);
            assert(w@ == plain(at + ".w"@) && b@ == bias(at + ".b"@));
            assert(want_views(r@) =~= want_views(before) + seq![w@, b@]);
        }
    }
    r
}

fn wants(s: &Step) -> (r: Vec<Want>)
    ensures
        want_views(r@) == wanted(s@),
{
    let name = s.name.as_str();
    match s.op {
        Op::Linear { half, .. } => two_wants(
            Want { name: cat2(name, ".w"), half, optional: false },
            bias_want(name, ".b"),
        ),
        Op::Mlp { layers, .. } => want_layers(name, layers),
        Op::LayerNorm { .. } => two_wants(plain_want(name, ".w"), plain_want(name, ".b")),
        Op::GroupNormRelu { .. } => two_wants(plain_want(name, ".w"), plain_want(name, ".b")),
        Op::FoldScores { .. } => one_want(plain_want(name, ".w")),
        Op::FoldScoreBias { .. } => one_want(plain_want(name, ".b")),
        Op::FoldValues { .. } => one_want(plain_want(name, ".w")),
        Op::FoldHead { .. } => two_wants(plain_want(name, ".inst.w"), plain_want(name, ".sem.w")),
        Op::FoldHeadBias { .. } => two_wants(plain_want(name, ".inst.b"), plain_want(name, ".sem.b")),
        _ => {
            let r: Vec<Want> = Vec::new();
            proof {
                assert(want_views(r@) =~= seq![]);
            }
            r
        },
    }
}

fn read_tensor(st: &Store, w: &Want) -> (r: Result<Value, Fault>)
    ensures
        match (r, tensor(st@, w@)) {
            (Ok(v), Ok(x)) => v@ == x,
            (Err(Fault::Failed(e)), Err(m)) => faults(e, m),
            _ => false,
        },
{
    let name = w.name.as_str();
    if w.optional && !st.has(name) {
        let none: Vec<u32> = Vec::new();
        proof {
            assert(none@ =~= seq![]);
        }
        return Ok(Value::Reals(none));
    }
    if w.half {
        match st.bf16(name) {
            Ok(v) => Ok(Value::Halves(v)),
            Err(e) => Err(lift(e)),
        }
    } else {
        match st.f32_bits(name) {
            Ok(v) => Ok(Value::Reals(v)),
            Err(e) => Err(lift(e)),
        }
    }
}

proof fn first_lack(st: StoreView, ws: Seq<WantView>, n: int)
    requires
        0 <= n <= ws.len(),
        tensors(st, ws.take(n)) is Err,
    ensures
        tensors(st, ws) == tensors(st, ws.take(n)),
    decreases ws.len() - n,
{
    if n < ws.len() {
        assert(ws.take(n + 1).drop_last() =~= ws.take(n));
        first_lack(st, ws, n + 1);
    } else {
        assert(ws.take(n) =~= ws);
    }
}

fn read_tensors(st: &Store, ws: &Vec<Want>) -> (r: Result<Vec<Value>, Fault>)
    ensures
        match (r, tensors(st@, want_views(ws@))) {
            (Ok(v), Ok(x)) => values(v@) == x,
            (Err(Fault::Failed(e)), Err(m)) => faults(e, m),
            _ => false,
        },
{
    let ghost all = want_views(ws@);
    let mut out: Vec<Value> = Vec::new();
    let mut i: usize = 0;
    proof {
        assert(all.take(0) =~= seq![]);
        assert(values(out@) =~= seq![]);
    }
    while i < ws.len()
        invariant
            i <= ws@.len(),
            all == want_views(ws@),
            tensors(st@, all.take(i as int)) == Ok::<Seq<ValueView>, Seq<char>>(values(out@)),
        decreases ws@.len() - i,
    {
        proof {
            assert(all.take(i + 1).drop_last() =~= all.take(i as int));
            assert(all.take(i + 1).last() == ws@[i as int]@);
            if tensors(st@, all.take(i + 1)) is Err {
                first_lack(st@, all, i + 1);
            }
        }
        match read_tensor(st, &ws[i]) {
            Ok(v) => {
                let ghost before = out@;
                out.push(v);
                proof {
                    assert(values(out@) =~= values(before).push(v@));
                }
            },
            Err(f) => {
                return Err(f);
            },
        }
        i += 1;
    }
    proof {
        assert(all.take(all.len() as int) =~= all);
    }
    Ok(out)
}

/// Whether `perm` names a place below `n` for each of its rows.
fn in_range(perm: &Vec<i32>, n: usize) -> (r: bool)
    ensures
        r == forall|j: int| 0 <= j < perm@.len() ==> 0 <= #[trigger] perm@[j] < n,
{
    let mut j: usize = 0;
    while j < perm.len()
        invariant
            j <= perm@.len(),
            forall|k: int| 0 <= k < j ==> 0 <= #[trigger] perm@[k] < n,
        decreases perm@.len() - j,
    {
        let p: i32 = perm[j];
        if p < 0 || p as u64 >= n as u64 {
            assert(!(0 <= perm@[j as int] < n));
            return false;
        }
        j += 1;
    }
    true
}

fn take_patches(m: &Model, s: &Step, regs: &Machine, width: usize) -> (r: Result<Value, Fault>)
    ensures
        patches_give(m@, s@, regs@, width as int, given(r)),
{
    let (g, ps, size): (usize, usize, usize) = (m.z.grid, m.cfg.patch, m.cfg.image_size);
    let px = match regs.reals(s, 0) {
        Some(v) => v,
        None => {
            return Err(Fault::Misfit);
        },
    };
    match check_pixels(px.len(), size) {
        Err(e) => {
            return Err(Fault::Failed(e));
        },
        Ok(_) => {},
    }
    if g == 0 || ps == 0 {
        return Err(Fault::Misfit);
    }
    proof {
        assert(3 * ps * ps == 3 * (ps * ps)) by (nonlinear_arith);
        assert(g * g * width == (g * g) * width) by (nonlinear_arith);
    }
    let covers: bool = match mul2(g, ps) {
        Some(n) => n <= size,
        None => false,
    };
    let columns: bool = match mul3(3, ps, ps) {
        Some(n) => n <= width,
        None => false,
    };
    if !covers || !columns || mul3(g, g, width).is_none() {
        return Err(Fault::Misfit);
    }
    let perm = match m.store.i32(s.name.as_str()) {
        Ok(v) => v,
        Err(e) => {
            return Err(lift(e));
        },
    };
    let places: usize = match mul2(g, g) {
        Some(n) => n,
        None => {
            proof {
                assert(3 * (ps * ps) >= 3) by (nonlinear_arith)
                    requires
                        ps >= 1,
                ;
                assert(g * g <= (g * g) * width) by (nonlinear_arith)
                    requires
                        width >= 1,
                        g >= 0,
                ;
            }
            return Err(Fault::Misfit);
        },
    };
    if perm.len() != places || !in_range(&perm, places) {
        return Err(Fault::Misfit);
    }
    let v = patches(px, &perm, g, ps, size, width);
    Ok(Value::Halves(v))
}

fn take_embedding<P: Fn(u32, u32) -> u32, M: Fn(u32, u32) -> u32>(
    v: &Vec<u32>,
    tok: &Vec<u16>,
    pos: &Vec<u32>,
    rows: usize,
    cols: usize,
    ops: &Ops<P, M>,
) -> (r: Option<Vec<u32>>)
    requires
        ops.total(),
    ensures
        match r {
            Some(y) => embeds(v@, tok@, pos@, rows as int, cols as int) && y@.len() == rows * cols && forall|i: int|
                #![trigger y@[i]]
                0 <= i < y@.len() ==> ops.sum(
                    wide(tok@[v@[i / cols as int] * cols + i % cols as int]),
                    pos@[i],
                    y@[i],
                ),
            None => !embeds(v@, tok@, pos@, rows as int, cols as int),
        },
{
    let placed: usize = pos.len();
    let n: usize = match mul2(rows, cols) {
        Some(n) => n,
        None => {
            return None;
        },
    };
    if rows > v.len() || n > placed {
        return None;
    }
    let have: usize = tok.len();
    let mut y: Vec<u32> = Vec::new();
    let mut t: usize = 0;
    let ghost (ri, ci) = (rows as int, cols as int);
    proof {
        assert(0 * ci == 0) by (nonlinear_arith);
    }
    while t < rows
        invariant
            ops.total(),
            ri == rows,
            ci == cols,
            n == ri * ci,
            rows <= v@.len(),
            n <= pos@.len(),
            have == tok@.len(),
            t <= rows,
            y@.len() == t * ci,
            forall|k: int| 0 <= k < t ==> ((#[trigger] v@[k]) + 1) * ci <= have,
            forall|i: int| #![trigger y@[i]]
                0 <= i < y@.len() ==> ops.sum(wide(tok@[v@[i / ci] * ci + i % ci]), pos@[i], y@[i]),
        decreases rows - t,
    {
        let id: u32 = v[t];
        proof {
            assert(0 <= (id + 1) * ci <= 0x1_0000_0000 * 0xffff_ffff_ffff_ffff) by (nonlinear_arith)
                requires
                    0 <= id <= 0xffff_ffff,
                    0 <= ci <= 0xffff_ffff_ffff_ffff,
            ;
        }
        let top: u128 = (id as u128 + 1) * cols as u128;
        if top > have as u128 {
            proof {
                assert(!((v@[t as int] + 1) * ci <= tok@.len()));
            }
            return None;
        }
        let mut j: usize = 0;
        proof {
            assert(id * ci + ci == (id + 1) * ci) by (nonlinear_arith);
            assert(t * ci + ci <= ri * ci && t * ci >= 0 && id * ci >= 0 && t * ci + ci == (t + 1) * ci) by (nonlinear_arith)
                requires
                    0 <= t < ri,
                    0 <= ci,
                    0 <= id,
            ;
        }
        while j < cols
            invariant
                ops.total(),
                ri == rows,
                ci == cols,
                n == ri * ci,
                n <= pos@.len(),
                have == tok@.len(),
                t < rows,
                rows <= v@.len(),
                id == v@[t as int],
                id * ci + ci <= have,
                0 <= id * ci,
                0 <= t * ci,
                t * ci + ci <= n,
                j <= cols,
                y@.len() == t * ci + j,
                forall|i: int| #![trigger y@[i]]
                    0 <= i < y@.len() ==> ops.sum(wide(tok@[v@[i / ci] * ci + i % ci]), pos@[i], y@[i]),
            decreases cols - j,
        {
            proof {
                crate::arith::split_index(t as int, j as int, ci);
            }
            let x: u32 = ops.plus(bf16_to_f32(tok[id as usize * cols + j]), pos[t * cols + j]);
            y.push(x);
            j += 1;
        }
        t += 1;
    }
    Some(y)
}

fn embed_step<
    P: Fn(u32, u32) -> u32,
    M: Fn(u32, u32) -> u32,
    E: Fn(&Op, u32) -> u32,
    C: Fn(&Op, &Vec<&Value>, &Vec<Value>) -> Result<Value, Error>,
    D: Fn(&Op, &String, &Vec<&Value>) -> Result<Value, Error>,
>(m: &Model, parts: &Parts<P, M, E, C, D>, s: &Step, regs: &Machine, rows: usize, cols: usize) -> (r: Result<
    Value,
    Fault,
>)
    requires
        parts.total(),
    ensures
        embed_gives(parts, m@, s@, regs@, rows as int, cols as int, given(r)),
{
    let v = match regs.ids(s, 0) {
        Some(v) => v,
        None => {
            return Err(Fault::Misfit);
        },
    };
    let tok = match m.store.bf16(cat2(s.name.as_str(), ".tok_emb").as_str()) {
        Ok(t) => t,
        Err(e) => {
            return Err(lift(e));
        },
    };
    let pos = match m.store.f32_bits(cat2(s.name.as_str(), ".pos_emb").as_str()) {
        Ok(t) => t,
        Err(e) => {
            return Err(lift(e));
        },
    };
    match take_embedding(v, &tok, &pos, rows, cols, &parts.ops) {
        Some(y) => Ok(Value::Reals(y)),
        None => Err(Fault::Misfit),
    }
}

fn raster_step(m: &Model, s: &Step, regs: &Machine) -> (r: Result<Value, Fault>)
    ensures
        raster_gives(m@, s@, regs@, given(r)),
{
    let x = match regs.reals(s, 0) {
        Some(v) => v,
        None => {
            return Err(Fault::Misfit);
        },
    };
    let perm = match m.store.i32(s.name.as_str()) {
        Ok(v) => v,
        Err(e) => {
            return Err(lift(e));
        },
    };
    let have: usize = x.len();
    let whole: bool = match mul2(perm.len(), m.z.vdim) {
        Some(n) => n == have,
        None => false,
    };
    if !whole || !in_range(&perm, perm.len()) {
        return Err(Fault::Misfit);
    }
    Ok(Value::Reals(to_raster(x, &perm, m.z.vdim)))
}

/// Whether weights and biases can be packed for a kernel.
fn can_pack(g: &GemmSpec, b: usize, c: usize) -> (r: bool)
    ensures
        forall|w: Seq<u32>, v: Seq<u32>| w.len() == b && v.len() == c ==> r == #[trigger] packs(g@, w, v),
{
    if g.tile_k == 0 || g.tile_n == 0 || g.ct_k == 0 {
        return false;
    }
    if g.k % g.tile_k != 0 || g.n % g.tile_n != 0 || g.tile_k % g.ct_k != 0 || g.ct_k % 8 != 0 || g.tile_n % 8 != 0 {
        return false;
    }
    let whole: bool = match mul2(g.k, g.n) {
        Some(n) => n == b,
        None => false,
    };
    let chunk: bool = match mul2(g.ct_k, g.tile_n) {
        Some(n) => mul2(n / 8, 9).is_some(),
        None => false,
    };
    let ghost inner = (g.k / g.tile_k) * (g.tile_k / g.ct_k) * (g.tile_n / 8);
    let ghost eighth = (g.ct_k / 8) as int;
    let blocks: bool = match mul3(g.k / g.tile_k, g.tile_k / g.ct_k, g.tile_n / 8) {
        Some(n) => mul3(n, g.ct_k / 8, 8).is_some(),
        None => {
            proof {
                assert(inner * eighth * 8 >= inner) by (nonlinear_arith)
                    requires
                        inner >= 0,
                        eighth >= 1,
                ;
            }
            false
        },
    };
    whole && chunk && blocks && c >= g.n
}

fn pack_step(m: &Model, s: &Step, regs: &Machine, kernel: Kernel) -> (r: Result<Value, Fault>)
    ensures
        pack_gives(m@, s@, regs@, kernel, given(r)),
{
    let b = match regs.reals(s, 0) {
        Some(v) => v,
        None => {
            return Err(Fault::Misfit);
        },
    };
    let c = match regs.reals(s, 1) {
        Some(v) => v,
        None => {
            return Err(Fault::Misfit);
        },
    };
    match m.manifest.gemm(kernel.key()) {
        Err(e) => Err(Fault::Failed(e)),
        Ok(g) => {
            if !can_pack(g, b.len(), c.len()) {
                return Err(Fault::Misfit);
            }
            proof {
                assert(packs(g@, b@, c@));
                assert(tiling_of(g@) == crate::pack::tiling(*g));
            }
            Ok(Value::Packed(pack_b(g, b, Some(c))))
        },
    }
}

fn sum_step<P: Fn(u32, u32) -> u32, M: Fn(u32, u32) -> u32>(ops: &Ops<P, M>, a: Option<&Vec<u32>>, b: Option<&Vec<u32>>) -> (r:
    Result<Value, Fault>)
    requires
        ops.total(),
    ensures
        sum_gives(ops, seq_of(a), seq_of(b), given(r)),
{
    match (a, b) {
        (Some(x), Some(y)) => {
            let mut z: Vec<u32> = Vec::new();
            let mut i: usize = 0;
            while i < x.len() && i < y.len()
                invariant
                    ops.total(),
                    i <= x@.len(),
                    i <= y@.len(),
                    z@.len() == i,
                    forall|k: int| #![trigger z@[k]] 0 <= k < i ==> ops.sum(x@[k], y@[k], z@[k]),
                decreases x@.len() - i,
            {
                z.push(ops.plus(x[i], y[i]));
                i += 1;
            }
            Ok(Value::Reals(z))
        },
        _ => Err(Fault::Misfit),
    }
}

pub open spec fn seq_of<T>(v: Option<&Vec<T>>) -> Option<Seq<T>> {
    match v {
        Some(x) => Some(x@),
        None => None,
    }
}

fn bias_step<P: Fn(u32, u32) -> u32, M: Fn(u32, u32) -> u32>(
    ops: &Ops<P, M>,
    st: &Store,
    name: &str,
    a: Option<&Vec<u32>>,
    dim: usize,
) -> (r: Result<Value, Fault>)
    requires
        ops.total(),
    ensures
        bias_gives(ops, st@, name@, seq_of(a), dim as int, given(r)),
{
    let x = match a {
        Some(v) => v,
        None => {
            return Err(Fault::Misfit);
        },
    };
    let b = match st.f32_bits(name) {
        Ok(v) => v,
        Err(e) => {
            return Err(lift(e));
        },
    };
    if dim == 0 || dim > b.len() {
        return Err(Fault::Misfit);
    }
    let mut z: Vec<u32> = Vec::new();
    let mut i: usize = 0;
    while i < x.len()
        invariant
            ops.total(),
            0 < dim <= b@.len(),
            i <= x@.len(),
            z@.len() == i,
            forall|k: int| #![trigger z@[k]] 0 <= k < i ==> ops.sum(x@[k], b@[k % dim as int], z@[k]),
        decreases x@.len() - i,
    {
        z.push(ops.plus(x[i], b[i % dim]));
        i += 1;
    }
    Ok(Value::Reals(z))
}

fn residual_of<P: Fn(u32, u32) -> u32, M: Fn(u32, u32) -> u32>(ops: &Ops<P, M>, x: &Vec<u32>, c: &Vec<u16>, b: &Vec<u32>, dim: usize) -> (r:
    Result<Value, Fault>)
    requires
        ops.total(),
    ensures
        residual_rows(ops, x@, c@, b@, dim as int, given(r)),
{
    if dim == 0 || dim > b.len() || x.len() > c.len() {
        return Err(Fault::Misfit);
    }
    let mut z: Vec<u32> = Vec::new();
    let mut i: usize = 0;
    while i < x.len()
        invariant
            ops.total(),
            0 < dim <= b@.len(),
            x@.len() <= c@.len(),
            i <= x@.len(),
            z@.len() == i,
            forall|k: int| #![trigger z@[k]] 0 <= k < i ==> is_residual(ops, x@[k], c@[k], b@[k % dim as int], z@[k]),
        decreases x@.len() - i,
    {
        let t: u32 = ops.plus(bf16_to_f32(c[i]), b[i % dim]);
        let y: u32 = ops.plus(x[i], t);
        proof {
            assert(ops.sum(x@[i as int], t, y));
        }
        z.push(y);
        i += 1;
    }
    Ok(Value::Reals(z))
}

fn residual_step<P: Fn(u32, u32) -> u32, M: Fn(u32, u32) -> u32>(
    ops: &Ops<P, M>,
    st: &Store,
    name: Option<&str>,
    a: Option<&Vec<u32>>,
    c: Option<&Vec<u16>>,
    dim: usize,
) -> (r: Result<Value, Fault>)
    requires
        ops.total(),
    ensures
        residual_gives(
            ops,
            st@,
            match name {
                Some(n) => Some(n@),
                None => None,
            },
            seq_of(a),
            seq_of(c),
            dim as int,
            given(r),
        ),
{
    match (a, c) {
        (Some(x), Some(y)) => match name {
            Some(n) => match st.f32_bits(n) {
                Ok(b) => residual_of(ops, x, y, &b, dim),
                Err(e) => Err(lift(e)),
            },
            None => {
                let b = zero_reals(dim);
                residual_of(ops, x, y, &b, dim)
            },
        },
        _ => Err(Fault::Misfit),
    }
}

fn upsample_step<P: Fn(u32, u32) -> u32, M: Fn(u32, u32) -> u32>(
    ops: &Ops<P, M>,
    a: Option<&Vec<u32>>,
    b: Option<&Vec<u32>>,
    side: usize,
    d: usize,
) -> (r: Result<Value, Fault>)
    requires
        ops.total(),
    ensures
        upsample_gives(ops, seq_of(a), seq_of(b), side as int, d as int, given(r)),
{
    match (a, b) {
        (Some(p), Some(skip)) => {
            let (have, fine): (usize, usize) = (p.len(), skip.len());
            if side == 0 || d == 0 || side > usize::MAX / 2 {
                return Err(Fault::Misfit);
            }
            let coarse: bool = match mul3(side, side, d) {
                Some(n) => n == have,
                None => false,
            };
            let double: bool = match mul3(2 * side, 2 * side, d) {
                Some(n) => n == fine,
                None => false,
            };
            if !coarse || !double {
                return Err(Fault::Misfit);
            }
            Ok(Value::Halves(upsample(p, skip, side, d, &ops.add)))
        },
        _ => Err(Fault::Misfit),
    }
}

fn rotate_step<P: Fn(u32, u32) -> u32, M: Fn(u32, u32) -> u32>(
    ops: &Ops<P, M>,
    tokens: usize,
    ws2: usize,
    qkv: Option<&Vec<u16>>,
    cos: Option<&Vec<u32>>,
    sin: Option<&Vec<u32>>,
    part: usize,
    global: bool,
    heads: usize,
    hd: usize,
) -> (r: Result<Value, Fault>)
    requires
        ops.total(),
    ensures
        rotate_gives(
            ops,
            tokens as int,
            ws2 as int,
            seq_of(qkv),
            seq_of(cos),
            seq_of(sin),
            part as int,
            global,
            heads as int,
            hd as int,
            given(r),
        ),
{
    match (qkv, cos, sin) {
        (Some(x), Some(c), Some(n)) => {
            let rows = match rows_of_part(x, tokens, heads, hd, ws2, global, part) {
                Some(v) => v,
                None => {
                    return Err(Fault::Misfit);
                },
            };
            let (hc, hs): (usize, usize) = (c.len(), n.len());
            let reach: bool = match mul2(tokens, hd / 2) {
                Some(k) => k <= hc && k <= hs,
                None => false,
            };
            if hd % 2 != 0 || !reach {
                return Err(Fault::Misfit);
            }
            proof {
                assert(rows@.len() == tokens * (heads * hd)) by {
                    assert((tokens * (heads * hd)) >= 0) by (nonlinear_arith)
                        requires
                            tokens >= 0,
                            heads >= 0,
                            hd >= 0,
                    ;
                }
            }
            Ok(Value::Halves(rotate(ops, &rows, c, n, tokens, heads, hd, ws2, global)))
        },
        _ => Err(Fault::Misfit),
    }
}

fn each_step<
    P: Fn(u32, u32) -> u32,
    M: Fn(u32, u32) -> u32,
    E: Fn(&Op, u32) -> u32,
    C: Fn(&Op, &Vec<&Value>, &Vec<Value>) -> Result<Value, Error>,
    D: Fn(&Op, &String, &Vec<&Value>) -> Result<Value, Error>,
>(parts: &Parts<P, M, E, C, D>, op: Op, a: Option<&Vec<u32>>) -> (r: Result<Value, Fault>)
    requires
        parts.total(),
    ensures
        each_gives(parts, op, seq_of(a), given(r)),
{
    let x = match a {
        Some(v) => v,
        None => {
            return Err(Fault::Misfit);
        },
    };
    let mut z: Vec<u32> = Vec::new();
    let mut i: usize = 0;
    while i < x.len()
        invariant
            parts.total(),
            i <= x@.len(),
            z@.len() == i,
            forall|k: int| #![trigger z@[k]] 0 <= k < i ==> parts.applies(op, x@[k], z@[k]),
        decreases x@.len() - i,
    {
        let y: u32 = (parts.each)(&op, x[i]);
        z.push(y);
        i += 1;
    }
    Ok(Value::Reals(z))
}

fn halves_step<
    P: Fn(u32, u32) -> u32,
    M: Fn(u32, u32) -> u32,
    E: Fn(&Op, u32) -> u32,
    C: Fn(&Op, &Vec<&Value>, &Vec<Value>) -> Result<Value, Error>,
    D: Fn(&Op, &String, &Vec<&Value>) -> Result<Value, Error>,
>(parts: &Parts<P, M, E, C, D>, op: Op, a: Option<&Vec<u16>>) -> (r: Result<Value, Fault>)
    requires
        parts.total(),
    ensures
        halves_give(parts, op, seq_of(a), given(r)),
{
    let x = match a {
        Some(v) => v,
        None => {
            return Err(Fault::Misfit);
        },
    };
    let mut z: Vec<u16> = Vec::new();
    let mut i: usize = 0;
    while i < x.len()
        invariant
            parts.total(),
            i <= x@.len(),
            z@.len() == i,
            forall|k: int| #![trigger z@[k]] 0 <= k < i ==> is_rounded(parts, op, x@[k], z@[k]),
        decreases x@.len() - i,
    {
        let y: u32 = (parts.each)(&op, bf16_to_f32(x[i]));
        proof {
            assert(parts.applies(op, wide(x@[i as int]), y));
        }
        z.push(f32_to_bf16(y));
        i += 1;
    }
    Ok(Value::Halves(z))
}

fn compute_step<
    P: Fn(u32, u32) -> u32,
    M: Fn(u32, u32) -> u32,
    E: Fn(&Op, u32) -> u32,
    C: Fn(&Op, &Vec<&Value>, &Vec<Value>) -> Result<Value, Error>,
    D: Fn(&Op, &String, &Vec<&Value>) -> Result<Value, Error>,
>(m: &Model, parts: &Parts<P, M, E, C, D>, s: &Step, regs: &Machine) -> (r: Result<Value, Fault>)
    requires
        parts.total(),
    ensures
        compute_gives(parts, m@, s@, regs@, given(r)),
{
    let a = match regs.operands(s) {
        Some(v) => v,
        None => {
            return Err(Fault::Misfit);
        },
    };
    let t = match read_tensors(m.store, &wants(s)) {
        Ok(v) => v,
        Err(f) => {
            return Err(f);
        },
    };
    let o = (parts.compute)(&s.op, &a, &t);
    proof {
        assert(parts.computes(s@.op, seen(a@), values(t@), viewed(o)));
    }
    let r = match o {
        Ok(v) => Ok(v),
        Err(e) => Err(Fault::Failed(e)),
    };
    proof {
        assert(operands(regs@, s@)->0 =~= seen(a@));
        assert(tensors(m@.store, wanted(s@))->Ok_0 =~= values(t@));
        assert(given(r) == passed(viewed(o)));
    }
    r
}

fn device_step<
    P: Fn(u32, u32) -> u32,
    M: Fn(u32, u32) -> u32,
    E: Fn(&Op, u32) -> u32,
    C: Fn(&Op, &Vec<&Value>, &Vec<Value>) -> Result<Value, Error>,
    D: Fn(&Op, &String, &Vec<&Value>) -> Result<Value, Error>,
>(parts: &Parts<P, M, E, C, D>, s: &Step, regs: &Machine) -> (r: Result<Value, Fault>)
    requires
        parts.total(),
    ensures
        device_gives(parts, s@, regs@, given(r)),
{
    let a = match regs.operands(s) {
        Some(v) => v,
        None => {
            return Err(Fault::Misfit);
        },
    };
    let o = (parts.device)(&s.op, &s.name, &a);
    proof {
        assert(parts.launches(s@.op, s@.name, seen(a@), viewed(o)));
    }
    let r = match o {
        Ok(v) => Ok(v),
        Err(e) => Err(Fault::Failed(e)),
    };
    proof {
        assert(operands(regs@, s@)->0 =~= seen(a@));
        assert(given(r) == passed(viewed(o)));
    }
    r
}

/// What one step gives.
pub fn step<
    P: Fn(u32, u32) -> u32,
    M: Fn(u32, u32) -> u32,
    E: Fn(&Op, u32) -> u32,
    C: Fn(&Op, &Vec<&Value>, &Vec<Value>) -> Result<Value, Error>,
    D: Fn(&Op, &String, &Vec<&Value>) -> Result<Value, Error>,
>(m: &Model, parts: &Parts<P, M, E, C, D>, s: &Step, regs: &Machine) -> (r: Result<Value, Fault>)
    requires
        parts.total(),
    ensures
        step_gives(parts, m@, s@, regs@, given(r)),
{
    let ws2: Option<usize> = mul2(m.cfg.window, m.cfg.window);
    match s.op {
        Op::Tensor { .. } => {
            let w = Want { name: s.name.clone(), half: false, optional: false };
            read_tensor(m.store, &w)
        },
        Op::Patches { width, .. } => take_patches(m, s, regs, width),
        Op::Embed { rows, cols } => embed_step(m, parts, s, regs, rows, cols),
        Op::ToRaster => raster_step(m, s, regs),
        Op::Pack { kernel } => pack_step(m, s, regs, kernel),
        Op::Add => sum_step(&parts.ops, regs.reals(s, 0), regs.reals(s, 1)),
        Op::AddBias { dim } => bias_step(&parts.ops, m.store, s.name.as_str(), regs.reals(s, 0), dim),
        Op::Residual { dim, bias } => {
            let name: Option<&str> = if bias {
                Some(s.name.as_str())
            } else {
                None
            };
            residual_step(&parts.ops, m.store, name, regs.reals(s, 0), regs.halves(s, 1), dim)
        },
        Op::Upsample { side, cols } => upsample_step(&parts.ops, regs.reals(s, 0), regs.reals(s, 1), side, cols),
        Op::Rotate { part, global, heads, hd, .. } => match ws2 {
            None => Err(Fault::Misfit),
            Some(w) => rotate_step(
                &parts.ops,
                m.z.tokens,
                w,
                regs.halves(s, 0),
                regs.reals(s, 1),
                regs.reals(s, 2),
                part,
                global,
                heads,
                hd,
            ),
        },
        Op::Relu | Op::Gelu | Op::Sigmoid | Op::Clamp { .. } => each_step(parts, s.op, regs.reals(s, 0)),
        Op::GeluHalves => halves_step(parts, Op::Gelu, regs.halves(s, 0)),
        Op::Linear { .. }
        | Op::Mlp { .. }
        | Op::LayerNorm { .. }
        | Op::Standardize { .. }
        | Op::GroupNormRelu { .. }
        | Op::SelfAttend { .. }
        | Op::Attend { .. }
        | Op::AttendValid { .. }
        | Op::AttendGrid { .. }
        | Op::BoxSine { .. }
        | Op::EdgeDistances { .. }
        | Op::Refine
        | Op::Corners
        | Op::MeanValid
        | Op::ScaledDot { .. }
        | Op::FoldScores { .. }
        | Op::FoldScoreBias { .. }
        | Op::FoldValues { .. }
        | Op::FoldHead { .. }
        | Op::FoldHeadBias { .. }
        | Op::SoftmaxValid { .. } => compute_step(m, parts, s, regs),
        Op::Gemm { .. }
        | Op::GemmSlot { .. }
        | Op::GemmStay { .. }
        | Op::GemmOn { .. }
        | Op::Mha { .. }
        | Op::ConvGemm { .. } => device_step(parts, s, regs),
        _ => match ws2 {
            None => Err(Fault::Misfit),
            Some(w) => match move_values(m.z, w, s, regs) {
                Some(v) => Ok(v),
                None => Err(Fault::Misfit),
            },
        },
    }
}

/// Runs a program.
pub fn run<
    P: Fn(u32, u32) -> u32,
    M: Fn(u32, u32) -> u32,
    E: Fn(&Op, u32) -> u32,
    C: Fn(&Op, &Vec<&Value>, &Vec<Value>) -> Result<Value, Error>,
    D: Fn(&Op, &String, &Vec<&Value>) -> Result<Value, Error>,
>(m: &Model, parts: &Parts<P, M, E, C, D>, p: &Vec<Step>, regs: &mut Machine) -> (r: Result<(), Fault>)
    requires
        parts.total(),
    ensures
        runs_to(parts, m@, views(p@), old(regs)@, r, final(regs)@),
{
    let ghost all = views(p@);
    let ghost x = regs@;
    let ghost mut tr: Seq<Map<Reg, ValueView>> = seq![x];
    let mut i: usize = 0;
    while i < p.len()
        invariant
            parts.total(),
            i <= p@.len(),
            all == views(p@),
            x == old(regs)@,
            trace(parts, m@, all, x, tr, i as int),
            tr.last() == regs@,
        decreases p@.len() - i,
    {
        let s = &p[i];
        assert(all[i as int] == s@);
        match step(m, parts, s, regs) {
            Ok(v) => {
                let ghost before = regs@;
                regs.set(s.to, v);
                proof {
                    let next = tr.push(regs@);
                    assert forall|k: int| #![trigger next[k + 1]] 0 <= k < i + 1 implies step_to(
                        parts,
                        m@,
                        all[k],
                        next[k],
                        next[k + 1],
                    ) by {
                        if k < i {
                            assert(next[k + 1] == tr[k + 1]);
                        } else {
                            assert(next[k] == before && next[k + 1] == regs@);
                            assert(regs@ =~= before.insert(s@.to, regs@[s@.to]));
                        }
                    }
                    tr = next;
                }
            },
            Err(f) => {
                return Err(f);
            },
        }
        i += 1;
    }
    Ok(())
}

// ----------------------------------------------------------------------------
// Laws
// ----------------------------------------------------------------------------

/// One program after another is their concatenation.
pub proof fn programs_run_in_turn<
    P: Fn(u32, u32) -> u32,
    M: Fn(u32, u32) -> u32,
    E: Fn(&Op, u32) -> u32,
    C: Fn(&Op, &Vec<&Value>, &Vec<Value>) -> Result<Value, Error>,
    D: Fn(&Op, &String, &Vec<&Value>) -> Result<Value, Error>,
>(
    parts: &Parts<P, M, E, C, D>,
    m: ModelView,
    p: Seq<StepView>,
    q: Seq<StepView>,
    x: Map<Reg, ValueView>,
    y: Map<Reg, ValueView>,
    r: Result<(), Fault>,
    z: Map<Reg, ValueView>,
)
    requires
        runs_to(parts, m, p, x, Ok::<(), Fault>(()), y),
        runs_to(parts, m, q, y, r, z),
    ensures
        runs_to(parts, m, p + q, x, r, z),
{
    let (s, a) = choose|tr: Seq<Map<Reg, ValueView>>, n: int| #[trigger]
        trace(parts, m, p, x, tr, n) && y == tr.last() && n == p.len();
    let (t, b) = choose|tr: Seq<Map<Reg, ValueView>>, n: int| #[trigger]
        trace(parts, m, q, y, tr, n) && z == tr.last() && match r {
            Ok(_) => n == q.len(),
            Err(f) => n < q.len() && step_gives(parts, m, q[n], z, Err::<ValueView, Fault>(f)),
        };
    let all = s + t.skip(1);
    assert forall|i: int| #![trigger all[i + 1]] 0 <= i < a + b implies step_to(parts, m, (p + q)[i], all[i], all[i + 1]) by {
        if i < a {
            assert(all[i] == s[i] && all[i + 1] == s[i + 1]);
        } else {
            let k = i - a;
            assert(all[i + 1] == t[k + 1]);
            assert(all[i] == t[k]);
            assert((p + q)[i] == q[k]);
            assert(step_to(parts, m, q[k], t[k], t[k + 1]));
        }
    }
    assert(trace(parts, m, p + q, x, all, a + b));
    assert(all.last() == z);
    if b < q.len() {
        assert((p + q)[a + b] == q[b]);
    }
}

/// A register that no step writes keeps its value, however far a program
/// gets.
pub proof fn unwritten_registers_keep<
    P: Fn(u32, u32) -> u32,
    M: Fn(u32, u32) -> u32,
    E: Fn(&Op, u32) -> u32,
    C: Fn(&Op, &Vec<&Value>, &Vec<Value>) -> Result<Value, Error>,
    D: Fn(&Op, &String, &Vec<&Value>) -> Result<Value, Error>,
>(
    parts: &Parts<P, M, E, C, D>,
    m: ModelView,
    p: Seq<StepView>,
    x: Map<Reg, ValueView>,
    r: Result<(), Fault>,
    y: Map<Reg, ValueView>,
    at: Reg,
)
    requires
        runs_to(parts, m, p, x, r, y),
        spares(p, at),
    ensures
        y.contains_key(at) == x.contains_key(at),
        x.contains_key(at) ==> y[at] == x[at],
{
    let (tr, n) = choose|tr: Seq<Map<Reg, ValueView>>, n: int| #[trigger]
        trace(parts, m, p, x, tr, n) && y == tr.last() && match r {
            Ok(_) => n == p.len(),
            Err(f) => n < p.len() && step_gives(parts, m, p[n], y, Err::<ValueView, Fault>(f)),
        };
    unwritten(parts, m, p, x, tr, n, n, at);
}

proof fn unwritten<
    P: Fn(u32, u32) -> u32,
    M: Fn(u32, u32) -> u32,
    E: Fn(&Op, u32) -> u32,
    C: Fn(&Op, &Vec<&Value>, &Vec<Value>) -> Result<Value, Error>,
    D: Fn(&Op, &String, &Vec<&Value>) -> Result<Value, Error>,
>(
    parts: &Parts<P, M, E, C, D>,
    m: ModelView,
    p: Seq<StepView>,
    x: Map<Reg, ValueView>,
    tr: Seq<Map<Reg, ValueView>>,
    n: int,
    k: int,
    at: Reg,
)
    requires
        trace(parts, m, p, x, tr, n),
        spares(p, at),
        0 <= k <= n,
    ensures
        tr[k].contains_key(at) == x.contains_key(at),
        x.contains_key(at) ==> tr[k][at] == x[at],
    decreases k,
{
    if k > 0 {
        unwritten(parts, m, p, x, tr, n, k - 1, at);
        assert(step_to(parts, m, p[k - 1], tr[k - 1], tr[k - 1 + 1]));
        assert(p[k - 1].to != at);
    }
}

} // verus!
