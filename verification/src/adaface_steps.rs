//! The steps of an IR face-embedding network, as its bundle records them.
//!
//! Each step is checked, as it is read, against the buffers the steps
//! before it define and against the tensors, so that a forward over the
//! steps cannot fail on a malformed bundle: `parsed_steps_run` states what
//! the checks establish.

use crate::arith::{mul2, mul3};
use crate::manifest::{gives, joined, record_views, says, shows, Error, Manifest, ManifestView, Record, RecordView};
use crate::store::{DType, Store, StoreView};
use crate::text::{cat2, cat3, cat5, cat7, decimal, decimal_of, same, FromText};
use std::collections::HashMap;
use vstd::prelude::*;

verus! {

broadcast use vstd::std_specs::hash::group_hash_axioms;

/// One device dispatch: the input-channel groups `c0 .. c0 + icg / 8` of a
/// convolution, accumulated into `out` from the `first` dispatch to the
/// `last` (which crops the padded width `owp` back to `ow`).
#[derive(Debug)]
pub struct Conv {
    pub input: u32,
    pub out: u32,
    pub c0: usize,
    pub icg: usize,
    pub wp: usize,
    pub oc: usize,
    pub oh: usize,
    pub ow: usize,
    pub owp: usize,
    pub ctx: String,
    pub xclbin: String,
    pub kernel: String,
    pub insts: String,
    pub wt: String,
    pub first: bool,
    pub last: bool,
}

pub struct ConvView {
    pub input: u32,
    pub out: u32,
    pub c0: usize,
    pub icg: usize,
    pub wp: usize,
    pub oc: usize,
    pub oh: usize,
    pub ow: usize,
    pub owp: usize,
    pub ctx: Seq<char>,
    pub xclbin: Seq<char>,
    pub kernel: Seq<char>,
    pub insts: Seq<char>,
    pub wt: Seq<char>,
    pub first: bool,
    pub last: bool,
}

impl View for Conv {
    type V = ConvView;

    open spec fn view(&self) -> ConvView {
        ConvView {
            input: self.input,
            out: self.out,
            c0: self.c0,
            icg: self.icg,
            wp: self.wp,
            oc: self.oc,
            oh: self.oh,
            ow: self.ow,
            owp: self.owp,
            ctx: self.ctx@,
            xclbin: self.xclbin@,
            kernel: self.kernel@,
            insts: self.insts@,
            wt: self.wt@,
            first: self.first,
            last: self.last,
        }
    }
}

/// One manifest step. Buffer ids name tiled bfloat16 buffers; strings name
/// tensors.
#[derive(Debug)]
pub enum Step {
    Input { buf: u32, c: usize, h: usize, w: usize, tensor: String },
    Conv(Conv),
    Affine { input: u32, out: u32, scale: String, shift: String },
    PreluBias { buf: u32, alpha: String, bias: String },
    Bias { buf: u32, bias: String },
    Subsample { input: u32, out: u32, stride: usize },
    Add { a: u32, b: u32, out: u32 },
    Head { input: u32, k: usize, n: usize, bt: String, b2: String },
}

pub enum StepView {
    Input { buf: u32, c: usize, h: usize, w: usize, tensor: Seq<char> },
    Conv(ConvView),
    Affine { input: u32, out: u32, scale: Seq<char>, shift: Seq<char> },
    PreluBias { buf: u32, alpha: Seq<char>, bias: Seq<char> },
    Bias { buf: u32, bias: Seq<char> },
    Subsample { input: u32, out: u32, stride: usize },
    Add { a: u32, b: u32, out: u32 },
    Head { input: u32, k: usize, n: usize, bt: Seq<char>, b2: Seq<char> },
}

impl View for Step {
    type V = StepView;

    open spec fn view(&self) -> StepView {
        match self {
            Step::Input { buf, c, h, w, tensor } => StepView::Input { buf: *buf, c: *c, h: *h, w: *w, tensor: tensor@ },
            Step::Conv(cv) => StepView::Conv(cv@),
            Step::Affine { input, out, scale, shift } => StepView::Affine {
                input: *input,
                out: *out,
                scale: scale@,
                shift: shift@,
            },
            Step::PreluBias { buf, alpha, bias } => StepView::PreluBias { buf: *buf, alpha: alpha@, bias: bias@ },
            Step::Bias { buf, bias } => StepView::Bias { buf: *buf, bias: bias@ },
            Step::Subsample { input, out, stride } => StepView::Subsample { input: *input, out: *out, stride: *stride },
            Step::Add { a, b, out } => StepView::Add { a: *a, b: *b, out: *out },
            Step::Head { input, k, n, bt, b2 } => StepView::Head { input: *input, k: *k, n: *n, bt: bt@, b2: b2@ },
        }
    }
}

/// Channels, height and width of a buffer.
pub type Shape = (usize, usize, usize);

/// Whether a buffer can have the shape: whole channel groups, and a number
/// of elements that is a machine integer.
pub open spec fn tileable(s: Shape) -> bool {
    s.0 % 8 == 0 && s.0 * s.1 * s.2 <= usize::MAX
}

// ----------------------------------------------------------------------------
// What the steps mean for the buffers
// ----------------------------------------------------------------------------

/// The shapes of the defined buffers, and the lengths of the accumulators.
pub struct Buffers {
    pub shapes: Map<u32, Shape>,
    pub accs: Map<u32, nat>,
}

impl Buffers {
    /// After step `s`.
    pub open spec fn after(self, s: StepView) -> Buffers {
        match s {
            StepView::Input { buf, c, h, w, .. } => Buffers { shapes: self.shapes.insert(buf, (c, h, w)), ..self },
            StepView::Conv(cv) => Buffers {
                shapes: if cv.last {
                    self.shapes.insert(cv.out, (cv.oc, cv.oh, cv.ow))
                } else {
                    self.shapes
                },
                accs: if self.accs.contains_key(cv.out) {
                    self.accs
                } else {
                    self.accs.insert(cv.out, (cv.oc * cv.oh * cv.owp) as nat)
                },
            },
            StepView::Affine { input, out, .. } => Buffers {
                shapes: self.shapes.insert(out, self.shapes[input]),
                ..self
            },
            StepView::PreluBias { .. } => self,
            StepView::Bias { .. } => self,
            StepView::Subsample { input, out, stride } => {
                let s = self.shapes[input];
                Buffers { shapes: self.shapes.insert(out, (s.0, s.1 / stride, s.2 / stride)), ..self }
            },
            StepView::Add { a, out, .. } => Buffers { shapes: self.shapes.insert(out, self.shapes[a]), ..self },
            StepView::Head { .. } => self,
        }
    }

    /// Step `s` reads only buffers that are defined, with the shapes and
    /// the tensors it needs.
    pub open spec fn allow(self, s: StepView, st: StoreView) -> bool {
        match s {
            StepView::Input { c, h, w, tensor, .. } => {
                &&& c > 0 && h > 0 && w > 0 && tileable((c, h, w))
                &&& st.expect(tensor, DType::Bf16, (c * h * w) as nat) is Ok
            },
            StepView::Conv(cv) => {
                &&& self.shapes.contains_key(cv.input)
                &&& cv.icg > 0 && cv.icg % 8 == 0
                &&& 8 * cv.c0 + cv.icg <= self.shapes[cv.input].0
                &&& self.shapes[cv.input].2 <= cv.wp
                &&& cv.icg * self.shapes[cv.input].1 * cv.wp <= usize::MAX
                &&& cv.ow <= cv.owp
                &&& tileable((cv.oc, cv.oh, cv.owp))
                &&& st.typed(cv.wt, DType::Bf16) is Ok
                &&& self.accs.contains_key(cv.out) ==> cv.oc * cv.oh * cv.owp <= self.accs[cv.out]
            },
            StepView::Affine { input, scale, shift, .. } => {
                &&& self.shapes.contains_key(input)
                &&& st.expect(scale, DType::Bf16, self.shapes[input].0 as nat) is Ok
                &&& st.expect(shift, DType::Bf16, self.shapes[input].0 as nat) is Ok
            },
            StepView::PreluBias { buf, alpha, bias } => {
                &&& self.shapes.contains_key(buf)
                &&& st.expect(alpha, DType::Bf16, self.shapes[buf].0 as nat) is Ok
                &&& st.expect(bias, DType::Bf16, self.shapes[buf].0 as nat) is Ok
            },
            StepView::Bias { buf, bias } => {
                &&& self.shapes.contains_key(buf)
                &&& st.expect(bias, DType::Bf16, self.shapes[buf].0 as nat) is Ok
            },
            StepView::Subsample { input, stride, .. } => self.shapes.contains_key(input) && stride > 0,
            StepView::Add { a, b, .. } => {
                &&& self.shapes.contains_key(a)
                &&& self.shapes.contains_key(b)
                &&& self.shapes[a] == self.shapes[b]
            },
            StepView::Head { input, k, n, bt, b2 } => {
                &&& self.shapes.contains_key(input)
                &&& self.shapes[input].0 * self.shapes[input].1 * self.shapes[input].2 == k
                &&& k * n <= usize::MAX
                &&& st.expect(bt, DType::Bf16, (k * n) as nat) is Ok
                &&& st.expect(b2, DType::F32, n as nat) is Ok
            },
        }
    }

    /// Every defined buffer is tileable.
    pub open spec fn wf(self) -> bool {
        forall|id: u32| #[trigger] self.shapes.contains_key(id) ==> tileable(self.shapes[id])
    }
}

/// The buffers after the steps `s`.
pub open spec fn buffers_after(s: Seq<StepView>) -> Buffers
    decreases s.len(),
{
    if s.len() == 0 {
        Buffers { shapes: Map::empty(), accs: Map::empty() }
    } else {
        buffers_after(s.drop_last()).after(s.last())
    }
}

/// Every step finds the buffers and tensors it reads.
pub open spec fn runnable(s: Seq<StepView>, st: StoreView) -> bool {
    forall|i: int| 0 <= i < s.len() ==> buffers_after(s.take(i)).allow(#[trigger] s[i], st)
}

proof fn after_wf(b: Buffers, s: StepView, st: StoreView)
    requires
        b.wf(),
        b.allow(s, st),
    ensures
        b.after(s).wf(),
{
    match s {
        StepView::Conv(cv) => {
            let (c, h, w, wp) = (cv.oc as int, cv.oh as int, cv.ow as int, cv.owp as int);
            assert(c * h * w <= c * h * wp) by (nonlinear_arith)
                requires
                    0 <= c,
                    0 <= h,
                    0 <= w <= wp,
            ;
        },
        StepView::Subsample { input, out, stride } => {
            let (c, h, w, s) = (
                b.shapes[input].0 as int,
                b.shapes[input].1 as int,
                b.shapes[input].2 as int,
                stride as int,
            );
            assert(0 <= h / s <= h && 0 <= w / s <= w) by (nonlinear_arith)
                requires
                    s >= 1,
                    h >= 0,
                    w >= 0,
            ;
            assert(c * (h / s) * (w / s) <= c * h * w) by (nonlinear_arith)
                requires
                    0 <= c,
                    0 <= h / s <= h,
                    0 <= w / s <= w,
            ;
        },
        _ => {},
    }
}

/// The buffers that runnable steps define are tileable.
pub proof fn runnable_buffers_wf(s: Seq<StepView>, st: StoreView, n: int)
    requires
        runnable(s, st),
        0 <= n <= s.len(),
    ensures
        buffers_after(s.take(n)).wf(),
    decreases n,
{
    if n > 0 {
        runnable_buffers_wf(s, st, n - 1);
        assert(s.take(n).drop_last() =~= s.take(n - 1));
        assert(s[n - 1] == s.take(n).last());
        after_wf(buffers_after(s.take(n - 1)), s[n - 1], st);
    }
}

// ----------------------------------------------------------------------------
// Reading a step
// ----------------------------------------------------------------------------

pub open spec fn shape_text(s: Shape) -> Seq<char> {
    "("@ + decimal(s.0 as nat) + ", "@ + decimal(s.1 as nat) + ", "@ + decimal(s.2 as nat) + ")"@
}

/// The buffer that field `key` of a step reads, and its shape.
pub open spec fn read_of(b: Buffers, r: RecordView, key: Seq<char>) -> Result<(u32, Shape), Seq<char>> {
    match r.get::<u32>(key) {
        Err(m) => Err(m),
        Ok(id) => if b.shapes.contains_key(id) {
            Ok((id, b.shapes[id]))
        } else {
            Err(r.at(key + "="@ + decimal(id as nat) + " is not a defined buffer here"@))
        },
    }
}

pub open spec fn dims_of(r: RecordView, c: Seq<char>) -> Result<Shape, Seq<char>> {
    match (r.get::<usize>(c), r.get::<usize>("h"@), r.get::<usize>("w"@)) {
        (Err(m), _, _) => Err(m),
        (_, Err(m), _) => Err(m),
        (_, _, Err(m)) => Err(m),
        (Ok(c), Ok(h), Ok(w)) => Ok((c, h, w)),
    }
}

/// The fault of a buffer of shape `got` where the step says `want`.
pub open spec fn shape_fault(r: RecordView, what: Seq<char>, got: Shape, want: Shape) -> Option<Seq<char>> {
    if got != want {
        Some(r.at(what + " is "@ + shape_text(got) + " (c, h, w), the step says "@ + shape_text(want)))
    } else {
        None
    }
}

/// The shape of the buffer that field `key` reads, which the step repeats.
pub open spec fn read_checked(
    b: Buffers,
    r: RecordView,
    key: Seq<char>,
    what: Seq<char>,
    c: Seq<char>,
) -> Result<(u32, Shape), Seq<char>> {
    match (read_of(b, r, key), dims_of(r, c)) {
        (Err(m), _) => Err(m),
        (_, Err(m)) => Err(m),
        (Ok(x), Ok(d)) => match shape_fault(r, what, x.1, d) {
            Some(m) => Err(m),
            None => Ok(x),
        },
    }
}

/// Tensor `key=<name>`, which must be `elems` x `dtype`.
pub open spec fn tensor_of(st: StoreView, r: RecordView, key: Seq<char>, dtype: DType, elems: nat) -> Result<
    Seq<char>,
    Seq<char>,
> {
    match r.str(key) {
        Err(m) => Err(m),
        Ok(name) => match st.expect(name, dtype, elems) {
            Err(m) => Err(r.at(m)),
            Ok(_) => Ok(name),
        },
    }
}

pub open spec fn input_of(st: StoreView, r: RecordView) -> Result<StepView, Seq<char>> {
    match dims_of(r, "c"@) {
        Err(m) => Err(m),
        Ok((c, h, w)) => if c == 0 || c % 8 != 0 || h == 0 || w == 0 {
            Err(r.at("c must be a positive multiple of 8, h and w positive"@))
        } else if c * h * w > usize::MAX {
            Err(r.at("sizes overflow"@))
        } else {
            match (tensor_of(st, r, "tensor"@, DType::Bf16, (c * h * w) as nat), r.get::<u32>("buf"@)) {
                (Err(m), _) => Err(m),
                (_, Err(m)) => Err(m),
                (Ok(tensor), Ok(buf)) => Ok(StepView::Input { buf, c, h, w, tensor }),
            }
        },
    }
}

/// The sizes a `conv` record gives, in the order it gives them: `c0`,
/// `icg`, `wp`, `oc`, `oh`, `ow`, `owp`.
pub open spec fn conv_sizes_of(r: RecordView) -> Result<
    (usize, usize, usize, usize, usize, usize, usize),
    Seq<char>,
> {
    match (
        r.get::<usize>("c0"@),
        r.get::<usize>("icg"@),
        r.get::<usize>("wp"@),
        r.get::<usize>("oc"@),
        r.get::<usize>("oh"@),
        r.get::<usize>("ow"@),
        r.get::<usize>("owp"@),
    ) {
        (Err(m), _, _, _, _, _, _) => Err(m),
        (_, Err(m), _, _, _, _, _) => Err(m),
        (_, _, Err(m), _, _, _, _) => Err(m),
        (_, _, _, Err(m), _, _, _) => Err(m),
        (_, _, _, _, Err(m), _, _) => Err(m),
        (_, _, _, _, _, Err(m), _) => Err(m),
        (_, _, _, _, _, _, Err(m)) => Err(m),
        (Ok(c0), Ok(icg), Ok(wp), Ok(oc), Ok(oh), Ok(ow), Ok(owp)) => Ok((c0, icg, wp, oc, oh, ow, owp)),
    }
}

/// The weight tensor of a `conv` record, of any size but bfloat16.
pub open spec fn weights_of(st: StoreView, r: RecordView) -> Result<Seq<char>, Seq<char>> {
    match r.str("wt"@) {
        Err(m) => Err(m),
        Ok(wt) => match st.entry(wt) {
            Err(m) => Err(r.at(m)),
            Ok(e) => if e.dtype != DType::Bf16 {
                Err(r.at("tensor "@ + wt + " is "@ + e.dtype.shown() + ", wanted Bf16"@))
            } else {
                Ok(wt)
            },
        },
    }
}

pub open spec fn conv_of(m: ManifestView, st: StoreView, b: Buffers, r: RecordView) -> Result<StepView, Seq<char>> {
    match (read_checked(b, r, "in"@, "the input"@, "ict"@), conv_sizes_of(r)) {
        (Err(e), _) => Err(e),
        (_, Err(e)) => Err(e),
        (Ok((input, s)), Ok((c0, icg, wp, oc, oh, ow, owp))) => if icg == 0 || icg % 8 != 0 || 8 * c0 + icg > s.0 || oc
            % 8 != 0 || wp < s.2 || owp < ow {
            Err(r.at("inconsistent channel group or padded widths"@))
        } else if icg * s.1 * wp > usize::MAX || oc * oh * owp > usize::MAX {
            Err(r.at("sizes overflow"@))
        } else {
            match r.str("ctx"@) {
                Err(e) => Err(e),
                Ok(ctx) => match (
                    m.xclbin(ctx),
                    weights_of(st, r),
                    r.get::<u32>("out"@),
                    r.flag("last"@),
                    r.str("insts"@),
                    r.flag("first"@),
                ) {
                    (Err(e), _, _, _, _, _) => Err(r.at(e)),
                    (_, Err(e), _, _, _, _) => Err(e),
                    (_, _, Err(e), _, _, _) => Err(e),
                    (_, _, _, Err(e), _, _) => Err(e),
                    (_, _, _, _, Err(e), _) => Err(e),
                    (_, _, _, _, _, Err(e)) => Err(e),
                    (Ok(x), Ok(wt), Ok(out), Ok(last), Ok(insts), Ok(first)) => if b.accs.contains_key(out) && oc * oh
                        * owp > b.accs[out] {
                        Err(r.at("the output is larger than its accumulator"@))
                    } else {
                        Ok(
                            StepView::Conv(
                                ConvView {
                                    input,
                                    out,
                                    c0,
                                    icg,
                                    wp,
                                    oc,
                                    oh,
                                    ow,
                                    owp,
                                    ctx: x.key,
                                    xclbin: x.path,
                                    kernel: x.kernel,
                                    insts: joined(m.dir, insts),
                                    wt,
                                    first,
                                    last,
                                },
                            ),
                        )
                    },
                },
            }
        },
    }
}

pub open spec fn affine_of(st: StoreView, b: Buffers, r: RecordView) -> Result<StepView, Seq<char>> {
    match read_checked(b, r, "in"@, "the input"@, "c"@) {
        Err(m) => Err(m),
        Ok((input, s)) => match (
            tensor_of(st, r, "scale"@, DType::Bf16, s.0 as nat),
            tensor_of(st, r, "shift"@, DType::Bf16, s.0 as nat),
            r.get::<u32>("out"@),
        ) {
            (Err(m), _, _) => Err(m),
            (_, Err(m), _) => Err(m),
            (_, _, Err(m)) => Err(m),
            (Ok(scale), Ok(shift), Ok(out)) => Ok(StepView::Affine { input, out, scale, shift }),
        },
    }
}

pub open spec fn prelu_of(st: StoreView, b: Buffers, r: RecordView) -> Result<StepView, Seq<char>> {
    match read_checked(b, r, "buf"@, "the buffer"@, "c"@) {
        Err(m) => Err(m),
        Ok((buf, s)) => match (
            tensor_of(st, r, "alpha"@, DType::Bf16, s.0 as nat),
            tensor_of(st, r, "bias"@, DType::Bf16, s.0 as nat),
        ) {
            (Err(m), _) => Err(m),
            (_, Err(m)) => Err(m),
            (Ok(alpha), Ok(bias)) => Ok(StepView::PreluBias { buf, alpha, bias }),
        },
    }
}

pub open spec fn bias_of(st: StoreView, b: Buffers, r: RecordView) -> Result<StepView, Seq<char>> {
    match read_checked(b, r, "buf"@, "the buffer"@, "c"@) {
        Err(m) => Err(m),
        Ok((buf, s)) => match tensor_of(st, r, "bias"@, DType::Bf16, s.0 as nat) {
            Err(m) => Err(m),
            Ok(bias) => Ok(StepView::Bias { buf, bias }),
        },
    }
}

pub open spec fn subsample_of(b: Buffers, r: RecordView) -> Result<StepView, Seq<char>> {
    match (read_checked(b, r, "in"@, "the input"@, "c"@), r.get::<usize>("stride"@)) {
        (Err(m), _) => Err(m),
        (_, Err(m)) => Err(m),
        (Ok((input, _)), Ok(stride)) => if stride == 0 {
            Err(r.at("stride must be positive"@))
        } else {
            match r.get::<u32>("out"@) {
                Err(m) => Err(m),
                Ok(out) => Ok(StepView::Subsample { input, out, stride }),
            }
        },
    }
}

pub open spec fn add_of(b: Buffers, r: RecordView) -> Result<StepView, Seq<char>> {
    match (read_of(b, r, "a"@), read_of(b, r, "b"@), dims_of(r, "c"@)) {
        (Err(m), _, _) => Err(m),
        (_, Err(m), _) => Err(m),
        (_, _, Err(m)) => Err(m),
        (Ok((a, sa)), Ok((bb, sb)), Ok(d)) => match (shape_fault(r, "a"@, sa, d), shape_fault(r, "b"@, sb, d)) {
            (Some(m), _) => Err(m),
            (_, Some(m)) => Err(m),
            (None, None) => match r.get::<u32>("out"@) {
                Err(m) => Err(m),
                Ok(out) => Ok(StepView::Add { a, b: bb, out }),
            },
        },
    }
}

pub open spec fn head_of(st: StoreView, b: Buffers, r: RecordView) -> Result<StepView, Seq<char>> {
    match (read_checked(b, r, "in"@, "the input"@, "c"@), r.get::<usize>("k"@), r.get::<usize>("n"@)) {
        (Err(m), _, _) => Err(m),
        (_, Err(m), _) => Err(m),
        (_, _, Err(m)) => Err(m),
        (Ok((input, s)), Ok(k), Ok(n)) => if s.0 * s.1 * s.2 != k {
            Err(r.at("k="@ + decimal(k as nat) + " is not the input's c * h * w"@))
        } else if k * n > usize::MAX {
            Err(r.at("sizes overflow"@))
        } else {
            match (
                tensor_of(st, r, "bT"@, DType::Bf16, (k * n) as nat),
                tensor_of(st, r, "b2"@, DType::F32, n as nat),
            ) {
                (Err(m), _) => Err(m),
                (_, Err(m)) => Err(m),
                (Ok(bt), Ok(b2)) => Ok(StepView::Head { input, k, n, bt, b2 }),
            }
        },
    }
}

/// The step that record `r` is, where the steps before it leave `b`.
pub open spec fn step_of(m: ManifestView, st: StoreView, b: Buffers, r: RecordView) -> Result<StepView, Seq<char>> {
    if r.tag == "input"@ {
        input_of(st, r)
    } else if r.tag == "conv"@ {
        conv_of(m, st, b, r)
    } else if r.tag == "affine"@ {
        affine_of(st, b, r)
    } else if r.tag == "prelu_bias"@ {
        prelu_of(st, b, r)
    } else if r.tag == "bias"@ {
        bias_of(st, b, r)
    } else if r.tag == "subsample"@ {
        subsample_of(b, r)
    } else if r.tag == "add"@ {
        add_of(b, r)
    } else if r.tag == "head"@ {
        head_of(st, b, r)
    } else {
        Err(r.at("unknown step "@ + r.tag))
    }
}

/// The steps that the records `rs` are.
pub open spec fn steps_of(m: ManifestView, st: StoreView, rs: Seq<RecordView>) -> Result<Seq<StepView>, Seq<char>>
    decreases rs.len(),
{
    if rs.len() == 0 {
        Ok(seq![])
    } else {
        match steps_of(m, st, rs.drop_last()) {
            Err(e) => Err(e),
            Ok(s) => match step_of(m, st, buffers_after(s), rs.last()) {
                Err(e) => Err(e),
                Ok(x) => Ok(s.push(x)),
            },
        }
    }
}

proof fn steps_error(m: ManifestView, st: StoreView, rs: Seq<RecordView>, n: int)
    requires
        0 <= n <= rs.len(),
        steps_of(m, st, rs.take(n)) is Err,
    ensures
        steps_of(m, st, rs) == steps_of(m, st, rs.take(n)),
    decreases rs.len() - n,
{
    if n < rs.len() {
        assert(rs.take(n + 1).drop_last() =~= rs.take(n));
        steps_error(m, st, rs, n + 1);
    } else {
        assert(rs.take(n) =~= rs);
    }
}

proof fn step_allowed(m: ManifestView, st: StoreView, b: Buffers, r: RecordView)
    requires
        step_of(m, st, b, r) is Ok,
    ensures
        b.allow(step_of(m, st, b, r)->Ok_0, st),
{
}

/// Steps that were read find, when they run, every buffer and tensor they
/// name, with the shape they need.
pub proof fn parsed_steps_run(m: ManifestView, st: StoreView, rs: Seq<RecordView>)
    requires
        steps_of(m, st, rs) is Ok,
    ensures
        runnable(steps_of(m, st, rs)->Ok_0, st),
        steps_of(m, st, rs)->Ok_0.len() == rs.len(),
    decreases rs.len(),
{
    if rs.len() > 0 {
        parsed_steps_run(m, st, rs.drop_last());
        let s = steps_of(m, st, rs.drop_last())->Ok_0;
        let t = steps_of(m, st, rs)->Ok_0;
        step_allowed(m, st, buffers_after(s), rs.last());
        assert forall|i: int| 0 <= i < t.len() implies buffers_after(t.take(i)).allow(#[trigger] t[i], st) by {
            if i < s.len() {
                assert(t.take(i) =~= s.take(i));
                assert(t[i] == s[i]);
            } else {
                assert(t.take(i) =~= s);
            }
        }
    }
}

pub open spec fn step_views(s: Seq<Step>) -> Seq<StepView> {
    s.map_values(|x: Step| x@)
}

/// The buffers the steps read so far leave.
struct Scope {
    shapes: HashMap<u32, Shape>,
    accs: HashMap<u32, usize>,
}

impl Scope {
    spec fn is(&self, b: Buffers) -> bool {
        &&& self.shapes@ == b.shapes
        &&& b.accs == self.accs@.map_values(|n: usize| n as nat)
    }

    fn read(&self, r: &Record, key: &str, Ghost(b): Ghost<Buffers>) -> (res: Result<(u32, Shape), Error>)
        requires
            self.is(b),
        ensures
            gives(res, read_of(b, r@, key@)),
    {
        let id: u32 = r.get::<u32>(key)?;
        match self.shapes.get(&id) {
            Some(s) => Ok((id, *s)),
            None => {
                let n = decimal_of(id as u128);
                Err(r.error(cat2(key, "=").concat(n.as_str()).concat(" is not a defined buffer here").as_str()))
            },
        }
    }

    fn read_checked(
        &self,
        r: &Record,
        key: &str,
        what: &str,
        c: &str,
        Ghost(b): Ghost<Buffers>,
    ) -> (res: Result<(u32, Shape), Error>)
        requires
            self.is(b),
        ensures
            gives(res, read_checked(b, r@, key@, what@, c@)),
    {
        let x = self.read(r, key, Ghost(b))?;
        let d = dims(r, c)?;
        same_shape(r, what, x.1, d)?;
        Ok(x)
    }
}

fn dims(r: &Record, c: &str) -> (res: Result<Shape, Error>)
    ensures
        gives(res, dims_of(r@, c@)),
{
    Ok((r.get::<usize>(c)?, r.get::<usize>("h")?, r.get::<usize>("w")?))
}

fn show_shape(s: Shape) -> (r: String)
    ensures
        r@ == shape_text(s),
{
    let a = decimal_of(s.0 as u128);
    let b = decimal_of(s.1 as u128);
    let c = decimal_of(s.2 as u128);
    cat7("(", a.as_str(), ", ", b.as_str(), ", ", c.as_str(), ")")
}

fn same_shape(r: &Record, what: &str, got: Shape, want: Shape) -> (res: Result<(), Error>)
    ensures
        match (res, shape_fault(r@, what@, got, want)) {
            (Ok(_), None) => true,
            (Err(e), Some(m)) => says(e, m),
            _ => false,
        },
{
    if got.0 != want.0 || got.1 != want.1 || got.2 != want.2 {
        let a = show_shape(got);
        let b = show_shape(want);
        return Err(r.error(cat5(what, " is ", a.as_str(), " (c, h, w), the step says ", b.as_str()).as_str()));
    }
    Ok(())
}

fn tensor(store: &Store, r: &Record, key: &str, dtype: DType, elems: usize) -> (res: Result<String, Error>)
    ensures
        shows(res, tensor_of(store@, r@, key@, dtype, elems as nat)),
{
    let name = r.str(key)?;
    match store.expect(name.as_str(), dtype, elems) {
        Ok(_) => Ok(name),
        Err(e) => Err(r.error(e.message().as_str())),
    }
}

fn read_input(store: &Store, r: &Record) -> (res: Result<Step, Error>)
    ensures
        shows(res, input_of(store@, r@)),
{
    let (c, h, w) = dims(r, "c")?;
    if c == 0 || c % 8 != 0 || h == 0 || w == 0 {
        return Err(r.error("c must be a positive multiple of 8, h and w positive"));
    }
    let n: usize = match mul3(c, h, w) {
        Some(n) => n,
        None => return Err(r.error("sizes overflow")),
    };
    let tensor = tensor(store, r, "tensor", DType::Bf16, n)?;
    let buf: u32 = r.get::<u32>("buf")?;
    Ok(Step::Input { buf, c, h, w, tensor })
}

fn read_weights(store: &Store, r: &Record) -> (res: Result<String, Error>)
    ensures
        shows(res, weights_of(store@, r@)),
{
    let wt = r.str("wt")?;
    let dtype = match store.entry(wt.as_str()) {
        Ok(e) => e.dtype,
        Err(e) => return Err(r.error(e.message().as_str())),
    };
    if dtype != DType::Bf16 {
        return Err(r.error(cat5("tensor ", wt.as_str(), " is ", dtype.label(), ", wanted Bf16").as_str()));
    }
    Ok(wt)
}

fn read_conv(m: &Manifest, store: &Store, sc: &Scope, r: &Record, Ghost(b): Ghost<Buffers>) -> (res: Result<
    Step,
    Error,
>)
    requires
        sc.is(b),
    ensures
        shows(res, conv_of(m@, store@, b, r@)),
{
    let (input, s) = sc.read_checked(r, "in", "the input", "ict", Ghost(b))?;
    let (c0, icg, wp) = (r.get::<usize>("c0")?, r.get::<usize>("icg")?, r.get::<usize>("wp")?);
    let (oc, oh, ow, owp) = (
        r.get::<usize>("oc")?,
        r.get::<usize>("oh")?,
        r.get::<usize>("ow")?,
        r.get::<usize>("owp")?,
    );
    if icg == 0 || icg % 8 != 0 || 8 * (c0 as u128) + icg as u128 > s.0 as u128 || oc % 8 != 0 || wp < s.2 || owp < ow {
        return Err(r.error("inconsistent channel group or padded widths"));
    }
    let need: usize = match (mul3(icg, s.1, wp), mul3(oc, oh, owp)) {
        (Some(_), Some(n)) => n,
        _ => return Err(r.error("sizes overflow")),
    };
    let ctx = r.str("ctx")?;
    let x = match m.xclbin(ctx.as_str()) {
        Ok(x) => x,
        Err(e) => return Err(r.error(e.message().as_str())),
    };
    let wt = read_weights(store, r)?;
    let out: u32 = r.get::<u32>("out")?;
    let last = r.flag("last")?;
    let insts = m.path(r.str("insts")?.as_str());
    let first = r.flag("first")?;
    if let Some(have) = sc.accs.get(&out) {
        if need > *have {
            return Err(r.error("the output is larger than its accumulator"));
        }
    }
    Ok(
        Step::Conv(
            Conv {
                input,
                out,
                c0,
                icg,
                wp,
                oc,
                oh,
                ow,
                owp,
                ctx: x.key.clone(),
                xclbin: x.path.clone(),
                kernel: x.kernel.clone(),
                insts,
                wt,
                first,
                last,
            },
        ),
    )
}

fn read_affine(store: &Store, sc: &Scope, r: &Record, Ghost(b): Ghost<Buffers>) -> (res: Result<Step, Error>)
    requires
        sc.is(b),
    ensures
        shows(res, affine_of(store@, b, r@)),
{
    let (input, s) = sc.read_checked(r, "in", "the input", "c", Ghost(b))?;
    let scale = tensor(store, r, "scale", DType::Bf16, s.0)?;
    let shift = tensor(store, r, "shift", DType::Bf16, s.0)?;
    let out: u32 = r.get::<u32>("out")?;
    Ok(Step::Affine { input, out, scale, shift })
}

fn read_prelu(store: &Store, sc: &Scope, r: &Record, Ghost(b): Ghost<Buffers>) -> (res: Result<Step, Error>)
    requires
        sc.is(b),
    ensures
        shows(res, prelu_of(store@, b, r@)),
{
    let (buf, s) = sc.read_checked(r, "buf", "the buffer", "c", Ghost(b))?;
    let alpha = tensor(store, r, "alpha", DType::Bf16, s.0)?;
    let bias = tensor(store, r, "bias", DType::Bf16, s.0)?;
    Ok(Step::PreluBias { buf, alpha, bias })
}

fn read_bias(store: &Store, sc: &Scope, r: &Record, Ghost(b): Ghost<Buffers>) -> (res: Result<Step, Error>)
    requires
        sc.is(b),
    ensures
        shows(res, bias_of(store@, b, r@)),
{
    let (buf, s) = sc.read_checked(r, "buf", "the buffer", "c", Ghost(b))?;
    let bias = tensor(store, r, "bias", DType::Bf16, s.0)?;
    Ok(Step::Bias { buf, bias })
}

fn read_subsample(sc: &Scope, r: &Record, Ghost(b): Ghost<Buffers>) -> (res: Result<Step, Error>)
    requires
        sc.is(b),
    ensures
        shows(res, subsample_of(b, r@)),
{
    let (input, _) = sc.read_checked(r, "in", "the input", "c", Ghost(b))?;
    let stride: usize = r.get::<usize>("stride")?;
    if stride == 0 {
        return Err(r.error("stride must be positive"));
    }
    let out: u32 = r.get::<u32>("out")?;
    Ok(Step::Subsample { input, out, stride })
}

fn read_add(sc: &Scope, r: &Record, Ghost(b): Ghost<Buffers>) -> (res: Result<Step, Error>)
    requires
        sc.is(b),
    ensures
        shows(res, add_of(b, r@)),
{
    let (a, sa) = sc.read(r, "a", Ghost(b))?;
    let (bb, sb) = sc.read(r, "b", Ghost(b))?;
    let d = dims(r, "c")?;
    same_shape(r, "a", sa, d)?;
    same_shape(r, "b", sb, d)?;
    let out: u32 = r.get::<u32>("out")?;
    Ok(Step::Add { a, b: bb, out })
}

fn read_head(store: &Store, sc: &Scope, r: &Record, Ghost(b): Ghost<Buffers>) -> (res: Result<Step, Error>)
    requires
        sc.is(b),
    ensures
        shows(res, head_of(store@, b, r@)),
{
    let (input, s) = sc.read_checked(r, "in", "the input", "c", Ghost(b))?;
    let (k, n) = (r.get::<usize>("k")?, r.get::<usize>("n")?);
    if mul3(s.0, s.1, s.2) != Some(k) {
        let d = decimal_of(k as u128);
        return Err(r.error(cat3("k=", d.as_str(), " is not the input's c * h * w").as_str()));
    }
    let kn: usize = match mul2(k, n) {
        Some(v) => v,
        None => return Err(r.error("sizes overflow")),
    };
    let bt = tensor(store, r, "bT", DType::Bf16, kn)?;
    let b2 = tensor(store, r, "b2", DType::F32, n)?;
    Ok(Step::Head { input, k, n, bt, b2 })
}

fn read_step(m: &Manifest, store: &Store, sc: &Scope, r: &Record, Ghost(b): Ghost<Buffers>) -> (res: Result<
    Step,
    Error,
>)
    requires
        sc.is(b),
    ensures
        shows(res, step_of(m@, store@, b, r@)),
{
    let tag = r.tag.as_str();
    if same(tag, "input") {
        read_input(store, r)
    } else if same(tag, "conv") {
        read_conv(m, store, sc, r, Ghost(b))
    } else if same(tag, "affine") {
        read_affine(store, sc, r, Ghost(b))
    } else if same(tag, "prelu_bias") {
        read_prelu(store, sc, r, Ghost(b))
    } else if same(tag, "bias") {
        read_bias(store, sc, r, Ghost(b))
    } else if same(tag, "subsample") {
        read_subsample(sc, r, Ghost(b))
    } else if same(tag, "add") {
        read_add(sc, r, Ghost(b))
    } else if same(tag, "head") {
        read_head(store, sc, r, Ghost(b))
    } else {
        Err(r.error(cat2("unknown step ", tag).as_str()))
    }
}

impl Scope {
    /// Notes what step `s` defines.
    fn note(&mut self, s: &Step, Ghost(b): Ghost<Buffers>, Ghost(st): Ghost<StoreView>)
        requires
            old(self).is(b),
            b.allow(s@, st),
        ensures
            final(self).is(b.after(s@)),
    {
        match s {
            Step::Input { buf, c, h, w, .. } => {
                self.shapes.insert(*buf, (*c, *h, *w));
            },
            Step::Conv(cv) => {
                if cv.last {
                    self.shapes.insert(cv.out, (cv.oc, cv.oh, cv.ow));
                }
                if !self.accs.contains_key(&cv.out) {
                    let n: usize = match mul3(cv.oc, cv.oh, cv.owp) {
                        Some(n) => n,
                        None => 0,
                    };
                    self.accs.insert(cv.out, n);
                    proof {
                        assert(b.after(s@).accs =~= self.accs@.map_values(|n: usize| n as nat));
                    }
                }
            },
            Step::Affine { input, out, .. } => {
                if let Some(d) = self.shapes.get(input) {
                    let d = *d;
                    self.shapes.insert(*out, d);
                }
            },
            Step::Subsample { input, out, stride } => {
                if let Some(d) = self.shapes.get(input) {
                    let d = *d;
                    self.shapes.insert(*out, (d.0, d.1 / *stride, d.2 / *stride));
                }
            },
            Step::Add { a, out, .. } => {
                if let Some(d) = self.shapes.get(a) {
                    let d = *d;
                    self.shapes.insert(*out, d);
                }
            },
            _ => {},
        }
    }
}

/// Reads the manifest's steps, checking each against the buffers the steps
/// before it define and against the tensors.
pub fn parse_steps(m: &Manifest, store: &Store) -> (res: Result<Vec<Step>, Error>)
    ensures
        match (res, steps_of(m@, store@, m@.records)) {
            (Ok(v), Ok(s)) => step_views(v@) == s,
            (Err(e), Err(msg)) => says(e, msg),
            _ => false,
        },
        res matches Ok(v) ==> runnable(step_views(v@), store@),
{
    let rs = m.records();
    let ghost all = m@.records;
    let mut sc = Scope { shapes: HashMap::new(), accs: HashMap::new() };
    let mut out: Vec<Step> = Vec::new();
    let mut i: usize = 0;
    proof {
        assert(all.take(0) =~= seq![]);
        assert(step_views(out@) =~= seq![]);
        assert(buffers_after(seq![]).accs =~= sc.accs@.map_values(|n: usize| n as nat));
    }
    while i < rs.len()
        invariant
            i <= rs.len(),
            all == m@.records,
            record_views(rs@) == all,
            steps_of(m@, store@, all.take(i as int)) == Ok::<Seq<StepView>, Seq<char>>(step_views(out@)),
            sc.is(buffers_after(step_views(out@))),
        decreases rs.len() - i,
    {
        let ghost b = buffers_after(step_views(out@));
        proof {
            assert(all.take(i + 1).drop_last() =~= all.take(i as int));
            assert(all.take(i + 1).last() == rs@[i as int]@);
            if steps_of(m@, store@, all.take(i + 1)) is Err {
                steps_error(m@, store@, all, i + 1);
            }
        }
        let s = match read_step(m, store, &sc, &rs[i], Ghost(b)) {
            Ok(s) => s,
            Err(e) => return Err(e),
        };
        proof {
            step_allowed(m@, store@, b, rs@[i as int]@);
            assert(step_views(out@.push(s)) =~= step_views(out@).push(s@));
            assert(step_views(out@).push(s@).drop_last() =~= step_views(out@));
        }
        sc.note(&s, Ghost(b), Ghost(store@));
        out.push(s);
        i += 1;
    }
    proof {
        assert(all.take(i as int) =~= all);
        parsed_steps_run(m@, store@, all);
    }
    Ok(out)
}

} // verus!
