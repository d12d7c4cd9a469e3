//! The host's side of SAM 3, as programs: what each stage computes, step by
//! step, over named registers. A step is a linear layer, a norm, a layout
//! change or a kernel launch; whoever runs a program supplies those, and the
//! program says which, on what, and with which tensors of the bundle.

use vstd::prelude::*;

verus! {

/// A register: a value a program keeps between steps.
#[derive(Debug, Clone, Copy, PartialEq, Eq, Structural, Hash)]
pub enum Reg {
    Xt,
    Ht,
    QkvT,
    Ot,
    Ft,
    Ids,
    Yt,
    Feats,
    Pixels,
    Patches,
    Emb,
    X,
    Pos,
    WinCos,
    WinSin,
    GlobCos,
    GlobSin,
    H,
    A,
    QkvV,
    Qv,
    Kv,
    Vv,
    Ov,
    C,
    Mid,
    Vit,
    Y,
    A0,
    U1,
    U2,
    Up,
    U0,
    Cr,
    Cc,
    Cu,
    F0,
    F1,
    F2,
    Kd,
    Vd,
    Bs,
    Bb,
    Bc,
    Bo,
    SlotS,
    SlotC,
    Valid,
    S,
    P,
    Xd,
    Hp,
    QkvD,
    Qm,
    Km,
    Vm,
    Om,
    Enc,
    KvD,
    Ref,
    Tok,
    Hs,
    LayerBoxes,
    LayerPresence,
    Sine,
    Qp,
    Qpos,
    Edges,
    Ry,
    Rx,
    By,
    Bx,
    Qk,
    Qd,
    At,
    Oa,
    Vb,
    Vh,
    Kb,
    Kt,
    Fd,
    Hq,
    Normed,
    Delta,
    Presence,
    Boxes,
    T,
    Logits,
    Px,
    M,
    SlotH,
    Out,
    Mb,
    Masks,
    Sb,
    Semantic,
}

/// The epsilon of a norm: the text encoder's, the backbone's, or the common one.
#[derive(Debug, Clone, Copy, PartialEq, Eq, Structural)]
pub enum Eps {
    Text,
    Vit,
    Default,
}

/// A kernel of the bundle.
#[derive(Debug, Clone, Copy, PartialEq, Eq, Structural)]
pub enum Kernel {
    VEmbed,
    VQkv,
    VO,
    VFc1,
    VFc2,
    MhaWin,
    MhaGlob,
    NIn,
    NUp,
    Conv,
    DQkv,
    DO,
    DS,
    DC,
    DFc1,
    DFc2,
    MhaD,
    DecKv,
    MHead,
}

impl Kernel {
    /// The manifest's key for it.
    pub open spec fn named(self) -> Seq<char> {
        match self {
            Kernel::VEmbed => "v_embed"@,
            Kernel::VQkv => "v_qkv"@,
            Kernel::VO => "v_o"@,
            Kernel::VFc1 => "v_fc1"@,
            Kernel::VFc2 => "v_fc2"@,
            Kernel::MhaWin => "mha_win"@,
            Kernel::MhaGlob => "mha_glob"@,
            Kernel::NIn => "n_in"@,
            Kernel::NUp => "n_up"@,
            Kernel::Conv => "conv"@,
            Kernel::DQkv => "d_qkv"@,
            Kernel::DO => "d_o"@,
            Kernel::DS => "d_s"@,
            Kernel::DC => "d_c"@,
            Kernel::DFc1 => "d_fc1"@,
            Kernel::DFc2 => "d_fc2"@,
            Kernel::MhaD => "mha_d"@,
            Kernel::DecKv => "dec_kv"@,
            Kernel::MHead => "m_head"@,
        }
    }

    pub fn key(self) -> (r: &'static str)
        ensures
            r@ == self.named(),
    {
        match self {
            Kernel::VEmbed => "v_embed",
            Kernel::VQkv => "v_qkv",
            Kernel::VO => "v_o",
            Kernel::VFc1 => "v_fc1",
            Kernel::VFc2 => "v_fc2",
            Kernel::MhaWin => "mha_win",
            Kernel::MhaGlob => "mha_glob",
            Kernel::NIn => "n_in",
            Kernel::NUp => "n_up",
            Kernel::Conv => "conv",
            Kernel::DQkv => "d_qkv",
            Kernel::DO => "d_o",
            Kernel::DS => "d_s",
            Kernel::DC => "d_c",
            Kernel::DFc1 => "d_fc1",
            Kernel::DFc2 => "d_fc2",
            Kernel::MhaD => "mha_d",
            Kernel::DecKv => "dec_kv",
            Kernel::MHead => "m_head",
        }
    }
}

/// What one step computes.
#[derive(Debug, Clone, Copy, PartialEq, Eq, Structural)]
pub enum Op {
    /// The store's tensor of that name.
    Tensor { rows: usize, cols: usize },
    /// Zeros.
    Zeros { rows: usize, cols: usize },
    /// The image's patches in window order, rounded, padded to the kernel's width.
    Patches { tokens: usize, width: usize },
    /// The token embeddings of the prompt (`.tok_emb`) plus their positions (`.pos_emb`).
    Embed { rows: usize, cols: usize },
    /// `x W^T + b`; `W` in half precision if `half`, `b` where there is one.
    Linear { n_in: usize, n_out: usize, half: bool },
    /// `layers` linear layers with ReLUs between them.
    Mlp { n_in: usize, n_out: usize, layers: usize },
    /// LayerNorm of every row.
    LayerNorm { dim: usize, eps: Eps },
    /// LayerNorm of every row, without weights.
    Standardize { dim: usize, eps: Eps },
    /// GroupNorm over all pixels, and a ReLU.
    GroupNormRelu { dim: usize, groups: usize },
    /// Negative values to zero.
    Relu,
    /// GELU.
    Gelu,
    /// GELU in half precision.
    GeluHalves,
    /// The logistic function.
    Sigmoid,
    /// The same values.
    Copy,
    /// Element by element.
    Add,
    /// The bias of that name added to every row.
    AddBias { dim: usize },
    /// `x + (y + bias)`, `y` in half precision; the bias of that name if `bias`.
    Residual { dim: usize, bias: bool },
    /// Rounded to half precision.
    Narrow,
    /// To single precision, exactly.
    Widen,
    /// One above the other.
    Stack,
    /// Side by side, rounded to half precision.
    Beside { dim: usize, both: usize },
    /// The first rows.
    FirstRows { rows: usize },
    /// All but the first rows.
    SkipRows { rows: usize },
    /// Zero rows below.
    PadRows { rows: usize },
    /// `n` columns from `off`.
    Columns { width: usize, off: usize, n: usize },
    /// The 2x2 taps at `off` spread over a grid twice as fine.
    Shuffle { h: usize, width: usize, off: usize, c: usize },
    /// Nearest upsampling by two plus a skip, rounded to half precision.
    Upsample { side: usize, cols: usize },
    /// Part `part` of q, k and v, rotated by its position, head by head.
    Rotate { part: usize, global: bool, heads: usize, hd: usize, dim: usize },
    /// Part `part` of q, k and v, head by head.
    SplitHeads { part: usize, global: bool, heads: usize, hd: usize, dim: usize },
    /// What the heads attended to, token by token.
    MergeHeads { global: bool, heads: usize, hd: usize, dim: usize },
    /// Tokens from window order to raster order.
    ToRaster,
    /// Attention of the rows' q, k and v, side by side.
    SelfAttend { heads: usize, dim: usize, causal: bool },
    /// Attention.
    Attend { heads: usize, dim: usize },
    /// Attention to the valid keys.
    AttendValid { heads: usize, dim: usize },
    /// Attention over the grid with a bias for each of its rows and columns.
    AttendGrid { heads: usize, hd: usize, dim: usize, grid: usize, queries: usize },
    /// Columns from `off` split by head.
    ByHead { tokens: usize, heads: usize, hd: usize, width: usize, off: usize },
    /// Columns from `off` transposed.
    Planes { rows: usize, width: usize, off: usize, planes: usize },
    /// Sines and cosines of the boxes' centres and sizes.
    BoxSine { cols: usize },
    /// The log distances of every grid row (`down`) or column to a box's two edges.
    EdgeDistances { down: bool, grid: usize },
    /// A bias for each box and grid position, by head, with a zero row before the boxes.
    BiasByHead { heads: usize, boxes: usize, queries: usize, grid: usize },
    /// Boxes moved by a correction of their logits.
    Refine,
    /// Boxes from centre and size to corners.
    Corners,
    /// Values clamped to plus or minus `bound`.
    Clamp { bound: usize },
    /// The mean of the valid rows.
    MeanValid,
    /// Every row's dot product with one row, over the root of their length, clamped.
    ScaledDot { dim: usize, bound: usize },
    /// Query weights folded with the prompt's keys.
    FoldScores { dim: usize, heads: usize, len: usize },
    /// The query bias folded with the prompt's keys.
    FoldScoreBias { dim: usize, heads: usize, len: usize },
    /// The prompt's values folded with the output weights.
    FoldValues { dim: usize, heads: usize, len: usize },
    /// The instance head (`.inst.w`) folded with the mask embeddings, the semantic head (`.sem.w`) in the column
    /// after them.
    FoldHead { dim: usize, n: usize },
    /// Their biases (`.inst.b`, `.sem.b`).
    FoldHeadBias { dim: usize, n: usize },
    /// Weights and bias packed for a kernel into the slot of that name.
    Pack { kernel: Kernel },
    /// Softmax over the valid tokens, head by head, in half precision.
    SoftmaxValid { heads: usize, len: usize },
    /// A kernel run on rows the host wrote, with the weights of that name; its result read back.
    Gemm { kernel: Kernel, rows: usize, k: usize, n: usize },
    /// The same with weights packed into a slot.
    GemmSlot { kernel: Kernel, rows: usize },
    /// The same, its result left on the device.
    GemmStay { kernel: Kernel, rows: usize, k: usize },
    /// A kernel run on what another left on the device.
    GemmOn { kernel: Kernel, rows: usize, n: usize },
    /// The attention kernel on q, k and v.
    Mha { kernel: Kernel },
    /// Every pixel next to the two below it, on a zero-bordered image.
    ConvRows { side: usize, c: usize, d: usize },
    /// The 3x3 convolution of such rows.
    ConvGemm { side: usize, d: usize, oc: usize },
    /// The convolution's rows without the border.
    DropBorder { side: usize, oc: usize },
}

/// One step: `to` becomes what `op` computes of `from`, with the
/// tensors, weights or slot under `name` where it takes any.
#[derive(Debug, Clone)]
pub struct Step {
    pub op: Op,
    pub name: String,
    pub from: Vec<Reg>,
    pub to: Reg,
}

#[verifier::ext_equal]
pub struct StepView {
    pub op: Op,
    pub name: Seq<char>,
    pub from: Seq<Reg>,
    pub to: Reg,
}

impl View for Step {
    type V = StepView;

    open spec fn view(&self) -> StepView {
        StepView { op: self.op, name: self.name@, from: self.from@, to: self.to }
    }
}

pub open spec fn views(v: Seq<Step>) -> Seq<StepView> {
    v.map_values(|s: Step| s@)
}

pub(crate) fn put(out: &mut Vec<Step>, op: Op, name: String, from: Vec<Reg>, to: Reg)
    ensures
        views(final(out)@) == views(old(out)@).push(StepView { op, name: name@, from: from@, to }),
{
    let ghost was = out@;
    let s = Step { op, name, from, to };
    out.push(s);
    proof {
        assert(views(out@) =~= views(was).push(s@));
    }
}

pub(crate) fn none() -> (r: Vec<Reg>)
    ensures
        r@ == Seq::<Reg>::empty(),
{
    Vec::new()
}

pub(crate) fn one(a: Reg) -> (r: Vec<Reg>)
    ensures
        r@ == seq![a],
{
    let mut v: Vec<Reg> = Vec::new();
    v.push(a);
    v
}

pub(crate) fn two(a: Reg, b: Reg) -> (r: Vec<Reg>)
    ensures
        r@ == seq![a, b],
{
    let mut v: Vec<Reg> = Vec::new();
    v.push(a);
    v.push(b);
    v
}

pub(crate) fn three(a: Reg, b: Reg, c: Reg) -> (r: Vec<Reg>)
    ensures
        r@ == seq![a, b, c],
{
    let mut v: Vec<Reg> = Vec::new();
    v.push(a);
    v.push(b);
    v.push(c);
    v
}

pub(crate) fn four(a: Reg, b: Reg, c: Reg, d: Reg) -> (r: Vec<Reg>)
    ensures
        r@ == seq![a, b, c, d],
{
    let mut v: Vec<Reg> = Vec::new();
    v.push(a);
    v.push(b);
    v.push(c);
    v.push(d);
    v
}

pub(crate) fn five(a: Reg, b: Reg, c: Reg, d: Reg, e: Reg) -> (r: Vec<Reg>)
    ensures
        r@ == seq![a, b, c, d, e],
{
    let mut v: Vec<Reg> = Vec::new();
    v.push(a);
    v.push(b);
    v.push(c);
    v.push(d);
    v.push(e);
    v
}

// ---------------------------------------------------------------------------
// Shapes.

/// What a register holds, without its values.
#[verifier::ext_equal]
pub enum Shape {
    /// Single precision, rows by columns.
    Reals(nat, nat),
    /// Half precision, rows by columns.
    Halves(nat, nat),
    /// Weights packed for a kernel, inputs by outputs.
    Packed(nat, nat),
    /// Rows left on the device.
    Resident(nat),
    Flags(nat),
    Ids(nat),
    Pixels,
}

/// Operand `k` of a step.
pub open spec fn at(e: Map<Reg, Shape>, from: Seq<Reg>, k: int) -> Option<Shape> {
    if k < from.len() && e.contains_key(from[k]) {
        Some(e[from[k]])
    } else {
        None
    }
}

/// The shape of a step's result, if its operands have shapes it takes.
pub open spec fn result(op: Op, from: Seq<Reg>, e: Map<Reg, Shape>) -> Option<Shape> {
    match op {
        Op::Tensor { rows, cols } => Some(Shape::Reals(rows as nat, cols as nat)),
        Op::Zeros { rows, cols } => Some(Shape::Reals(rows as nat, cols as nat)),
        Op::Patches { tokens, width } => match at(e, from, 0) {
            Some(Shape::Pixels) => Some(Shape::Halves(tokens as nat, width as nat)),
            _ => None,
        },
        Op::Embed { rows, cols } => match at(e, from, 0) {
            Some(Shape::Ids(n)) if n == rows => Some(Shape::Reals(rows as nat, cols as nat)),
            _ => None,
        },
        Op::Linear { n_in, n_out, .. } => match at(e, from, 0) {
            Some(Shape::Reals(r, c)) if c == n_in => Some(Shape::Reals(r, n_out as nat)),
            _ => None,
        },
        Op::Mlp { n_in, n_out, .. } => match at(e, from, 0) {
            Some(Shape::Reals(r, c)) if c == n_in => Some(Shape::Reals(r, n_out as nat)),
            _ => None,
        },
        Op::LayerNorm { dim, .. } => match at(e, from, 0) {
            Some(Shape::Reals(r, c)) if c == dim => Some(Shape::Reals(r, c)),
            _ => None,
        },
        Op::Standardize { dim, .. } => match at(e, from, 0) {
            Some(Shape::Reals(r, c)) if c == dim => Some(Shape::Reals(r, c)),
            _ => None,
        },
        Op::GroupNormRelu { dim, groups } => match at(e, from, 0) {
            Some(Shape::Reals(r, c)) if c == dim && groups > 0 && dim % groups == 0 => Some(Shape::Reals(r, c)),
            _ => None,
        },
        Op::Relu => match at(e, from, 0) {
            Some(Shape::Reals(r, c)) => Some(Shape::Reals(r, c)),
            _ => None,
        },
        Op::Gelu => match at(e, from, 0) {
            Some(Shape::Reals(r, c)) => Some(Shape::Reals(r, c)),
            _ => None,
        },
        Op::GeluHalves => match at(e, from, 0) {
            Some(Shape::Halves(r, c)) => Some(Shape::Halves(r, c)),
            _ => None,
        },
        Op::Sigmoid => match at(e, from, 0) {
            Some(Shape::Reals(r, c)) => Some(Shape::Reals(r, c)),
            _ => None,
        },
        Op::Copy => match at(e, from, 0) {
            Some(Shape::Reals(r, c)) => Some(Shape::Reals(r, c)),
            _ => None,
        },
        Op::Add => match (at(e, from, 0), at(e, from, 1)) {
            (Some(Shape::Reals(r, c)), Some(Shape::Reals(s, d))) if s == r && d == c => Some(Shape::Reals(r, c)),
            _ => None,
        },
        Op::AddBias { dim } => match at(e, from, 0) {
            Some(Shape::Reals(r, c)) if c == dim => Some(Shape::Reals(r, c)),
            _ => None,
        },
        Op::Residual { dim, .. } => match (at(e, from, 0), at(e, from, 1)) {
            (Some(Shape::Reals(r, c)), Some(Shape::Halves(s, d))) if c == dim && s == r && d == c => Some(Shape::Reals(r, c)),
            _ => None,
        },
        Op::Narrow => match at(e, from, 0) {
            Some(Shape::Reals(r, c)) => Some(Shape::Halves(r, c)),
            _ => None,
        },
        Op::Widen => match at(e, from, 0) {
            Some(Shape::Halves(r, c)) => Some(Shape::Reals(r, c)),
            _ => None,
        },
        Op::Stack => match (at(e, from, 0), at(e, from, 1)) {
            (Some(Shape::Reals(r, c)), Some(Shape::Reals(s, d))) if d == c => Some(Shape::Reals(r + s, c)),
            _ => None,
        },
        Op::Beside { dim, both } => match (at(e, from, 0), at(e, from, 1)) {
            (Some(Shape::Reals(r, c)), Some(Shape::Reals(s, d))) if c == dim && s == r && d == c && both == 2 * dim => Some(Shape::Halves(r, both as nat)),
            _ => None,
        },
        Op::FirstRows { rows } => match at(e, from, 0) {
            Some(Shape::Reals(r, c)) if rows <= r => Some(Shape::Reals(rows as nat, c)),
            _ => None,
        },
        Op::SkipRows { rows } => match at(e, from, 0) {
            Some(Shape::Reals(r, c)) if rows <= r => Some(Shape::Reals((r - rows) as nat, c)),
            _ => None,
        },
        Op::PadRows { rows } => match at(e, from, 0) {
            Some(Shape::Reals(r, c)) if r <= rows => Some(Shape::Reals(rows as nat, c)),
            _ => None,
        },
        Op::Columns { width, off, n } => match at(e, from, 0) {
            Some(Shape::Halves(r, c)) if c == width && off + n <= width => Some(Shape::Halves(r, n as nat)),
            _ => None,
        },
        Op::Shuffle { h, width, off, c } => match at(e, from, 0) {
            Some(Shape::Halves(r, w)) if r == h * h && w == width && off + 4 * c <= width => Some(Shape::Halves((2 * (h as nat)) * (2 * (h as nat)), c as nat)),
            _ => None,
        },
        Op::Upsample { side, cols } => match (at(e, from, 0), at(e, from, 1)) {
            (Some(Shape::Reals(r, c)), Some(Shape::Reals(s, d))) if r == side * side && c == cols && s == (2 * side) * (2 * side) && d == c => Some(Shape::Halves((2 * (side as nat)) * (2 * (side as nat)), c)),
            _ => None,
        },
        Op::Rotate { part, heads, hd, dim, .. } => match (at(e, from, 0), at(e, from, 1), at(e, from, 2)) {
            (Some(Shape::Halves(r, c)), Some(Shape::Reals(s, h)), Some(Shape::Reals(t, g))) if c == 3 * dim && part < 3 && heads * hd == dim && s == r && 2 * h == hd && t == r && g == h => Some(Shape::Halves(r, dim as nat)),
            _ => None,
        },
        Op::SplitHeads { part, heads, hd, dim, .. } => match at(e, from, 0) {
            Some(Shape::Halves(r, c)) if c == 3 * dim && part < 3 && heads * hd == dim => Some(Shape::Halves(r, dim as nat)),
            _ => None,
        },
        Op::MergeHeads { heads, hd, dim, .. } => match at(e, from, 0) {
            Some(Shape::Halves(r, c)) if c == dim && heads * hd == dim => Some(Shape::Halves(r, dim as nat)),
            _ => None,
        },
        Op::ToRaster => match at(e, from, 0) {
            Some(Shape::Reals(r, c)) => Some(Shape::Reals(r, c)),
            _ => None,
        },
        Op::SelfAttend { heads, dim, .. } => match at(e, from, 0) {
            Some(Shape::Reals(r, c)) if c == 3 * dim && heads > 0 && dim % heads == 0 => Some(Shape::Reals(r, dim as nat)),
            _ => None,
        },
        Op::Attend { heads, dim } => match (at(e, from, 0), at(e, from, 1), at(e, from, 2)) {
            (Some(Shape::Reals(r, c)), Some(Shape::Reals(s, d)), Some(Shape::Reals(t, g))) if c == dim && heads > 0 && dim % heads == 0 && d == c && t == s && g == c => Some(Shape::Reals(r, c)),
            _ => None,
        },
        Op::AttendValid { heads, dim } => match (at(e, from, 0), at(e, from, 1), at(e, from, 2), at(e, from, 3)) {
            (Some(Shape::Reals(r, c)), Some(Shape::Reals(s, d)), Some(Shape::Reals(t, g)), Some(Shape::Flags(n))) if c == dim && heads > 0 && dim % heads == 0 && d == c && t == s && g == c && n == s => Some(Shape::Reals(r, c)),
            _ => None,
        },
        Op::AttendGrid { heads, hd, dim, grid, queries } => match (at(e, from, 0), at(e, from, 1), at(e, from, 2), at(e, from, 3), at(e, from, 4)) {
            (Some(Shape::Reals(r, c)), Some(Shape::Reals(s, d)), Some(Shape::Reals(t, h)), Some(Shape::Reals(u, g)), Some(Shape::Reals(v, f))) if c == dim && r == queries && heads * hd == dim && s == dim && d == grid * grid && t == heads * (grid * grid) && h == hd && u == heads * queries && g == grid && v == u && f == g => Some(Shape::Reals(r, c)),
            _ => None,
        },
        Op::ByHead { tokens, heads, hd, width, off } => match at(e, from, 0) {
            Some(Shape::Halves(r, c)) if r == tokens && c == width && off + heads * hd <= width => Some(Shape::Halves(heads as nat * tokens as nat, hd as nat)),
            _ => None,
        },
        Op::Planes { rows, width, off, planes } => match at(e, from, 0) {
            Some(Shape::Halves(r, c)) if r == rows && c == width && off + planes <= width => Some(Shape::Halves(planes as nat, rows as nat)),
            _ => None,
        },
        Op::BoxSine { cols } => match at(e, from, 0) {
            Some(Shape::Reals(r, c)) if c == 4 => Some(Shape::Reals(r, cols as nat)),
            _ => None,
        },
        Op::EdgeDistances { grid, .. } => match at(e, from, 0) {
            Some(Shape::Reals(r, c)) if c == 4 => Some(Shape::Reals(r * grid as nat, 2)),
            _ => None,
        },
        Op::BiasByHead { heads, boxes, queries, grid } => match at(e, from, 0) {
            Some(Shape::Reals(r, c)) if r == boxes * grid && c == heads && queries == boxes + 1 => Some(Shape::Reals(heads as nat * queries as nat, grid as nat)),
            _ => None,
        },
        Op::Refine => match (at(e, from, 0), at(e, from, 1)) {
            (Some(Shape::Reals(r, c)), Some(Shape::Reals(s, d))) if c == 4 && s == r && d == c => Some(Shape::Reals(r, c)),
            _ => None,
        },
        Op::Corners => match at(e, from, 0) {
            Some(Shape::Reals(r, c)) if c == 4 => Some(Shape::Reals(r, c)),
            _ => None,
        },
        Op::Clamp { .. } => match at(e, from, 0) {
            Some(Shape::Reals(r, c)) => Some(Shape::Reals(r, c)),
            _ => None,
        },
        Op::MeanValid => match (at(e, from, 0), at(e, from, 1)) {
            (Some(Shape::Reals(r, c)), Some(Shape::Flags(n))) if n == r => Some(Shape::Reals(1, c)),
            _ => None,
        },
        Op::ScaledDot { dim, .. } => match (at(e, from, 0), at(e, from, 1)) {
            (Some(Shape::Reals(r, c)), Some(Shape::Reals(s, d))) if c == dim && s == 1 && d == c => Some(Shape::Reals(r, 1)),
            _ => None,
        },
        Op::FoldScores { dim, heads, len } => match at(e, from, 0) {
            Some(Shape::Reals(r, c)) if r == len && c == dim => Some(Shape::Reals(dim as nat, heads as nat * len as nat)),
            _ => None,
        },
        Op::FoldScoreBias { dim, heads, len } => match at(e, from, 0) {
            Some(Shape::Reals(r, c)) if r == len && c == dim => Some(Shape::Reals(1, heads as nat * len as nat)),
            _ => None,
        },
        Op::FoldValues { dim, heads, len } => match at(e, from, 0) {
            Some(Shape::Reals(r, c)) if r == len && c == dim => Some(Shape::Reals(heads as nat * len as nat, dim as nat)),
            _ => None,
        },
        Op::FoldHead { dim, n } => match at(e, from, 0) {
            Some(Shape::Reals(r, c)) if c == dim && r < n => Some(Shape::Reals(dim as nat, n as nat)),
            _ => None,
        },
        Op::FoldHeadBias { dim, n } => match at(e, from, 0) {
            Some(Shape::Reals(r, c)) if c == dim && r < n => Some(Shape::Reals(1, n as nat)),
            _ => None,
        },
        Op::Pack { .. } => match (at(e, from, 0), at(e, from, 1)) {
            (Some(Shape::Reals(r, c)), Some(Shape::Reals(s, d))) if s == 1 && d == c => Some(Shape::Packed(r, c)),
            _ => None,
        },
        Op::SoftmaxValid { heads, len } => match (at(e, from, 0), at(e, from, 1)) {
            (Some(Shape::Halves(r, c)), Some(Shape::Flags(n))) if c == heads * len && n == len => Some(Shape::Halves(r, c)),
            _ => None,
        },
        Op::Gemm { rows, k, n, .. } => match at(e, from, 0) {
            Some(Shape::Halves(r, c)) if r == rows && c == k => Some(Shape::Halves(r, n as nat)),
            _ => None,
        },
        Op::GemmSlot { rows, .. } => match (at(e, from, 0), at(e, from, 1)) {
            (Some(Shape::Halves(r, c)), Some(Shape::Packed(k, n))) if r == rows && k == c => Some(Shape::Halves(r, n)),
            _ => None,
        },
        Op::GemmStay { rows, k, .. } => match at(e, from, 0) {
            Some(Shape::Halves(r, c)) if r == rows && c == k => Some(Shape::Resident(r)),
            _ => None,
        },
        Op::GemmOn { rows, n, .. } => match at(e, from, 0) {
            Some(Shape::Resident(r)) if r == rows => Some(Shape::Halves(r, n as nat)),
            _ => None,
        },
        Op::Mha { .. } => match (at(e, from, 0), at(e, from, 1), at(e, from, 2)) {
            (Some(Shape::Halves(r, c)), Some(Shape::Halves(s, d)), Some(Shape::Halves(t, g))) if s == r && d == c && t == r && g == c => Some(Shape::Halves(r, c)),
            _ => None,
        },
        Op::ConvRows { side, c, d } => match at(e, from, 0) {
            Some(Shape::Halves(r, w)) if r == side * side && w == c && 3 * c <= d => Some(Shape::Halves(side as nat * (side + 2) as nat, d as nat)),
            _ => None,
        },
        Op::ConvGemm { side, d, oc } => match at(e, from, 0) {
            Some(Shape::Halves(r, w)) if r == side * (side + 2) && w == d => Some(Shape::Halves(r, oc as nat)),
            _ => None,
        },
        Op::DropBorder { side, oc } => match at(e, from, 0) {
            Some(Shape::Halves(r, w)) if r == side * (side + 2) && w == oc => Some(Shape::Halves(side as nat * side as nat, oc as nat)),
            _ => None,
        },
    }
}

/// The registers after a step, if it can run.
pub open spec fn after(s: StepView, e: Map<Reg, Shape>) -> Option<Map<Reg, Shape>> {
    match result(s.op, s.from, e) {
        Some(x) => Some(e.insert(s.to, x)),
        None => None,
    }
}

/// The registers after the first `n` steps, if they can run.
pub open spec fn upto(p: Seq<StepView>, n: nat, e: Map<Reg, Shape>) -> Option<Map<Reg, Shape>>
    decreases n,
{
    if n == 0 {
        Some(e)
    } else {
        match upto(p, (n - 1) as nat, e) {
            Some(x) => after(p[n - 1], x),
            None => None,
        }
    }
}

/// The registers after a whole program, if every step can run.
pub open spec fn runs(p: Seq<StepView>, e: Map<Reg, Shape>) -> Option<Map<Reg, Shape>> {
    upto(p, p.len(), e)
}

pub open spec fn holds(e: Map<Reg, Shape>, r: Reg, s: Shape) -> bool {
    e.contains_key(r) && e[r] == s
}

proof fn upto_of_prefix(p: Seq<StepView>, q: Seq<StepView>, n: nat, e: Map<Reg, Shape>)
    requires
        n <= p.len(),
    ensures
        upto(p + q, n, e) == upto(p, n, e),
    decreases n,
{
    if n > 0 {
        upto_of_prefix(p, q, (n - 1) as nat, e);
        assert((p + q)[n - 1] == p[n - 1]);
    }
}

proof fn upto_of_suffix(p: Seq<StepView>, q: Seq<StepView>, n: nat, e: Map<Reg, Shape>)
    requires
        n <= q.len(),
        runs(p, e) is Some,
    ensures
        upto(p + q, p.len() + n, e) == upto(q, n, runs(p, e)->0),
    decreases n,
{
    if n == 0 {
        upto_of_prefix(p, q, p.len(), e);
    } else {
        upto_of_suffix(p, q, (n - 1) as nat, e);
        assert((p + q)[p.len() + n - 1] == q[n - 1]);
    }
}

/// One program after another.
pub proof fn running_in_turn(p: Seq<StepView>, q: Seq<StepView>, e: Map<Reg, Shape>)
    requires
        runs(p, e) is Some,
    ensures
        runs(p + q, e) == runs(q, runs(p, e)->0),
{
    upto_of_suffix(p, q, q.len(), e);
}

/// No step writes `r`.
pub open spec fn spares(p: Seq<StepView>, r: Reg) -> bool {
    forall|k: int| 0 <= k < p.len() ==> (#[trigger] p[k]).to != r
}

pub(crate) proof fn spared_by_both(p: Seq<StepView>, q: Seq<StepView>, r: Reg)
    requires
        spares(p, r),
        spares(q, r),
    ensures
        spares(p + q, r),
{
    assert forall|k: int| 0 <= k < (p + q).len() implies (#[trigger] (p + q)[k]).to != r by {
        if k < p.len() {
            assert((p + q)[k] == p[k]);
        } else {
            assert((p + q)[k] == q[k - p.len()]);
        }
    }
}

proof fn spared_so_far(p: Seq<StepView>, n: nat, r: Reg, s: Shape, e: Map<Reg, Shape>)
    requires
        n <= p.len(),
        spares(p, r),
        holds(e, r, s),
        upto(p, n, e) is Some,
    ensures
        holds(upto(p, n, e)->0, r, s),
    decreases n,
{
    if n > 0 {
        spared_so_far(p, (n - 1) as nat, r, s, e);
        assert(p[n - 1].to != r);
    }
}

/// A register no step writes holds afterwards what it held before.
pub proof fn spared_registers_keep(p: Seq<StepView>, r: Reg, s: Shape, e: Map<Reg, Shape>)
    requires
        spares(p, r),
        holds(e, r, s),
        runs(p, e) is Some,
    ensures
        holds(runs(p, e)->0, r, s),
{
    spared_so_far(p, p.len(), r, s, e);
}

} // verus!
