//! The stages of SAM 3 as programs: the text encoder, the backbone whose
//! glue runs on the host, the neck, the detector's encoder and decoder, and
//! the mask decoder; and that they fit together: every step finds its
//! operands, in the shapes it takes.

use crate::sam3::{rejects, Error};
use crate::sam3_config::{is_global, layer_name, name_of, Config, ConfigView};
use crate::sam3_steps::{
    five, four, holds, none, one, put, running_in_turn, runs, spared_by_both, spared_registers_keep, spares, three, two, upto, views, Eps, Kernel, Op, Reg, Shape, Step, StepView,
};
use crate::text::{cat2, cat4, decimal, decimal_of};
use vstd::prelude::*;

verus! {

/// The sizes the stages are built from.
#[derive(Debug, Clone, Copy, PartialEq, Eq, Structural)]
pub struct Sizes {
    /// The tokens of the backbone: the grid's places.
    pub tokens: usize,
    /// Those of a grid twice as fine.
    pub tokens4: usize,
    /// Those of a grid four times as fine.
    pub pixels: usize,
    pub grid: usize,
    pub grid2: usize,
    pub grid4: usize,
    /// The backbone's width, and three of it.
    pub vdim: usize,
    pub vdim3: usize,
    pub vheads: usize,
    /// A head's width in the backbone, and half of it.
    pub vhd: usize,
    pub vhalf: usize,
    /// A patch, padded as its kernel takes it.
    pub embed_k: usize,
    /// The columns of the neck's first level, of its first two, of all three.
    pub s0: usize,
    pub s01: usize,
    pub width: usize,
    /// One tap of the first level.
    pub mid: usize,
    /// What the neck's second kernel gives.
    pub n_up: usize,
    /// The width of the detector, and two of it.
    pub d: usize,
    pub d2: usize,
    pub heads: usize,
    pub hd: usize,
    /// The prompt's length, padded.
    pub len: usize,
    pub ffn: usize,
    /// The heads of the attention kernel side by side, two of it, three of it.
    pub pd: usize,
    pub pd2: usize,
    pub pd3: usize,
    /// The queries, and one more for the presence token.
    pub queries: usize,
    pub queries1: usize,
    /// Every decoder layer's keys and values side by side.
    pub kv: usize,
    /// The text encoder's width, and three of it.
    pub tdim: usize,
    pub tdim3: usize,
    pub theads: usize,
    pub tffn: usize,
    /// A pixel next to the two below it, as the convolution takes it; one of the three.
    pub conv_d: usize,
    pub conv_c: usize,
    /// What the mask head's kernel gives.
    pub head_n: usize,
}

/// Widths only the kernels know.
#[derive(Debug, Clone, Copy, PartialEq, Eq, Structural)]
pub struct Widths {
    /// `k` of `v_embed`.
    pub embed_k: usize,
    /// `n` of `n_up`.
    pub n_up: usize,
    /// `k` and the row stride of `conv`.
    pub conv_k: usize,
    pub conv_lda: usize,
    /// A head of `mha_d`.
    pub mha_d: usize,
    /// `n` of `dec_kv`.
    pub kv: usize,
    /// `n` of `m_head`.
    pub head_n: usize,
}

/// The sizes can be computed.
pub open spec fn computable(c: ConfigView, w: Widths) -> bool {
    &&& c.vit_heads > 0
    &&& c.d_heads > 0
    &&& c.neck_splits.len() >= 3
    &&& w.conv_lda <= w.conv_k
    &&& c.grid * c.grid <= usize::MAX
    &&& 4 * c.grid <= usize::MAX
    &&& (2 * c.grid) * (2 * c.grid) <= usize::MAX
    &&& (4 * c.grid) * (4 * c.grid) <= usize::MAX
    &&& 3 * c.vit_dim <= usize::MAX
    &&& c.neck_splits[0] + c.neck_splits[1] + c.neck_splits[2] <= usize::MAX
    &&& 2 * c.d_model <= usize::MAX
    &&& 3 * (w.mha_d * c.d_heads) <= usize::MAX
    &&& c.queries < usize::MAX
    &&& 3 * c.text_dim <= usize::MAX
}

/// The sizes of a model.
pub open spec fn sizes_of(c: ConfigView, w: Widths) -> Sizes {
    Sizes {
        tokens: (c.grid * c.grid) as usize,
        tokens4: ((2 * c.grid) * (2 * c.grid)) as usize,
        pixels: ((4 * c.grid) * (4 * c.grid)) as usize,
        grid: c.grid,
        grid2: (2 * c.grid) as usize,
        grid4: (4 * c.grid) as usize,
        vdim: c.vit_dim,
        vdim3: (3 * c.vit_dim) as usize,
        vheads: c.vit_heads,
        vhd: c.vit_dim / c.vit_heads,
        vhalf: c.vit_dim / c.vit_heads / 2,
        embed_k: w.embed_k,
        s0: c.neck_splits[0],
        s01: (c.neck_splits[0] + c.neck_splits[1]) as usize,
        width: (c.neck_splits[0] + c.neck_splits[1] + c.neck_splits[2]) as usize,
        mid: c.neck_splits[0] / 4,
        n_up: w.n_up,
        d: c.d_model,
        d2: (2 * c.d_model) as usize,
        heads: c.d_heads,
        hd: c.d_model / c.d_heads,
        len: c.text_len,
        ffn: c.d_ffn,
        pd: (w.mha_d * c.d_heads) as usize,
        pd2: (2 * (w.mha_d * c.d_heads)) as usize,
        pd3: (3 * (w.mha_d * c.d_heads)) as usize,
        queries: c.queries,
        queries1: (c.queries + 1) as usize,
        kv: w.kv,
        tdim: c.text_dim,
        tdim3: (3 * c.text_dim) as usize,
        theads: c.text_heads,
        tffn: c.text_ffn,
        conv_d: ((w.conv_k - w.conv_lda) / 2) as usize,
        conv_c: ((w.conv_k - w.conv_lda) / 2 / 3) as usize,
        head_n: w.head_n,
    }
}

impl Sizes {
    /// The sizes of a model; none where one of them does not fit a machine
    /// word or a count of heads is zero.
    pub fn of(c: &Config, w: &Widths) -> (r: Option<Sizes>)
        ensures
            r == (if computable(c@, *w) {
                Some(sizes_of(c@, *w))
            } else {
                None
            }),
    {
        if c.vit_heads == 0 || c.d_heads == 0 || c.neck_splits.len() < 3 || w.conv_lda > w.conv_k || c.queries == usize::MAX {
            return None;
        }
        if c.grid > usize::MAX / 4 || c.vit_dim > usize::MAX / 3 || c.d_model > usize::MAX / 2 || c.text_dim > usize::MAX / 3 {
            return None;
        }
        let tokens = c.grid.checked_mul(c.grid)?;
        let tokens4 = (2 * c.grid).checked_mul(2 * c.grid)?;
        let pixels = (4 * c.grid).checked_mul(4 * c.grid)?;
        let s01 = c.neck_splits[0].checked_add(c.neck_splits[1])?;
        let width = s01.checked_add(c.neck_splits[2])?;
        let pd = w.mha_d.checked_mul(c.d_heads)?;
        if pd > usize::MAX / 3 {
            return None;
        }
        Some(
            Sizes {
                tokens,
                tokens4,
                pixels,
                grid: c.grid,
                grid2: 2 * c.grid,
                grid4: 4 * c.grid,
                vdim: c.vit_dim,
                vdim3: 3 * c.vit_dim,
                vheads: c.vit_heads,
                vhd: c.vit_dim / c.vit_heads,
                vhalf: c.vit_dim / c.vit_heads / 2,
                embed_k: w.embed_k,
                s0: c.neck_splits[0],
                s01,
                width,
                mid: c.neck_splits[0] / 4,
                n_up: w.n_up,
                d: c.d_model,
                d2: 2 * c.d_model,
                heads: c.d_heads,
                hd: c.d_model / c.d_heads,
                len: c.text_len,
                ffn: c.d_ffn,
                pd,
                pd2: 2 * pd,
                pd3: 3 * pd,
                queries: c.queries,
                queries1: c.queries + 1,
                kv: w.kv,
                tdim: c.text_dim,
                tdim3: 3 * c.text_dim,
                theads: c.text_heads,
                tffn: c.text_ffn,
                conv_d: (w.conv_k - w.conv_lda) / 2,
                conv_c: (w.conv_k - w.conv_lda) / 2 / 3,
                head_n: w.head_n,
            },
        )
    }

    /// The heads divide what they share, and the kernels are as wide as the
    /// stages they serve.
    pub open spec fn sound(self) -> bool {
        &&& self.tokens == self.grid * self.grid
        &&& self.grid2 == 2 * self.grid
        &&& self.grid4 == 2 * self.grid2
        &&& self.tokens4 == self.grid2 * self.grid2
        &&& self.pixels == self.grid4 * self.grid4
        &&& self.vdim3 == 3 * self.vdim
        &&& self.vheads * self.vhd == self.vdim
        &&& 2 * self.vhalf == self.vhd
        &&& 4 * self.mid <= self.width
        &&& self.s0 + 4 * self.d <= self.width
        &&& self.s01 + self.d <= self.width
        &&& 4 * self.d <= self.n_up
        &&& self.d2 == 2 * self.d
        &&& self.heads > 0
        &&& self.d % self.heads == 0
        &&& self.heads * self.hd == self.d
        &&& self.d % 8 == 0
        &&& self.pd2 == 2 * self.pd
        &&& self.pd3 == 3 * self.pd
        &&& self.queries1 == self.queries + 1
        &&& self.queries < self.head_n
        &&& self.tdim3 == 3 * self.tdim
        &&& self.theads > 0
        &&& self.tdim % self.theads == 0
        &&& self.conv_c == self.d
        &&& 3 * self.conv_c <= self.conv_d
    }
}

// ---------------------------------------------------------------------------
// The text encoder.

/// The embedded tokens, `n` of them.
pub open spec fn text_start_steps(z: Sizes, n: usize) -> Seq<StepView> {
    seq![
        StepView { op: Op::Embed { rows: n, cols: z.tdim }, name: "t"@, from: seq![Reg::Ids], to: Reg::Xt },
    ]
}

fn push_text_start(out: &mut Vec<Step>, z: &Sizes, n: usize)
    ensures
        views(final(out)@) == views(old(out)@) + text_start_steps(*z, n),
{
    let ghost start = views(out@);
    put(out, Op::Embed { rows: n, cols: z.tdim }, "t".to_string(), one(Reg::Ids), Reg::Xt);
    proof {
        assert(views(out@) =~= start + text_start_steps(*z, n));
    }
}

/// Layer `i` of the text encoder.
pub open spec fn text_layer_steps(z: Sizes, i: usize) -> Seq<StepView> {
    seq![
        StepView { op: Op::LayerNorm { dim: z.tdim, eps: Eps::Text }, name: layer_name("t."@, i as nat, "ln1"@), from: seq![Reg::Xt], to: Reg::Ht },
        StepView { op: Op::Linear { n_in: z.tdim, n_out: z.tdim3, half: true }, name: layer_name("t."@, i as nat, "qkv"@), from: seq![Reg::Ht], to: Reg::QkvT },
        StepView { op: Op::SelfAttend { heads: z.theads, dim: z.tdim, causal: true }, name: Seq::<char>::empty(), from: seq![Reg::QkvT], to: Reg::Ot },
        StepView { op: Op::Linear { n_in: z.tdim, n_out: z.tdim, half: true }, name: layer_name("t."@, i as nat, "o"@), from: seq![Reg::Ot], to: Reg::Ot },
        StepView { op: Op::Add, name: Seq::<char>::empty(), from: seq![Reg::Xt, Reg::Ot], to: Reg::Xt },
        StepView { op: Op::LayerNorm { dim: z.tdim, eps: Eps::Text }, name: layer_name("t."@, i as nat, "ln2"@), from: seq![Reg::Xt], to: Reg::Ht },
        StepView { op: Op::Linear { n_in: z.tdim, n_out: z.tffn, half: true }, name: layer_name("t."@, i as nat, "fc1"@), from: seq![Reg::Ht], to: Reg::Ft },
        StepView { op: Op::Gelu, name: Seq::<char>::empty(), from: seq![Reg::Ft], to: Reg::Ft },
        StepView { op: Op::Linear { n_in: z.tffn, n_out: z.tdim, half: true }, name: layer_name("t."@, i as nat, "fc2"@), from: seq![Reg::Ft], to: Reg::Ft },
        StepView { op: Op::Add, name: Seq::<char>::empty(), from: seq![Reg::Xt, Reg::Ft], to: Reg::Xt },
    ]
}

fn push_text_layer(out: &mut Vec<Step>, z: &Sizes, i: usize)
    ensures
        views(final(out)@) == views(old(out)@) + text_layer_steps(*z, i),
{
    let ghost start = views(out@);
    put(out, Op::LayerNorm { dim: z.tdim, eps: Eps::Text }, name_of("t.", i, "ln1"), one(Reg::Xt), Reg::Ht);
    put(out, Op::Linear { n_in: z.tdim, n_out: z.tdim3, half: true }, name_of("t.", i, "qkv"), one(Reg::Ht), Reg::QkvT);
    put(out, Op::SelfAttend { heads: z.theads, dim: z.tdim, causal: true }, String::new(), one(Reg::QkvT), Reg::Ot);
    put(out, Op::Linear { n_in: z.tdim, n_out: z.tdim, half: true }, name_of("t.", i, "o"), one(Reg::Ot), Reg::Ot);
    put(out, Op::Add, String::new(), two(Reg::Xt, Reg::Ot), Reg::Xt);
    put(out, Op::LayerNorm { dim: z.tdim, eps: Eps::Text }, name_of("t.", i, "ln2"), one(Reg::Xt), Reg::Ht);
    put(out, Op::Linear { n_in: z.tdim, n_out: z.tffn, half: true }, name_of("t.", i, "fc1"), one(Reg::Ht), Reg::Ft);
    put(out, Op::Gelu, String::new(), one(Reg::Ft), Reg::Ft);
    put(out, Op::Linear { n_in: z.tffn, n_out: z.tdim, half: true }, name_of("t.", i, "fc2"), one(Reg::Ft), Reg::Ft);
    put(out, Op::Add, String::new(), two(Reg::Xt, Reg::Ft), Reg::Xt);
    proof {
        assert(views(out@) =~= start + text_layer_steps(*z, i));
    }
}

/// The last norm and the projection, with zero rows for the padding.
pub open spec fn text_end_steps(z: Sizes) -> Seq<StepView> {
    seq![
        StepView { op: Op::LayerNorm { dim: z.tdim, eps: Eps::Text }, name: "t.final_ln"@, from: seq![Reg::Xt], to: Reg::Xt },
        StepView { op: Op::Linear { n_in: z.tdim, n_out: z.d, half: false }, name: "t.proj"@, from: seq![Reg::Xt], to: Reg::Yt },
        StepView { op: Op::PadRows { rows: z.len }, name: Seq::<char>::empty(), from: seq![Reg::Yt], to: Reg::Feats },
    ]
}

fn push_text_end(out: &mut Vec<Step>, z: &Sizes)
    ensures
        views(final(out)@) == views(old(out)@) + text_end_steps(*z),
{
    let ghost start = views(out@);
    put(out, Op::LayerNorm { dim: z.tdim, eps: Eps::Text }, "t.final_ln".to_string(), one(Reg::Xt), Reg::Xt);
    put(out, Op::Linear { n_in: z.tdim, n_out: z.d, half: false }, "t.proj".to_string(), one(Reg::Xt), Reg::Yt);
    put(out, Op::PadRows { rows: z.len }, String::new(), one(Reg::Yt), Reg::Feats);
    proof {
        assert(views(out@) =~= start + text_end_steps(*z));
    }
}

pub open spec fn text_layer_of(z: Sizes, i: usize) -> Seq<StepView> {
    text_layer_steps(z, i)
}

/// The first `n` layers.
pub open spec fn text_layers(z: Sizes, n: nat) -> Seq<StepView>
    decreases n,
{
    if n == 0 {
        Seq::empty()
    } else {
        text_layers(z, (n - 1) as nat) + text_layer_of(z, (n - 1) as usize)
    }
}

fn push_text_layers(out: &mut Vec<Step>, z: &Sizes, n: usize)
    ensures
        views(final(out)@) == views(old(out)@) + text_layers(*z, n as nat),
{
    let ghost start = views(out@);
    let mut i: usize = 0;
    proof {
        assert(start + text_layers(*z, 0) =~= start);
    }
    while i < n
        invariant
            i <= n,
            views(out@) == start + text_layers(*z, i as nat),
        decreases n - i,
    {
        push_text_layer(out, z, i);
        proof {
            let p = text_layers(*z, i as nat);
            let q = text_layer_of(*z, i);
            assert(views(out@) =~= start + (p + q));
        }
        i += 1;
    }
}

/// The text encoder on `n` valid tokens: only they are encoded, for the
/// attention is causal and the padding follows them.
pub open spec fn text_program(z: Sizes, layers: nat, n: usize) -> Seq<StepView> {
    text_start_steps(z, n) + text_layers(z, layers) + text_end_steps(z)
}

pub fn text(z: &Sizes, layers: usize, n: usize) -> (r: Vec<Step>)
    ensures
        views(r@) == text_program(*z, layers as nat, n),
{
    let mut out: Vec<Step> = Vec::new();
    push_text_start(&mut out, z, n);
    push_text_layers(&mut out, z, layers);
    push_text_end(&mut out, z);
    proof {
        assert(views(Seq::<Step>::empty()) + text_start_steps(*z, n) =~= text_start_steps(*z, n));
    }
    out
}

proof fn text_start_sizes(z: Sizes, n: usize, e: Map<Reg, Shape>)
    requires
        z.sound(),
        holds(e, Reg::Ids, Shape::Ids(n as nat)),
    ensures
        text_start_steps(z, n).len() == 1,
        upto(text_start_steps(z, n), 1, e) is Some,
        holds(upto(text_start_steps(z, n), 1, e)->0, Reg::Xt, Shape::Reals(n as nat, z.tdim as nat)),
{
    let p = text_start_steps(z, n);
    reveal_with_fuel(upto, 2);
}

proof fn text_layer_sizes(z: Sizes, i: usize, n: usize, e: Map<Reg, Shape>)
    requires
        z.sound(),
        holds(e, Reg::Xt, Shape::Reals(n as nat, z.tdim as nat)),
    ensures
        text_layer_steps(z, i).len() == 10,
        upto(text_layer_steps(z, i), 10, e) is Some,
        holds(upto(text_layer_steps(z, i), 10, e)->0, Reg::Xt, Shape::Reals(n as nat, z.tdim as nat)),
{
    let p = text_layer_steps(z, i);
    reveal_with_fuel(upto, 11);
}

proof fn text_end_sizes(z: Sizes, n: usize, e: Map<Reg, Shape>)
    requires
        z.sound(),
        n <= z.len,
        holds(e, Reg::Xt, Shape::Reals(n as nat, z.tdim as nat)),
    ensures
        text_end_steps(z).len() == 3,
        upto(text_end_steps(z), 3, e) is Some,
        holds(upto(text_end_steps(z), 3, e)->0, Reg::Feats, Shape::Reals(z.len as nat, z.d as nat)),
{
    let p = text_end_steps(z);
    reveal_with_fuel(upto, 4);
}

proof fn text_layers_run(z: Sizes, layers: nat, n: usize, e: Map<Reg, Shape>)
    requires
        z.sound(),
        layers <= usize::MAX,
        holds(e, Reg::Xt, Shape::Reals(n as nat, z.tdim as nat)),
    ensures
        runs(text_layers(z, layers), e) is Some,
        holds(runs(text_layers(z, layers), e)->0, Reg::Xt, Shape::Reals(n as nat, z.tdim as nat)),
    decreases layers,
{
    if layers > 0 {
        text_layers_run(z, (layers - 1) as nat, n, e);
        let mid = runs(text_layers(z, (layers - 1) as nat), e)->0;
        text_layer_sizes(z, (layers - 1) as usize, n, mid);
        running_in_turn(text_layers(z, (layers - 1) as nat), text_layer_of(z, (layers - 1) as usize), e);
    }
}

/// The text encoder's steps all find their operands; its features are a row
/// of the detector's width for every place of the prompt.
pub proof fn text_fits(z: Sizes, layers: nat, n: usize, e: Map<Reg, Shape>)
    requires
        z.sound(),
        layers <= usize::MAX,
        n <= z.len,
        holds(e, Reg::Ids, Shape::Ids(n as nat)),
    ensures
        runs(text_program(z, layers, n), e) matches Some(x) && holds(x, Reg::Feats, Shape::Reals(z.len as nat, z.d as nat)),
{
    text_start_sizes(z, n, e);
    let a = runs(text_start_steps(z, n), e)->0;
    text_layers_run(z, layers, n, a);
    running_in_turn(text_start_steps(z, n), text_layers(z, layers), e);
    let b = runs(text_layers(z, layers), a)->0;
    text_end_sizes(z, n, b);
    running_in_turn(text_start_steps(z, n) + text_layers(z, layers), text_end_steps(z), e);
}

// ---------------------------------------------------------------------------
// The backbone, its norms, positions and residual adds on the host.

/// The patch embedding, the positions and the first norm; the position tables.
pub open spec fn vit_start_steps(z: Sizes) -> Seq<StepView> {
    seq![
        StepView { op: Op::Patches { tokens: z.tokens, width: z.embed_k }, name: "v.perm"@, from: seq![Reg::Pixels], to: Reg::Patches },
        StepView { op: Op::Gemm { kernel: Kernel::VEmbed, rows: z.tokens, k: z.embed_k, n: z.vdim }, name: "v.embed"@, from: seq![Reg::Patches], to: Reg::Emb },
        StepView { op: Op::Widen, name: Seq::<char>::empty(), from: seq![Reg::Emb], to: Reg::X },
        StepView { op: Op::Tensor { rows: z.tokens, cols: z.vdim }, name: "v.pos"@, from: Seq::<Reg>::empty(), to: Reg::Pos },
        StepView { op: Op::Add, name: Seq::<char>::empty(), from: seq![Reg::X, Reg::Pos], to: Reg::X },
        StepView { op: Op::LayerNorm { dim: z.vdim, eps: Eps::Vit }, name: "v.ln_pre"@, from: seq![Reg::X], to: Reg::X },
        StepView { op: Op::Tensor { rows: z.tokens, cols: z.vhalf }, name: "v.rope.win.cos"@, from: Seq::<Reg>::empty(), to: Reg::WinCos },
        StepView { op: Op::Tensor { rows: z.tokens, cols: z.vhalf }, name: "v.rope.win.sin"@, from: Seq::<Reg>::empty(), to: Reg::WinSin },
        StepView { op: Op::Tensor { rows: z.tokens, cols: z.vhalf }, name: "v.rope.glob.cos"@, from: Seq::<Reg>::empty(), to: Reg::GlobCos },
        StepView { op: Op::Tensor { rows: z.tokens, cols: z.vhalf }, name: "v.rope.glob.sin"@, from: Seq::<Reg>::empty(), to: Reg::GlobSin },
    ]
}

fn push_vit_start(out: &mut Vec<Step>, z: &Sizes)
    ensures
        views(final(out)@) == views(old(out)@) + vit_start_steps(*z),
{
    let ghost start = views(out@);
    put(out, Op::Patches { tokens: z.tokens, width: z.embed_k }, "v.perm".to_string(), one(Reg::Pixels), Reg::Patches);
    put(out, Op::Gemm { kernel: Kernel::VEmbed, rows: z.tokens, k: z.embed_k, n: z.vdim }, "v.embed".to_string(), one(Reg::Patches), Reg::Emb);
    put(out, Op::Widen, String::new(), one(Reg::Emb), Reg::X);
    put(out, Op::Tensor { rows: z.tokens, cols: z.vdim }, "v.pos".to_string(), none(), Reg::Pos);
    put(out, Op::Add, String::new(), two(Reg::X, Reg::Pos), Reg::X);
    put(out, Op::LayerNorm { dim: z.vdim, eps: Eps::Vit }, "v.ln_pre".to_string(), one(Reg::X), Reg::X);
    put(out, Op::Tensor { rows: z.tokens, cols: z.vhalf }, "v.rope.win.cos".to_string(), none(), Reg::WinCos);
    put(out, Op::Tensor { rows: z.tokens, cols: z.vhalf }, "v.rope.win.sin".to_string(), none(), Reg::WinSin);
    put(out, Op::Tensor { rows: z.tokens, cols: z.vhalf }, "v.rope.glob.cos".to_string(), none(), Reg::GlobCos);
    put(out, Op::Tensor { rows: z.tokens, cols: z.vhalf }, "v.rope.glob.sin".to_string(), none(), Reg::GlobSin);
    proof {
        assert(views(out@) =~= start + vit_start_steps(*z));
    }
}

/// The attention of layer `i` and its residual add.
pub open spec fn vit_attend_steps(z: Sizes, i: usize, global: bool) -> Seq<StepView> {
    let cos = if global { Reg::GlobCos } else { Reg::WinCos };
    let sin = if global { Reg::GlobSin } else { Reg::WinSin };
    let kernel = if global { Kernel::MhaGlob } else { Kernel::MhaWin };
    seq![
        StepView { op: Op::LayerNorm { dim: z.vdim, eps: Eps::Vit }, name: layer_name("v."@, i as nat, "ln1"@), from: seq![Reg::X], to: Reg::H },
        StepView { op: Op::Narrow, name: Seq::<char>::empty(), from: seq![Reg::H], to: Reg::A },
        StepView { op: Op::Gemm { kernel: Kernel::VQkv, rows: z.tokens, k: z.vdim, n: z.vdim3 }, name: layer_name("v."@, i as nat, "qkv"@), from: seq![Reg::A], to: Reg::QkvV },
        StepView { op: Op::Rotate { part: 0, global, heads: z.vheads, hd: z.vhd, dim: z.vdim }, name: Seq::<char>::empty(), from: seq![Reg::QkvV, cos, sin], to: Reg::Qv },
        StepView { op: Op::Rotate { part: 1, global, heads: z.vheads, hd: z.vhd, dim: z.vdim }, name: Seq::<char>::empty(), from: seq![Reg::QkvV, cos, sin], to: Reg::Kv },
        StepView { op: Op::SplitHeads { part: 2, global, heads: z.vheads, hd: z.vhd, dim: z.vdim }, name: Seq::<char>::empty(), from: seq![Reg::QkvV], to: Reg::Vv },
        StepView { op: Op::Mha { kernel }, name: Seq::<char>::empty(), from: seq![Reg::Qv, Reg::Kv, Reg::Vv], to: Reg::Ov },
        StepView { op: Op::MergeHeads { global, heads: z.vheads, hd: z.vhd, dim: z.vdim }, name: Seq::<char>::empty(), from: seq![Reg::Ov], to: Reg::A },
        StepView { op: Op::Gemm { kernel: Kernel::VO, rows: z.tokens, k: z.vdim, n: z.vdim }, name: layer_name("v."@, i as nat, "o"@), from: seq![Reg::A], to: Reg::C },
        StepView { op: Op::Residual { dim: z.vdim, bias: false }, name: Seq::<char>::empty(), from: seq![Reg::X, Reg::C], to: Reg::X },
    ]
}

fn push_vit_attend(out: &mut Vec<Step>, z: &Sizes, i: usize, global: bool)
    ensures
        views(final(out)@) == views(old(out)@) + vit_attend_steps(*z, i, global),
{
    let ghost start = views(out@);
    let cos = if global { Reg::GlobCos } else { Reg::WinCos };
    let sin = if global { Reg::GlobSin } else { Reg::WinSin };
    let kernel = if global { Kernel::MhaGlob } else { Kernel::MhaWin };
    put(out, Op::LayerNorm { dim: z.vdim, eps: Eps::Vit }, name_of("v.", i, "ln1"), one(Reg::X), Reg::H);
    put(out, Op::Narrow, String::new(), one(Reg::H), Reg::A);
    put(out, Op::Gemm { kernel: Kernel::VQkv, rows: z.tokens, k: z.vdim, n: z.vdim3 }, name_of("v.", i, "qkv"), one(Reg::A), Reg::QkvV);
    put(out, Op::Rotate { part: 0, global, heads: z.vheads, hd: z.vhd, dim: z.vdim }, String::new(), three(Reg::QkvV, cos, sin), Reg::Qv);
    put(out, Op::Rotate { part: 1, global, heads: z.vheads, hd: z.vhd, dim: z.vdim }, String::new(), three(Reg::QkvV, cos, sin), Reg::Kv);
    put(out, Op::SplitHeads { part: 2, global, heads: z.vheads, hd: z.vhd, dim: z.vdim }, String::new(), one(Reg::QkvV), Reg::Vv);
    put(out, Op::Mha { kernel }, String::new(), three(Reg::Qv, Reg::Kv, Reg::Vv), Reg::Ov);
    put(out, Op::MergeHeads { global, heads: z.vheads, hd: z.vhd, dim: z.vdim }, String::new(), one(Reg::Ov), Reg::A);
    put(out, Op::Gemm { kernel: Kernel::VO, rows: z.tokens, k: z.vdim, n: z.vdim }, name_of("v.", i, "o"), one(Reg::A), Reg::C);
    put(out, Op::Residual { dim: z.vdim, bias: false }, String::new(), two(Reg::X, Reg::C), Reg::X);
    proof {
        assert(views(out@) =~= start + vit_attend_steps(*z, i, global));
    }
}

/// The MLP of layer `i` and its residual add; what lies between its two kernels stays on the device.
pub open spec fn vit_mlp_steps(z: Sizes, i: usize) -> Seq<StepView> {
    seq![
        StepView { op: Op::LayerNorm { dim: z.vdim, eps: Eps::Vit }, name: layer_name("v."@, i as nat, "ln2"@), from: seq![Reg::X], to: Reg::H },
        StepView { op: Op::Narrow, name: Seq::<char>::empty(), from: seq![Reg::H], to: Reg::A },
        StepView { op: Op::GemmStay { kernel: Kernel::VFc1, rows: z.tokens, k: z.vdim }, name: layer_name("v."@, i as nat, "fc1"@), from: seq![Reg::A], to: Reg::Mid },
        StepView { op: Op::GemmOn { kernel: Kernel::VFc2, rows: z.tokens, n: z.vdim }, name: layer_name("v."@, i as nat, "fc2"@), from: seq![Reg::Mid], to: Reg::C },
        StepView { op: Op::Residual { dim: z.vdim, bias: true }, name: layer_name("v."@, i as nat, "fc2.b"@), from: seq![Reg::X, Reg::C], to: Reg::X },
    ]
}

fn push_vit_mlp(out: &mut Vec<Step>, z: &Sizes, i: usize)
    ensures
        views(final(out)@) == views(old(out)@) + vit_mlp_steps(*z, i),
{
    let ghost start = views(out@);
    put(out, Op::LayerNorm { dim: z.vdim, eps: Eps::Vit }, name_of("v.", i, "ln2"), one(Reg::X), Reg::H);
    put(out, Op::Narrow, String::new(), one(Reg::H), Reg::A);
    put(out, Op::GemmStay { kernel: Kernel::VFc1, rows: z.tokens, k: z.vdim }, name_of("v.", i, "fc1"), one(Reg::A), Reg::Mid);
    put(out, Op::GemmOn { kernel: Kernel::VFc2, rows: z.tokens, n: z.vdim }, name_of("v.", i, "fc2"), one(Reg::Mid), Reg::C);
    put(out, Op::Residual { dim: z.vdim, bias: true }, name_of("v.", i, "fc2.b"), two(Reg::X, Reg::C), Reg::X);
    proof {
        assert(views(out@) =~= start + vit_mlp_steps(*z, i));
    }
}

/// Back to raster order.
pub open spec fn vit_end_steps(z: Sizes) -> Seq<StepView> {
    seq![
        StepView { op: Op::ToRaster, name: "v.perm"@, from: seq![Reg::X], to: Reg::Vit },
    ]
}

fn push_vit_end(out: &mut Vec<Step>, z: &Sizes)
    ensures
        views(final(out)@) == views(old(out)@) + vit_end_steps(*z),
{
    let ghost start = views(out@);
    put(out, Op::ToRaster, "v.perm".to_string(), one(Reg::X), Reg::Vit);
    proof {
        assert(views(out@) =~= start + vit_end_steps(*z));
    }
}

pub open spec fn vit_layer_of(z: Sizes, global: Seq<usize>, i: usize) -> Seq<StepView> {
    vit_attend_steps(z, i, global.contains(i)) + vit_mlp_steps(z, i)
}

/// The first `n` layers.
pub open spec fn vit_layers(z: Sizes, global: Seq<usize>, n: nat) -> Seq<StepView>
    decreases n,
{
    if n == 0 {
        Seq::empty()
    } else {
        vit_layers(z, global, (n - 1) as nat) + vit_layer_of(z, global, (n - 1) as usize)
    }
}

fn push_vit_layers(out: &mut Vec<Step>, z: &Sizes, c: &Config, n: usize)
    ensures
        views(final(out)@) == views(old(out)@) + vit_layers(*z, c@.vit_global, n as nat),
{
    let ghost start = views(out@);
    let mut i: usize = 0;
    proof {
        assert(start + vit_layers(*z, c@.vit_global, 0) =~= start);
    }
    while i < n
        invariant
            i <= n,
            views(out@) == start + vit_layers(*z, c@.vit_global, i as nat),
        decreases n - i,
    {
        let global = is_global(c, i);
        push_vit_attend(out, z, i, global);
        push_vit_mlp(out, z, i);
        proof {
            let p = vit_layers(*z, c@.vit_global, i as nat);
            let q = vit_layer_of(*z, c@.vit_global, i);
            assert(views(out@) =~= start + (p + q));
        }
        i += 1;
    }
}

/// The backbone from the image's pixels to its tokens in raster order.
pub open spec fn vit_program(z: Sizes, layers: nat, global: Seq<usize>) -> Seq<StepView> {
    vit_start_steps(z) + vit_layers(z, global, layers) + vit_end_steps(z)
}

pub fn vit(z: &Sizes, c: &Config) -> (r: Vec<Step>)
    ensures
        views(r@) == vit_program(*z, c.vit_layers as nat, c@.vit_global),
{
    let mut out: Vec<Step> = Vec::new();
    push_vit_start(&mut out, z);
    push_vit_layers(&mut out, z, c, c.vit_layers);
    push_vit_end(&mut out, z);
    proof {
        assert(views(Seq::<Step>::empty()) + vit_start_steps(*z) =~= vit_start_steps(*z));
    }
    out
}

proof fn vit_start_sizes(z: Sizes, e: Map<Reg, Shape>)
    requires
        z.sound(),
        holds(e, Reg::Pixels, Shape::Pixels),
    ensures
        vit_start_steps(z).len() == 10,
        upto(vit_start_steps(z), 10, e) is Some,
        holds(upto(vit_start_steps(z), 10, e)->0, Reg::X, Shape::Reals(z.tokens as nat, z.vdim as nat)),
        holds(upto(vit_start_steps(z), 10, e)->0, Reg::WinCos, Shape::Reals(z.tokens as nat, z.vhalf as nat)),
        holds(upto(vit_start_steps(z), 10, e)->0, Reg::WinSin, Shape::Reals(z.tokens as nat, z.vhalf as nat)),
        holds(upto(vit_start_steps(z), 10, e)->0, Reg::GlobCos, Shape::Reals(z.tokens as nat, z.vhalf as nat)),
        holds(upto(vit_start_steps(z), 10, e)->0, Reg::GlobSin, Shape::Reals(z.tokens as nat, z.vhalf as nat)),
{
    let p = vit_start_steps(z);
    reveal_with_fuel(upto, 11);
}

proof fn vit_attend_sizes(z: Sizes, i: usize, global: bool, e: Map<Reg, Shape>)
    requires
        z.sound(),
        holds(e, Reg::X, Shape::Reals(z.tokens as nat, z.vdim as nat)),
        holds(e, Reg::WinCos, Shape::Reals(z.tokens as nat, z.vhalf as nat)),
        holds(e, Reg::WinSin, Shape::Reals(z.tokens as nat, z.vhalf as nat)),
        holds(e, Reg::GlobCos, Shape::Reals(z.tokens as nat, z.vhalf as nat)),
        holds(e, Reg::GlobSin, Shape::Reals(z.tokens as nat, z.vhalf as nat)),
    ensures
        vit_attend_steps(z, i, global).len() == 10,
        upto(vit_attend_steps(z, i, global), 10, e) is Some,
        holds(upto(vit_attend_steps(z, i, global), 10, e)->0, Reg::X, Shape::Reals(z.tokens as nat, z.vdim as nat)),
        holds(upto(vit_attend_steps(z, i, global), 10, e)->0, Reg::WinCos, Shape::Reals(z.tokens as nat, z.vhalf as nat)),
        holds(upto(vit_attend_steps(z, i, global), 10, e)->0, Reg::WinSin, Shape::Reals(z.tokens as nat, z.vhalf as nat)),
        holds(upto(vit_attend_steps(z, i, global), 10, e)->0, Reg::GlobCos, Shape::Reals(z.tokens as nat, z.vhalf as nat)),
        holds(upto(vit_attend_steps(z, i, global), 10, e)->0, Reg::GlobSin, Shape::Reals(z.tokens as nat, z.vhalf as nat)),
{
    let p = vit_attend_steps(z, i, global);
    reveal_with_fuel(upto, 11);
}

proof fn vit_mlp_sizes(z: Sizes, i: usize, e: Map<Reg, Shape>)
    requires
        z.sound(),
        holds(e, Reg::X, Shape::Reals(z.tokens as nat, z.vdim as nat)),
        holds(e, Reg::WinCos, Shape::Reals(z.tokens as nat, z.vhalf as nat)),
        holds(e, Reg::WinSin, Shape::Reals(z.tokens as nat, z.vhalf as nat)),
        holds(e, Reg::GlobCos, Shape::Reals(z.tokens as nat, z.vhalf as nat)),
        holds(e, Reg::GlobSin, Shape::Reals(z.tokens as nat, z.vhalf as nat)),
    ensures
        vit_mlp_steps(z, i).len() == 5,
        upto(vit_mlp_steps(z, i), 5, e) is Some,
        holds(upto(vit_mlp_steps(z, i), 5, e)->0, Reg::X, Shape::Reals(z.tokens as nat, z.vdim as nat)),
        holds(upto(vit_mlp_steps(z, i), 5, e)->0, Reg::WinCos, Shape::Reals(z.tokens as nat, z.vhalf as nat)),
        holds(upto(vit_mlp_steps(z, i), 5, e)->0, Reg::WinSin, Shape::Reals(z.tokens as nat, z.vhalf as nat)),
        holds(upto(vit_mlp_steps(z, i), 5, e)->0, Reg::GlobCos, Shape::Reals(z.tokens as nat, z.vhalf as nat)),
        holds(upto(vit_mlp_steps(z, i), 5, e)->0, Reg::GlobSin, Shape::Reals(z.tokens as nat, z.vhalf as nat)),
{
    let p = vit_mlp_steps(z, i);
    reveal_with_fuel(upto, 6);
}

proof fn vit_end_sizes(z: Sizes, e: Map<Reg, Shape>)
    requires
        z.sound(),
        holds(e, Reg::X, Shape::Reals(z.tokens as nat, z.vdim as nat)),
    ensures
        vit_end_steps(z).len() == 1,
        upto(vit_end_steps(z), 1, e) is Some,
        holds(upto(vit_end_steps(z), 1, e)->0, Reg::Vit, Shape::Reals(z.tokens as nat, z.vdim as nat)),
{
    let p = vit_end_steps(z);
    reveal_with_fuel(upto, 2);
}

/// What the backbone's layers keep.
pub open spec fn vit_ready(z: Sizes, e: Map<Reg, Shape>) -> bool {
    &&& holds(e, Reg::X, Shape::Reals(z.tokens as nat, z.vdim as nat))
    &&& holds(e, Reg::WinCos, Shape::Reals(z.tokens as nat, z.vhalf as nat))
    &&& holds(e, Reg::WinSin, Shape::Reals(z.tokens as nat, z.vhalf as nat))
    &&& holds(e, Reg::GlobCos, Shape::Reals(z.tokens as nat, z.vhalf as nat))
    &&& holds(e, Reg::GlobSin, Shape::Reals(z.tokens as nat, z.vhalf as nat))
}

proof fn vit_layers_run(z: Sizes, global: Seq<usize>, layers: nat, e: Map<Reg, Shape>)
    requires
        z.sound(),
        layers <= usize::MAX,
        vit_ready(z, e),
    ensures
        runs(vit_layers(z, global, layers), e) matches Some(x) && vit_ready(z, x),
    decreases layers,
{
    if layers > 0 {
        let i = (layers - 1) as usize;
        vit_layers_run(z, global, (layers - 1) as nat, e);
        let a = runs(vit_layers(z, global, (layers - 1) as nat), e)->0;
        vit_attend_sizes(z, i, global.contains(i), a);
        let b = runs(vit_attend_steps(z, i, global.contains(i)), a)->0;
        vit_mlp_sizes(z, i, b);
        running_in_turn(vit_attend_steps(z, i, global.contains(i)), vit_mlp_steps(z, i), a);
        running_in_turn(vit_layers(z, global, (layers - 1) as nat), vit_layer_of(z, global, i), e);
    }
}

/// The backbone's steps all find their operands, whichever layers attend
/// globally; it ends with a row for every token.
pub proof fn vit_fits(z: Sizes, layers: nat, global: Seq<usize>, e: Map<Reg, Shape>)
    requires
        z.sound(),
        layers <= usize::MAX,
        holds(e, Reg::Pixels, Shape::Pixels),
    ensures
        runs(vit_program(z, layers, global), e) matches Some(x) && holds(
            x,
            Reg::Vit,
            Shape::Reals(z.tokens as nat, z.vdim as nat),
        ),
{
    vit_start_sizes(z, e);
    let a = runs(vit_start_steps(z), e)->0;
    vit_layers_run(z, global, layers, a);
    running_in_turn(vit_start_steps(z), vit_layers(z, global, layers), e);
    let b = runs(vit_layers(z, global, layers), a)->0;
    vit_end_sizes(z, b);
    running_in_turn(vit_start_steps(z) + vit_layers(z, global, layers), vit_end_steps(z), e);
}

// ---------------------------------------------------------------------------
// The backbone on the device: what the host does before and after it.

/// Patches to the residual stream's first value.
pub open spec fn embed_steps(z: Sizes) -> Seq<StepView> {
    seq![
        StepView { op: Op::Patches { tokens: z.tokens, width: z.embed_k }, name: "v.perm"@, from: seq![Reg::Pixels], to: Reg::Patches },
        StepView { op: Op::Gemm { kernel: Kernel::VEmbed, rows: z.tokens, k: z.embed_k, n: z.vdim }, name: "v.embed"@, from: seq![Reg::Patches], to: Reg::Emb },
        StepView { op: Op::Widen, name: Seq::<char>::empty(), from: seq![Reg::Emb], to: Reg::X },
        StepView { op: Op::Tensor { rows: z.tokens, cols: z.vdim }, name: "v.pos"@, from: Seq::<Reg>::empty(), to: Reg::Pos },
        StepView { op: Op::Add, name: Seq::<char>::empty(), from: seq![Reg::X, Reg::Pos], to: Reg::X },
        StepView { op: Op::LayerNorm { dim: z.vdim, eps: Eps::Vit }, name: "v.ln_pre"@, from: seq![Reg::X], to: Reg::X },
    ]
}

/// The stream rounded to half precision, where the device keeps it so.
pub open spec fn round_steps(res_f32: bool) -> Seq<StepView> {
    if res_f32 {
        seq![]
    } else {
        seq![
            StepView { op: Op::Narrow, name: Seq::<char>::empty(), from: seq![Reg::X], to: Reg::C },
            StepView { op: Op::Widen, name: Seq::<char>::empty(), from: seq![Reg::C], to: Reg::X },
        ]
    }
}

/// The first layer's input; its norm's weights are folded into the next
/// kernel's.
pub open spec fn first_norm_steps(z: Sizes) -> Seq<StepView> {
    seq![
        StepView { op: Op::Standardize { dim: z.vdim, eps: Eps::Vit }, name: Seq::<char>::empty(), from: seq![Reg::X], to: Reg::H },
        StepView { op: Op::Narrow, name: Seq::<char>::empty(), from: seq![Reg::H], to: Reg::A },
    ]
}

/// Everything before the device's layers: the stream's first value in `X`
/// (and rounded in `C` where the device keeps it so) and the first layer's
/// input in `A`.
pub open spec fn prologue(z: Sizes, res_f32: bool) -> Seq<StepView> {
    embed_steps(z) + round_steps(res_f32) + first_norm_steps(z)
}

/// Everything after them: the stream, in `X` or rounded in `C`, in raster
/// order.
pub open spec fn epilogue(z: Sizes, res_f32: bool) -> Seq<StepView> {
    if res_f32 {
        vit_end_steps(z)
    } else {
        seq![StepView { op: Op::Widen, name: Seq::<char>::empty(), from: seq![Reg::C], to: Reg::X }] + vit_end_steps(z)
    }
}

/// What the host does before the device's layers.
pub fn vit_prologue(z: &Sizes, res_f32: bool) -> (r: Vec<Step>)
    ensures
        views(r@) == prologue(*z, res_f32),
{
    let mut r: Vec<Step> = Vec::new();
    let out: &mut Vec<Step> = &mut r;
    put(out, Op::Patches { tokens: z.tokens, width: z.embed_k }, "v.perm".to_string(), one(Reg::Pixels), Reg::Patches);
    put(out, Op::Gemm { kernel: Kernel::VEmbed, rows: z.tokens, k: z.embed_k, n: z.vdim }, "v.embed".to_string(), one(Reg::Patches), Reg::Emb);
    put(out, Op::Widen, String::new(), one(Reg::Emb), Reg::X);
    put(out, Op::Tensor { rows: z.tokens, cols: z.vdim }, "v.pos".to_string(), none(), Reg::Pos);
    put(out, Op::Add, String::new(), two(Reg::X, Reg::Pos), Reg::X);
    put(out, Op::LayerNorm { dim: z.vdim, eps: Eps::Vit }, "v.ln_pre".to_string(), one(Reg::X), Reg::X);
    proof {
        assert(views(out@) =~= embed_steps(*z));
    }
    if !res_f32 {
        put(out, Op::Narrow, String::new(), one(Reg::X), Reg::C);
        put(out, Op::Widen, String::new(), one(Reg::C), Reg::X);
    }
    proof {
        assert(views(out@) =~= embed_steps(*z) + round_steps(res_f32));
    }
    put(out, Op::Standardize { dim: z.vdim, eps: Eps::Vit }, String::new(), one(Reg::X), Reg::H);
    put(out, Op::Narrow, String::new(), one(Reg::H), Reg::A);
    proof {
        assert(views(out@) =~= prologue(*z, res_f32));
    }
    r
}

/// What the host does after the device's layers.
pub fn vit_epilogue(z: &Sizes, res_f32: bool) -> (r: Vec<Step>)
    ensures
        views(r@) == epilogue(*z, res_f32),
{
    let mut r: Vec<Step> = Vec::new();
    if !res_f32 {
        put(&mut r, Op::Widen, String::new(), one(Reg::C), Reg::X);
    }
    push_vit_end(&mut r, z);
    proof {
        assert(views(r@) =~= epilogue(*z, res_f32));
    }
    r
}

/// Before the device's layers every step finds its operands; the stream and
/// the first layer's input have a row for every token.
#[verifier::rlimit(60)]
pub proof fn prologue_fits(z: Sizes, res_f32: bool, e: Map<Reg, Shape>)
    requires
        z.sound(),
        holds(e, Reg::Pixels, Shape::Pixels),
    ensures
        runs(prologue(z, res_f32), e) matches Some(x) && {
            &&& holds(x, Reg::X, Shape::Reals(z.tokens as nat, z.vdim as nat))
            &&& holds(x, Reg::A, Shape::Halves(z.tokens as nat, z.vdim as nat))
            &&& !res_f32 ==> holds(x, Reg::C, Shape::Halves(z.tokens as nat, z.vdim as nat))
        },
{
    let p = prologue(z, res_f32);
    reveal_with_fuel(upto, 11);
    assert(p.len() == if res_f32 {
        8nat
    } else {
        10nat
    });
}

/// After them the stream becomes what the neck takes.
pub proof fn epilogue_fits(z: Sizes, res_f32: bool, e: Map<Reg, Shape>)
    requires
        z.sound(),
        if res_f32 {
            holds(e, Reg::X, Shape::Reals(z.tokens as nat, z.vdim as nat))
        } else {
            holds(e, Reg::C, Shape::Halves(z.tokens as nat, z.vdim as nat))
        },
    ensures
        runs(epilogue(z, res_f32), e) matches Some(x) && holds(
            x,
            Reg::Vit,
            Shape::Reals(z.tokens as nat, z.vdim as nat),
        ),
{
    let p = epilogue(z, res_f32);
    reveal_with_fuel(upto, 3);
    assert(p.len() == if res_f32 {
        1nat
    } else {
        2nat
    });
}

// ---------------------------------------------------------------------------
// The neck.

/// The three levels before their 3x3 convolutions.
pub open spec fn neck_levels_steps(z: Sizes) -> Seq<StepView> {
    seq![
        StepView { op: Op::Narrow, name: Seq::<char>::empty(), from: seq![Reg::Vit], to: Reg::A },
        StepView { op: Op::Gemm { kernel: Kernel::NIn, rows: z.tokens, k: z.vdim, n: z.width }, name: "n.in"@, from: seq![Reg::A], to: Reg::Y },
        StepView { op: Op::Shuffle { h: z.grid, width: z.width, off: 0, c: z.mid }, name: Seq::<char>::empty(), from: seq![Reg::Y], to: Reg::A0 },
        StepView { op: Op::GeluHalves, name: Seq::<char>::empty(), from: seq![Reg::A0], to: Reg::A0 },
        StepView { op: Op::Shuffle { h: z.grid, width: z.width, off: z.s0, c: z.d }, name: Seq::<char>::empty(), from: seq![Reg::Y], to: Reg::U1 },
        StepView { op: Op::Columns { width: z.width, off: z.s01, n: z.d }, name: Seq::<char>::empty(), from: seq![Reg::Y], to: Reg::U2 },
        StepView { op: Op::Gemm { kernel: Kernel::NUp, rows: z.tokens4, k: z.mid, n: z.n_up }, name: "n.up"@, from: seq![Reg::A0], to: Reg::Up },
        StepView { op: Op::Shuffle { h: z.grid2, width: z.n_up, off: 0, c: z.d }, name: Seq::<char>::empty(), from: seq![Reg::Up], to: Reg::U0 },
    ]
}

fn push_neck_levels(out: &mut Vec<Step>, z: &Sizes)
    ensures
        views(final(out)@) == views(old(out)@) + neck_levels_steps(*z),
{
    let ghost start = views(out@);
    put(out, Op::Narrow, String::new(), one(Reg::Vit), Reg::A);
    put(out, Op::Gemm { kernel: Kernel::NIn, rows: z.tokens, k: z.vdim, n: z.width }, "n.in".to_string(), one(Reg::A), Reg::Y);
    put(out, Op::Shuffle { h: z.grid, width: z.width, off: 0, c: z.mid }, String::new(), one(Reg::Y), Reg::A0);
    put(out, Op::GeluHalves, String::new(), one(Reg::A0), Reg::A0);
    put(out, Op::Shuffle { h: z.grid, width: z.width, off: z.s0, c: z.d }, String::new(), one(Reg::Y), Reg::U1);
    put(out, Op::Columns { width: z.width, off: z.s01, n: z.d }, String::new(), one(Reg::Y), Reg::U2);
    put(out, Op::Gemm { kernel: Kernel::NUp, rows: z.tokens4, k: z.mid, n: z.n_up }, "n.up".to_string(), one(Reg::A0), Reg::Up);
    put(out, Op::Shuffle { h: z.grid2, width: z.n_up, off: 0, c: z.d }, String::new(), one(Reg::Up), Reg::U0);
    proof {
        assert(views(out@) =~= start + neck_levels_steps(*z));
    }
}

/// The 3x3 convolutions.
pub open spec fn neck_convs_steps(z: Sizes) -> Seq<StepView> {
    seq![
        StepView { op: Op::ConvRows { side: z.grid4, c: z.conv_c, d: z.conv_d }, name: Seq::<char>::empty(), from: seq![Reg::U0], to: Reg::Cr },
        StepView { op: Op::ConvGemm { side: z.grid4, d: z.conv_d, oc: z.d }, name: "n.conv0"@, from: seq![Reg::Cr], to: Reg::Cc },
        StepView { op: Op::DropBorder { side: z.grid4, oc: z.d }, name: Seq::<char>::empty(), from: seq![Reg::Cc], to: Reg::Cu },
        StepView { op: Op::Widen, name: Seq::<char>::empty(), from: seq![Reg::Cu], to: Reg::F0 },
        StepView { op: Op::AddBias { dim: z.d }, name: "n.conv0.b"@, from: seq![Reg::F0], to: Reg::F0 },
        StepView { op: Op::ConvRows { side: z.grid2, c: z.conv_c, d: z.conv_d }, name: Seq::<char>::empty(), from: seq![Reg::U1], to: Reg::Cr },
        StepView { op: Op::ConvGemm { side: z.grid2, d: z.conv_d, oc: z.d }, name: "n.conv1"@, from: seq![Reg::Cr], to: Reg::Cc },
        StepView { op: Op::DropBorder { side: z.grid2, oc: z.d }, name: Seq::<char>::empty(), from: seq![Reg::Cc], to: Reg::Cu },
        StepView { op: Op::Widen, name: Seq::<char>::empty(), from: seq![Reg::Cu], to: Reg::F1 },
        StepView { op: Op::AddBias { dim: z.d }, name: "n.conv1.b"@, from: seq![Reg::F1], to: Reg::F1 },
        StepView { op: Op::ConvRows { side: z.grid, c: z.conv_c, d: z.conv_d }, name: Seq::<char>::empty(), from: seq![Reg::U2], to: Reg::Cr },
        StepView { op: Op::ConvGemm { side: z.grid, d: z.conv_d, oc: z.d }, name: "n.conv2"@, from: seq![Reg::Cr], to: Reg::Cc },
        StepView { op: Op::DropBorder { side: z.grid, oc: z.d }, name: Seq::<char>::empty(), from: seq![Reg::Cc], to: Reg::Cu },
        StepView { op: Op::Widen, name: Seq::<char>::empty(), from: seq![Reg::Cu], to: Reg::F2 },
        StepView { op: Op::AddBias { dim: z.d }, name: "n.conv2.b"@, from: seq![Reg::F2], to: Reg::F2 },
    ]
}

fn push_neck_convs(out: &mut Vec<Step>, z: &Sizes)
    ensures
        views(final(out)@) == views(old(out)@) + neck_convs_steps(*z),
{
    let ghost start = views(out@);
    put(out, Op::ConvRows { side: z.grid4, c: z.conv_c, d: z.conv_d }, String::new(), one(Reg::U0), Reg::Cr);
    put(out, Op::ConvGemm { side: z.grid4, d: z.conv_d, oc: z.d }, "n.conv0".to_string(), one(Reg::Cr), Reg::Cc);
    put(out, Op::DropBorder { side: z.grid4, oc: z.d }, String::new(), one(Reg::Cc), Reg::Cu);
    put(out, Op::Widen, String::new(), one(Reg::Cu), Reg::F0);
    put(out, Op::AddBias { dim: z.d }, "n.conv0.b".to_string(), one(Reg::F0), Reg::F0);
    put(out, Op::ConvRows { side: z.grid2, c: z.conv_c, d: z.conv_d }, String::new(), one(Reg::U1), Reg::Cr);
    put(out, Op::ConvGemm { side: z.grid2, d: z.conv_d, oc: z.d }, "n.conv1".to_string(), one(Reg::Cr), Reg::Cc);
    put(out, Op::DropBorder { side: z.grid2, oc: z.d }, String::new(), one(Reg::Cc), Reg::Cu);
    put(out, Op::Widen, String::new(), one(Reg::Cu), Reg::F1);
    put(out, Op::AddBias { dim: z.d }, "n.conv1.b".to_string(), one(Reg::F1), Reg::F1);
    put(out, Op::ConvRows { side: z.grid, c: z.conv_c, d: z.conv_d }, String::new(), one(Reg::U2), Reg::Cr);
    put(out, Op::ConvGemm { side: z.grid, d: z.conv_d, oc: z.d }, "n.conv2".to_string(), one(Reg::Cr), Reg::Cc);
    put(out, Op::DropBorder { side: z.grid, oc: z.d }, String::new(), one(Reg::Cc), Reg::Cu);
    put(out, Op::Widen, String::new(), one(Reg::Cu), Reg::F2);
    put(out, Op::AddBias { dim: z.d }, "n.conv2.b".to_string(), one(Reg::F2), Reg::F2);
    proof {
        assert(views(out@) =~= start + neck_convs_steps(*z));
    }
}
/// The neck: three levels from the backbone's tokens.
pub open spec fn neck_program(z: Sizes) -> Seq<StepView> {
    neck_levels_steps(z) + neck_convs_steps(z)
}

pub fn neck(z: &Sizes) -> (r: Vec<Step>)
    ensures
        views(r@) == neck_program(*z),
{
    let mut out: Vec<Step> = Vec::new();
    push_neck_levels(&mut out, z);
    push_neck_convs(&mut out, z);
    proof {
        assert(views(Seq::<Step>::empty()) + neck_levels_steps(*z) =~= neck_levels_steps(*z));
    }
    out
}

proof fn neck_levels_sizes(z: Sizes, e: Map<Reg, Shape>)
    requires
        z.sound(),
        holds(e, Reg::Vit, Shape::Reals(z.tokens as nat, z.vdim as nat)),
    ensures
        neck_levels_steps(z).len() == 8,
        upto(neck_levels_steps(z), 8, e) is Some,
        holds(upto(neck_levels_steps(z), 8, e)->0, Reg::U0, Shape::Halves((z.grid4 as nat) * (z.grid4 as nat), z.d as nat)),
        holds(upto(neck_levels_steps(z), 8, e)->0, Reg::U1, Shape::Halves((z.grid2 as nat) * (z.grid2 as nat), z.d as nat)),
        holds(upto(neck_levels_steps(z), 8, e)->0, Reg::U2, Shape::Halves((z.grid as nat) * (z.grid as nat), z.d as nat)),
{
    let p = neck_levels_steps(z);
    reveal_with_fuel(upto, 9);
}

proof fn neck_convs_sizes(z: Sizes, e: Map<Reg, Shape>)
    requires
        z.sound(),
        holds(e, Reg::U0, Shape::Halves((z.grid4 as nat) * (z.grid4 as nat), z.d as nat)),
        holds(e, Reg::U1, Shape::Halves((z.grid2 as nat) * (z.grid2 as nat), z.d as nat)),
        holds(e, Reg::U2, Shape::Halves((z.grid as nat) * (z.grid as nat), z.d as nat)),
    ensures
        neck_convs_steps(z).len() == 15,
        upto(neck_convs_steps(z), 15, e) is Some,
        holds(upto(neck_convs_steps(z), 15, e)->0, Reg::F0, Shape::Reals((z.grid4 as nat) * (z.grid4 as nat), z.d as nat)),
        holds(upto(neck_convs_steps(z), 15, e)->0, Reg::F1, Shape::Reals((z.grid2 as nat) * (z.grid2 as nat), z.d as nat)),
        holds(upto(neck_convs_steps(z), 15, e)->0, Reg::F2, Shape::Reals((z.grid as nat) * (z.grid as nat), z.d as nat)),
{
    let p = neck_convs_steps(z);
    reveal_with_fuel(upto, 16);
}

/// The neck's steps all find their operands; its levels lie on grids four
/// times, twice and just as fine as the backbone's.
pub proof fn neck_fits(z: Sizes, e: Map<Reg, Shape>)
    requires
        z.sound(),
        holds(e, Reg::Vit, Shape::Reals(z.tokens as nat, z.vdim as nat)),
    ensures
        runs(neck_program(z), e) is Some,
        holds(runs(neck_program(z), e)->0, Reg::F0, Shape::Reals((z.grid4 as nat) * (z.grid4 as nat), z.d as nat)),
        holds(runs(neck_program(z), e)->0, Reg::F1, Shape::Reals((z.grid2 as nat) * (z.grid2 as nat), z.d as nat)),
        holds(runs(neck_program(z), e)->0, Reg::F2, Shape::Reals((z.grid as nat) * (z.grid as nat), z.d as nat)),
{
    neck_levels_sizes(z, e);
    let a = runs(neck_levels_steps(z), e)->0;
    neck_convs_sizes(z, a);
    running_in_turn(neck_levels_steps(z), neck_convs_steps(z), e);
}

// ---------------------------------------------------------------------------
// The attention to the prompt.

/// A cross-attention folded over the prompt into two packed weights.
pub open spec fn fold_steps(z: Sizes, prefix: Seq<char>, slot: Seq<char>) -> Seq<StepView> {
    seq![
        StepView { op: Op::Linear { n_in: z.d, n_out: z.d, half: false }, name: prefix + ".k"@, from: seq![Reg::Feats], to: Reg::Kd },
        StepView { op: Op::Linear { n_in: z.d, n_out: z.d, half: false }, name: prefix + ".v"@, from: seq![Reg::Feats], to: Reg::Vd },
        StepView { op: Op::FoldScores { dim: z.d, heads: z.heads, len: z.len }, name: prefix + ".q"@, from: seq![Reg::Kd], to: Reg::Bs },
        StepView { op: Op::FoldScoreBias { dim: z.d, heads: z.heads, len: z.len }, name: prefix + ".q"@, from: seq![Reg::Kd], to: Reg::Bb },
        StepView { op: Op::FoldValues { dim: z.d, heads: z.heads, len: z.len }, name: prefix + ".o"@, from: seq![Reg::Vd], to: Reg::Bc },
        StepView { op: Op::Tensor { rows: 1, cols: z.d }, name: prefix + ".o.b"@, from: Seq::<Reg>::empty(), to: Reg::Bo },
        StepView { op: Op::Pack { kernel: Kernel::DS }, name: slot + ".s"@, from: seq![Reg::Bs, Reg::Bb], to: Reg::SlotS },
        StepView { op: Op::Pack { kernel: Kernel::DC }, name: slot + ".c"@, from: seq![Reg::Bc, Reg::Bo], to: Reg::SlotC },
    ]
}

fn push_fold(out: &mut Vec<Step>, z: &Sizes, prefix: &str, slot: &str)
    ensures
        views(final(out)@) == views(old(out)@) + fold_steps(*z, prefix@, slot@),
{
    let ghost start = views(out@);
    put(out, Op::Linear { n_in: z.d, n_out: z.d, half: false }, cat2(prefix, ".k"), one(Reg::Feats), Reg::Kd);
    put(out, Op::Linear { n_in: z.d, n_out: z.d, half: false }, cat2(prefix, ".v"), one(Reg::Feats), Reg::Vd);
    put(out, Op::FoldScores { dim: z.d, heads: z.heads, len: z.len }, cat2(prefix, ".q"), one(Reg::Kd), Reg::Bs);
    put(out, Op::FoldScoreBias { dim: z.d, heads: z.heads, len: z.len }, cat2(prefix, ".q"), one(Reg::Kd), Reg::Bb);
    put(out, Op::FoldValues { dim: z.d, heads: z.heads, len: z.len }, cat2(prefix, ".o"), one(Reg::Vd), Reg::Bc);
    put(out, Op::Tensor { rows: 1, cols: z.d }, cat2(prefix, ".o.b"), none(), Reg::Bo);
    put(out, Op::Pack { kernel: Kernel::DS }, cat2(slot, ".s"), two(Reg::Bs, Reg::Bb), Reg::SlotS);
    put(out, Op::Pack { kernel: Kernel::DC }, cat2(slot, ".c"), two(Reg::Bc, Reg::Bo), Reg::SlotC);
    proof {
        assert(views(out@) =~= start + fold_steps(*z, prefix@, slot@));
    }
}

/// The folded cross-attention of `H` added to the stream.
pub open spec fn cross_steps(z: Sizes, slot: Seq<char>) -> Seq<StepView> {
    seq![
        StepView { op: Op::Narrow, name: Seq::<char>::empty(), from: seq![Reg::H], to: Reg::A },
        StepView { op: Op::GemmSlot { kernel: Kernel::DS, rows: z.tokens }, name: slot + ".s"@, from: seq![Reg::A, Reg::SlotS], to: Reg::S },
        StepView { op: Op::SoftmaxValid { heads: z.heads, len: z.len }, name: Seq::<char>::empty(), from: seq![Reg::S, Reg::Valid], to: Reg::P },
        StepView { op: Op::GemmSlot { kernel: Kernel::DC, rows: z.tokens }, name: slot + ".c"@, from: seq![Reg::P, Reg::SlotC], to: Reg::C },
        StepView { op: Op::Residual { dim: z.d, bias: false }, name: Seq::<char>::empty(), from: seq![Reg::Xd, Reg::C], to: Reg::Xd },
    ]
}

fn push_cross(out: &mut Vec<Step>, z: &Sizes, slot: &str)
    ensures
        views(final(out)@) == views(old(out)@) + cross_steps(*z, slot@),
{
    let ghost start = views(out@);
    put(out, Op::Narrow, String::new(), one(Reg::H), Reg::A);
    put(out, Op::GemmSlot { kernel: Kernel::DS, rows: z.tokens }, cat2(slot, ".s"), two(Reg::A, Reg::SlotS), Reg::S);
    put(out, Op::SoftmaxValid { heads: z.heads, len: z.len }, String::new(), two(Reg::S, Reg::Valid), Reg::P);
    put(out, Op::GemmSlot { kernel: Kernel::DC, rows: z.tokens }, cat2(slot, ".c"), two(Reg::P, Reg::SlotC), Reg::C);
    put(out, Op::Residual { dim: z.d, bias: false }, String::new(), two(Reg::Xd, Reg::C), Reg::Xd);
    proof {
        assert(views(out@) =~= start + cross_steps(*z, slot@));
    }
}
/// `fold` writes none of the other registers.
pub open spec fn fold_keeps(r: Reg) -> bool {
    r != Reg::Kd && r != Reg::Vd && r != Reg::Bs && r != Reg::Bb && r != Reg::Bc && r != Reg::Bo && r != Reg::SlotS && r != Reg::SlotC
}

/// `cross` writes none of the other registers.
pub open spec fn cross_keeps(r: Reg) -> bool {
    r != Reg::A && r != Reg::S && r != Reg::P && r != Reg::C && r != Reg::Xd
}

proof fn fold_sizes(z: Sizes, prefix: Seq<char>, slot: Seq<char>, e: Map<Reg, Shape>)
    requires
        z.sound(),
        holds(e, Reg::Feats, Shape::Reals(z.len as nat, z.d as nat)),
        holds(e, Reg::Valid, Shape::Flags(z.len as nat)),
    ensures
        fold_steps(z, prefix, slot).len() == 8,
        upto(fold_steps(z, prefix, slot), 8, e) is Some,
        holds(upto(fold_steps(z, prefix, slot), 8, e)->0, Reg::Feats, Shape::Reals(z.len as nat, z.d as nat)),
        holds(upto(fold_steps(z, prefix, slot), 8, e)->0, Reg::Valid, Shape::Flags(z.len as nat)),
        holds(upto(fold_steps(z, prefix, slot), 8, e)->0, Reg::SlotS, Shape::Packed(z.d as nat, (z.heads as nat) * (z.len as nat))),
        holds(upto(fold_steps(z, prefix, slot), 8, e)->0, Reg::SlotC, Shape::Packed((z.heads as nat) * (z.len as nat), z.d as nat)),
        forall|r: Reg, s: Shape|
            fold_keeps(r) && holds(e, r, s) ==> #[trigger] holds(upto(fold_steps(z, prefix, slot), 8, e)->0, r, s),
{
    let p = fold_steps(z, prefix, slot);
    reveal_with_fuel(upto, 9);
}
proof fn cross_sizes(z: Sizes, slot: Seq<char>, e: Map<Reg, Shape>)
    requires
        z.sound(),
        holds(e, Reg::Feats, Shape::Reals(z.len as nat, z.d as nat)),
        holds(e, Reg::Valid, Shape::Flags(z.len as nat)),
        holds(e, Reg::Xd, Shape::Reals(z.tokens as nat, z.d as nat)),
        holds(e, Reg::SlotS, Shape::Packed(z.d as nat, (z.heads as nat) * (z.len as nat))),
        holds(e, Reg::SlotC, Shape::Packed((z.heads as nat) * (z.len as nat), z.d as nat)),
        holds(e, Reg::H, Shape::Reals(z.tokens as nat, z.d as nat)),
    ensures
        cross_steps(z, slot).len() == 5,
        upto(cross_steps(z, slot), 5, e) is Some,
        holds(upto(cross_steps(z, slot), 5, e)->0, Reg::Feats, Shape::Reals(z.len as nat, z.d as nat)),
        holds(upto(cross_steps(z, slot), 5, e)->0, Reg::Valid, Shape::Flags(z.len as nat)),
        holds(upto(cross_steps(z, slot), 5, e)->0, Reg::Xd, Shape::Reals(z.tokens as nat, z.d as nat)),
        forall|r: Reg, s: Shape|
            cross_keeps(r) && holds(e, r, s) ==> #[trigger] holds(upto(cross_steps(z, slot), 5, e)->0, r, s),
{
    let p = cross_steps(z, slot);
    reveal_with_fuel(upto, 6);
}
// ---------------------------------------------------------------------------
// The encoder.

/// The stream begins as the coarsest level.
pub open spec fn encoder_start_steps(z: Sizes) -> Seq<StepView> {
    seq![
        StepView { op: Op::Copy, name: Seq::<char>::empty(), from: seq![Reg::F2], to: Reg::Xd },
    ]
}

fn push_encoder_start(out: &mut Vec<Step>, z: &Sizes)
    ensures
        views(final(out)@) == views(old(out)@) + encoder_start_steps(*z),
{
    let ghost start = views(out@);
    put(out, Op::Copy, String::new(), one(Reg::F2), Reg::Xd);
    proof {
        assert(views(out@) =~= start + encoder_start_steps(*z));
    }
}

/// The self-attention of layer `i`, and its norm before the prompt.
pub open spec fn encoder_attend_steps(z: Sizes, i: usize) -> Seq<StepView> {
    seq![
        StepView { op: Op::Tensor { rows: z.tokens, cols: z.d }, name: "d.pos"@, from: Seq::<Reg>::empty(), to: Reg::Pos },
        StepView { op: Op::LayerNorm { dim: z.d, eps: Eps::Default }, name: layer_name("d."@, i as nat, "ln1"@), from: seq![Reg::Xd], to: Reg::H },
        StepView { op: Op::Add, name: Seq::<char>::empty(), from: seq![Reg::H, Reg::Pos], to: Reg::Hp },
        StepView { op: Op::Beside { dim: z.d, both: z.d2 }, name: Seq::<char>::empty(), from: seq![Reg::Hp, Reg::H], to: Reg::A },
        StepView { op: Op::Gemm { kernel: Kernel::DQkv, rows: z.tokens, k: z.d2, n: z.pd3 }, name: layer_name("d."@, i as nat, "qkv"@), from: seq![Reg::A], to: Reg::QkvD },
        StepView { op: Op::Columns { width: z.pd3, off: 0, n: z.pd }, name: Seq::<char>::empty(), from: seq![Reg::QkvD], to: Reg::Qm },
        StepView { op: Op::Columns { width: z.pd3, off: z.pd, n: z.pd }, name: Seq::<char>::empty(), from: seq![Reg::QkvD], to: Reg::Km },
        StepView { op: Op::Columns { width: z.pd3, off: z.pd2, n: z.pd }, name: Seq::<char>::empty(), from: seq![Reg::QkvD], to: Reg::Vm },
        StepView { op: Op::Mha { kernel: Kernel::MhaD }, name: Seq::<char>::empty(), from: seq![Reg::Qm, Reg::Km, Reg::Vm], to: Reg::Om },
        StepView { op: Op::Gemm { kernel: Kernel::DO, rows: z.tokens, k: z.pd, n: z.d }, name: layer_name("d."@, i as nat, "o"@), from: seq![Reg::Om], to: Reg::C },
        StepView { op: Op::Residual { dim: z.d, bias: false }, name: Seq::<char>::empty(), from: seq![Reg::Xd, Reg::C], to: Reg::Xd },
        StepView { op: Op::LayerNorm { dim: z.d, eps: Eps::Default }, name: layer_name("d."@, i as nat, "ln2"@), from: seq![Reg::Xd], to: Reg::H },
    ]
}

fn push_encoder_attend(out: &mut Vec<Step>, z: &Sizes, i: usize)
    ensures
        views(final(out)@) == views(old(out)@) + encoder_attend_steps(*z, i),
{
    let ghost start = views(out@);
    put(out, Op::Tensor { rows: z.tokens, cols: z.d }, "d.pos".to_string(), none(), Reg::Pos);
    put(out, Op::LayerNorm { dim: z.d, eps: Eps::Default }, name_of("d.", i, "ln1"), one(Reg::Xd), Reg::H);
    put(out, Op::Add, String::new(), two(Reg::H, Reg::Pos), Reg::Hp);
    put(out, Op::Beside { dim: z.d, both: z.d2 }, String::new(), two(Reg::Hp, Reg::H), Reg::A);
    put(out, Op::Gemm { kernel: Kernel::DQkv, rows: z.tokens, k: z.d2, n: z.pd3 }, name_of("d.", i, "qkv"), one(Reg::A), Reg::QkvD);
    put(out, Op::Columns { width: z.pd3, off: 0, n: z.pd }, String::new(), one(Reg::QkvD), Reg::Qm);
    put(out, Op::Columns { width: z.pd3, off: z.pd, n: z.pd }, String::new(), one(Reg::QkvD), Reg::Km);
    put(out, Op::Columns { width: z.pd3, off: z.pd2, n: z.pd }, String::new(), one(Reg::QkvD), Reg::Vm);
    put(out, Op::Mha { kernel: Kernel::MhaD }, String::new(), three(Reg::Qm, Reg::Km, Reg::Vm), Reg::Om);
    put(out, Op::Gemm { kernel: Kernel::DO, rows: z.tokens, k: z.pd, n: z.d }, name_of("d.", i, "o"), one(Reg::Om), Reg::C);
    put(out, Op::Residual { dim: z.d, bias: false }, String::new(), two(Reg::Xd, Reg::C), Reg::Xd);
    put(out, Op::LayerNorm { dim: z.d, eps: Eps::Default }, name_of("d.", i, "ln2"), one(Reg::Xd), Reg::H);
    proof {
        assert(views(out@) =~= start + encoder_attend_steps(*z, i));
    }
}

/// The MLP of layer `i`.
pub open spec fn encoder_mlp_steps(z: Sizes, i: usize) -> Seq<StepView> {
    seq![
        StepView { op: Op::LayerNorm { dim: z.d, eps: Eps::Default }, name: layer_name("d."@, i as nat, "ln3"@), from: seq![Reg::Xd], to: Reg::H },
        StepView { op: Op::Narrow, name: Seq::<char>::empty(), from: seq![Reg::H], to: Reg::A },
        StepView { op: Op::GemmStay { kernel: Kernel::DFc1, rows: z.tokens, k: z.d }, name: layer_name("d."@, i as nat, "fc1"@), from: seq![Reg::A], to: Reg::Mid },
        StepView { op: Op::GemmOn { kernel: Kernel::DFc2, rows: z.tokens, n: z.d }, name: layer_name("d."@, i as nat, "fc2"@), from: seq![Reg::Mid], to: Reg::C },
        StepView { op: Op::Residual { dim: z.d, bias: true }, name: layer_name("d."@, i as nat, "fc2.b"@), from: seq![Reg::Xd, Reg::C], to: Reg::Xd },
    ]
}

fn push_encoder_mlp(out: &mut Vec<Step>, z: &Sizes, i: usize)
    ensures
        views(final(out)@) == views(old(out)@) + encoder_mlp_steps(*z, i),
{
    let ghost start = views(out@);
    put(out, Op::LayerNorm { dim: z.d, eps: Eps::Default }, name_of("d.", i, "ln3"), one(Reg::Xd), Reg::H);
    put(out, Op::Narrow, String::new(), one(Reg::H), Reg::A);
    put(out, Op::GemmStay { kernel: Kernel::DFc1, rows: z.tokens, k: z.d }, name_of("d.", i, "fc1"), one(Reg::A), Reg::Mid);
    put(out, Op::GemmOn { kernel: Kernel::DFc2, rows: z.tokens, n: z.d }, name_of("d.", i, "fc2"), one(Reg::Mid), Reg::C);
    put(out, Op::Residual { dim: z.d, bias: true }, name_of("d.", i, "fc2.b"), two(Reg::Xd, Reg::C), Reg::Xd);
    proof {
        assert(views(out@) =~= start + encoder_mlp_steps(*z, i));
    }
}

/// What the encoder hands on.
pub open spec fn encoder_end_steps(z: Sizes) -> Seq<StepView> {
    seq![
        StepView { op: Op::Copy, name: Seq::<char>::empty(), from: seq![Reg::Xd], to: Reg::Enc },
    ]
}

fn push_encoder_end(out: &mut Vec<Step>, z: &Sizes)
    ensures
        views(final(out)@) == views(old(out)@) + encoder_end_steps(*z),
{
    let ghost start = views(out@);
    put(out, Op::Copy, String::new(), one(Reg::Xd), Reg::Enc);
    proof {
        assert(views(out@) =~= start + encoder_end_steps(*z));
    }
}

/// The slots of layer `i`.
pub open spec fn layer_slot(i: nat) -> Seq<char> {
    "d."@ + decimal(i)
}

pub open spec fn encoder_layer_of(z: Sizes, i: usize) -> Seq<StepView> {
    fold_steps(z, layer_name("d."@, i as nat, "ca"@), layer_slot(i as nat)) + encoder_attend_steps(z, i) + cross_steps(
        z,
        layer_slot(i as nat),
    ) + encoder_mlp_steps(z, i)
}

/// The first `n` layers.
pub open spec fn encoder_layers(z: Sizes, n: nat) -> Seq<StepView>
    decreases n,
{
    if n == 0 {
        Seq::empty()
    } else {
        encoder_layers(z, (n - 1) as nat) + encoder_layer_of(z, (n - 1) as usize)
    }
}

fn push_encoder_layers(out: &mut Vec<Step>, z: &Sizes, n: usize)
    ensures
        views(final(out)@) == views(old(out)@) + encoder_layers(*z, n as nat),
{
    let ghost start = views(out@);
    let mut i: usize = 0;
    proof {
        assert(start + encoder_layers(*z, 0) =~= start);
    }
    while i < n
        invariant
            i <= n,
            views(out@) == start + encoder_layers(*z, i as nat),
        decreases n - i,
    {
        let slot = cat2("d.", decimal_of(i as u128).as_str());
        push_fold(out, z, name_of("d.", i, "ca").as_str(), slot.as_str());
        push_encoder_attend(out, z, i);
        push_cross(out, z, slot.as_str());
        push_encoder_mlp(out, z, i);
        proof {
            let p = encoder_layers(*z, i as nat);
            let q = encoder_layer_of(*z, i);
            assert(views(out@) =~= start + (p + q));
        }
        i += 1;
    }
}

/// The encoder, from the coarsest level and the prompt.
pub open spec fn encoder_program(z: Sizes, layers: nat) -> Seq<StepView> {
    encoder_start_steps(z) + encoder_layers(z, layers) + encoder_end_steps(z)
}

pub fn detr_encoder(z: &Sizes, layers: usize) -> (r: Vec<Step>)
    ensures
        views(r@) == encoder_program(*z, layers as nat),
{
    let mut out: Vec<Step> = Vec::new();
    push_encoder_start(&mut out, z);
    push_encoder_layers(&mut out, z, layers);
    push_encoder_end(&mut out, z);
    proof {
        assert(views(Seq::<Step>::empty()) + encoder_start_steps(*z) =~= encoder_start_steps(*z));
    }
    out
}

proof fn encoder_start_sizes(z: Sizes, e: Map<Reg, Shape>)
    requires
        z.sound(),
        holds(e, Reg::Feats, Shape::Reals(z.len as nat, z.d as nat)),
        holds(e, Reg::Valid, Shape::Flags(z.len as nat)),
        holds(e, Reg::F2, Shape::Reals((z.grid as nat) * (z.grid as nat), z.d as nat)),
    ensures
        encoder_start_steps(z).len() == 1,
        upto(encoder_start_steps(z), 1, e) is Some,
        holds(upto(encoder_start_steps(z), 1, e)->0, Reg::Feats, Shape::Reals(z.len as nat, z.d as nat)),
        holds(upto(encoder_start_steps(z), 1, e)->0, Reg::Valid, Shape::Flags(z.len as nat)),
        holds(upto(encoder_start_steps(z), 1, e)->0, Reg::Xd, Shape::Reals(z.tokens as nat, z.d as nat)),
{
    let p = encoder_start_steps(z);
    reveal_with_fuel(upto, 2);
}

#[verifier::rlimit(60)]
proof fn encoder_attend_sizes(z: Sizes, i: usize, e: Map<Reg, Shape>)
    requires
        z.sound(),
        holds(e, Reg::Feats, Shape::Reals(z.len as nat, z.d as nat)),
        holds(e, Reg::Valid, Shape::Flags(z.len as nat)),
        holds(e, Reg::Xd, Shape::Reals(z.tokens as nat, z.d as nat)),
        holds(e, Reg::SlotS, Shape::Packed(z.d as nat, (z.heads as nat) * (z.len as nat))),
        holds(e, Reg::SlotC, Shape::Packed((z.heads as nat) * (z.len as nat), z.d as nat)),
    ensures
        encoder_attend_steps(z, i).len() == 12,
        upto(encoder_attend_steps(z, i), 12, e) is Some,
        holds(upto(encoder_attend_steps(z, i), 12, e)->0, Reg::Feats, Shape::Reals(z.len as nat, z.d as nat)),
        holds(upto(encoder_attend_steps(z, i), 12, e)->0, Reg::Valid, Shape::Flags(z.len as nat)),
        holds(upto(encoder_attend_steps(z, i), 12, e)->0, Reg::Xd, Shape::Reals(z.tokens as nat, z.d as nat)),
        holds(upto(encoder_attend_steps(z, i), 12, e)->0, Reg::SlotS, Shape::Packed(z.d as nat, (z.heads as nat) * (z.len as nat))),
        holds(upto(encoder_attend_steps(z, i), 12, e)->0, Reg::SlotC, Shape::Packed((z.heads as nat) * (z.len as nat), z.d as nat)),
        holds(upto(encoder_attend_steps(z, i), 12, e)->0, Reg::H, Shape::Reals(z.tokens as nat, z.d as nat)),
{
    let p = encoder_attend_steps(z, i);
    reveal_with_fuel(upto, 13);
}

proof fn encoder_mlp_sizes(z: Sizes, i: usize, e: Map<Reg, Shape>)
    requires
        z.sound(),
        holds(e, Reg::Feats, Shape::Reals(z.len as nat, z.d as nat)),
        holds(e, Reg::Valid, Shape::Flags(z.len as nat)),
        holds(e, Reg::Xd, Shape::Reals(z.tokens as nat, z.d as nat)),
    ensures
        encoder_mlp_steps(z, i).len() == 5,
        upto(encoder_mlp_steps(z, i), 5, e) is Some,
        holds(upto(encoder_mlp_steps(z, i), 5, e)->0, Reg::Feats, Shape::Reals(z.len as nat, z.d as nat)),
        holds(upto(encoder_mlp_steps(z, i), 5, e)->0, Reg::Valid, Shape::Flags(z.len as nat)),
        holds(upto(encoder_mlp_steps(z, i), 5, e)->0, Reg::Xd, Shape::Reals(z.tokens as nat, z.d as nat)),
{
    let p = encoder_mlp_steps(z, i);
    reveal_with_fuel(upto, 6);
}

proof fn encoder_end_sizes(z: Sizes, e: Map<Reg, Shape>)
    requires
        z.sound(),
        holds(e, Reg::Xd, Shape::Reals(z.tokens as nat, z.d as nat)),
    ensures
        encoder_end_steps(z).len() == 1,
        upto(encoder_end_steps(z), 1, e) is Some,
        holds(upto(encoder_end_steps(z), 1, e)->0, Reg::Enc, Shape::Reals(z.tokens as nat, z.d as nat)),
{
    let p = encoder_end_steps(z);
    reveal_with_fuel(upto, 2);
}

/// What the encoder's layers keep: the prompt and the stream.
pub open spec fn encoder_ready(z: Sizes, e: Map<Reg, Shape>) -> bool {
    &&& holds(e, Reg::Feats, Shape::Reals(z.len as nat, z.d as nat))
    &&& holds(e, Reg::Valid, Shape::Flags(z.len as nat))
    &&& holds(e, Reg::Xd, Shape::Reals(z.tokens as nat, z.d as nat))
}

proof fn encoder_layer_runs(z: Sizes, i: usize, e: Map<Reg, Shape>)
    requires
        z.sound(),
        encoder_ready(z, e),
    ensures
        runs(encoder_layer_of(z, i), e) matches Some(x) && encoder_ready(z, x),
{
    let slot = layer_slot(i as nat);
    let p = fold_steps(z, layer_name("d."@, i as nat, "ca"@), slot);
    fold_sizes(z, layer_name("d."@, i as nat, "ca"@), slot, e);
    let a = runs(p, e)->0;
    encoder_attend_sizes(z, i, a);
    let b = runs(encoder_attend_steps(z, i), a)->0;
    running_in_turn(p, encoder_attend_steps(z, i), e);
    cross_sizes(z, slot, b);
    let d = runs(cross_steps(z, slot), b)->0;
    running_in_turn(p + encoder_attend_steps(z, i), cross_steps(z, slot), e);
    encoder_mlp_sizes(z, i, d);
    running_in_turn(p + encoder_attend_steps(z, i) + cross_steps(z, slot), encoder_mlp_steps(z, i), e);
}

proof fn encoder_layers_run(z: Sizes, layers: nat, e: Map<Reg, Shape>)
    requires
        z.sound(),
        layers <= usize::MAX,
        encoder_ready(z, e),
    ensures
        runs(encoder_layers(z, layers), e) matches Some(x) && encoder_ready(z, x),
    decreases layers,
{
    if layers > 0 {
        let i = (layers - 1) as usize;
        encoder_layers_run(z, (layers - 1) as nat, e);
        let a = runs(encoder_layers(z, (layers - 1) as nat), e)->0;
        encoder_layer_runs(z, i, a);
        running_in_turn(encoder_layers(z, (layers - 1) as nat), encoder_layer_of(z, i), e);
    }
}

/// The encoder's steps all find their operands, the packed slots of the
/// prompt among them; it ends with a row for every token.
pub proof fn encoder_fits(z: Sizes, layers: nat, e: Map<Reg, Shape>)
    requires
        z.sound(),
        layers <= usize::MAX,
        holds(e, Reg::Feats, Shape::Reals(z.len as nat, z.d as nat)),
        holds(e, Reg::Valid, Shape::Flags(z.len as nat)),
        holds(e, Reg::F2, Shape::Reals((z.grid as nat) * (z.grid as nat), z.d as nat)),
    ensures
        runs(encoder_program(z, layers), e) matches Some(x) && holds(x, Reg::Enc, Shape::Reals(z.tokens as nat, z.d as nat)),
{
    encoder_start_sizes(z, e);
    let a = runs(encoder_start_steps(z), e)->0;
    encoder_layers_run(z, layers, a);
    running_in_turn(encoder_start_steps(z), encoder_layers(z, layers), e);
    let b = runs(encoder_layers(z, layers), a)->0;
    encoder_end_sizes(z, b);
    running_in_turn(encoder_start_steps(z) + encoder_layers(z, layers), encoder_end_steps(z), e);
}

// ---------------------------------------------------------------------------
// The decoder.

/// Every layer's vision keys and values, the first boxes and the first states.
pub open spec fn decoder_start_steps(z: Sizes) -> Seq<StepView> {
    seq![
        StepView { op: Op::Tensor { rows: z.tokens, cols: z.d }, name: "d.pos"@, from: Seq::<Reg>::empty(), to: Reg::Pos },
        StepView { op: Op::Add, name: Seq::<char>::empty(), from: seq![Reg::Enc, Reg::Pos], to: Reg::Hp },
        StepView { op: Op::Beside { dim: z.d, both: z.d2 }, name: Seq::<char>::empty(), from: seq![Reg::Hp, Reg::Enc], to: Reg::A },
        StepView { op: Op::Gemm { kernel: Kernel::DecKv, rows: z.tokens, k: z.d2, n: z.kv }, name: "dec.kv"@, from: seq![Reg::A], to: Reg::KvD },
        StepView { op: Op::Tensor { rows: z.queries, cols: 4 }, name: "dec.reference_points"@, from: Seq::<Reg>::empty(), to: Reg::Ref },
        StepView { op: Op::Sigmoid, name: Seq::<char>::empty(), from: seq![Reg::Ref], to: Reg::Ref },
        StepView { op: Op::Tensor { rows: 1, cols: z.d }, name: "dec.presence_token"@, from: Seq::<Reg>::empty(), to: Reg::Tok },
        StepView { op: Op::Tensor { rows: z.queries, cols: z.d }, name: "dec.query_embed"@, from: Seq::<Reg>::empty(), to: Reg::Emb },
        StepView { op: Op::Stack, name: Seq::<char>::empty(), from: seq![Reg::Tok, Reg::Emb], to: Reg::Hs },
        StepView { op: Op::Zeros { rows: 0, cols: 4 }, name: Seq::<char>::empty(), from: Seq::<Reg>::empty(), to: Reg::LayerBoxes },
        StepView { op: Op::Zeros { rows: 0, cols: 1 }, name: Seq::<char>::empty(), from: Seq::<Reg>::empty(), to: Reg::LayerPresence },
    ]
}

fn push_decoder_start(out: &mut Vec<Step>, z: &Sizes)
    ensures
        views(final(out)@) == views(old(out)@) + decoder_start_steps(*z),
{
    let ghost start = views(out@);
    put(out, Op::Tensor { rows: z.tokens, cols: z.d }, "d.pos".to_string(), none(), Reg::Pos);
    put(out, Op::Add, String::new(), two(Reg::Enc, Reg::Pos), Reg::Hp);
    put(out, Op::Beside { dim: z.d, both: z.d2 }, String::new(), two(Reg::Hp, Reg::Enc), Reg::A);
    put(out, Op::Gemm { kernel: Kernel::DecKv, rows: z.tokens, k: z.d2, n: z.kv }, "dec.kv".to_string(), one(Reg::A), Reg::KvD);
    put(out, Op::Tensor { rows: z.queries, cols: 4 }, "dec.reference_points".to_string(), none(), Reg::Ref);
    put(out, Op::Sigmoid, String::new(), one(Reg::Ref), Reg::Ref);
    put(out, Op::Tensor { rows: 1, cols: z.d }, "dec.presence_token".to_string(), none(), Reg::Tok);
    put(out, Op::Tensor { rows: z.queries, cols: z.d }, "dec.query_embed".to_string(), none(), Reg::Emb);
    put(out, Op::Stack, String::new(), two(Reg::Tok, Reg::Emb), Reg::Hs);
    put(out, Op::Zeros { rows: 0, cols: 4 }, String::new(), none(), Reg::LayerBoxes);
    put(out, Op::Zeros { rows: 0, cols: 1 }, String::new(), none(), Reg::LayerPresence);
    proof {
        assert(views(out@) =~= start + decoder_start_steps(*z));
    }
}

/// Where the boxes are: the queries' positions and the bias of every grid row and column.
pub open spec fn decoder_places_steps(z: Sizes) -> Seq<StepView> {
    seq![
        StepView { op: Op::BoxSine { cols: z.d2 }, name: Seq::<char>::empty(), from: seq![Reg::Ref], to: Reg::Sine },
        StepView { op: Op::Mlp { n_in: z.d2, n_out: z.d, layers: 2 }, name: "dec.ref_point_head"@, from: seq![Reg::Sine], to: Reg::Qp },
        StepView { op: Op::Zeros { rows: 1, cols: z.d }, name: Seq::<char>::empty(), from: Seq::<Reg>::empty(), to: Reg::Tok },
        StepView { op: Op::Stack, name: Seq::<char>::empty(), from: seq![Reg::Tok, Reg::Qp], to: Reg::Qpos },
        StepView { op: Op::EdgeDistances { down: true, grid: z.grid }, name: Seq::<char>::empty(), from: seq![Reg::Ref], to: Reg::Edges },
        StepView { op: Op::Mlp { n_in: 2, n_out: z.heads, layers: 2 }, name: "dec.rpb_y"@, from: seq![Reg::Edges], to: Reg::Ry },
        StepView { op: Op::EdgeDistances { down: false, grid: z.grid }, name: Seq::<char>::empty(), from: seq![Reg::Ref], to: Reg::Edges },
        StepView { op: Op::Mlp { n_in: 2, n_out: z.heads, layers: 2 }, name: "dec.rpb_x"@, from: seq![Reg::Edges], to: Reg::Rx },
        StepView { op: Op::BiasByHead { heads: z.heads, boxes: z.queries, queries: z.queries1, grid: z.grid }, name: Seq::<char>::empty(), from: seq![Reg::Ry], to: Reg::By },
        StepView { op: Op::BiasByHead { heads: z.heads, boxes: z.queries, queries: z.queries1, grid: z.grid }, name: Seq::<char>::empty(), from: seq![Reg::Rx], to: Reg::Bx },
    ]
}

fn push_decoder_places(out: &mut Vec<Step>, z: &Sizes)
    ensures
        views(final(out)@) == views(old(out)@) + decoder_places_steps(*z),
{
    let ghost start = views(out@);
    put(out, Op::BoxSine { cols: z.d2 }, String::new(), one(Reg::Ref), Reg::Sine);
    put(out, Op::Mlp { n_in: z.d2, n_out: z.d, layers: 2 }, "dec.ref_point_head".to_string(), one(Reg::Sine), Reg::Qp);
    put(out, Op::Zeros { rows: 1, cols: z.d }, String::new(), none(), Reg::Tok);
    put(out, Op::Stack, String::new(), two(Reg::Tok, Reg::Qp), Reg::Qpos);
    put(out, Op::EdgeDistances { down: true, grid: z.grid }, String::new(), one(Reg::Ref), Reg::Edges);
    put(out, Op::Mlp { n_in: 2, n_out: z.heads, layers: 2 }, "dec.rpb_y".to_string(), one(Reg::Edges), Reg::Ry);
    put(out, Op::EdgeDistances { down: false, grid: z.grid }, String::new(), one(Reg::Ref), Reg::Edges);
    put(out, Op::Mlp { n_in: 2, n_out: z.heads, layers: 2 }, "dec.rpb_x".to_string(), one(Reg::Edges), Reg::Rx);
    put(out, Op::BiasByHead { heads: z.heads, boxes: z.queries, queries: z.queries1, grid: z.grid }, String::new(), one(Reg::Ry), Reg::By);
    put(out, Op::BiasByHead { heads: z.heads, boxes: z.queries, queries: z.queries1, grid: z.grid }, String::new(), one(Reg::Rx), Reg::Bx);
    proof {
        assert(views(out@) =~= start + decoder_places_steps(*z));
    }
}

/// Self-attention of layer `i`.
pub open spec fn decoder_self_steps(z: Sizes, i: usize) -> Seq<StepView> {
    seq![
        StepView { op: Op::Add, name: Seq::<char>::empty(), from: seq![Reg::Hs, Reg::Qpos], to: Reg::Qk },
        StepView { op: Op::Linear { n_in: z.d, n_out: z.d, half: false }, name: layer_name("dec."@, i as nat, "sa.q"@), from: seq![Reg::Qk], to: Reg::Qd },
        StepView { op: Op::Linear { n_in: z.d, n_out: z.d, half: false }, name: layer_name("dec."@, i as nat, "sa.k"@), from: seq![Reg::Qk], to: Reg::Kd },
        StepView { op: Op::Linear { n_in: z.d, n_out: z.d, half: false }, name: layer_name("dec."@, i as nat, "sa.v"@), from: seq![Reg::Hs], to: Reg::Vd },
        StepView { op: Op::Attend { heads: z.heads, dim: z.d }, name: Seq::<char>::empty(), from: seq![Reg::Qd, Reg::Kd, Reg::Vd], to: Reg::At },
        StepView { op: Op::Linear { n_in: z.d, n_out: z.d, half: false }, name: layer_name("dec."@, i as nat, "sa.o"@), from: seq![Reg::At], to: Reg::Oa },
        StepView { op: Op::Add, name: Seq::<char>::empty(), from: seq![Reg::Oa, Reg::Hs], to: Reg::Oa },
        StepView { op: Op::LayerNorm { dim: z.d, eps: Eps::Default }, name: layer_name("dec."@, i as nat, "sa_ln"@), from: seq![Reg::Oa], to: Reg::Hs },
    ]
}

fn push_decoder_self(out: &mut Vec<Step>, z: &Sizes, i: usize)
    ensures
        views(final(out)@) == views(old(out)@) + decoder_self_steps(*z, i),
{
    let ghost start = views(out@);
    put(out, Op::Add, String::new(), two(Reg::Hs, Reg::Qpos), Reg::Qk);
    put(out, Op::Linear { n_in: z.d, n_out: z.d, half: false }, name_of("dec.", i, "sa.q"), one(Reg::Qk), Reg::Qd);
    put(out, Op::Linear { n_in: z.d, n_out: z.d, half: false }, name_of("dec.", i, "sa.k"), one(Reg::Qk), Reg::Kd);
    put(out, Op::Linear { n_in: z.d, n_out: z.d, half: false }, name_of("dec.", i, "sa.v"), one(Reg::Hs), Reg::Vd);
    put(out, Op::Attend { heads: z.heads, dim: z.d }, String::new(), three(Reg::Qd, Reg::Kd, Reg::Vd), Reg::At);
    put(out, Op::Linear { n_in: z.d, n_out: z.d, half: false }, name_of("dec.", i, "sa.o"), one(Reg::At), Reg::Oa);
    put(out, Op::Add, String::new(), two(Reg::Oa, Reg::Hs), Reg::Oa);
    put(out, Op::LayerNorm { dim: z.d, eps: Eps::Default }, name_of("dec.", i, "sa_ln"), one(Reg::Oa), Reg::Hs);
    proof {
        assert(views(out@) =~= start + decoder_self_steps(*z, i));
    }
}

/// Attention to the prompt in layer `i`.
pub open spec fn decoder_text_steps(z: Sizes, i: usize) -> Seq<StepView> {
    seq![
        StepView { op: Op::Add, name: Seq::<char>::empty(), from: seq![Reg::Hs, Reg::Qpos], to: Reg::Qk },
        StepView { op: Op::Linear { n_in: z.d, n_out: z.d, half: false }, name: layer_name("dec."@, i as nat, "tca.q"@), from: seq![Reg::Qk], to: Reg::Qd },
        StepView { op: Op::Linear { n_in: z.d, n_out: z.d, half: false }, name: layer_name("dec."@, i as nat, "tca.k"@), from: seq![Reg::Feats], to: Reg::Kd },
        StepView { op: Op::Linear { n_in: z.d, n_out: z.d, half: false }, name: layer_name("dec."@, i as nat, "tca.v"@), from: seq![Reg::Feats], to: Reg::Vd },
        StepView { op: Op::AttendValid { heads: z.heads, dim: z.d }, name: Seq::<char>::empty(), from: seq![Reg::Qd, Reg::Kd, Reg::Vd, Reg::Valid], to: Reg::At },
        StepView { op: Op::Linear { n_in: z.d, n_out: z.d, half: false }, name: layer_name("dec."@, i as nat, "tca.o"@), from: seq![Reg::At], to: Reg::Oa },
        StepView { op: Op::Add, name: Seq::<char>::empty(), from: seq![Reg::Oa, Reg::Hs], to: Reg::Oa },
        StepView { op: Op::LayerNorm { dim: z.d, eps: Eps::Default }, name: layer_name("dec."@, i as nat, "tca_ln"@), from: seq![Reg::Oa], to: Reg::Hs },
    ]
}

fn push_decoder_text(out: &mut Vec<Step>, z: &Sizes, i: usize)
    ensures
        views(final(out)@) == views(old(out)@) + decoder_text_steps(*z, i),
{
    let ghost start = views(out@);
    put(out, Op::Add, String::new(), two(Reg::Hs, Reg::Qpos), Reg::Qk);
    put(out, Op::Linear { n_in: z.d, n_out: z.d, half: false }, name_of("dec.", i, "tca.q"), one(Reg::Qk), Reg::Qd);
    put(out, Op::Linear { n_in: z.d, n_out: z.d, half: false }, name_of("dec.", i, "tca.k"), one(Reg::Feats), Reg::Kd);
    put(out, Op::Linear { n_in: z.d, n_out: z.d, half: false }, name_of("dec.", i, "tca.v"), one(Reg::Feats), Reg::Vd);
    put(out, Op::AttendValid { heads: z.heads, dim: z.d }, String::new(), four(Reg::Qd, Reg::Kd, Reg::Vd, Reg::Valid), Reg::At);
    put(out, Op::Linear { n_in: z.d, n_out: z.d, half: false }, name_of("dec.", i, "tca.o"), one(Reg::At), Reg::Oa);
    put(out, Op::Add, String::new(), two(Reg::Oa, Reg::Hs), Reg::Oa);
    put(out, Op::LayerNorm { dim: z.d, eps: Eps::Default }, name_of("dec.", i, "tca_ln"), one(Reg::Oa), Reg::Hs);
    proof {
        assert(views(out@) =~= start + decoder_text_steps(*z, i));
    }
}

/// Attention to the image in layer `i`, biased by the boxes.
pub open spec fn decoder_vision_steps(z: Sizes, i: usize) -> Seq<StepView> {
    let koff = (i * z.d2) as usize;
    let voff = (i * z.d2 + z.d) as usize;
    seq![
        StepView { op: Op::Add, name: Seq::<char>::empty(), from: seq![Reg::Hs, Reg::Qpos], to: Reg::Qk },
        StepView { op: Op::Linear { n_in: z.d, n_out: z.d, half: false }, name: layer_name("dec."@, i as nat, "vca.q"@), from: seq![Reg::Qk], to: Reg::Qd },
        StepView { op: Op::ByHead { tokens: z.tokens, heads: z.heads, hd: z.hd, width: z.kv, off: voff }, name: Seq::<char>::empty(), from: seq![Reg::KvD], to: Reg::Vb },
        StepView { op: Op::Widen, name: Seq::<char>::empty(), from: seq![Reg::Vb], to: Reg::Vh },
        StepView { op: Op::Planes { rows: z.tokens, width: z.kv, off: koff, planes: z.d }, name: Seq::<char>::empty(), from: seq![Reg::KvD], to: Reg::Kb },
        StepView { op: Op::Widen, name: Seq::<char>::empty(), from: seq![Reg::Kb], to: Reg::Kt },
        StepView { op: Op::AttendGrid { heads: z.heads, hd: z.hd, dim: z.d, grid: z.grid, queries: z.queries1 }, name: Seq::<char>::empty(), from: seq![Reg::Qd, Reg::Kt, Reg::Vh, Reg::By, Reg::Bx], to: Reg::At },
        StepView { op: Op::Linear { n_in: z.d, n_out: z.d, half: false }, name: layer_name("dec."@, i as nat, "vca.o"@), from: seq![Reg::At], to: Reg::Oa },
        StepView { op: Op::Add, name: Seq::<char>::empty(), from: seq![Reg::Oa, Reg::Hs], to: Reg::Oa },
        StepView { op: Op::LayerNorm { dim: z.d, eps: Eps::Default }, name: layer_name("dec."@, i as nat, "vca_ln"@), from: seq![Reg::Oa], to: Reg::Hs },
    ]
}

fn push_decoder_vision(out: &mut Vec<Step>, z: &Sizes, i: usize)
    requires
        z.d <= z.d2,
        i * z.d2 + z.d2 <= z.kv,
    ensures
        views(final(out)@) == views(old(out)@) + decoder_vision_steps(*z, i),
{
    let ghost start = views(out@);
    let koff: usize = i * z.d2;
    let voff: usize = koff + z.d;
    put(out, Op::Add, String::new(), two(Reg::Hs, Reg::Qpos), Reg::Qk);
    put(out, Op::Linear { n_in: z.d, n_out: z.d, half: false }, name_of("dec.", i, "vca.q"), one(Reg::Qk), Reg::Qd);
    put(out, Op::ByHead { tokens: z.tokens, heads: z.heads, hd: z.hd, width: z.kv, off: voff }, String::new(), one(Reg::KvD), Reg::Vb);
    put(out, Op::Widen, String::new(), one(Reg::Vb), Reg::Vh);
    put(out, Op::Planes { rows: z.tokens, width: z.kv, off: koff, planes: z.d }, String::new(), one(Reg::KvD), Reg::Kb);
    put(out, Op::Widen, String::new(), one(Reg::Kb), Reg::Kt);
    put(out, Op::AttendGrid { heads: z.heads, hd: z.hd, dim: z.d, grid: z.grid, queries: z.queries1 }, String::new(), five(Reg::Qd, Reg::Kt, Reg::Vh, Reg::By, Reg::Bx), Reg::At);
    put(out, Op::Linear { n_in: z.d, n_out: z.d, half: false }, name_of("dec.", i, "vca.o"), one(Reg::At), Reg::Oa);
    put(out, Op::Add, String::new(), two(Reg::Oa, Reg::Hs), Reg::Oa);
    put(out, Op::LayerNorm { dim: z.d, eps: Eps::Default }, name_of("dec.", i, "vca_ln"), one(Reg::Oa), Reg::Hs);
    proof {
        assert(views(out@) =~= start + decoder_vision_steps(*z, i));
    }
}

/// The MLP of layer `i`.
pub open spec fn decoder_mlp_steps(z: Sizes, i: usize) -> Seq<StepView> {
    seq![
        StepView { op: Op::Linear { n_in: z.d, n_out: z.ffn, half: false }, name: layer_name("dec."@, i as nat, "fc1"@), from: seq![Reg::Hs], to: Reg::Fd },
        StepView { op: Op::Relu, name: Seq::<char>::empty(), from: seq![Reg::Fd], to: Reg::Fd },
        StepView { op: Op::Linear { n_in: z.ffn, n_out: z.d, half: false }, name: layer_name("dec."@, i as nat, "fc2"@), from: seq![Reg::Fd], to: Reg::Fd },
        StepView { op: Op::Add, name: Seq::<char>::empty(), from: seq![Reg::Fd, Reg::Hs], to: Reg::Fd },
        StepView { op: Op::LayerNorm { dim: z.d, eps: Eps::Default }, name: layer_name("dec."@, i as nat, "mlp_ln"@), from: seq![Reg::Fd], to: Reg::Hs },
    ]
}

fn push_decoder_mlp(out: &mut Vec<Step>, z: &Sizes, i: usize)
    ensures
        views(final(out)@) == views(old(out)@) + decoder_mlp_steps(*z, i),
{
    let ghost start = views(out@);
    put(out, Op::Linear { n_in: z.d, n_out: z.ffn, half: false }, name_of("dec.", i, "fc1"), one(Reg::Hs), Reg::Fd);
    put(out, Op::Relu, String::new(), one(Reg::Fd), Reg::Fd);
    put(out, Op::Linear { n_in: z.ffn, n_out: z.d, half: false }, name_of("dec.", i, "fc2"), one(Reg::Fd), Reg::Fd);
    put(out, Op::Add, String::new(), two(Reg::Fd, Reg::Hs), Reg::Fd);
    put(out, Op::LayerNorm { dim: z.d, eps: Eps::Default }, name_of("dec.", i, "mlp_ln"), one(Reg::Fd), Reg::Hs);
    proof {
        assert(views(out@) =~= start + decoder_mlp_steps(*z, i));
    }
}

/// The boxes refined by the queries, the presence from the token before them.
pub open spec fn decoder_heads_steps(z: Sizes) -> Seq<StepView> {
    seq![
        StepView { op: Op::SkipRows { rows: 1 }, name: Seq::<char>::empty(), from: seq![Reg::Hs], to: Reg::Hq },
        StepView { op: Op::LayerNorm { dim: z.d, eps: Eps::Default }, name: "dec.out_ln"@, from: seq![Reg::Hq], to: Reg::Normed },
        StepView { op: Op::Mlp { n_in: z.d, n_out: 4, layers: 3 }, name: "dec.box_head"@, from: seq![Reg::Normed], to: Reg::Delta },
        StepView { op: Op::Refine, name: Seq::<char>::empty(), from: seq![Reg::Ref, Reg::Delta], to: Reg::Ref },
        StepView { op: Op::FirstRows { rows: 1 }, name: Seq::<char>::empty(), from: seq![Reg::Hs], to: Reg::Hq },
        StepView { op: Op::LayerNorm { dim: z.d, eps: Eps::Default }, name: "dec.presence_ln"@, from: seq![Reg::Hq], to: Reg::Hq },
        StepView { op: Op::Mlp { n_in: z.d, n_out: 1, layers: 3 }, name: "dec.presence_head"@, from: seq![Reg::Hq], to: Reg::Presence },
        StepView { op: Op::Clamp { bound: 10 }, name: Seq::<char>::empty(), from: seq![Reg::Presence], to: Reg::Presence },
        StepView { op: Op::Stack, name: Seq::<char>::empty(), from: seq![Reg::LayerBoxes, Reg::Ref], to: Reg::LayerBoxes },
        StepView { op: Op::Stack, name: Seq::<char>::empty(), from: seq![Reg::LayerPresence, Reg::Presence], to: Reg::LayerPresence },
    ]
}

fn push_decoder_heads(out: &mut Vec<Step>, z: &Sizes)
    ensures
        views(final(out)@) == views(old(out)@) + decoder_heads_steps(*z),
{
    let ghost start = views(out@);
    put(out, Op::SkipRows { rows: 1 }, String::new(), one(Reg::Hs), Reg::Hq);
    put(out, Op::LayerNorm { dim: z.d, eps: Eps::Default }, "dec.out_ln".to_string(), one(Reg::Hq), Reg::Normed);
    put(out, Op::Mlp { n_in: z.d, n_out: 4, layers: 3 }, "dec.box_head".to_string(), one(Reg::Normed), Reg::Delta);
    put(out, Op::Refine, String::new(), two(Reg::Ref, Reg::Delta), Reg::Ref);
    put(out, Op::FirstRows { rows: 1 }, String::new(), one(Reg::Hs), Reg::Hq);
    put(out, Op::LayerNorm { dim: z.d, eps: Eps::Default }, "dec.presence_ln".to_string(), one(Reg::Hq), Reg::Hq);
    put(out, Op::Mlp { n_in: z.d, n_out: 1, layers: 3 }, "dec.presence_head".to_string(), one(Reg::Hq), Reg::Presence);
    put(out, Op::Clamp { bound: 10 }, String::new(), one(Reg::Presence), Reg::Presence);
    put(out, Op::Stack, String::new(), two(Reg::LayerBoxes, Reg::Ref), Reg::LayerBoxes);
    put(out, Op::Stack, String::new(), two(Reg::LayerPresence, Reg::Presence), Reg::LayerPresence);
    proof {
        assert(views(out@) =~= start + decoder_heads_steps(*z));
    }
}

/// The boxes' corners and the queries' scores against the prompt.
pub open spec fn decoder_end_steps(z: Sizes) -> Seq<StepView> {
    seq![
        StepView { op: Op::Corners, name: Seq::<char>::empty(), from: seq![Reg::Ref], to: Reg::Boxes },
        StepView { op: Op::Mlp { n_in: z.d, n_out: z.d, layers: 2 }, name: "score.text_mlp"@, from: seq![Reg::Feats], to: Reg::T },
        StepView { op: Op::Add, name: Seq::<char>::empty(), from: seq![Reg::T, Reg::Feats], to: Reg::T },
        StepView { op: Op::LayerNorm { dim: z.d, eps: Eps::Default }, name: "score.text_ln"@, from: seq![Reg::T], to: Reg::T },
        StepView { op: Op::MeanValid, name: Seq::<char>::empty(), from: seq![Reg::T, Reg::Valid], to: Reg::T },
        StepView { op: Op::Linear { n_in: z.d, n_out: z.d, half: false }, name: "score.text_proj"@, from: seq![Reg::T], to: Reg::T },
        StepView { op: Op::Linear { n_in: z.d, n_out: z.d, half: false }, name: "score.query_proj"@, from: seq![Reg::Normed], to: Reg::Qd },
        StepView { op: Op::ScaledDot { dim: z.d, bound: 12 }, name: Seq::<char>::empty(), from: seq![Reg::Qd, Reg::T], to: Reg::Logits },
    ]
}

fn push_decoder_end(out: &mut Vec<Step>, z: &Sizes)
    ensures
        views(final(out)@) == views(old(out)@) + decoder_end_steps(*z),
{
    let ghost start = views(out@);
    put(out, Op::Corners, String::new(), one(Reg::Ref), Reg::Boxes);
    put(out, Op::Mlp { n_in: z.d, n_out: z.d, layers: 2 }, "score.text_mlp".to_string(), one(Reg::Feats), Reg::T);
    put(out, Op::Add, String::new(), two(Reg::T, Reg::Feats), Reg::T);
    put(out, Op::LayerNorm { dim: z.d, eps: Eps::Default }, "score.text_ln".to_string(), one(Reg::T), Reg::T);
    put(out, Op::MeanValid, String::new(), two(Reg::T, Reg::Valid), Reg::T);
    put(out, Op::Linear { n_in: z.d, n_out: z.d, half: false }, "score.text_proj".to_string(), one(Reg::T), Reg::T);
    put(out, Op::Linear { n_in: z.d, n_out: z.d, half: false }, "score.query_proj".to_string(), one(Reg::Normed), Reg::Qd);
    put(out, Op::ScaledDot { dim: z.d, bound: 12 }, String::new(), two(Reg::Qd, Reg::T), Reg::Logits);
    proof {
        assert(views(out@) =~= start + decoder_end_steps(*z));
    }
}

pub open spec fn decoder_layer_of(z: Sizes, i: usize) -> Seq<StepView> {
    decoder_places_steps(z) + decoder_self_steps(z, i) + decoder_text_steps(z, i) + decoder_vision_steps(z, i)
        + decoder_mlp_steps(z, i) + decoder_heads_steps(z)
}

/// The first `n` layers.
pub open spec fn decoder_layers(z: Sizes, n: nat) -> Seq<StepView>
    decreases n,
{
    if n == 0 {
        Seq::empty()
    } else {
        decoder_layers(z, (n - 1) as nat) + decoder_layer_of(z, (n - 1) as usize)
    }
}

fn push_decoder_layers(out: &mut Vec<Step>, z: &Sizes, n: usize)
    requires
        z.d <= z.d2,
        n * z.d2 <= z.kv,
    ensures
        views(final(out)@) == views(old(out)@) + decoder_layers(*z, n as nat),
{
    let ghost start = views(out@);
    let mut i: usize = 0;
    proof {
        assert(start + decoder_layers(*z, 0) =~= start);
    }
    while i < n
        invariant
            i <= n,
            z.d <= z.d2,
            n * z.d2 <= z.kv,
            views(out@) == start + decoder_layers(*z, i as nat),
        decreases n - i,
    {
        proof {
            assert(i * z.d2 + z.d2 <= n * z.d2) by (nonlinear_arith)
                requires
                    i < n,
            ;
        }
        push_decoder_places(out, z);
        push_decoder_self(out, z, i);
        push_decoder_text(out, z, i);
        push_decoder_vision(out, z, i);
        push_decoder_mlp(out, z, i);
        push_decoder_heads(out, z);
        proof {
            let p = decoder_layers(*z, i as nat);
            let q = decoder_layer_of(*z, i);
            assert(views(out@) =~= start + (p + q));
        }
        i += 1;
    }
}

/// The decoder and the scoring, from the encoder's output and the prompt.
pub open spec fn decoder_program(z: Sizes, layers: nat) -> Seq<StepView> {
    decoder_start_steps(z) + decoder_layers(z, layers) + decoder_end_steps(z)
}

/// Every layer's keys and values lie in what the kernel gives, and there is a
/// last layer to take the presence from.
pub fn detr_decoder(z: &Sizes, layers: usize) -> (r: Vec<Step>)
    requires
        layers > 0,
        z.d <= z.d2,
        layers * z.d2 <= z.kv,
    ensures
        views(r@) == decoder_program(*z, layers as nat),
{
    let mut out: Vec<Step> = Vec::new();
    push_decoder_start(&mut out, z);
    push_decoder_layers(&mut out, z, layers);
    push_decoder_end(&mut out, z);
    proof {
        assert(views(Seq::<Step>::empty()) + decoder_start_steps(*z) =~= decoder_start_steps(*z));
    }
    out
}

proof fn decoder_start_sizes(z: Sizes, e: Map<Reg, Shape>)
    requires
        z.sound(),
        holds(e, Reg::Feats, Shape::Reals(z.len as nat, z.d as nat)),
        holds(e, Reg::Valid, Shape::Flags(z.len as nat)),
        holds(e, Reg::Enc, Shape::Reals(z.tokens as nat, z.d as nat)),
    ensures
        decoder_start_steps(z).len() == 11,
        upto(decoder_start_steps(z), 11, e) is Some,
        holds(upto(decoder_start_steps(z), 11, e)->0, Reg::Feats, Shape::Reals(z.len as nat, z.d as nat)),
        holds(upto(decoder_start_steps(z), 11, e)->0, Reg::Valid, Shape::Flags(z.len as nat)),
        holds(upto(decoder_start_steps(z), 11, e)->0, Reg::KvD, Shape::Halves(z.tokens as nat, z.kv as nat)),
        holds(upto(decoder_start_steps(z), 11, e)->0, Reg::Hs, Shape::Reals(z.queries1 as nat, z.d as nat)),
        holds(upto(decoder_start_steps(z), 11, e)->0, Reg::Ref, Shape::Reals(z.queries as nat, 4 as nat)),
        holds(upto(decoder_start_steps(z), 11, e)->0, Reg::LayerBoxes, Shape::Reals(0 as nat, 4 as nat)),
        holds(upto(decoder_start_steps(z), 11, e)->0, Reg::LayerPresence, Shape::Reals(0 as nat, 1 as nat)),
{
    let p = decoder_start_steps(z);
    reveal_with_fuel(upto, 12);
}

proof fn decoder_places_sizes(z: Sizes, i: usize, e: Map<Reg, Shape>)
    requires
        z.sound(),
        holds(e, Reg::Feats, Shape::Reals(z.len as nat, z.d as nat)),
        holds(e, Reg::Valid, Shape::Flags(z.len as nat)),
        holds(e, Reg::KvD, Shape::Halves(z.tokens as nat, z.kv as nat)),
        holds(e, Reg::Hs, Shape::Reals(z.queries1 as nat, z.d as nat)),
        holds(e, Reg::Ref, Shape::Reals(z.queries as nat, 4 as nat)),
        holds(e, Reg::LayerBoxes, Shape::Reals(i as nat * z.queries as nat, 4)),
        holds(e, Reg::LayerPresence, Shape::Reals(i as nat, 1)),
    ensures
        decoder_places_steps(z).len() == 10,
        upto(decoder_places_steps(z), 10, e) is Some,
        holds(upto(decoder_places_steps(z), 10, e)->0, Reg::Feats, Shape::Reals(z.len as nat, z.d as nat)),
        holds(upto(decoder_places_steps(z), 10, e)->0, Reg::Valid, Shape::Flags(z.len as nat)),
        holds(upto(decoder_places_steps(z), 10, e)->0, Reg::KvD, Shape::Halves(z.tokens as nat, z.kv as nat)),
        holds(upto(decoder_places_steps(z), 10, e)->0, Reg::Hs, Shape::Reals(z.queries1 as nat, z.d as nat)),
        holds(upto(decoder_places_steps(z), 10, e)->0, Reg::Ref, Shape::Reals(z.queries as nat, 4 as nat)),
        holds(upto(decoder_places_steps(z), 10, e)->0, Reg::LayerBoxes, Shape::Reals(i as nat * z.queries as nat, 4)),
        holds(upto(decoder_places_steps(z), 10, e)->0, Reg::LayerPresence, Shape::Reals(i as nat, 1)),
        holds(upto(decoder_places_steps(z), 10, e)->0, Reg::Qpos, Shape::Reals(z.queries1 as nat, z.d as nat)),
        holds(upto(decoder_places_steps(z), 10, e)->0, Reg::By, Shape::Reals((z.heads as nat) * (z.queries1 as nat), z.grid as nat)),
        holds(upto(decoder_places_steps(z), 10, e)->0, Reg::Bx, Shape::Reals((z.heads as nat) * (z.queries1 as nat), z.grid as nat)),
{
    let p = decoder_places_steps(z);
    reveal_with_fuel(upto, 11);
}

proof fn decoder_self_sizes(z: Sizes, i: usize, e: Map<Reg, Shape>)
    requires
        z.sound(),
        holds(e, Reg::Feats, Shape::Reals(z.len as nat, z.d as nat)),
        holds(e, Reg::Valid, Shape::Flags(z.len as nat)),
        holds(e, Reg::KvD, Shape::Halves(z.tokens as nat, z.kv as nat)),
        holds(e, Reg::Hs, Shape::Reals(z.queries1 as nat, z.d as nat)),
        holds(e, Reg::Ref, Shape::Reals(z.queries as nat, 4 as nat)),
        holds(e, Reg::LayerBoxes, Shape::Reals(i as nat * z.queries as nat, 4)),
        holds(e, Reg::LayerPresence, Shape::Reals(i as nat, 1)),
        holds(e, Reg::Qpos, Shape::Reals(z.queries1 as nat, z.d as nat)),
        holds(e, Reg::By, Shape::Reals((z.heads as nat) * (z.queries1 as nat), z.grid as nat)),
        holds(e, Reg::Bx, Shape::Reals((z.heads as nat) * (z.queries1 as nat), z.grid as nat)),
    ensures
        decoder_self_steps(z, i).len() == 8,
        upto(decoder_self_steps(z, i), 8, e) is Some,
        holds(upto(decoder_self_steps(z, i), 8, e)->0, Reg::Feats, Shape::Reals(z.len as nat, z.d as nat)),
        holds(upto(decoder_self_steps(z, i), 8, e)->0, Reg::Valid, Shape::Flags(z.len as nat)),
        holds(upto(decoder_self_steps(z, i), 8, e)->0, Reg::KvD, Shape::Halves(z.tokens as nat, z.kv as nat)),
        holds(upto(decoder_self_steps(z, i), 8, e)->0, Reg::Hs, Shape::Reals(z.queries1 as nat, z.d as nat)),
        holds(upto(decoder_self_steps(z, i), 8, e)->0, Reg::Ref, Shape::Reals(z.queries as nat, 4 as nat)),
        holds(upto(decoder_self_steps(z, i), 8, e)->0, Reg::LayerBoxes, Shape::Reals(i as nat * z.queries as nat, 4)),
        holds(upto(decoder_self_steps(z, i), 8, e)->0, Reg::LayerPresence, Shape::Reals(i as nat, 1)),
        holds(upto(decoder_self_steps(z, i), 8, e)->0, Reg::Qpos, Shape::Reals(z.queries1 as nat, z.d as nat)),
        holds(upto(decoder_self_steps(z, i), 8, e)->0, Reg::By, Shape::Reals((z.heads as nat) * (z.queries1 as nat), z.grid as nat)),
        holds(upto(decoder_self_steps(z, i), 8, e)->0, Reg::Bx, Shape::Reals((z.heads as nat) * (z.queries1 as nat), z.grid as nat)),
{
    let p = decoder_self_steps(z, i);
    reveal_with_fuel(upto, 9);
}

proof fn decoder_text_sizes(z: Sizes, i: usize, e: Map<Reg, Shape>)
    requires
        z.sound(),
        holds(e, Reg::Feats, Shape::Reals(z.len as nat, z.d as nat)),
        holds(e, Reg::Valid, Shape::Flags(z.len as nat)),
        holds(e, Reg::KvD, Shape::Halves(z.tokens as nat, z.kv as nat)),
        holds(e, Reg::Hs, Shape::Reals(z.queries1 as nat, z.d as nat)),
        holds(e, Reg::Ref, Shape::Reals(z.queries as nat, 4 as nat)),
        holds(e, Reg::LayerBoxes, Shape::Reals(i as nat * z.queries as nat, 4)),
        holds(e, Reg::LayerPresence, Shape::Reals(i as nat, 1)),
        holds(e, Reg::Qpos, Shape::Reals(z.queries1 as nat, z.d as nat)),
        holds(e, Reg::By, Shape::Reals((z.heads as nat) * (z.queries1 as nat), z.grid as nat)),
        holds(e, Reg::Bx, Shape::Reals((z.heads as nat) * (z.queries1 as nat), z.grid as nat)),
    ensures
        decoder_text_steps(z, i).len() == 8,
        upto(decoder_text_steps(z, i), 8, e) is Some,
        holds(upto(decoder_text_steps(z, i), 8, e)->0, Reg::Feats, Shape::Reals(z.len as nat, z.d as nat)),
        holds(upto(decoder_text_steps(z, i), 8, e)->0, Reg::Valid, Shape::Flags(z.len as nat)),
        holds(upto(decoder_text_steps(z, i), 8, e)->0, Reg::KvD, Shape::Halves(z.tokens as nat, z.kv as nat)),
        holds(upto(decoder_text_steps(z, i), 8, e)->0, Reg::Hs, Shape::Reals(z.queries1 as nat, z.d as nat)),
        holds(upto(decoder_text_steps(z, i), 8, e)->0, Reg::Ref, Shape::Reals(z.queries as nat, 4 as nat)),
        holds(upto(decoder_text_steps(z, i), 8, e)->0, Reg::LayerBoxes, Shape::Reals(i as nat * z.queries as nat, 4)),
        holds(upto(decoder_text_steps(z, i), 8, e)->0, Reg::LayerPresence, Shape::Reals(i as nat, 1)),
        holds(upto(decoder_text_steps(z, i), 8, e)->0, Reg::Qpos, Shape::Reals(z.queries1 as nat, z.d as nat)),
        holds(upto(decoder_text_steps(z, i), 8, e)->0, Reg::By, Shape::Reals((z.heads as nat) * (z.queries1 as nat), z.grid as nat)),
        holds(upto(decoder_text_steps(z, i), 8, e)->0, Reg::Bx, Shape::Reals((z.heads as nat) * (z.queries1 as nat), z.grid as nat)),
{
    let p = decoder_text_steps(z, i);
    reveal_with_fuel(upto, 9);
}

proof fn decoder_vision_sizes(z: Sizes, i: usize, e: Map<Reg, Shape>)
    requires
        z.sound(),
        i * z.d2 + z.d2 <= z.kv,
        holds(e, Reg::Feats, Shape::Reals(z.len as nat, z.d as nat)),
        holds(e, Reg::Valid, Shape::Flags(z.len as nat)),
        holds(e, Reg::KvD, Shape::Halves(z.tokens as nat, z.kv as nat)),
        holds(e, Reg::Hs, Shape::Reals(z.queries1 as nat, z.d as nat)),
        holds(e, Reg::Ref, Shape::Reals(z.queries as nat, 4 as nat)),
        holds(e, Reg::LayerBoxes, Shape::Reals(i as nat * z.queries as nat, 4)),
        holds(e, Reg::LayerPresence, Shape::Reals(i as nat, 1)),
        holds(e, Reg::Qpos, Shape::Reals(z.queries1 as nat, z.d as nat)),
        holds(e, Reg::By, Shape::Reals((z.heads as nat) * (z.queries1 as nat), z.grid as nat)),
        holds(e, Reg::Bx, Shape::Reals((z.heads as nat) * (z.queries1 as nat), z.grid as nat)),
    ensures
        decoder_vision_steps(z, i).len() == 10,
        upto(decoder_vision_steps(z, i), 10, e) is Some,
        holds(upto(decoder_vision_steps(z, i), 10, e)->0, Reg::Feats, Shape::Reals(z.len as nat, z.d as nat)),
        holds(upto(decoder_vision_steps(z, i), 10, e)->0, Reg::Valid, Shape::Flags(z.len as nat)),
        holds(upto(decoder_vision_steps(z, i), 10, e)->0, Reg::KvD, Shape::Halves(z.tokens as nat, z.kv as nat)),
        holds(upto(decoder_vision_steps(z, i), 10, e)->0, Reg::Hs, Shape::Reals(z.queries1 as nat, z.d as nat)),
        holds(upto(decoder_vision_steps(z, i), 10, e)->0, Reg::Ref, Shape::Reals(z.queries as nat, 4 as nat)),
        holds(upto(decoder_vision_steps(z, i), 10, e)->0, Reg::LayerBoxes, Shape::Reals(i as nat * z.queries as nat, 4)),
        holds(upto(decoder_vision_steps(z, i), 10, e)->0, Reg::LayerPresence, Shape::Reals(i as nat, 1)),
        holds(upto(decoder_vision_steps(z, i), 10, e)->0, Reg::Qpos, Shape::Reals(z.queries1 as nat, z.d as nat)),
        holds(upto(decoder_vision_steps(z, i), 10, e)->0, Reg::By, Shape::Reals((z.heads as nat) * (z.queries1 as nat), z.grid as nat)),
        holds(upto(decoder_vision_steps(z, i), 10, e)->0, Reg::Bx, Shape::Reals((z.heads as nat) * (z.queries1 as nat), z.grid as nat)),
{
    let p = decoder_vision_steps(z, i);
    reveal_with_fuel(upto, 11);
}

proof fn decoder_mlp_sizes(z: Sizes, i: usize, e: Map<Reg, Shape>)
    requires
        z.sound(),
        holds(e, Reg::Feats, Shape::Reals(z.len as nat, z.d as nat)),
        holds(e, Reg::Valid, Shape::Flags(z.len as nat)),
        holds(e, Reg::KvD, Shape::Halves(z.tokens as nat, z.kv as nat)),
        holds(e, Reg::Hs, Shape::Reals(z.queries1 as nat, z.d as nat)),
        holds(e, Reg::Ref, Shape::Reals(z.queries as nat, 4 as nat)),
        holds(e, Reg::LayerBoxes, Shape::Reals(i as nat * z.queries as nat, 4)),
        holds(e, Reg::LayerPresence, Shape::Reals(i as nat, 1)),
    ensures
        decoder_mlp_steps(z, i).len() == 5,
        upto(decoder_mlp_steps(z, i), 5, e) is Some,
        holds(upto(decoder_mlp_steps(z, i), 5, e)->0, Reg::Feats, Shape::Reals(z.len as nat, z.d as nat)),
        holds(upto(decoder_mlp_steps(z, i), 5, e)->0, Reg::Valid, Shape::Flags(z.len as nat)),
        holds(upto(decoder_mlp_steps(z, i), 5, e)->0, Reg::KvD, Shape::Halves(z.tokens as nat, z.kv as nat)),
        holds(upto(decoder_mlp_steps(z, i), 5, e)->0, Reg::Hs, Shape::Reals(z.queries1 as nat, z.d as nat)),
        holds(upto(decoder_mlp_steps(z, i), 5, e)->0, Reg::Ref, Shape::Reals(z.queries as nat, 4 as nat)),
        holds(upto(decoder_mlp_steps(z, i), 5, e)->0, Reg::LayerBoxes, Shape::Reals(i as nat * z.queries as nat, 4)),
        holds(upto(decoder_mlp_steps(z, i), 5, e)->0, Reg::LayerPresence, Shape::Reals(i as nat, 1)),
{
    let p = decoder_mlp_steps(z, i);
    reveal_with_fuel(upto, 6);
}

proof fn decoder_heads_sizes(z: Sizes, i: usize, e: Map<Reg, Shape>)
    requires
        z.sound(),
        holds(e, Reg::Feats, Shape::Reals(z.len as nat, z.d as nat)),
        holds(e, Reg::Valid, Shape::Flags(z.len as nat)),
        holds(e, Reg::KvD, Shape::Halves(z.tokens as nat, z.kv as nat)),
        holds(e, Reg::Hs, Shape::Reals(z.queries1 as nat, z.d as nat)),
        holds(e, Reg::Ref, Shape::Reals(z.queries as nat, 4 as nat)),
        holds(e, Reg::LayerBoxes, Shape::Reals(i as nat * z.queries as nat, 4)),
        holds(e, Reg::LayerPresence, Shape::Reals(i as nat, 1)),
    ensures
        decoder_heads_steps(z).len() == 10,
        upto(decoder_heads_steps(z), 10, e) is Some,
        holds(upto(decoder_heads_steps(z), 10, e)->0, Reg::Feats, Shape::Reals(z.len as nat, z.d as nat)),
        holds(upto(decoder_heads_steps(z), 10, e)->0, Reg::Valid, Shape::Flags(z.len as nat)),
        holds(upto(decoder_heads_steps(z), 10, e)->0, Reg::KvD, Shape::Halves(z.tokens as nat, z.kv as nat)),
        holds(upto(decoder_heads_steps(z), 10, e)->0, Reg::Hs, Shape::Reals(z.queries1 as nat, z.d as nat)),
        holds(upto(decoder_heads_steps(z), 10, e)->0, Reg::Ref, Shape::Reals(z.queries as nat, 4 as nat)),
        holds(upto(decoder_heads_steps(z), 10, e)->0, Reg::LayerBoxes, Shape::Reals(i as nat * z.queries as nat + z.queries as nat, 4)),
        holds(upto(decoder_heads_steps(z), 10, e)->0, Reg::LayerPresence, Shape::Reals(i as nat + 1, 1)),
        holds(upto(decoder_heads_steps(z), 10, e)->0, Reg::Normed, Shape::Reals(z.queries as nat, z.d as nat)),
        holds(upto(decoder_heads_steps(z), 10, e)->0, Reg::Presence, Shape::Reals(1, 1)),
{
    let p = decoder_heads_steps(z);
    reveal_with_fuel(upto, 11);
}

proof fn decoder_end_sizes(z: Sizes, layers: nat, e: Map<Reg, Shape>)
    requires
        z.sound(),
        holds(e, Reg::Feats, Shape::Reals(z.len as nat, z.d as nat)),
        holds(e, Reg::Valid, Shape::Flags(z.len as nat)),
        holds(e, Reg::KvD, Shape::Halves(z.tokens as nat, z.kv as nat)),
        holds(e, Reg::Hs, Shape::Reals(z.queries1 as nat, z.d as nat)),
        holds(e, Reg::Ref, Shape::Reals(z.queries as nat, 4 as nat)),
        holds(e, Reg::Normed, Shape::Reals(z.queries as nat, z.d as nat)),
        holds(e, Reg::Presence, Shape::Reals(1, 1)),
        holds(e, Reg::LayerBoxes, Shape::Reals(layers * z.queries as nat, 4)),
        holds(e, Reg::LayerPresence, Shape::Reals(layers, 1)),
    ensures
        decoder_end_steps(z).len() == 8,
        upto(decoder_end_steps(z), 8, e) is Some,
        holds(upto(decoder_end_steps(z), 8, e)->0, Reg::Normed, Shape::Reals(z.queries as nat, z.d as nat)),
        holds(upto(decoder_end_steps(z), 8, e)->0, Reg::Presence, Shape::Reals(1, 1)),
        holds(upto(decoder_end_steps(z), 8, e)->0, Reg::LayerBoxes, Shape::Reals(layers * z.queries as nat, 4)),
        holds(upto(decoder_end_steps(z), 8, e)->0, Reg::LayerPresence, Shape::Reals(layers, 1)),
        holds(upto(decoder_end_steps(z), 8, e)->0, Reg::Boxes, Shape::Reals(z.queries as nat, 4 as nat)),
        holds(upto(decoder_end_steps(z), 8, e)->0, Reg::Logits, Shape::Reals(z.queries as nat, 1 as nat)),
{
    let p = decoder_end_steps(z);
    reveal_with_fuel(upto, 9);
}

/// What the decoder's layers keep: the prompt, the image's keys and values,
/// the states and the boxes; and what they collect, layer by layer.
pub open spec fn decoder_ready(z: Sizes, i: nat, e: Map<Reg, Shape>) -> bool {
    &&& holds(e, Reg::Feats, Shape::Reals(z.len as nat, z.d as nat))
    &&& holds(e, Reg::Valid, Shape::Flags(z.len as nat))
    &&& holds(e, Reg::KvD, Shape::Halves(z.tokens as nat, z.kv as nat))
    &&& holds(e, Reg::Hs, Shape::Reals(z.queries1 as nat, z.d as nat))
    &&& holds(e, Reg::Ref, Shape::Reals(z.queries as nat, 4 as nat))
    &&& holds(e, Reg::LayerBoxes, Shape::Reals(i * z.queries as nat, 4))
    &&& holds(e, Reg::LayerPresence, Shape::Reals(i, 1))
}

proof fn decoder_layer_runs(z: Sizes, i: usize, e: Map<Reg, Shape>)
    requires
        z.sound(),
        i * z.d2 + z.d2 <= z.kv,
        decoder_ready(z, i as nat, e),
    ensures
        runs(decoder_layer_of(z, i), e) matches Some(x) && decoder_ready(z, i as nat + 1, x)
            && holds(x, Reg::Normed, Shape::Reals(z.queries as nat, z.d as nat))
            && holds(x, Reg::Presence, Shape::Reals(1, 1)),
{
    let p0 = decoder_places_steps(z);
    decoder_places_sizes(z, i, e);
    let e1 = runs(p0, e)->0;
    let p1 = decoder_self_steps(z, i);
    decoder_self_sizes(z, i, e1);
    let e2 = runs(p1, e1)->0;
    running_in_turn(p0, p1, e);
    let p2 = decoder_text_steps(z, i);
    decoder_text_sizes(z, i, e2);
    let e3 = runs(p2, e2)->0;
    running_in_turn(p0 + p1, p2, e);
    let p3 = decoder_vision_steps(z, i);
    decoder_vision_sizes(z, i, e3);
    let e4 = runs(p3, e3)->0;
    running_in_turn(p0 + p1 + p2, p3, e);
    let p4 = decoder_mlp_steps(z, i);
    decoder_mlp_sizes(z, i, e4);
    let e5 = runs(p4, e4)->0;
    running_in_turn(p0 + p1 + p2 + p3, p4, e);
    decoder_heads_sizes(z, i, e5);
    running_in_turn(p0 + p1 + p2 + p3 + p4, decoder_heads_steps(z), e);
    assert((i as nat + 1) * z.queries as nat == i as nat * z.queries as nat + z.queries as nat) by (nonlinear_arith);
}

proof fn decoder_layers_run(z: Sizes, layers: nat, e: Map<Reg, Shape>)
    requires
        z.sound(),
        layers <= usize::MAX,
        layers * z.d2 <= z.kv,
        decoder_ready(z, 0, e),
    ensures
        runs(decoder_layers(z, layers), e) matches Some(x) && decoder_ready(z, layers, x) && (layers > 0
            ==> holds(x, Reg::Normed, Shape::Reals(z.queries as nat, z.d as nat))
            && holds(x, Reg::Presence, Shape::Reals(1, 1))),
    decreases layers,
{
    if layers > 0 {
        let i = (layers - 1) as usize;
        assert(i * z.d2 + z.d2 == layers * z.d2) by (nonlinear_arith)
            requires
                i == layers - 1,
        ;
        decoder_layers_run(z, (layers - 1) as nat, e);
        let a = runs(decoder_layers(z, (layers - 1) as nat), e)->0;
        decoder_layer_runs(z, i, a);
        running_in_turn(decoder_layers(z, (layers - 1) as nat), decoder_layer_of(z, i), e);
    }
}

/// The decoder's steps all find their operands; it ends with a box and a
/// score for every query, and has collected the boxes and the presence of
/// every layer.
pub proof fn decoder_fits(z: Sizes, layers: nat, e: Map<Reg, Shape>)
    requires
        z.sound(),
        0 < layers <= usize::MAX,
        layers * z.d2 <= z.kv,
        holds(e, Reg::Feats, Shape::Reals(z.len as nat, z.d as nat)),
        holds(e, Reg::Valid, Shape::Flags(z.len as nat)),
        holds(e, Reg::Enc, Shape::Reals(z.tokens as nat, z.d as nat)),
    ensures
        runs(decoder_program(z, layers), e) is Some,
        holds(runs(decoder_program(z, layers), e)->0, Reg::Normed, Shape::Reals(z.queries as nat, z.d as nat)),
        holds(runs(decoder_program(z, layers), e)->0, Reg::Presence, Shape::Reals(1, 1)),
        holds(runs(decoder_program(z, layers), e)->0, Reg::Boxes, Shape::Reals(z.queries as nat, 4 as nat)),
        holds(runs(decoder_program(z, layers), e)->0, Reg::Logits, Shape::Reals(z.queries as nat, 1 as nat)),
        holds(runs(decoder_program(z, layers), e)->0, Reg::LayerBoxes, Shape::Reals(layers * z.queries as nat, 4)),
        holds(runs(decoder_program(z, layers), e)->0, Reg::LayerPresence, Shape::Reals(layers, 1)),
{
    decoder_start_sizes(z, e);
    let a = runs(decoder_start_steps(z), e)->0;
    assert(0nat * z.queries as nat == 0) by (nonlinear_arith);
    decoder_layers_run(z, layers, a);
    running_in_turn(decoder_start_steps(z), decoder_layers(z, layers), e);
    let b = runs(decoder_layers(z, layers), a)->0;
    decoder_end_sizes(z, layers, b);
    running_in_turn(decoder_start_steps(z) + decoder_layers(z, layers), decoder_end_steps(z), e);
}

// ---------------------------------------------------------------------------
// The mask decoder.

/// The stream begins as the encoder's output, normed for the prompt.
pub open spec fn mask_start_steps(z: Sizes) -> Seq<StepView> {
    seq![
        StepView { op: Op::LayerNorm { dim: z.d, eps: Eps::Default }, name: "m.ca_ln"@, from: seq![Reg::Enc], to: Reg::H },
        StepView { op: Op::Copy, name: Seq::<char>::empty(), from: seq![Reg::Enc], to: Reg::Xd },
    ]
}

fn push_mask_start(out: &mut Vec<Step>, z: &Sizes)
    ensures
        views(final(out)@) == views(old(out)@) + mask_start_steps(*z),
{
    let ghost start = views(out@);
    put(out, Op::LayerNorm { dim: z.d, eps: Eps::Default }, "m.ca_ln".to_string(), one(Reg::Enc), Reg::H);
    put(out, Op::Copy, String::new(), one(Reg::Enc), Reg::Xd);
    proof {
        assert(views(out@) =~= start + mask_start_steps(*z));
    }
}

/// The pixel decoder: twice upsampled, convolved and normed.
pub open spec fn mask_pixels_steps(z: Sizes) -> Seq<StepView> {
    seq![
        StepView { op: Op::Upsample { side: z.grid, cols: z.d }, name: Seq::<char>::empty(), from: seq![Reg::Xd, Reg::F1], to: Reg::U0 },
        StepView { op: Op::ConvRows { side: z.grid2, c: z.conv_c, d: z.conv_d }, name: Seq::<char>::empty(), from: seq![Reg::U0], to: Reg::Cr },
        StepView { op: Op::ConvGemm { side: z.grid2, d: z.conv_d, oc: z.d }, name: "m.conv0"@, from: seq![Reg::Cr], to: Reg::Cc },
        StepView { op: Op::DropBorder { side: z.grid2, oc: z.d }, name: Seq::<char>::empty(), from: seq![Reg::Cc], to: Reg::Cu },
        StepView { op: Op::Widen, name: Seq::<char>::empty(), from: seq![Reg::Cu], to: Reg::Px },
        StepView { op: Op::AddBias { dim: z.d }, name: "m.conv0.b"@, from: seq![Reg::Px], to: Reg::Px },
        StepView { op: Op::GroupNormRelu { dim: z.d, groups: 8 }, name: "m.gn0"@, from: seq![Reg::Px], to: Reg::Px },
        StepView { op: Op::Upsample { side: z.grid2, cols: z.d }, name: Seq::<char>::empty(), from: seq![Reg::Px, Reg::F0], to: Reg::U0 },
        StepView { op: Op::ConvRows { side: z.grid4, c: z.conv_c, d: z.conv_d }, name: Seq::<char>::empty(), from: seq![Reg::U0], to: Reg::Cr },
        StepView { op: Op::ConvGemm { side: z.grid4, d: z.conv_d, oc: z.d }, name: "m.conv1"@, from: seq![Reg::Cr], to: Reg::Cc },
        StepView { op: Op::DropBorder { side: z.grid4, oc: z.d }, name: Seq::<char>::empty(), from: seq![Reg::Cc], to: Reg::Cu },
        StepView { op: Op::Widen, name: Seq::<char>::empty(), from: seq![Reg::Cu], to: Reg::Px },
        StepView { op: Op::AddBias { dim: z.d }, name: "m.conv1.b"@, from: seq![Reg::Px], to: Reg::Px },
        StepView { op: Op::GroupNormRelu { dim: z.d, groups: 8 }, name: "m.gn1"@, from: seq![Reg::Px], to: Reg::Px },
    ]
}

fn push_mask_pixels(out: &mut Vec<Step>, z: &Sizes)
    ensures
        views(final(out)@) == views(old(out)@) + mask_pixels_steps(*z),
{
    let ghost start = views(out@);
    put(out, Op::Upsample { side: z.grid, cols: z.d }, String::new(), two(Reg::Xd, Reg::F1), Reg::U0);
    put(out, Op::ConvRows { side: z.grid2, c: z.conv_c, d: z.conv_d }, String::new(), one(Reg::U0), Reg::Cr);
    put(out, Op::ConvGemm { side: z.grid2, d: z.conv_d, oc: z.d }, "m.conv0".to_string(), one(Reg::Cr), Reg::Cc);
    put(out, Op::DropBorder { side: z.grid2, oc: z.d }, String::new(), one(Reg::Cc), Reg::Cu);
    put(out, Op::Widen, String::new(), one(Reg::Cu), Reg::Px);
    put(out, Op::AddBias { dim: z.d }, "m.conv0.b".to_string(), one(Reg::Px), Reg::Px);
    put(out, Op::GroupNormRelu { dim: z.d, groups: 8 }, "m.gn0".to_string(), one(Reg::Px), Reg::Px);
    put(out, Op::Upsample { side: z.grid2, cols: z.d }, String::new(), two(Reg::Px, Reg::F0), Reg::U0);
    put(out, Op::ConvRows { side: z.grid4, c: z.conv_c, d: z.conv_d }, String::new(), one(Reg::U0), Reg::Cr);
    put(out, Op::ConvGemm { side: z.grid4, d: z.conv_d, oc: z.d }, "m.conv1".to_string(), one(Reg::Cr), Reg::Cc);
    put(out, Op::DropBorder { side: z.grid4, oc: z.d }, String::new(), one(Reg::Cc), Reg::Cu);
    put(out, Op::Widen, String::new(), one(Reg::Cu), Reg::Px);
    put(out, Op::AddBias { dim: z.d }, "m.conv1.b".to_string(), one(Reg::Px), Reg::Px);
    put(out, Op::GroupNormRelu { dim: z.d, groups: 8 }, "m.gn1".to_string(), one(Reg::Px), Reg::Px);
    proof {
        assert(views(out@) =~= start + mask_pixels_steps(*z));
    }
}

/// The mask head folded over the queries, run on every pixel.
pub open spec fn mask_head_steps(z: Sizes) -> Seq<StepView> {
    seq![
        StepView { op: Op::Linear { n_in: z.d, n_out: z.d, half: false }, name: "m.embed.0"@, from: seq![Reg::Normed], to: Reg::M },
        StepView { op: Op::Relu, name: Seq::<char>::empty(), from: seq![Reg::M], to: Reg::M },
        StepView { op: Op::Linear { n_in: z.d, n_out: z.d, half: false }, name: "m.embed.1"@, from: seq![Reg::M], to: Reg::M },
        StepView { op: Op::Relu, name: Seq::<char>::empty(), from: seq![Reg::M], to: Reg::M },
        StepView { op: Op::Linear { n_in: z.d, n_out: z.d, half: false }, name: "m.embed.2"@, from: seq![Reg::M], to: Reg::M },
        StepView { op: Op::FoldHead { dim: z.d, n: z.head_n }, name: "m"@, from: seq![Reg::M], to: Reg::Bs },
        StepView { op: Op::FoldHeadBias { dim: z.d, n: z.head_n }, name: "m"@, from: seq![Reg::M], to: Reg::Bb },
        StepView { op: Op::Pack { kernel: Kernel::MHead }, name: "m.head"@, from: seq![Reg::Bs, Reg::Bb], to: Reg::SlotH },
        StepView { op: Op::Narrow, name: Seq::<char>::empty(), from: seq![Reg::Px], to: Reg::A },
        StepView { op: Op::GemmSlot { kernel: Kernel::MHead, rows: z.pixels }, name: "m.head"@, from: seq![Reg::A, Reg::SlotH], to: Reg::Out },
        StepView { op: Op::Planes { rows: z.pixels, width: z.head_n, off: 0, planes: z.queries }, name: Seq::<char>::empty(), from: seq![Reg::Out], to: Reg::Mb },
        StepView { op: Op::Widen, name: Seq::<char>::empty(), from: seq![Reg::Mb], to: Reg::Masks },
        StepView { op: Op::Planes { rows: z.pixels, width: z.head_n, off: z.queries, planes: 1 }, name: Seq::<char>::empty(), from: seq![Reg::Out], to: Reg::Sb },
        StepView { op: Op::Widen, name: Seq::<char>::empty(), from: seq![Reg::Sb], to: Reg::Semantic },
    ]
}

fn push_mask_head(out: &mut Vec<Step>, z: &Sizes)
    ensures
        views(final(out)@) == views(old(out)@) + mask_head_steps(*z),
{
    let ghost start = views(out@);
    put(out, Op::Linear { n_in: z.d, n_out: z.d, half: false }, "m.embed.0".to_string(), one(Reg::Normed), Reg::M);
    put(out, Op::Relu, String::new(), one(Reg::M), Reg::M);
    put(out, Op::Linear { n_in: z.d, n_out: z.d, half: false }, "m.embed.1".to_string(), one(Reg::M), Reg::M);
    put(out, Op::Relu, String::new(), one(Reg::M), Reg::M);
    put(out, Op::Linear { n_in: z.d, n_out: z.d, half: false }, "m.embed.2".to_string(), one(Reg::M), Reg::M);
    put(out, Op::FoldHead { dim: z.d, n: z.head_n }, "m".to_string(), one(Reg::M), Reg::Bs);
    put(out, Op::FoldHeadBias { dim: z.d, n: z.head_n }, "m".to_string(), one(Reg::M), Reg::Bb);
    put(out, Op::Pack { kernel: Kernel::MHead }, "m.head".to_string(), two(Reg::Bs, Reg::Bb), Reg::SlotH);
    put(out, Op::Narrow, String::new(), one(Reg::Px), Reg::A);
    put(out, Op::GemmSlot { kernel: Kernel::MHead, rows: z.pixels }, "m.head".to_string(), two(Reg::A, Reg::SlotH), Reg::Out);
    put(out, Op::Planes { rows: z.pixels, width: z.head_n, off: 0, planes: z.queries }, String::new(), one(Reg::Out), Reg::Mb);
    put(out, Op::Widen, String::new(), one(Reg::Mb), Reg::Masks);
    put(out, Op::Planes { rows: z.pixels, width: z.head_n, off: z.queries, planes: 1 }, String::new(), one(Reg::Out), Reg::Sb);
    put(out, Op::Widen, String::new(), one(Reg::Sb), Reg::Semantic);
    proof {
        assert(views(out@) =~= start + mask_head_steps(*z));
    }
}
/// The mask decoder, from the queries' states, the neck's finer levels, the
/// encoder's output and the prompt.
pub open spec fn mask_program(z: Sizes) -> Seq<StepView> {
    fold_steps(z, "m.ca"@, "m"@) + mask_start_steps(z) + cross_steps(z, "m"@) + mask_pixels_steps(z) + mask_head_steps(z)
}

/// More queries than the mask head's kernel has columns to spare.
pub open spec fn too_many_queries(z: Sizes) -> Seq<char> {
    decimal(z.queries as nat) + " queries + semantic > "@ + decimal(z.head_n as nat) + ""@
}

pub fn mask_decoder(z: &Sizes) -> (r: Result<Vec<Step>, Error>)
    ensures
        match r {
            Ok(p) => z.queries < z.head_n && views(p@) == mask_program(*z),
            Err(e) => z.queries >= z.head_n && rejects(e, too_many_queries(*z)),
        },
{
    if z.queries >= z.head_n {
        return Err(
            Error::Input(
                cat4(decimal_of(z.queries as u128).as_str(), " queries + semantic > ", decimal_of(z.head_n as u128).as_str(), ""),
            ),
        );
    }
    let mut out: Vec<Step> = Vec::new();
    push_fold(&mut out, z, "m.ca", "m");
    push_mask_start(&mut out, z);
    push_cross(&mut out, z, "m");
    push_mask_pixels(&mut out, z);
    push_mask_head(&mut out, z);
    proof {
        assert(views(Seq::<Step>::empty()) + fold_steps(*z, "m.ca"@, "m"@) =~= fold_steps(*z, "m.ca"@, "m"@));
    }
    Ok(out)
}

proof fn mask_start_sizes(z: Sizes, e: Map<Reg, Shape>)
    requires
        z.sound(),
        holds(e, Reg::Feats, Shape::Reals(z.len as nat, z.d as nat)),
        holds(e, Reg::Valid, Shape::Flags(z.len as nat)),
        holds(e, Reg::F0, Shape::Reals((z.grid4 as nat) * (z.grid4 as nat), z.d as nat)),
        holds(e, Reg::F1, Shape::Reals((z.grid2 as nat) * (z.grid2 as nat), z.d as nat)),
        holds(e, Reg::Normed, Shape::Reals(z.queries as nat, z.d as nat)),
        holds(e, Reg::SlotS, Shape::Packed(z.d as nat, (z.heads as nat) * (z.len as nat))),
        holds(e, Reg::SlotC, Shape::Packed((z.heads as nat) * (z.len as nat), z.d as nat)),
        holds(e, Reg::Enc, Shape::Reals(z.tokens as nat, z.d as nat)),
    ensures
        mask_start_steps(z).len() == 2,
        upto(mask_start_steps(z), 2, e) is Some,
        holds(upto(mask_start_steps(z), 2, e)->0, Reg::Feats, Shape::Reals(z.len as nat, z.d as nat)),
        holds(upto(mask_start_steps(z), 2, e)->0, Reg::Valid, Shape::Flags(z.len as nat)),
        holds(upto(mask_start_steps(z), 2, e)->0, Reg::F0, Shape::Reals((z.grid4 as nat) * (z.grid4 as nat), z.d as nat)),
        holds(upto(mask_start_steps(z), 2, e)->0, Reg::F1, Shape::Reals((z.grid2 as nat) * (z.grid2 as nat), z.d as nat)),
        holds(upto(mask_start_steps(z), 2, e)->0, Reg::Normed, Shape::Reals(z.queries as nat, z.d as nat)),
        holds(upto(mask_start_steps(z), 2, e)->0, Reg::Xd, Shape::Reals(z.tokens as nat, z.d as nat)),
        holds(upto(mask_start_steps(z), 2, e)->0, Reg::SlotS, Shape::Packed(z.d as nat, (z.heads as nat) * (z.len as nat))),
        holds(upto(mask_start_steps(z), 2, e)->0, Reg::SlotC, Shape::Packed((z.heads as nat) * (z.len as nat), z.d as nat)),
        holds(upto(mask_start_steps(z), 2, e)->0, Reg::H, Shape::Reals(z.tokens as nat, z.d as nat)),
{
    let p = mask_start_steps(z);
    reveal_with_fuel(upto, 3);
}

proof fn mask_pixels_sizes(z: Sizes, e: Map<Reg, Shape>)
    requires
        z.sound(),
        holds(e, Reg::F0, Shape::Reals((z.grid4 as nat) * (z.grid4 as nat), z.d as nat)),
        holds(e, Reg::F1, Shape::Reals((z.grid2 as nat) * (z.grid2 as nat), z.d as nat)),
        holds(e, Reg::Normed, Shape::Reals(z.queries as nat, z.d as nat)),
        holds(e, Reg::Xd, Shape::Reals(z.tokens as nat, z.d as nat)),
    ensures
        mask_pixels_steps(z).len() == 14,
        upto(mask_pixels_steps(z), 14, e) is Some,
        holds(upto(mask_pixels_steps(z), 14, e)->0, Reg::Normed, Shape::Reals(z.queries as nat, z.d as nat)),
        holds(upto(mask_pixels_steps(z), 14, e)->0, Reg::Px, Shape::Reals((z.grid4 as nat) * (z.grid4 as nat), z.d as nat)),
{
    let p = mask_pixels_steps(z);
    reveal_with_fuel(upto, 15);
}

proof fn mask_head_sizes(z: Sizes, e: Map<Reg, Shape>)
    requires
        z.sound(),
        holds(e, Reg::Normed, Shape::Reals(z.queries as nat, z.d as nat)),
        holds(e, Reg::Px, Shape::Reals((z.grid4 as nat) * (z.grid4 as nat), z.d as nat)),
    ensures
        mask_head_steps(z).len() == 14,
        upto(mask_head_steps(z), 14, e) is Some,
        holds(upto(mask_head_steps(z), 14, e)->0, Reg::Masks, Shape::Reals(z.queries as nat, z.pixels as nat)),
        holds(upto(mask_head_steps(z), 14, e)->0, Reg::Semantic, Shape::Reals(1 as nat, z.pixels as nat)),
{
    let p = mask_head_steps(z);
    reveal_with_fuel(upto, 15);
}

/// The mask decoder's steps all find their operands; it ends with a plane
/// for every query and one more, each a pixel for every place of the finest
/// grid.
pub proof fn mask_decoder_fits(z: Sizes, e: Map<Reg, Shape>)
    requires
        z.sound(),
        holds(e, Reg::Feats, Shape::Reals(z.len as nat, z.d as nat)),
        holds(e, Reg::Valid, Shape::Flags(z.len as nat)),
        holds(e, Reg::F0, Shape::Reals((z.grid4 as nat) * (z.grid4 as nat), z.d as nat)),
        holds(e, Reg::F1, Shape::Reals((z.grid2 as nat) * (z.grid2 as nat), z.d as nat)),
        holds(e, Reg::Normed, Shape::Reals(z.queries as nat, z.d as nat)),
        holds(e, Reg::Enc, Shape::Reals(z.tokens as nat, z.d as nat)),
    ensures
        runs(mask_program(z), e) is Some,
        holds(runs(mask_program(z), e)->0, Reg::Masks, Shape::Reals(z.queries as nat, z.pixels as nat)),
        holds(runs(mask_program(z), e)->0, Reg::Semantic, Shape::Reals(1 as nat, z.pixels as nat)),
{
    let p0 = fold_steps(z, "m.ca"@, "m"@);
    fold_sizes(z, "m.ca"@, "m"@, e);
    let e1 = runs(p0, e)->0;
    let p1 = mask_start_steps(z);
    mask_start_sizes(z, e1);
    let e2 = runs(p1, e1)->0;
    running_in_turn(p0, p1, e);
    let p2 = cross_steps(z, "m"@);
    cross_sizes(z, "m"@, e2);
    let e3 = runs(p2, e2)->0;
    running_in_turn(p0 + p1, p2, e);
    let p3 = mask_pixels_steps(z);
    mask_pixels_sizes(z, e3);
    let e4 = runs(p3, e3)->0;
    running_in_turn(p0 + p1 + p2, p3, e);
    mask_head_sizes(z, e4);
    running_in_turn(p0 + p1 + p2 + p3, mask_head_steps(z), e);
}

// ---------------------------------------------------------------------------
// The stages one after another.

proof fn text_layers_spare(z: Sizes, n: nat, r: Reg)
    requires
        n <= usize::MAX,
        r == Reg::Pixels || r == Reg::Valid,
    ensures
        spares(text_layers(z, n), r),
    decreases n,
{
    if n > 0 {
        let i = (n - 1) as usize;
        text_layers_spare(z, (n - 1) as nat, r);
        assert(spares(text_layer_steps(z, i), r));
        spared_by_both(text_layers(z, (n - 1) as nat), text_layer_of(z, i), r);
    }
}

pub(crate) proof fn text_spares(z: Sizes, layers: nat, n: usize, r: Reg)
    requires
        layers <= usize::MAX,
        r == Reg::Pixels || r == Reg::Valid,
    ensures
        spares(text_program(z, layers, n), r),
{
    text_layers_spare(z, layers, r);
    assert(spares(text_start_steps(z, n), r));
    spared_by_both(text_start_steps(z, n), text_layers(z, layers), r);
    assert(spares(text_end_steps(z), r));
    spared_by_both(text_start_steps(z, n) + text_layers(z, layers), text_end_steps(z), r);
}

proof fn vit_layers_spare(z: Sizes, global: Seq<usize>, n: nat, r: Reg)
    requires
        n <= usize::MAX,
        r == Reg::Feats || r == Reg::Valid,
    ensures
        spares(vit_layers(z, global, n), r),
    decreases n,
{
    if n > 0 {
        let i = (n - 1) as usize;
        vit_layers_spare(z, global, (n - 1) as nat, r);
        assert(spares(vit_attend_steps(z, i, global.contains(i)), r));
        assert(spares(vit_mlp_steps(z, i), r));
        spared_by_both(vit_attend_steps(z, i, global.contains(i)), vit_mlp_steps(z, i), r);
        spared_by_both(vit_layers(z, global, (n - 1) as nat), vit_layer_of(z, global, i), r);
    }
}

proof fn vit_spares(z: Sizes, layers: nat, global: Seq<usize>, r: Reg)
    requires
        layers <= usize::MAX,
        r == Reg::Feats || r == Reg::Valid,
    ensures
        spares(vit_program(z, layers, global), r),
{
    vit_layers_spare(z, global, layers, r);
    assert(spares(vit_start_steps(z), r));
    spared_by_both(vit_start_steps(z), vit_layers(z, global, layers), r);
    assert(spares(vit_end_steps(z), r));
    spared_by_both(vit_start_steps(z) + vit_layers(z, global, layers), vit_end_steps(z), r);
}

proof fn neck_spares(z: Sizes, r: Reg)
    requires
        r == Reg::Feats || r == Reg::Valid,
    ensures
        spares(neck_program(z), r),
{
    assert(spares(neck_levels_steps(z), r));
    assert(spares(neck_convs_steps(z), r));
    spared_by_both(neck_levels_steps(z), neck_convs_steps(z), r);
}

proof fn encoder_layers_spare(z: Sizes, n: nat, r: Reg)
    requires
        n <= usize::MAX,
        r == Reg::Feats || r == Reg::Valid || r == Reg::F0 || r == Reg::F1,
    ensures
        spares(encoder_layers(z, n), r),
    decreases n,
{
    if n > 0 {
        let i = (n - 1) as usize;
        encoder_layers_spare(z, (n - 1) as nat, r);
        assert(spares(fold_steps(z, layer_name("d."@, i as nat, "ca"@), layer_slot(i as nat)), r));
        assert(spares(encoder_attend_steps(z, i), r));
        spared_by_both(fold_steps(z, layer_name("d."@, i as nat, "ca"@), layer_slot(i as nat)), encoder_attend_steps(z, i), r);
        assert(spares(cross_steps(z, layer_slot(i as nat)), r));
        spared_by_both(fold_steps(z, layer_name("d."@, i as nat, "ca"@), layer_slot(i as nat)) + encoder_attend_steps(z, i), cross_steps(z, layer_slot(i as nat)), r);
        assert(spares(encoder_mlp_steps(z, i), r));
        spared_by_both(fold_steps(z, layer_name("d."@, i as nat, "ca"@), layer_slot(i as nat)) + encoder_attend_steps(z, i) + cross_steps(z, layer_slot(i as nat)), encoder_mlp_steps(z, i), r);
        spared_by_both(encoder_layers(z, (n - 1) as nat), encoder_layer_of(z, i), r);
    }
}

proof fn encoder_spares(z: Sizes, layers: nat, r: Reg)
    requires
        layers <= usize::MAX,
        r == Reg::Feats || r == Reg::Valid || r == Reg::F0 || r == Reg::F1,
    ensures
        spares(encoder_program(z, layers), r),
{
    encoder_layers_spare(z, layers, r);
    assert(spares(encoder_start_steps(z), r));
    spared_by_both(encoder_start_steps(z), encoder_layers(z, layers), r);
    assert(spares(encoder_end_steps(z), r));
    spared_by_both(encoder_start_steps(z) + encoder_layers(z, layers), encoder_end_steps(z), r);
}

proof fn decoder_layers_spare(z: Sizes, n: nat, r: Reg)
    requires
        n <= usize::MAX,
        r == Reg::Feats || r == Reg::Valid || r == Reg::F0 || r == Reg::F1 || r == Reg::Enc,
    ensures
        spares(decoder_layers(z, n), r),
    decreases n,
{
    if n > 0 {
        let i = (n - 1) as usize;
        decoder_layers_spare(z, (n - 1) as nat, r);
        assert(spares(decoder_places_steps(z), r));
        assert(spares(decoder_self_steps(z, i), r));
        spared_by_both(decoder_places_steps(z), decoder_self_steps(z, i), r);
        assert(spares(decoder_text_steps(z, i), r));
        spared_by_both(decoder_places_steps(z) + decoder_self_steps(z, i), decoder_text_steps(z, i), r);
        assert(spares(decoder_vision_steps(z, i), r));
        spared_by_both(decoder_places_steps(z) + decoder_self_steps(z, i) + decoder_text_steps(z, i), decoder_vision_steps(z, i), r);
        assert(spares(decoder_mlp_steps(z, i), r));
        spared_by_both(decoder_places_steps(z) + decoder_self_steps(z, i) + decoder_text_steps(z, i) + decoder_vision_steps(z, i), decoder_mlp_steps(z, i), r);
        assert(spares(decoder_heads_steps(z), r));
        spared_by_both(decoder_places_steps(z) + decoder_self_steps(z, i) + decoder_text_steps(z, i) + decoder_vision_steps(z, i) + decoder_mlp_steps(z, i), decoder_heads_steps(z), r);
        spared_by_both(decoder_layers(z, (n - 1) as nat), decoder_layer_of(z, i), r);
    }
}

proof fn decoder_spares(z: Sizes, layers: nat, r: Reg)
    requires
        layers <= usize::MAX,
        r == Reg::Feats || r == Reg::Valid || r == Reg::F0 || r == Reg::F1 || r == Reg::Enc,
    ensures
        spares(decoder_program(z, layers), r),
{
    decoder_layers_spare(z, layers, r);
    assert(spares(decoder_start_steps(z), r));
    spared_by_both(decoder_start_steps(z), decoder_layers(z, layers), r);
    assert(spares(decoder_end_steps(z), r));
    spared_by_both(decoder_start_steps(z) + decoder_layers(z, layers), decoder_end_steps(z), r);
}

/// The whole forward, for one image and one prompt.
pub open spec fn forward_program(z: Sizes, c: ConfigView, n: usize) -> Seq<StepView> {
    text_program(z, c.text_layers as nat, n) + vit_program(z, c.vit_layers as nat, c.vit_global) + neck_program(z)
        + encoder_program(z, c.d_layers as nat) + decoder_program(z, c.dec_layers as nat) + mask_program(z)
}

/// What one stage leaves is what the next ones take: from the pixels, the
/// prompt's tokens and which of them are valid, the whole forward runs, and
/// ends with a box, a score and a mask for every query.
pub proof fn stages_chain(z: Sizes, c: ConfigView, n: usize, e: Map<Reg, Shape>)
    requires
        z.sound(),
        n <= z.len,
        0 < c.dec_layers,
        c.dec_layers * z.d2 <= z.kv,
        holds(e, Reg::Ids, Shape::Ids(n as nat)),
        holds(e, Reg::Valid, Shape::Flags(z.len as nat)),
        holds(e, Reg::Pixels, Shape::Pixels),
    ensures
        runs(forward_program(z, c, n), e) is Some,
        holds(runs(forward_program(z, c, n), e)->0, Reg::Masks, Shape::Reals(z.queries as nat, z.pixels as nat)),
        holds(runs(forward_program(z, c, n), e)->0, Reg::Semantic, Shape::Reals(1 as nat, z.pixels as nat)),
{
    let p0 = text_program(z, c.text_layers as nat, n);
    text_fits(z, c.text_layers as nat, n, e);
    let e0 = runs(p0, e)->0;
    text_spares(z, c.text_layers as nat, n, Reg::Pixels);
    spared_registers_keep(p0, Reg::Pixels, Shape::Pixels, e);
    text_spares(z, c.text_layers as nat, n, Reg::Valid);
    spared_registers_keep(p0, Reg::Valid, Shape::Flags(z.len as nat), e);
    let p1 = vit_program(z, c.vit_layers as nat, c.vit_global);
    vit_fits(z, c.vit_layers as nat, c.vit_global, e0);
    let e1 = runs(p1, e0)->0;
    vit_spares(z, c.vit_layers as nat, c.vit_global, Reg::Feats);
    spared_registers_keep(p1, Reg::Feats, Shape::Reals(z.len as nat, z.d as nat), e0);
    vit_spares(z, c.vit_layers as nat, c.vit_global, Reg::Valid);
    spared_registers_keep(p1, Reg::Valid, Shape::Flags(z.len as nat), e0);
    running_in_turn(p0, p1, e);
    let p2 = neck_program(z);
    neck_fits(z, e1);
    let e2 = runs(p2, e1)->0;
    neck_spares(z, Reg::Feats);
    spared_registers_keep(p2, Reg::Feats, Shape::Reals(z.len as nat, z.d as nat), e1);
    neck_spares(z, Reg::Valid);
    spared_registers_keep(p2, Reg::Valid, Shape::Flags(z.len as nat), e1);
    running_in_turn(p0 + p1, p2, e);
    let p3 = encoder_program(z, c.d_layers as nat);
    encoder_fits(z, c.d_layers as nat, e2);
    let e3 = runs(p3, e2)->0;
    encoder_spares(z, c.d_layers as nat, Reg::Feats);
    spared_registers_keep(p3, Reg::Feats, Shape::Reals(z.len as nat, z.d as nat), e2);
    encoder_spares(z, c.d_layers as nat, Reg::Valid);
    spared_registers_keep(p3, Reg::Valid, Shape::Flags(z.len as nat), e2);
    encoder_spares(z, c.d_layers as nat, Reg::F0);
    spared_registers_keep(p3, Reg::F0, Shape::Reals((z.grid4 as nat) * (z.grid4 as nat), z.d as nat), e2);
    encoder_spares(z, c.d_layers as nat, Reg::F1);
    spared_registers_keep(p3, Reg::F1, Shape::Reals((z.grid2 as nat) * (z.grid2 as nat), z.d as nat), e2);
    running_in_turn(p0 + p1 + p2, p3, e);
    let p4 = decoder_program(z, c.dec_layers as nat);
    decoder_fits(z, c.dec_layers as nat, e3);
    let e4 = runs(p4, e3)->0;
    decoder_spares(z, c.dec_layers as nat, Reg::Feats);
    spared_registers_keep(p4, Reg::Feats, Shape::Reals(z.len as nat, z.d as nat), e3);
    decoder_spares(z, c.dec_layers as nat, Reg::Valid);
    spared_registers_keep(p4, Reg::Valid, Shape::Flags(z.len as nat), e3);
    decoder_spares(z, c.dec_layers as nat, Reg::F0);
    spared_registers_keep(p4, Reg::F0, Shape::Reals((z.grid4 as nat) * (z.grid4 as nat), z.d as nat), e3);
    decoder_spares(z, c.dec_layers as nat, Reg::F1);
    spared_registers_keep(p4, Reg::F1, Shape::Reals((z.grid2 as nat) * (z.grid2 as nat), z.d as nat), e3);
    decoder_spares(z, c.dec_layers as nat, Reg::Enc);
    spared_registers_keep(p4, Reg::Enc, Shape::Reals(z.tokens as nat, z.d as nat), e3);
    running_in_turn(p0 + p1 + p2 + p3, p4, e);
    mask_decoder_fits(z, e4);
    running_in_turn(p0 + p1 + p2 + p3 + p4, mask_program(z), e);
}

} // verus!
