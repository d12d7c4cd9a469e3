//! SAM 3's model constants, the tensors it uploads, and the schedule of
//! its device-resident backbone.

use crate::manifest::ManifestView as BaseView;
use crate::sam3::{reads, Error};
use crate::sam3_bundle::Manifest;
use crate::text::{cat4, decimal, decimal_of, same, texts, texts_push};
use vstd::prelude::*;

verus! {

/// Model constants (from the manifest's `param` lines).
#[derive(Debug, Clone)]
pub struct Config {
    pub grid: usize,
    pub window: usize,
    pub vit_dim: usize,
    pub vit_heads: usize,
    pub vit_layers: usize,
    pub vit_ffn_pad: usize,
    pub vit_global: Vec<usize>,
    pub patch: usize,
    pub image_size: usize,
    pub d_model: usize,
    pub d_heads: usize,
    pub d_layers: usize,
    pub d_ffn: usize,
    pub text_len: usize,
    pub text_dim: usize,
    pub text_heads: usize,
    pub text_layers: usize,
    pub text_ffn: usize,
    /// A real number, as written.
    pub text_eps: String,
    /// A real number, as written.
    pub vit_eps: String,
    pub queries: usize,
    pub dec_layers: usize,
    pub neck_splits: Vec<usize>,
    pub mask_size: usize,
    /// Every ViT layer on the device (RoPE, LayerNorms, residual adds);
    /// bundles from before it host that glue.
    pub vit_device: bool,
    /// The device keeps the residual stream in single precision.
    pub vit_res_f32: bool,
}

#[verifier::ext_equal]
pub struct ConfigView {
    pub grid: usize,
    pub window: usize,
    pub vit_dim: usize,
    pub vit_heads: usize,
    pub vit_layers: usize,
    pub vit_ffn_pad: usize,
    pub vit_global: Seq<usize>,
    pub patch: usize,
    pub image_size: usize,
    pub d_model: usize,
    pub d_heads: usize,
    pub d_layers: usize,
    pub d_ffn: usize,
    pub text_len: usize,
    pub text_dim: usize,
    pub text_heads: usize,
    pub text_layers: usize,
    pub text_ffn: usize,
    pub text_eps: Seq<char>,
    pub vit_eps: Seq<char>,
    pub queries: usize,
    pub dec_layers: usize,
    pub neck_splits: Seq<usize>,
    pub mask_size: usize,
    pub vit_device: bool,
    pub vit_res_f32: bool,
}

impl View for Config {
    type V = ConfigView;

    open spec fn view(&self) -> ConfigView {
        ConfigView {
            grid: self.grid,
            window: self.window,
            vit_dim: self.vit_dim,
            vit_heads: self.vit_heads,
            vit_layers: self.vit_layers,
            vit_ffn_pad: self.vit_ffn_pad,
            vit_global: self.vit_global@,
            patch: self.patch,
            image_size: self.image_size,
            d_model: self.d_model,
            d_heads: self.d_heads,
            d_layers: self.d_layers,
            d_ffn: self.d_ffn,
            text_len: self.text_len,
            text_dim: self.text_dim,
            text_heads: self.text_heads,
            text_layers: self.text_layers,
            text_ffn: self.text_ffn,
            text_eps: self.text_eps@,
            vit_eps: self.vit_eps@,
            queries: self.queries,
            dec_layers: self.dec_layers,
            neck_splits: self.neck_splits@,
            mask_size: self.mask_size,
            vit_device: self.vit_device,
            vit_res_f32: self.vit_res_f32,
        }
    }
}

/// Whether a param is `1`.
pub open spec fn is_on(m: BaseView, k: Seq<char>) -> bool {
    m.param(k) matches Ok(v) && v == "1"@
}

/// The params, read in order: the first that is missing or malformed is
/// reported.
pub open spec fn config_of(m: BaseView) -> Result<ConfigView, Seq<char>> {
    match (
        m.param_as::<usize>("grid"@),
        m.param_as::<usize>("window"@),
        m.param_as::<usize>("vit_dim"@),
        m.param_as::<usize>("vit_heads"@),
        m.param_as::<usize>("vit_layers"@),
        m.param_as::<usize>("vit_ffn_pad"@),
        m.list::<usize>("vit_global"@),
        m.param_as::<usize>("patch"@),
    ) {
        (Err(e), _, _, _, _, _, _, _) => Err(e),
        (_, Err(e), _, _, _, _, _, _) => Err(e),
        (_, _, Err(e), _, _, _, _, _) => Err(e),
        (_, _, _, Err(e), _, _, _, _) => Err(e),
        (_, _, _, _, Err(e), _, _, _) => Err(e),
        (_, _, _, _, _, Err(e), _, _) => Err(e),
        (_, _, _, _, _, _, Err(e), _) => Err(e),
        (_, _, _, _, _, _, _, Err(e)) => Err(e),
        (Ok(grid), Ok(window), Ok(vit_dim), Ok(vit_heads), Ok(vit_layers), Ok(vit_ffn_pad), Ok(vit_global), Ok(patch)) => {
            match (
                m.param_as::<usize>("image_size"@),
                m.param_as::<usize>("d_model"@),
                m.param_as::<usize>("d_heads"@),
                m.param_as::<usize>("d_layers"@),
                m.param_as::<usize>("d_ffn"@),
                m.param_as::<usize>("text_len"@),
                m.param_as::<usize>("text_dim"@),
                m.param_as::<usize>("text_heads"@),
            ) {
                (Err(e), _, _, _, _, _, _, _) => Err(e),
                (_, Err(e), _, _, _, _, _, _) => Err(e),
                (_, _, Err(e), _, _, _, _, _) => Err(e),
                (_, _, _, Err(e), _, _, _, _) => Err(e),
                (_, _, _, _, Err(e), _, _, _) => Err(e),
                (_, _, _, _, _, Err(e), _, _) => Err(e),
                (_, _, _, _, _, _, Err(e), _) => Err(e),
                (_, _, _, _, _, _, _, Err(e)) => Err(e),
                (Ok(image_size), Ok(d_model), Ok(d_heads), Ok(d_layers), Ok(d_ffn), Ok(text_len), Ok(text_dim), Ok(text_heads)) => {
                    match (
                        m.param_as::<usize>("text_layers"@),
                        m.param_as::<usize>("text_ffn"@),
                        m.real_param("text_eps"@),
                        m.real_param("vit_eps"@),
                        m.param_as::<usize>("queries"@),
                        m.param_as::<usize>("dec_layers"@),
                        m.list::<usize>("neck_splits"@),
                        m.param_as::<usize>("mask_size"@),
                    ) {
                        (Err(e), _, _, _, _, _, _, _) => Err(e),
                        (_, Err(e), _, _, _, _, _, _) => Err(e),
                        (_, _, Err(e), _, _, _, _, _) => Err(e),
                        (_, _, _, Err(e), _, _, _, _) => Err(e),
                        (_, _, _, _, Err(e), _, _, _) => Err(e),
                        (_, _, _, _, _, Err(e), _, _) => Err(e),
                        (_, _, _, _, _, _, Err(e), _) => Err(e),
                        (_, _, _, _, _, _, _, Err(e)) => Err(e),
                        (Ok(text_layers), Ok(text_ffn), Ok(text_eps), Ok(vit_eps), Ok(queries), Ok(dec_layers), Ok(neck_splits), Ok(mask_size)) => Ok(
                            ConfigView {
                                grid,
                                window,
                                vit_dim,
                                vit_heads,
                                vit_layers,
                                vit_ffn_pad,
                                vit_global,
                                patch,
                                image_size,
                                d_model,
                                d_heads,
                                d_layers,
                                d_ffn,
                                text_len,
                                text_dim,
                                text_heads,
                                text_layers,
                                text_ffn,
                                text_eps,
                                vit_eps,
                                queries,
                                dec_layers,
                                neck_splits,
                                mask_size,
                                vit_device: is_on(m, "vit_device"@),
                                vit_res_f32: is_on(m, "vit_res_f32"@),
                            },
                        ),
                    }
                },
            }
        },
    }
}

fn on(m: &Manifest, k: &str) -> (r: bool)
    ensures
        r == is_on(m@.base, k@),
{
    match m.param(k) {
        Ok(v) => same(v, "1"),
        Err(_) => false,
    }
}

impl Config {
    /// The constants a manifest gives.
    pub fn from(m: &Manifest) -> (r: Result<Config, Error>)
        ensures
            reads(r, config_of(m@.base)),
    {
        Ok(
            Config {
                grid: m.usize("grid")?,
                window: m.usize("window")?,
                vit_dim: m.usize("vit_dim")?,
                vit_heads: m.usize("vit_heads")?,
                vit_layers: m.usize("vit_layers")?,
                vit_ffn_pad: m.usize("vit_ffn_pad")?,
                vit_global: m.list("vit_global")?,
                patch: m.usize("patch")?,
                image_size: m.usize("image_size")?,
                d_model: m.usize("d_model")?,
                d_heads: m.usize("d_heads")?,
                d_layers: m.usize("d_layers")?,
                d_ffn: m.usize("d_ffn")?,
                text_len: m.usize("text_len")?,
                text_dim: m.usize("text_dim")?,
                text_heads: m.usize("text_heads")?,
                text_layers: m.usize("text_layers")?,
                text_ffn: m.usize("text_ffn")?,
                text_eps: m.real_param("text_eps")?,
                vit_eps: m.real_param("vit_eps")?,
                queries: m.usize("queries")?,
                dec_layers: m.usize("dec_layers")?,
                neck_splits: m.list("neck_splits")?,
                mask_size: m.usize("mask_size")?,
                vit_device: on(m, "vit_device"),
                vit_res_f32: on(m, "vit_res_f32"),
            },
        )
    }

    /// ViT tokens.
    pub fn tokens(&self) -> (r: usize)
        requires
            self.grid * self.grid <= usize::MAX,
        ensures
            r == self.grid * self.grid,
    {
        self.grid * self.grid
    }
}

// ---------------------------------------------------------------------------
// What is uploaded.

/// `<stage>.<i>.<what>`.
pub open spec fn layer_name(stage: Seq<char>, i: nat, what: Seq<char>) -> Seq<char> {
    stage + decimal(i) + "."@ + what
}

/// The packed weights of a transformer layer.
pub open spec fn layer_weights(stage: Seq<char>, i: nat) -> Seq<Seq<char>> {
    seq![
        layer_name(stage, i, "qkv"@),
        layer_name(stage, i, "o"@),
        layer_name(stage, i, "fc1"@),
        layer_name(stage, i, "fc2"@),
    ]
}

/// Those of the first `n` layers.
pub open spec fn all_layer_weights(stage: Seq<char>, n: nat) -> Seq<Seq<char>>
    decreases n,
{
    if n == 0 {
        seq![]
    } else {
        all_layer_weights(stage, (n - 1) as nat) + layer_weights(stage, (n - 1) as nat)
    }
}

/// Every packed weight, in the order they are uploaded.
pub open spec fn weights_of(c: ConfigView) -> Seq<Seq<char>> {
    seq!["v.embed"@, "n.in"@, "n.up"@, "dec.kv"@] + all_layer_weights("v."@, c.vit_layers as nat) + all_layer_weights(
        "d."@,
        c.d_layers as nat,
    ) + seq!["n.conv0"@, "n.conv1"@, "n.conv2"@, "m.conv0"@, "m.conv1"@] + (if c.vit_device {
        seq!["v.rope_tab.win"@, "v.rope_tab.glob"@]
    } else {
        seq![]
    })
}

pub(crate) fn name_of(stage: &str, i: usize, what: &str) -> (r: String)
    ensures
        r@ == layer_name(stage@, i as nat, what@),
{
    cat4(stage, decimal_of(i as u128).as_str(), ".", what)
}

fn push_name(out: &mut Vec<String>, s: String)
    ensures
        texts(final(out)@) == texts(old(out)@).push(s@),
{
    proof {
        texts_push(out@, s);
    }
    out.push(s);
}

pub(crate) fn push_layers(out: &mut Vec<String>, stage: &str, n: usize)
    ensures
        texts(final(out)@) == texts(old(out)@) + all_layer_weights(stage@, n as nat),
{
    let ghost start = texts(out@);
    let mut i: usize = 0;
    proof {
        assert(start + all_layer_weights(stage@, 0) =~= start);
    }
    while i < n
        invariant
            i <= n,
            texts(out@) == start + all_layer_weights(stage@, i as nat),
        decreases n - i,
    {
        push_name(out, name_of(stage, i, "qkv"));
        push_name(out, name_of(stage, i, "o"));
        push_name(out, name_of(stage, i, "fc1"));
        push_name(out, name_of(stage, i, "fc2"));
        proof {
            let p = all_layer_weights(stage@, i as nat);
            let q = layer_weights(stage@, i as nat);
            assert(texts(out@) =~= start + (p + q));
        }
        i += 1;
    }
}

/// The names of every packed weight to upload.
pub fn weight_names(c: &Config) -> (r: Vec<String>)
    ensures
        texts(r@) == weights_of(c@),
{
    let mut out: Vec<String> = Vec::new();
    push_name(&mut out, "v.embed".to_string());
    push_name(&mut out, "n.in".to_string());
    push_name(&mut out, "n.up".to_string());
    push_name(&mut out, "dec.kv".to_string());
    proof {
        assert(texts(out@) =~= seq!["v.embed"@, "n.in"@, "n.up"@, "dec.kv"@]);
    }
    push_layers(&mut out, "v.", c.vit_layers);
    push_layers(&mut out, "d.", c.d_layers);
    let ghost so_far = texts(out@);
    push_name(&mut out, "n.conv0".to_string());
    push_name(&mut out, "n.conv1".to_string());
    push_name(&mut out, "n.conv2".to_string());
    push_name(&mut out, "m.conv0".to_string());
    push_name(&mut out, "m.conv1".to_string());
    proof {
        assert(texts(out@) =~= so_far + seq!["n.conv0"@, "n.conv1"@, "n.conv2"@, "m.conv0"@, "m.conv1"@]);
    }
    let ghost convs = texts(out@);
    if c.vit_device {
        push_name(&mut out, "v.rope_tab.win".to_string());
        push_name(&mut out, "v.rope_tab.glob".to_string());
    }
    proof {
        assert(texts(out@) =~= convs + (if c.vit_device {
            seq!["v.rope_tab.win"@, "v.rope_tab.glob"@]
        } else {
            seq![]
        }));
    }
    out
}

/// The per-prompt weight slots of the first `n` encoder layers, each with
/// the kernel it is sized for.
pub open spec fn layer_slots(n: nat) -> Seq<(Seq<char>, Seq<char>)>
    decreases n,
{
    if n == 0 {
        seq![]
    } else {
        layer_slots((n - 1) as nat) + seq![
            (layer_name("d."@, (n - 1) as nat, "s"@), "d_s"@),
            (layer_name("d."@, (n - 1) as nat, "c"@), "d_c"@),
        ]
    }
}

pub open spec fn slots_of(d_layers: nat) -> Seq<(Seq<char>, Seq<char>)> {
    layer_slots(d_layers) + seq![("m.s"@, "d_s"@), ("m.c"@, "d_c"@), ("m.head"@, "m_head"@)]
}

pub open spec fn slot_views(v: Seq<(String, &'static str)>) -> Seq<(Seq<char>, Seq<char>)> {
    v.map_values(|s: (String, &'static str)| (s.0@, s.1@))
}

fn push_slot(out: &mut Vec<(String, &'static str)>, name: String, kernel: &'static str)
    ensures
        slot_views(final(out)@) == slot_views(old(out)@).push((name@, kernel@)),
{
    let ghost was = out@;
    out.push((name, kernel));
    proof {
        assert(slot_views(out@) =~= slot_views(was).push((name@, kernel@)));
    }
}

/// The weight slots filled per prompt, and the kernels they are sized for.
pub fn weight_slots(d_layers: usize) -> (r: Vec<(String, &'static str)>)
    ensures
        slot_views(r@) == slots_of(d_layers as nat),
{
    let mut out: Vec<(String, &'static str)> = Vec::new();
    let mut i: usize = 0;
    proof {
        assert(slot_views(out@) =~= layer_slots(0));
    }
    while i < d_layers
        invariant
            i <= d_layers,
            slot_views(out@) == layer_slots(i as nat),
        decreases d_layers - i,
    {
        push_slot(&mut out, name_of("d.", i, "s"), "d_s");
        push_slot(&mut out, name_of("d.", i, "c"), "d_c");
        proof {
            assert(slot_views(out@) =~= layer_slots(i as nat) + seq![
                (layer_name("d."@, i as nat, "s"@), "d_s"@),
                (layer_name("d."@, i as nat, "c"@), "d_c"@),
            ]);
        }
        i += 1;
    }
    let ghost layers = slot_views(out@);
    push_slot(&mut out, "m.s".to_string(), "d_s");
    push_slot(&mut out, "m.c".to_string(), "d_c");
    push_slot(&mut out, "m.head".to_string(), "m_head");
    proof {
        assert(slot_views(out@) =~= layers + seq![("m.s"@, "d_s"@), ("m.c"@, "d_c"@), ("m.head"@, "m_head"@)]);
    }
    out
}

// ---------------------------------------------------------------------------
// The device-resident backbone.

/// A buffer of the backbone.
#[derive(Debug, Clone, Copy, PartialEq, Eq, Structural)]
pub enum Slot {
    QkvA,
    QkvC,
    RopeTable,
    RopeOut,
    OA,
    OC,
    Fc1A,
    Fc2C,
    Res0,
    Res1,
}

/// One launch of the backbone.
#[derive(Debug, Clone)]
pub enum Launch {
    /// A GEMM with its operands in place and the named weights.
    Gemm { io: &'static str, weights: String },
    /// A kernel over buffers, in its argument order; a table where the
    /// arguments hold `RopeTable`.
    Op { kernel: &'static str, args: Vec<Slot>, table: &'static str },
}

#[verifier::ext_equal]
pub enum LaunchView {
    Gemm { io: Seq<char>, weights: Seq<char> },
    Op { kernel: Seq<char>, args: Seq<Slot>, table: Seq<char> },
}

impl View for Launch {
    type V = LaunchView;

    open spec fn view(&self) -> LaunchView {
        match self {
            Launch::Gemm { io, weights } => LaunchView::Gemm { io: io@, weights: weights@ },
            Launch::Op { kernel, args, table } => LaunchView::Op { kernel: kernel@, args: args@, table: table@ },
        }
    }
}

/// The launches of layer `i`: qkv, rotary positions, attention, o, residual
/// add and LayerNorm, the MLP, residual add and LayerNorm; each reads what
/// the one before it wrote.
pub open spec fn layer_launches(i: nat, global: bool) -> Seq<LaunchView> {
    let table = if global {
        "v.rope_tab.glob"@
    } else {
        "v.rope_tab.win"@
    };
    let attention = if global {
        "mha_glob"@
    } else {
        "mha_win"@
    };
    seq![
        LaunchView::Gemm { io: "v_qkv"@, weights: layer_name("v."@, i, "qkv"@) },
        LaunchView::Op { kernel: "rope"@, args: seq![Slot::QkvC, Slot::RopeTable, Slot::RopeOut], table },
        LaunchView::Op {
            kernel: attention,
            args: seq![Slot::RopeOut, Slot::RopeOut, Slot::QkvC, Slot::OA],
            table,
        },
        LaunchView::Gemm { io: "v_o"@, weights: layer_name("v."@, i, "o"@) },
        LaunchView::Op { kernel: "addln"@, args: seq![Slot::Res0, Slot::OC, Slot::Res1, Slot::Fc1A], table },
        LaunchView::Gemm { io: "v_fc1"@, weights: layer_name("v."@, i, "fc1"@) },
        LaunchView::Gemm { io: "v_fc2"@, weights: layer_name("v."@, i, "fc2"@) },
        LaunchView::Op { kernel: "addln"@, args: seq![Slot::Res1, Slot::Fc2C, Slot::Res0, Slot::QkvA], table },
    ]
}

/// The launches of the first `n` layers.
pub open spec fn launches_of(n: nat, global: Seq<usize>) -> Seq<LaunchView>
    decreases n,
{
    if n == 0 {
        seq![]
    } else {
        launches_of((n - 1) as nat, global) + layer_launches((n - 1) as nat, global.contains((n - 1) as usize))
    }
}

pub open spec fn launch_views(v: Seq<Launch>) -> Seq<LaunchView> {
    v.map_values(|l: Launch| l@)
}

fn push_launch(out: &mut Vec<Launch>, l: Launch)
    ensures
        launch_views(final(out)@) == launch_views(old(out)@).push(l@),
{
    let ghost was = out@;
    out.push(l);
    proof {
        assert(launch_views(out@) =~= launch_views(was).push(l@));
    }
}

fn four(a: Slot, b: Slot, c: Slot, d: Slot) -> (r: Vec<Slot>)
    ensures
        r@ == seq![a, b, c, d],
{
    let mut v: Vec<Slot> = Vec::new();
    v.push(a);
    v.push(b);
    v.push(c);
    v.push(d);
    v
}

fn three(a: Slot, b: Slot, c: Slot) -> (r: Vec<Slot>)
    ensures
        r@ == seq![a, b, c],
{
    let mut v: Vec<Slot> = Vec::new();
    v.push(a);
    v.push(b);
    v.push(c);
    v
}

fn push_layer_launches(out: &mut Vec<Launch>, i: usize, global: bool)
    ensures
        launch_views(final(out)@) == launch_views(old(out)@) + layer_launches(i as nat, global),
{
    let ghost start = launch_views(out@);
    let table = if global {
        "v.rope_tab.glob"
    } else {
        "v.rope_tab.win"
    };
    let attention = if global {
        "mha_glob"
    } else {
        "mha_win"
    };
    push_launch(out, Launch::Gemm { io: "v_qkv", weights: name_of("v.", i, "qkv") });
    push_launch(
        out,
        Launch::Op { kernel: "rope", args: three(Slot::QkvC, Slot::RopeTable, Slot::RopeOut), table },
    );
    push_launch(
        out,
        Launch::Op { kernel: attention, args: four(Slot::RopeOut, Slot::RopeOut, Slot::QkvC, Slot::OA), table },
    );
    push_launch(out, Launch::Gemm { io: "v_o", weights: name_of("v.", i, "o") });
    push_launch(
        out,
        Launch::Op { kernel: "addln", args: four(Slot::Res0, Slot::OC, Slot::Res1, Slot::Fc1A), table },
    );
    push_launch(out, Launch::Gemm { io: "v_fc1", weights: name_of("v.", i, "fc1") });
    push_launch(out, Launch::Gemm { io: "v_fc2", weights: name_of("v.", i, "fc2") });
    push_launch(
        out,
        Launch::Op { kernel: "addln", args: four(Slot::Res1, Slot::Fc2C, Slot::Res0, Slot::QkvA), table },
    );
    proof {
        assert(launch_views(out@) =~= start + layer_launches(i as nat, global));
    }
}

/// Whether layer `i` attends globally.
pub fn is_global(c: &Config, i: usize) -> (r: bool)
    ensures
        r == c@.vit_global.contains(i),
{
    let mut k: usize = 0;
    while k < c.vit_global.len()
        invariant
            k <= c.vit_global.len(),
            forall|j: int| 0 <= j < k ==> #[trigger] c.vit_global@[j] != i,
        decreases c.vit_global.len() - k,
    {
        if c.vit_global[k] == i {
            proof {
                assert(c.vit_global@[k as int] == i);
            }
            return true;
        }
        k += 1;
    }
    false
}

/// Every launch of the device-resident backbone, in order.
pub fn vit_launches(c: &Config) -> (r: Vec<Launch>)
    ensures
        launch_views(r@) == launches_of(c.vit_layers as nat, c@.vit_global),
{
    let mut out: Vec<Launch> = Vec::new();
    let mut i: usize = 0;
    proof {
        assert(launch_views(out@) =~= launches_of(0, c@.vit_global));
    }
    while i < c.vit_layers
        invariant
            i <= c.vit_layers,
            launch_views(out@) == launches_of(i as nat, c@.vit_global),
        decreases c.vit_layers - i,
    {
        push_layer_launches(&mut out, i, is_global(c, i));
        i += 1;
    }
    out
}

/// Every layer is eight launches; the residual stream ends where it began.
pub proof fn launches_per_layer(n: nat, global: Seq<usize>)
    ensures
        launches_of(n, global).len() == 8 * n,
        n > 0 ==> (launches_of(n, global).last() matches LaunchView::Op { kernel, args, table } && args[2] == Slot::Res0),
    decreases n,
{
    if n > 0 {
        launches_per_layer((n - 1) as nat, global);
    }
}

/// The launches of layer `i` stand in order behind those of the layers before
/// it, and hand the stream on: attention reads rotated queries and keys and
/// plain values, its projection is added to the stream, whose norm the MLP
/// reads, and the MLP's result is added to that sum, whose norm the next layer
/// reads.
pub proof fn launches_hand_the_stream_on(n: nat, global: Seq<usize>, i: nat)
    requires
        i < n <= usize::MAX,
    ensures
        ({
            let l = launches_of(n, global);
            let at = "v."@ + decimal(i) + "."@;
            let table = if global.contains(i as usize) {
                "v.rope_tab.glob"@
            } else {
                "v.rope_tab.win"@
            };
            &&& l.len() == 8 * n
            &&& l[8int * i] == (LaunchView::Gemm { io: "v_qkv"@, weights: at + "qkv"@ })
            &&& l[8int * i + 1] == (LaunchView::Op { kernel: "rope"@, args: seq![Slot::QkvC, Slot::RopeTable, Slot::RopeOut], table })
            &&& l[8int * i + 2] == (LaunchView::Op {
                kernel: if global.contains(i as usize) {
                    "mha_glob"@
                } else {
                    "mha_win"@
                },
                args: seq![Slot::RopeOut, Slot::RopeOut, Slot::QkvC, Slot::OA],
                table,
            })
            &&& l[8int * i + 3] == (LaunchView::Gemm { io: "v_o"@, weights: at + "o"@ })
            &&& l[8int * i + 4] == (LaunchView::Op {
                kernel: "addln"@,
                args: seq![Slot::Res0, Slot::OC, Slot::Res1, Slot::Fc1A],
                table,
            })
            &&& l[8int * i + 5] == (LaunchView::Gemm { io: "v_fc1"@, weights: at + "fc1"@ })
            &&& l[8int * i + 6] == (LaunchView::Gemm { io: "v_fc2"@, weights: at + "fc2"@ })
            &&& l[8int * i + 7] == (LaunchView::Op {
                kernel: "addln"@,
                args: seq![Slot::Res1, Slot::Fc2C, Slot::Res0, Slot::QkvA],
                table,
            })
        }),
    decreases n,
{
    launches_per_layer(n, global);
    launches_per_layer((n - 1) as nat, global);
    let (l, b) = (launches_of(n, global), launches_of((n - 1) as nat, global));
    if i < n - 1 {
        launches_hand_the_stream_on((n - 1) as nat, global, i);
        assert forall|k: int| 0 <= k < b.len() implies l[k] == b[k] by {
        }
    } else {
        let last = layer_launches(i, global.contains(i as usize));
        assert forall|k: int| 0 <= k < 8 implies l[8int * i + k] == last[k] by {
        }
        assert(l[8int * i + 0] == last[0]);
        assert(l[8int * i + 1] == last[1]);
        assert(l[8int * i + 2] == last[2]);
        assert(l[8int * i + 3] == last[3]);
        assert(l[8int * i + 4] == last[4]);
        assert(l[8int * i + 5] == last[5]);
        assert(l[8int * i + 6] == last[6]);
        assert(l[8int * i + 7] == last[7]);
    }
}

proof fn layer_weights_are_there(stage: Seq<char>, n: nat, i: nat, k: int)
    requires
        i < n,
        0 <= k < 4,
    ensures
        all_layer_weights(stage, n).contains(layer_weights(stage, i)[k]),
    decreases n,
{
    let (all, b) = (all_layer_weights(stage, n), all_layer_weights(stage, (n - 1) as nat));
    let w = layer_weights(stage, i)[k];
    if i < n - 1 {
        layer_weights_are_there(stage, (n - 1) as nat, i, k);
        let j = choose|j: int| 0 <= j < b.len() && b[j] == w;
        assert(all[j] == w);
    } else {
        assert(all[b.len() + k] == w);
    }
}

/// Every packed weight that a kernel of the stages takes is uploaded: the
/// four of every layer of backbone and encoder, and those of the other
/// kernels.
pub proof fn every_weight_is_uploaded(c: ConfigView, i: nat)
    ensures
        i < c.vit_layers ==> {
            &&& weights_of(c).contains("v."@ + decimal(i) + "."@ + "qkv"@)
            &&& weights_of(c).contains("v."@ + decimal(i) + "."@ + "o"@)
            &&& weights_of(c).contains("v."@ + decimal(i) + "."@ + "fc1"@)
            &&& weights_of(c).contains("v."@ + decimal(i) + "."@ + "fc2"@)
        },
        i < c.d_layers ==> {
            &&& weights_of(c).contains("d."@ + decimal(i) + "."@ + "qkv"@)
            &&& weights_of(c).contains("d."@ + decimal(i) + "."@ + "o"@)
            &&& weights_of(c).contains("d."@ + decimal(i) + "."@ + "fc1"@)
            &&& weights_of(c).contains("d."@ + decimal(i) + "."@ + "fc2"@)
        },
        weights_of(c).contains("v.embed"@) && weights_of(c).contains("n.in"@) && weights_of(c).contains("n.up"@),
        weights_of(c).contains("dec.kv"@) && weights_of(c).contains("n.conv0"@) && weights_of(c).contains("n.conv1"@),
        weights_of(c).contains("n.conv2"@) && weights_of(c).contains("m.conv0"@) && weights_of(c).contains("m.conv1"@),
        c.vit_device ==> weights_of(c).contains("v.rope_tab.win"@) && weights_of(c).contains("v.rope_tab.glob"@),
{
    let head = seq!["v.embed"@, "n.in"@, "n.up"@, "dec.kv"@];
    let (v, d) = (all_layer_weights("v."@, c.vit_layers as nat), all_layer_weights("d."@, c.d_layers as nat));
    let convs = seq!["n.conv0"@, "n.conv1"@, "n.conv2"@, "m.conv0"@, "m.conv1"@];
    let all = weights_of(c);
    let (nv, nd) = (v.len() as int, d.len() as int);
    assert(all[0] == head[0] && all[1] == head[1] && all[2] == head[2] && all[3] == head[3]);
    assert(all[4 + nv + nd] == convs[0] && all[5 + nv + nd] == convs[1] && all[6 + nv + nd] == convs[2] && all[7 + nv + nd]
        == convs[3] && all[8 + nv + nd] == convs[4]);
    if c.vit_device {
        assert(all[9 + nv + nd] == "v.rope_tab.win"@ && all[10 + nv + nd] == "v.rope_tab.glob"@);
    }
    if i < c.vit_layers {
        assert forall|k: int| 0 <= k < 4 implies all.contains(#[trigger] layer_weights("v."@, i)[k]) by {
            layer_weights_are_there("v."@, c.vit_layers as nat, i, k);
            let j = choose|j: int| 0 <= j < v.len() && v[j] == layer_weights("v."@, i)[k];
            assert(all[4 + j] == v[j]);
        }
        let w = layer_weights("v."@, i);
        assert(all.contains(w[0]) && all.contains(w[1]) && all.contains(w[2]) && all.contains(w[3]));
    }
    if i < c.d_layers {
        assert forall|k: int| 0 <= k < 4 implies all.contains(#[trigger] layer_weights("d."@, i)[k]) by {
            layer_weights_are_there("d."@, c.d_layers as nat, i, k);
            let j = choose|j: int| 0 <= j < d.len() && d[j] == layer_weights("d."@, i)[k];
            assert(all[4 + nv + j] == d[j]);
        }
        let w = layer_weights("d."@, i);
        assert(all.contains(w[0]) && all.contains(w[1]) && all.contains(w[2]) && all.contains(w[3]));
    }
}

/// Every slot that a prompt's weights are packed into is there, sized for
/// the kernel that reads it.
pub proof fn every_slot_is_there(n: nat, i: nat)
    ensures
        i < n ==> slots_of(n).contains(("d."@ + decimal(i) + "."@ + "s"@, "d_s"@)) && slots_of(n).contains(
            ("d."@ + decimal(i) + "."@ + "c"@, "d_c"@),
        ),
        slots_of(n).contains(("m.s"@, "d_s"@)),
        slots_of(n).contains(("m.c"@, "d_c"@)),
        slots_of(n).contains(("m.head"@, "m_head"@)),
    decreases n,
{
    let l = layer_slots(n);
    let all = slots_of(n);
    let k = l.len() as int;
    assert(all[k] == ("m.s"@, "d_s"@) && all[k + 1] == ("m.c"@, "d_c"@) && all[k + 2] == ("m.head"@, "m_head"@));
    if i < n {
        let b = layer_slots((n - 1) as nat);
        let (s, c) = ((layer_name("d."@, i, "s"@), "d_s"@), (layer_name("d."@, i, "c"@), "d_c"@));
        if i < n - 1 {
            every_slot_is_there((n - 1) as nat, i);
            let before = slots_of((n - 1) as nat);
            let (p, q) = (
                choose|p: int| 0 <= p < before.len() && before[p] == s,
                choose|q: int| 0 <= q < before.len() && before[q] == c,
            );
            slot_names_differ(i);
            assert(p < b.len() && q < b.len()) by {
                if p >= b.len() {
                    assert(before[b.len() + (p - b.len())] == before[p]);
                }
            }
            assert(all[p] == s && all[q] == c);
        } else {
            assert(all[b.len() as int] == s && all[b.len() as int + 1] == c);
        }
    }
}

/// A layer's slot is not one of the mask decoder's.
proof fn slot_names_differ(i: nat)
    ensures
        layer_name("d."@, i, "s"@) != "m.s"@,
        layer_name("d."@, i, "s"@) != "m.c"@,
        layer_name("d."@, i, "s"@) != "m.head"@,
        layer_name("d."@, i, "c"@) != "m.s"@,
        layer_name("d."@, i, "c"@) != "m.c"@,
        layer_name("d."@, i, "c"@) != "m.head"@,
{
    reveal_strlit("d.");
    reveal_strlit("m.s");
    reveal_strlit("m.c");
    reveal_strlit("m.head");
    assert(layer_name("d."@, i, "s"@)[0] == 'd');
    assert(layer_name("d."@, i, "c"@)[0] == 'd');
    assert("m.s"@[0] == 'm' && "m.c"@[0] == 'm' && "m.head"@[0] == 'm');
}

} // verus!
