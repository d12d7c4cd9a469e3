//! What the stages of SAM 3 compute, as terms over what they are given:
//! which values meet in which step, and that every residual sum carries the
//! stream on.

use crate::sam3_flow::{flow, flow_in_turn, flows, given, held, of, of2, of3, of4, of5, Term, Terms};
use crate::sam3_stages::{
    cross_steps, decoder_end_steps, decoder_heads_steps, decoder_layer_of, decoder_layers, decoder_mlp_steps, decoder_places_steps,
    decoder_program, decoder_self_steps, decoder_start_steps, decoder_text_steps, decoder_vision_steps, embed_steps,
    encoder_attend_steps, encoder_end_steps, encoder_layer_of, encoder_layers, encoder_mlp_steps, encoder_program,
    encoder_start_steps, epilogue, first_norm_steps, fold_steps, layer_slot, mask_head_steps, mask_pixels_steps, mask_program,
    mask_start_steps, neck_convs_steps, neck_levels_steps, neck_program, prologue, round_steps, text_end_steps, text_layer_of, text_layer_steps,
    text_layers, text_program, text_start_steps, vit_attend_steps, vit_end_steps, vit_layer_of, vit_layers, vit_mlp_steps,
    vit_program, vit_start_steps, Sizes,
};
use crate::sam3::Error;
use crate::sam3_machine::{runs_to, step_gives, step_to, trace, Fault, ModelView, Parts};
use crate::sam3_steps::{Eps, Kernel, Op, Reg, StepView};
use crate::sam3_values::{operands, Value, ValueView};
use crate::text::decimal;
use vstd::prelude::*;

verus! {

/// No name.
pub open spec fn none() -> Seq<char> {
    Seq::empty()
}

/// The name of part `w` of layer `i` of a stage.
pub open spec fn part(stage: Seq<char>, i: usize, w: Seq<char>) -> Seq<char> {
    stage + decimal(i as nat) + "."@ + w
}


pub open spec fn sum(a: Term, b: Term) -> Term {
    of2(Op::Add, none(), a, b)
}

pub open spec fn norm(dim: usize, eps: Eps, name: Seq<char>, x: Term) -> Term {
    of(Op::LayerNorm { dim, eps }, name, x)
}

pub open spec fn linear(n_in: usize, n_out: usize, half: bool, name: Seq<char>, x: Term) -> Term {
    of(Op::Linear { n_in, n_out, half }, name, x)
}

pub open spec fn rounded(x: Term) -> Term {
    of(Op::Narrow, none(), x)
}

pub open spec fn widened(x: Term) -> Term {
    of(Op::Widen, none(), x)
}

pub open spec fn gemm(kernel: Kernel, rows: usize, k: usize, n: usize, name: Seq<char>, x: Term) -> Term {
    of(Op::Gemm { kernel, rows, k, n }, name, x)
}

/// A stream plus what a kernel gave, in half precision.
pub open spec fn residual(dim: usize, x: Term, c: Term) -> Term {
    of2(Op::Residual { dim, bias: false }, none(), x, c)
}

pub open spec fn residual_biased(dim: usize, name: Seq<char>, x: Term, c: Term) -> Term {
    of2(Op::Residual { dim, bias: true }, name, x, c)
}

pub open spec fn tensor(rows: usize, cols: usize, name: Seq<char>) -> Term {
    given(Op::Tensor { rows, cols }, name)
}

/// A text layer adds the attention of its normed stream to the stream, and to
/// that sum the MLP of its norm: `x + o`, then `+ f`.
pub proof fn a_text_layer_adds_to_its_stream(z: Sizes, i: usize, t: Terms)
    ensures
        ({
            let x = held(t, Reg::Xt);
            let o = linear(z.tdim, z.tdim, true, part("t."@, i, "o"@), of(Op::SelfAttend { heads: z.theads, dim: z.tdim, causal: true }, none(), linear(z.tdim, z.tdim3, true, part("t."@, i, "qkv"@), norm(z.tdim, Eps::Text, part("t."@, i, "ln1"@), x))));
            let f = linear(z.tffn, z.tdim, true, part("t."@, i, "fc2"@), of(Op::Gelu, none(), linear(z.tdim, z.tffn, true, part("t."@, i, "fc1"@), norm(z.tdim, Eps::Text, part("t."@, i, "ln2"@), sum(x, o)))));
            held(flow(text_layer_steps(z, i), t), Reg::Xt) == sum(sum(x, o), f)
        }),
{
    let p = text_layer_steps(z, i);
    assert(p.len() == 10);
    reveal_with_fuel(flows, 11);
}

/// The text features are the projection of the stream's last norm, padded to
/// the prompt's length.
pub proof fn text_ends_with_a_norm_and_a_projection(z: Sizes, t: Terms)
    ensures
        ({
            held(flow(text_end_steps(z), t), Reg::Feats) == of(Op::PadRows { rows: z.len }, none(), linear(z.tdim, z.d, false, "t.proj"@, norm(z.tdim, Eps::Text, "t.final_ln"@, held(t, Reg::Xt))))
        }),
{
    let p = text_end_steps(z);
    assert(p.len() == 3);
    reveal_with_fuel(flows, 4);
}

/// A backbone layer adds to its stream the attention of its norm: queries and
/// keys rotated by their positions, within windows or over all tokens.
pub proof fn a_backbone_layer_attends(z: Sizes, i: usize, global: bool, t: Terms)
    ensures
        ({
            let x = held(t, Reg::X);
            let cos = held(t, if global { Reg::GlobCos } else { Reg::WinCos });
            let sin = held(t, if global { Reg::GlobSin } else { Reg::WinSin });
            let kernel = if global { Kernel::MhaGlob } else { Kernel::MhaWin };
            let (heads, hd, dim) = (z.vheads, z.vhd, z.vdim);
            let qkv = gemm(Kernel::VQkv, z.tokens, z.vdim, z.vdim3, part("v."@, i, "qkv"@), rounded(norm(z.vdim, Eps::Vit, part("v."@, i, "ln1"@), x)));
            let q = of3(Op::Rotate { part: 0, global, heads, hd, dim }, none(), qkv, cos, sin);
            let k = of3(Op::Rotate { part: 1, global, heads, hd, dim }, none(), qkv, cos, sin);
            let v = of(Op::SplitHeads { part: 2, global, heads, hd, dim }, none(), qkv);
            let o = of(Op::MergeHeads { global, heads, hd, dim }, none(), of3(Op::Mha { kernel }, none(), q, k, v));
            &&& held(flow(vit_attend_steps(z, i, global), t), Reg::X) == residual(z.vdim, x, gemm(Kernel::VO, z.tokens, z.vdim, z.vdim, part("v."@, i, "o"@), o))
            &&& held(flow(vit_attend_steps(z, i, global), t), Reg::GlobCos) == held(t, Reg::GlobCos) && held(flow(vit_attend_steps(z, i, global), t), Reg::GlobSin) == held(t, Reg::GlobSin)
            &&& held(flow(vit_attend_steps(z, i, global), t), Reg::WinCos) == held(t, Reg::WinCos) && held(flow(vit_attend_steps(z, i, global), t), Reg::WinSin) == held(t, Reg::WinSin)
        }),
{
    let p = vit_attend_steps(z, i, global);
    assert(p.len() == 10);
    reveal_with_fuel(flows, 11);
}

/// Then it adds the MLP of its second norm, with the second layer's bias.
pub proof fn a_backbone_layer_feeds_forward(z: Sizes, i: usize, t: Terms)
    ensures
        ({
            let x = held(t, Reg::X);
            let mid = of(Op::GemmStay { kernel: Kernel::VFc1, rows: z.tokens, k: z.vdim }, part("v."@, i, "fc1"@), rounded(norm(z.vdim, Eps::Vit, part("v."@, i, "ln2"@), x)));
            let c = of(Op::GemmOn { kernel: Kernel::VFc2, rows: z.tokens, n: z.vdim }, part("v."@, i, "fc2"@), mid);
            &&& held(flow(vit_mlp_steps(z, i), t), Reg::X) == residual_biased(z.vdim, part("v."@, i, "fc2.b"@), x, c)
            &&& held(flow(vit_mlp_steps(z, i), t), Reg::GlobCos) == held(t, Reg::GlobCos) && held(flow(vit_mlp_steps(z, i), t), Reg::GlobSin) == held(t, Reg::GlobSin)
            &&& held(flow(vit_mlp_steps(z, i), t), Reg::WinCos) == held(t, Reg::WinCos) && held(flow(vit_mlp_steps(z, i), t), Reg::WinSin) == held(t, Reg::WinSin)
        }),
{
    let p = vit_mlp_steps(z, i);
    assert(p.len() == 5);
    reveal_with_fuel(flows, 6);
}

/// The backbone starts from the patches' embeddings plus their positions,
/// normed, with the tables of both kinds of positions.
pub proof fn the_backbone_embeds_patches(z: Sizes, t: Terms)
    ensures
        ({
            let f = flow(vit_start_steps(z), t);
            &&& held(f, Reg::X) == norm(z.vdim, Eps::Vit, "v.ln_pre"@, sum(widened(gemm(Kernel::VEmbed, z.tokens, z.embed_k, z.vdim, "v.embed"@, of(Op::Patches { tokens: z.tokens, width: z.embed_k }, "v.perm"@, held(t, Reg::Pixels)))), tensor(z.tokens, z.vdim, "v.pos"@)))
            &&& held(f, Reg::WinCos) == tensor(z.tokens, z.vhalf, "v.rope.win.cos"@)
            &&& held(f, Reg::WinSin) == tensor(z.tokens, z.vhalf, "v.rope.win.sin"@)
            &&& held(f, Reg::GlobCos) == tensor(z.tokens, z.vhalf, "v.rope.glob.cos"@)
            &&& held(f, Reg::GlobSin) == tensor(z.tokens, z.vhalf, "v.rope.glob.sin"@)
        }),
{
    let p = vit_start_steps(z);
    assert(p.len() == 10);
    reveal_with_fuel(flows, 11);
}

/// So does the one whose layers the device chains.
pub proof fn the_device_s_backbone_embeds_patches(z: Sizes, t: Terms)
    ensures
        ({
            held(flow(embed_steps(z), t), Reg::X) == norm(z.vdim, Eps::Vit, "v.ln_pre"@, sum(widened(gemm(Kernel::VEmbed, z.tokens, z.embed_k, z.vdim, "v.embed"@, of(Op::Patches { tokens: z.tokens, width: z.embed_k }, "v.perm"@, held(t, Reg::Pixels)))), tensor(z.tokens, z.vdim, "v.pos"@)))
        }),
{
    let p = embed_steps(z);
    assert(p.len() == 6);
    reveal_with_fuel(flows, 7);
}

/// The device's first layer gets the standardized stream, rounded; its norm's
/// weights are in the layer's.
pub proof fn the_device_gets_the_standardized_stream(z: Sizes, t: Terms)
    ensures
        ({
            &&& held(flow(first_norm_steps(z), t), Reg::A) == rounded(of(Op::Standardize { dim: z.vdim, eps: Eps::Vit }, none(), held(t, Reg::X)))
            &&& held(flow(first_norm_steps(z), t), Reg::X) == held(t, Reg::X)
        }),
{
    let p = first_norm_steps(z);
    assert(p.len() == 2);
    reveal_with_fuel(flows, 3);
}

/// The backbone's features are its stream, token by token in raster order.
pub proof fn the_backbone_ends_in_raster_order(z: Sizes, t: Terms)
    ensures
        ({
            held(flow(vit_end_steps(z), t), Reg::Vit) == of(Op::ToRaster, "v.perm"@, held(t, Reg::X))
        }),
{
    let p = vit_end_steps(z);
    assert(p.len() == 1);
    reveal_with_fuel(flows, 2);
}

/// The neck's levels come from one projection of the features: the first two
/// upsamplings away, the second one, the third as it is.
pub proof fn the_neck_makes_three_levels(z: Sizes, t: Terms)
    ensures
        ({
            let f = flow(neck_levels_steps(z), t);
            let y = gemm(Kernel::NIn, z.tokens, z.vdim, z.width, "n.in"@, rounded(held(t, Reg::Vit)));
            let up = gemm(Kernel::NUp, z.tokens4, z.mid, z.n_up, "n.up"@, of(Op::GeluHalves, none(), of(Op::Shuffle { h: z.grid, width: z.width, off: 0, c: z.mid }, none(), y)));
            &&& held(f, Reg::U0) == of(Op::Shuffle { h: z.grid2, width: z.n_up, off: 0, c: z.d }, none(), up)
            &&& held(f, Reg::U1) == of(Op::Shuffle { h: z.grid, width: z.width, off: z.s0, c: z.d }, none(), y)
            &&& held(f, Reg::U2) == of(Op::Columns { width: z.width, off: z.s01, n: z.d }, none(), y)
        }),
{
    let p = neck_levels_steps(z);
    assert(p.len() == 8);
    reveal_with_fuel(flows, 9);
}

/// Every level is convolved on its own, at its own size.
pub proof fn the_neck_convolves_every_level(z: Sizes, t: Terms)
    ensures
        ({
            let f = flow(neck_convs_steps(z), t);
            &&& held(f, Reg::F0) == of(Op::AddBias { dim: z.d }, "n.conv0.b"@, widened(of(Op::DropBorder { side: z.grid4, oc: z.d }, none(), of(Op::ConvGemm { side: z.grid4, d: z.conv_d, oc: z.d }, "n.conv0"@, of(Op::ConvRows { side: z.grid4, c: z.conv_c, d: z.conv_d }, none(), held(t, Reg::U0))))))
            &&& held(f, Reg::F1) == of(Op::AddBias { dim: z.d }, "n.conv1.b"@, widened(of(Op::DropBorder { side: z.grid2, oc: z.d }, none(), of(Op::ConvGemm { side: z.grid2, d: z.conv_d, oc: z.d }, "n.conv1"@, of(Op::ConvRows { side: z.grid2, c: z.conv_c, d: z.conv_d }, none(), held(t, Reg::U1))))))
            &&& held(f, Reg::F2) == of(Op::AddBias { dim: z.d }, "n.conv2.b"@, widened(of(Op::DropBorder { side: z.grid, oc: z.d }, none(), of(Op::ConvGemm { side: z.grid, d: z.conv_d, oc: z.d }, "n.conv2"@, of(Op::ConvRows { side: z.grid, c: z.conv_c, d: z.conv_d }, none(), held(t, Reg::U2))))))
        }),
{
    let p = neck_convs_steps(z);
    assert(p.len() == 15);
    reveal_with_fuel(flows, 16);
}

/// The weights of attending to the text: query weights folded with the
/// prompt's keys, its values folded with the output weights.
pub proof fn text_is_folded_into_attention(z: Sizes, prefix: Seq<char>, slot: Seq<char>, t: Terms)
    ensures
        ({
            let f = flow(fold_steps(z, prefix, slot), t);
            let k = linear(z.d, z.d, false, prefix + ".k"@, held(t, Reg::Feats));
            let v = linear(z.d, z.d, false, prefix + ".v"@, held(t, Reg::Feats));
            let (dim, heads, len) = (z.d, z.heads, z.len);
            &&& held(f, Reg::SlotS) == of2(Op::Pack { kernel: Kernel::DS }, slot + ".s"@, of(Op::FoldScores { dim, heads, len }, prefix + ".q"@, k), of(Op::FoldScoreBias { dim, heads, len }, prefix + ".q"@, k))
            &&& held(f, Reg::SlotC) == of2(Op::Pack { kernel: Kernel::DC }, slot + ".c"@, of(Op::FoldValues { dim, heads, len }, prefix + ".o"@, v), tensor(1, z.d, prefix + ".o.b"@))
            &&& held(f, Reg::Xd) == held(t, Reg::Xd) && held(f, Reg::Enc) == held(t, Reg::Enc) && held(f, Reg::Feats) == held(t, Reg::Feats)
            &&& held(f, Reg::Valid) == held(t, Reg::Valid) && held(f, Reg::Normed) == held(t, Reg::Normed)
            &&& held(f, Reg::F0) == held(t, Reg::F0) && held(f, Reg::F1) == held(t, Reg::F1)
        }),
{
    let p = fold_steps(z, prefix, slot);
    assert(p.len() == 8);
    reveal_with_fuel(flows, 9);
}

/// A stream attends to the prompt's valid tokens and adds what it finds.
pub proof fn a_stream_attends_to_the_text(z: Sizes, slot: Seq<char>, t: Terms)
    ensures
        ({
            let f = flow(cross_steps(z, slot), t);
            let s = of2(Op::GemmSlot { kernel: Kernel::DS, rows: z.tokens }, slot + ".s"@, rounded(held(t, Reg::H)), held(t, Reg::SlotS));
            let p = of2(Op::SoftmaxValid { heads: z.heads, len: z.len }, none(), s, held(t, Reg::Valid));
            let c = of2(Op::GemmSlot { kernel: Kernel::DC, rows: z.tokens }, slot + ".c"@, p, held(t, Reg::SlotC));
            &&& held(f, Reg::Xd) == residual(z.d, held(t, Reg::Xd), c)
            &&& held(f, Reg::Feats) == held(t, Reg::Feats) && held(f, Reg::Valid) == held(t, Reg::Valid)
            &&& held(f, Reg::Normed) == held(t, Reg::Normed) && held(f, Reg::F0) == held(t, Reg::F0) && held(f, Reg::F1) == held(t, Reg::F1)
        }),
{
    let p = cross_steps(z, slot);
    assert(p.len() == 5);
    reveal_with_fuel(flows, 6);
}

/// An encoder layer adds to its stream the attention of its norm, queries and
/// keys with positions, values without; the next norm is of that sum.
pub proof fn an_encoder_layer_attends_to_itself(z: Sizes, i: usize, t: Terms)
    ensures
        ({
            let f = flow(encoder_attend_steps(z, i), t);
            let x = held(t, Reg::Xd);
            let h = norm(z.d, Eps::Default, part("d."@, i, "ln1"@), x);
            let qkv = gemm(Kernel::DQkv, z.tokens, z.d2, z.pd3, part("d."@, i, "qkv"@), of2(Op::Beside { dim: z.d, both: z.d2 }, none(), sum(h, tensor(z.tokens, z.d, "d.pos"@)), h));
            let (q, k, v) = (of(Op::Columns { width: z.pd3, off: 0, n: z.pd }, none(), qkv), of(Op::Columns { width: z.pd3, off: z.pd, n: z.pd }, none(), qkv), of(Op::Columns { width: z.pd3, off: z.pd2, n: z.pd }, none(), qkv));
            let c = gemm(Kernel::DO, z.tokens, z.pd, z.d, part("d."@, i, "o"@), of3(Op::Mha { kernel: Kernel::MhaD }, none(), q, k, v));
            &&& held(f, Reg::Xd) == residual(z.d, x, c)
            &&& held(f, Reg::H) == norm(z.d, Eps::Default, part("d."@, i, "ln2"@), residual(z.d, x, c))
            &&& held(f, Reg::SlotS) == held(t, Reg::SlotS) && held(f, Reg::SlotC) == held(t, Reg::SlotC)
            &&& held(f, Reg::Feats) == held(t, Reg::Feats) && held(f, Reg::Valid) == held(t, Reg::Valid)
        }),
{
    let p = encoder_attend_steps(z, i);
    assert(p.len() == 12);
    reveal_with_fuel(flows, 13);
}

/// Then it adds the MLP of its third norm, with the second layer's bias.
pub proof fn an_encoder_layer_feeds_forward(z: Sizes, i: usize, t: Terms)
    ensures
        ({
            let f = flow(encoder_mlp_steps(z, i), t);
            let x = held(t, Reg::Xd);
            let mid = of(Op::GemmStay { kernel: Kernel::DFc1, rows: z.tokens, k: z.d }, part("d."@, i, "fc1"@), rounded(norm(z.d, Eps::Default, part("d."@, i, "ln3"@), x)));
            let c = of(Op::GemmOn { kernel: Kernel::DFc2, rows: z.tokens, n: z.d }, part("d."@, i, "fc2"@), mid);
            &&& held(f, Reg::Xd) == residual_biased(z.d, part("d."@, i, "fc2.b"@), x, c)
            &&& held(f, Reg::Feats) == held(t, Reg::Feats) && held(f, Reg::Valid) == held(t, Reg::Valid)
        }),
{
    let p = encoder_mlp_steps(z, i);
    assert(p.len() == 5);
    reveal_with_fuel(flows, 6);
}

/// The encoder's stream starts as the neck's coarsest level.
pub proof fn the_encoder_starts_from_the_coarsest_level(z: Sizes, t: Terms)
    ensures
        ({
            held(flow(encoder_start_steps(z), t), Reg::Xd) == of(Op::Copy, none(), held(t, Reg::F2))
        }),
{
    let p = encoder_start_steps(z);
    assert(p.len() == 1);
    reveal_with_fuel(flows, 2);
}

/// What it ends with is its stream.
pub proof fn the_encoder_ends_with_its_stream(z: Sizes, t: Terms)
    ensures
        ({
            held(flow(encoder_end_steps(z), t), Reg::Enc) == of(Op::Copy, none(), held(t, Reg::Xd))
        }),
{
    let p = encoder_end_steps(z);
    assert(p.len() == 1);
    reveal_with_fuel(flows, 2);
}

/// The decoder starts from the presence token above the queries, from the
/// learned boxes, and from keys with positions and values without.
pub proof fn the_decoder_starts_from_its_queries(z: Sizes, t: Terms)
    ensures
        ({
            let f = flow(decoder_start_steps(z), t);
            let e = held(t, Reg::Enc);
            &&& held(f, Reg::KvD) == gemm(Kernel::DecKv, z.tokens, z.d2, z.kv, "dec.kv"@, of2(Op::Beside { dim: z.d, both: z.d2 }, none(), sum(e, tensor(z.tokens, z.d, "d.pos"@)), e))
            &&& held(f, Reg::Ref) == of(Op::Sigmoid, none(), tensor(z.queries, 4, "dec.reference_points"@))
            &&& held(f, Reg::Hs) == of2(Op::Stack, none(), tensor(1, z.d, "dec.presence_token"@), tensor(z.queries, z.d, "dec.query_embed"@))
            &&& held(f, Reg::Feats) == held(t, Reg::Feats) && held(f, Reg::Valid) == held(t, Reg::Valid)
        }),
{
    let p = decoder_start_steps(z);
    assert(p.len() == 11);
    reveal_with_fuel(flows, 12);
}

/// A layer's queries know the places of their boxes: the presence token has
/// none, and every head gets a bias by the distances to a box's edges.
pub proof fn queries_know_their_boxes(z: Sizes, t: Terms)
    ensures
        ({
            let f = flow(decoder_places_steps(z), t);
            let r = held(t, Reg::Ref);
            let (heads, boxes, queries, grid) = (z.heads, z.queries, z.queries1, z.grid);
            &&& held(f, Reg::Qpos) == of2(Op::Stack, none(), given(Op::Zeros { rows: 1, cols: z.d }, none()), of(Op::Mlp { n_in: z.d2, n_out: z.d, layers: 2 }, "dec.ref_point_head"@, of(Op::BoxSine { cols: z.d2 }, none(), r)))
            &&& held(f, Reg::By) == of(Op::BiasByHead { heads, boxes, queries, grid }, none(), of(Op::Mlp { n_in: 2, n_out: z.heads, layers: 2 }, "dec.rpb_y"@, of(Op::EdgeDistances { down: true, grid: z.grid }, none(), r)))
            &&& held(f, Reg::Bx) == of(Op::BiasByHead { heads, boxes, queries, grid }, none(), of(Op::Mlp { n_in: 2, n_out: z.heads, layers: 2 }, "dec.rpb_x"@, of(Op::EdgeDistances { down: false, grid: z.grid }, none(), r)))
            &&& held(f, Reg::Hs) == held(t, Reg::Hs) && held(f, Reg::Ref) == r && held(f, Reg::KvD) == held(t, Reg::KvD)
            &&& held(f, Reg::Feats) == held(t, Reg::Feats) && held(f, Reg::Valid) == held(t, Reg::Valid)
        }),
{
    let p = decoder_places_steps(z);
    assert(p.len() == 10);
    reveal_with_fuel(flows, 11);
}

/// The queries attend to each other: queries and keys with positions, values
/// without; the result plus the queries is normed.
pub proof fn queries_attend_to_each_other(z: Sizes, i: usize, t: Terms)
    ensures
        ({
            let f = flow(decoder_self_steps(z, i), t);
            let (h, p) = (held(t, Reg::Hs), held(t, Reg::Qpos));
            let at = of3(Op::Attend { heads: z.heads, dim: z.d }, none(), linear(z.d, z.d, false, part("dec."@, i, "sa.q"@), sum(h, p)), linear(z.d, z.d, false, part("dec."@, i, "sa.k"@), sum(h, p)), linear(z.d, z.d, false, part("dec."@, i, "sa.v"@), h));
            &&& held(f, Reg::Hs) == norm(z.d, Eps::Default, part("dec."@, i, "sa_ln"@), sum(linear(z.d, z.d, false, part("dec."@, i, "sa.o"@), at), h))
            &&& held(f, Reg::Qpos) == held(t, Reg::Qpos) && held(f, Reg::Ref) == held(t, Reg::Ref) && held(f, Reg::KvD) == held(t, Reg::KvD)
            &&& held(f, Reg::By) == held(t, Reg::By) && held(f, Reg::Bx) == held(t, Reg::Bx)
            &&& held(f, Reg::Feats) == held(t, Reg::Feats) && held(f, Reg::Valid) == held(t, Reg::Valid)
        }),
{
    let p = decoder_self_steps(z, i);
    assert(p.len() == 8);
    reveal_with_fuel(flows, 9);
}

/// The queries attend to the prompt's valid tokens; the result plus the
/// queries is normed.
pub proof fn queries_attend_to_the_text(z: Sizes, i: usize, t: Terms)
    ensures
        ({
            let f = flow(decoder_text_steps(z, i), t);
            let (h, p, w) = (held(t, Reg::Hs), held(t, Reg::Qpos), held(t, Reg::Feats));
            let at = of4(Op::AttendValid { heads: z.heads, dim: z.d }, none(), linear(z.d, z.d, false, part("dec."@, i, "tca.q"@), sum(h, p)), linear(z.d, z.d, false, part("dec."@, i, "tca.k"@), w), linear(z.d, z.d, false, part("dec."@, i, "tca.v"@), w), held(t, Reg::Valid));
            &&& held(f, Reg::Hs) == norm(z.d, Eps::Default, part("dec."@, i, "tca_ln"@), sum(linear(z.d, z.d, false, part("dec."@, i, "tca.o"@), at), h))
            &&& held(f, Reg::Qpos) == held(t, Reg::Qpos) && held(f, Reg::Ref) == held(t, Reg::Ref) && held(f, Reg::KvD) == held(t, Reg::KvD)
            &&& held(f, Reg::By) == held(t, Reg::By) && held(f, Reg::Bx) == held(t, Reg::Bx)
            &&& held(f, Reg::Feats) == held(t, Reg::Feats) && held(f, Reg::Valid) == held(t, Reg::Valid)
        }),
{
    let p = decoder_text_steps(z, i);
    assert(p.len() == 8);
    reveal_with_fuel(flows, 9);
}

/// The queries attend to the image's tokens, by this layer's keys and values
/// and the biases of the boxes; the result plus the queries is normed.
pub proof fn queries_attend_to_the_image(z: Sizes, i: usize, t: Terms)
    requires
        z.d2 == 2 * z.d,
    ensures
        ({
            let f = flow(decoder_vision_steps(z, i), t);
            let (h, p, kv) = (held(t, Reg::Hs), held(t, Reg::Qpos), held(t, Reg::KvD));
            let k = widened(of(Op::Planes { rows: z.tokens, width: z.kv, off: (2 * i * z.d) as usize, planes: z.d }, none(), kv));
            let v = widened(of(Op::ByHead { tokens: z.tokens, heads: z.heads, hd: z.hd, width: z.kv, off: ((2 * i + 1) * z.d) as usize }, none(), kv));
            let at = of5(Op::AttendGrid { heads: z.heads, hd: z.hd, dim: z.d, grid: z.grid, queries: z.queries1 }, none(), linear(z.d, z.d, false, part("dec."@, i, "vca.q"@), sum(h, p)), k, v, held(t, Reg::By), held(t, Reg::Bx));
            &&& held(f, Reg::Hs) == norm(z.d, Eps::Default, part("dec."@, i, "vca_ln"@), sum(linear(z.d, z.d, false, part("dec."@, i, "vca.o"@), at), h))
            &&& held(f, Reg::Qpos) == held(t, Reg::Qpos) && held(f, Reg::Ref) == held(t, Reg::Ref) && held(f, Reg::KvD) == held(t, Reg::KvD)
            &&& held(f, Reg::By) == held(t, Reg::By) && held(f, Reg::Bx) == held(t, Reg::Bx)
            &&& held(f, Reg::Feats) == held(t, Reg::Feats) && held(f, Reg::Valid) == held(t, Reg::Valid)
        }),
{
    assert(i * (2 * z.d) == 2 * i * z.d && i * (2 * z.d) + z.d == (2 * i + 1) * z.d) by (nonlinear_arith);
    let p = decoder_vision_steps(z, i);
    assert(p.len() == 10);
    reveal_with_fuel(flows, 11);
}

/// The queries' MLP plus the queries is normed.
pub proof fn queries_feed_forward(z: Sizes, i: usize, t: Terms)
    ensures
        ({
            let f = flow(decoder_mlp_steps(z, i), t);
            let h = held(t, Reg::Hs);
            let m = linear(z.ffn, z.d, false, part("dec."@, i, "fc2"@), of(Op::Relu, none(), linear(z.d, z.ffn, false, part("dec."@, i, "fc1"@), h)));
            &&& held(f, Reg::Hs) == norm(z.d, Eps::Default, part("dec."@, i, "mlp_ln"@), sum(m, h))
            &&& held(f, Reg::Qpos) == held(t, Reg::Qpos) && held(f, Reg::Ref) == held(t, Reg::Ref) && held(f, Reg::KvD) == held(t, Reg::KvD)
            &&& held(f, Reg::By) == held(t, Reg::By) && held(f, Reg::Bx) == held(t, Reg::Bx)
            &&& held(f, Reg::Feats) == held(t, Reg::Feats) && held(f, Reg::Valid) == held(t, Reg::Valid)
        }),
{
    let p = decoder_mlp_steps(z, i);
    assert(p.len() == 5);
    reveal_with_fuel(flows, 6);
}

/// A layer moves its boxes by what the queries' norm says; the presence is
/// told by the token above them, clamped.
pub proof fn a_layer_moves_its_boxes(z: Sizes, t: Terms)
    ensures
        ({
            let f = flow(decoder_heads_steps(z), t);
            let h = held(t, Reg::Hs);
            let normed = norm(z.d, Eps::Default, "dec.out_ln"@, of(Op::SkipRows { rows: 1 }, none(), h));
            &&& held(f, Reg::Normed) == normed
            &&& held(f, Reg::Ref) == of2(Op::Refine, none(), held(t, Reg::Ref), of(Op::Mlp { n_in: z.d, n_out: 4, layers: 3 }, "dec.box_head"@, normed))
            &&& held(f, Reg::Presence) == of(Op::Clamp { bound: 10 }, none(), of(Op::Mlp { n_in: z.d, n_out: 1, layers: 3 }, "dec.presence_head"@, norm(z.d, Eps::Default, "dec.presence_ln"@, of(Op::FirstRows { rows: 1 }, none(), h))))
            &&& held(f, Reg::Hs) == h && held(f, Reg::KvD) == held(t, Reg::KvD)
            &&& held(f, Reg::Feats) == held(t, Reg::Feats) && held(f, Reg::Valid) == held(t, Reg::Valid)
        }),
{
    let p = decoder_heads_steps(z);
    assert(p.len() == 10);
    reveal_with_fuel(flows, 11);
}

/// At the end the boxes' corners, and every query's dot product with the
/// prompt: the mean of its valid tokens, each plus its MLP and normed.
pub proof fn boxes_and_logits_come_last(z: Sizes, t: Terms)
    ensures
        ({
            let f = flow(decoder_end_steps(z), t);
            let w = held(t, Reg::Feats);
            let text = linear(z.d, z.d, false, "score.text_proj"@, of2(Op::MeanValid, none(), norm(z.d, Eps::Default, "score.text_ln"@, sum(of(Op::Mlp { n_in: z.d, n_out: z.d, layers: 2 }, "score.text_mlp"@, w), w)), held(t, Reg::Valid)));
            &&& held(f, Reg::Boxes) == of(Op::Corners, none(), held(t, Reg::Ref))
            &&& held(f, Reg::Logits) == of2(Op::ScaledDot { dim: z.d, bound: 12 }, none(), linear(z.d, z.d, false, "score.query_proj"@, held(t, Reg::Normed)), text)
            &&& held(f, Reg::Presence) == held(t, Reg::Presence)
        }),
{
    let p = decoder_end_steps(z);
    assert(p.len() == 8);
    reveal_with_fuel(flows, 9);
}

/// The mask decoder's stream is the encoder's; what attends to the text is its
/// norm.
pub proof fn masks_start_from_the_encoder(z: Sizes, t: Terms)
    ensures
        ({
            let f = flow(mask_start_steps(z), t);
            &&& held(f, Reg::Xd) == of(Op::Copy, none(), held(t, Reg::Enc))
            &&& held(f, Reg::H) == norm(z.d, Eps::Default, "m.ca_ln"@, held(t, Reg::Enc))
            &&& held(f, Reg::SlotS) == held(t, Reg::SlotS) && held(f, Reg::SlotC) == held(t, Reg::SlotC) && held(f, Reg::Valid) == held(t, Reg::Valid)
            &&& held(f, Reg::Normed) == held(t, Reg::Normed) && held(f, Reg::F0) == held(t, Reg::F0) && held(f, Reg::F1) == held(t, Reg::F1)
        }),
{
    let p = mask_start_steps(z);
    assert(p.len() == 2);
    reveal_with_fuel(flows, 3);
}

/// Pixels are the stream, upsampled onto the middle level and convolved, then
/// upsampled onto the finest and convolved.
pub proof fn pixels_are_refined_twice(z: Sizes, t: Terms)
    ensures
        ({
            let f = flow(mask_pixels_steps(z), t);
            let first = of(Op::GroupNormRelu { dim: z.d, groups: 8 }, "m.gn0"@, of(Op::AddBias { dim: z.d }, "m.conv0.b"@, widened(of(Op::DropBorder { side: z.grid2, oc: z.d }, none(), of(Op::ConvGemm { side: z.grid2, d: z.conv_d, oc: z.d }, "m.conv0"@, of(Op::ConvRows { side: z.grid2, c: z.conv_c, d: z.conv_d }, none(), of2(Op::Upsample { side: z.grid, cols: z.d }, none(), held(t, Reg::Xd), held(t, Reg::F1))))))));
            &&& held(f, Reg::Px) == of(Op::GroupNormRelu { dim: z.d, groups: 8 }, "m.gn1"@, of(Op::AddBias { dim: z.d }, "m.conv1.b"@, widened(of(Op::DropBorder { side: z.grid4, oc: z.d }, none(), of(Op::ConvGemm { side: z.grid4, d: z.conv_d, oc: z.d }, "m.conv1"@, of(Op::ConvRows { side: z.grid4, c: z.conv_c, d: z.conv_d }, none(), of2(Op::Upsample { side: z.grid2, cols: z.d }, none(), first, held(t, Reg::F0))))))))
            &&& held(f, Reg::Normed) == held(t, Reg::Normed)
        }),
{
    let p = mask_pixels_steps(z);
    assert(p.len() == 14);
    reveal_with_fuel(flows, 15);
}

/// A query's mask is its plane of what the pixels give with the queries'
/// embeddings folded into the head; the semantic map is the plane behind
/// them.
pub proof fn masks_are_queries_times_pixels(z: Sizes, t: Terms)
    ensures
        ({
            let f = flow(mask_head_steps(z), t);
            let e0 = of(Op::Relu, none(), linear(z.d, z.d, false, "m.embed.0"@, held(t, Reg::Normed)));
            let e1 = of(Op::Relu, none(), linear(z.d, z.d, false, "m.embed.1"@, e0));
            let e = linear(z.d, z.d, false, "m.embed.2"@, e1);
            let w = of2(Op::Pack { kernel: Kernel::MHead }, "m.head"@, of(Op::FoldHead { dim: z.d, n: z.head_n }, "m"@, e), of(Op::FoldHeadBias { dim: z.d, n: z.head_n }, "m"@, e));
            let out = of2(Op::GemmSlot { kernel: Kernel::MHead, rows: z.pixels }, "m.head"@, rounded(held(t, Reg::Px)), w);
            &&& held(f, Reg::Masks) == widened(of(Op::Planes { rows: z.pixels, width: z.head_n, off: 0, planes: z.queries }, none(), out))
            &&& held(f, Reg::Semantic) == widened(of(Op::Planes { rows: z.pixels, width: z.head_n, off: z.queries, planes: 1 }, none(), out))
        }),
{
    let p = mask_head_steps(z);
    assert(p.len() == 14);
    reveal_with_fuel(flows, 15);
}

/// Layers follow one another, the first first, between the stage's start and
/// its end: each works on what the one before left.
pub proof fn text_goes_layer_by_layer(z: Sizes, layers: nat, n: usize, t: Terms)
    requires
        layers < usize::MAX,
    ensures
        flow(text_layers(z, 0), t) == t,
        flow(text_layers(z, layers + 1), t) == flow(text_layer_steps(z, layers as usize), flow(text_layers(z, layers), t)),
        flow(text_program(z, layers, n), t) == flow(
            text_end_steps(z),
            flow(text_layers(z, layers), flow(text_start_steps(z, n), t)),
        ),
        held(flow(text_start_steps(z, n), t), Reg::Xt) == of(Op::Embed { rows: n, cols: z.tdim }, "t"@, held(t, Reg::Ids)),
{
    flow_in_turn(text_layers(z, layers), text_layer_of(z, layers as usize), t);
    flow_in_turn(text_start_steps(z, n), text_layers(z, layers), t);
    flow_in_turn(text_start_steps(z, n) + text_layers(z, layers), text_end_steps(z), t);
    reveal_with_fuel(flows, 2);
}

/// So do the backbone's: layer `i` attends over all tokens where the
/// configuration says so, within its windows elsewhere.
pub proof fn the_backbone_goes_layer_by_layer(z: Sizes, global: Seq<usize>, layers: nat, t: Terms)
    requires
        layers < usize::MAX,
    ensures
        flow(vit_layers(z, global, 0), t) == t,
        flow(vit_layers(z, global, layers + 1), t) == flow(
            vit_mlp_steps(z, layers as usize),
            flow(vit_attend_steps(z, layers as usize, global.contains(layers as usize)), flow(vit_layers(z, global, layers), t)),
        ),
        flow(vit_program(z, layers, global), t) == flow(
            vit_end_steps(z),
            flow(vit_layers(z, global, layers), flow(vit_start_steps(z), t)),
        ),
{
    let i = layers as usize;
    flow_in_turn(vit_layers(z, global, layers), vit_layer_of(z, global, i), t);
    flow_in_turn(vit_attend_steps(z, i, global.contains(i)), vit_mlp_steps(z, i), flow(vit_layers(z, global, layers), t));
    flow_in_turn(vit_start_steps(z), vit_layers(z, global, layers), t);
    flow_in_turn(vit_start_steps(z) + vit_layers(z, global, layers), vit_end_steps(z), t);
}

/// Where the device chains the layers, the host hands it the embedded stream
/// and its standardized rows, the stream rounded to half precision where the
/// device keeps it so; and takes the stream back, in raster order.
pub proof fn the_device_gets_and_gives_the_stream(z: Sizes, t: Terms)
    ensures
        ({
            let x = held(flow(embed_steps(z), t), Reg::X);
            let f = flow(prologue(z, true), t);
            &&& held(f, Reg::X) == x
            &&& held(f, Reg::A) == rounded(of(Op::Standardize { dim: z.vdim, eps: Eps::Vit }, none(), x))
        }),
        ({
            let x = held(flow(embed_steps(z), t), Reg::X);
            let f = flow(prologue(z, false), t);
            &&& held(f, Reg::C) == rounded(x)
            &&& held(f, Reg::X) == widened(rounded(x))
            &&& held(f, Reg::A) == rounded(of(Op::Standardize { dim: z.vdim, eps: Eps::Vit }, none(), widened(rounded(x))))
        }),
        held(flow(epilogue(z, true), t), Reg::Vit) == of(Op::ToRaster, "v.perm"@, held(t, Reg::X)),
        held(flow(epilogue(z, false), t), Reg::Vit) == of(Op::ToRaster, "v.perm"@, widened(held(t, Reg::C))),
{
    let e = flow(embed_steps(z), t);
    flow_in_turn(embed_steps(z), round_steps(true), t);
    flow_in_turn(embed_steps(z) + round_steps(true), first_norm_steps(z), t);
    flow_in_turn(embed_steps(z), round_steps(false), t);
    flow_in_turn(embed_steps(z) + round_steps(false), first_norm_steps(z), t);
    assert(round_steps(true).len() == 0 && round_steps(false).len() == 2 && first_norm_steps(z).len() == 2);
    let w = seq![StepView { op: Op::Widen, name: Seq::<char>::empty(), from: seq![Reg::C], to: Reg::X }];
    flow_in_turn(w, vit_end_steps(z), t);
    assert(w.len() == 1 && vit_end_steps(z).len() == 1);
    reveal_with_fuel(flows, 3);
}

/// The encoder's layers follow one another; each folds the text in, attends
/// to itself, to the text, and feeds forward.
pub proof fn the_encoder_goes_layer_by_layer(z: Sizes, layers: nat, t: Terms)
    requires
        layers < usize::MAX,
    ensures
        flow(encoder_layers(z, 0), t) == t,
        ({
            let i = layers as usize;
            let a = flow(encoder_layers(z, layers), t);
            let b = flow(fold_steps(z, part("d."@, i, "ca"@), layer_slot(layers)), a);
            let c = flow(encoder_attend_steps(z, i), b);
            let d = flow(cross_steps(z, layer_slot(layers)), c);
            flow(encoder_layers(z, layers + 1), t) == flow(encoder_mlp_steps(z, i), d)
        }),
        flow(encoder_program(z, layers), t) == flow(
            encoder_end_steps(z),
            flow(encoder_layers(z, layers), flow(encoder_start_steps(z), t)),
        ),
{
    let i = layers as usize;
    let a = flow(encoder_layers(z, layers), t);
    flow_in_turn(encoder_layers(z, layers), encoder_layer_of(z, i), t);
    let (p, q, r, s) = (
        fold_steps(z, part("d."@, i, "ca"@), layer_slot(layers)),
        encoder_attend_steps(z, i),
        cross_steps(z, layer_slot(layers)),
        encoder_mlp_steps(z, i),
    );
    flow_in_turn(p, q, a);
    flow_in_turn(p + q, r, a);
    flow_in_turn(p + q + r, s, a);
    flow_in_turn(encoder_start_steps(z), encoder_layers(z, layers), t);
    flow_in_turn(encoder_start_steps(z) + encoder_layers(z, layers), encoder_end_steps(z), t);
}

/// The decoder's layers follow one another; in each the queries attend to
/// each other, to the text and to the image, feed forward, and move their
/// boxes.
pub proof fn the_decoder_goes_layer_by_layer(z: Sizes, layers: nat, t: Terms)
    requires
        layers < usize::MAX,
    ensures
        flow(decoder_layers(z, 0), t) == t,
        ({
            let i = layers as usize;
            let a = flow(decoder_layers(z, layers), t);
            let b = flow(decoder_self_steps(z, i), flow(decoder_places_steps(z), a));
            let c = flow(decoder_vision_steps(z, i), flow(decoder_text_steps(z, i), b));
            flow(decoder_layers(z, layers + 1), t) == flow(decoder_heads_steps(z), flow(decoder_mlp_steps(z, i), c))
        }),
        flow(decoder_program(z, layers), t) == flow(
            decoder_end_steps(z),
            flow(decoder_layers(z, layers), flow(decoder_start_steps(z), t)),
        ),
{
    let i = layers as usize;
    let a = flow(decoder_layers(z, layers), t);
    flow_in_turn(decoder_layers(z, layers), decoder_layer_of(z, i), t);
    let (p, q, r, s, u, v) = (
        decoder_places_steps(z),
        decoder_self_steps(z, i),
        decoder_text_steps(z, i),
        decoder_vision_steps(z, i),
        decoder_mlp_steps(z, i),
        decoder_heads_steps(z),
    );
    flow_in_turn(p, q, a);
    flow_in_turn(p + q, r, a);
    flow_in_turn(p + q + r, s, a);
    flow_in_turn(p + q + r + s, u, a);
    flow_in_turn(p + q + r + s + u, v, a);
    flow_in_turn(decoder_start_steps(z), decoder_layers(z, layers), t);
    flow_in_turn(decoder_start_steps(z) + decoder_layers(z, layers), decoder_end_steps(z), t);
}

/// The neck and the mask decoder go through their parts in turn.
pub proof fn neck_and_masks_go_in_turn(z: Sizes, t: Terms)
    ensures
        flow(neck_program(z), t) == flow(neck_convs_steps(z), flow(neck_levels_steps(z), t)),
        ({
            let a = flow(mask_start_steps(z), flow(fold_steps(z, "m.ca"@, "m"@), t));
            let b = flow(mask_pixels_steps(z), flow(cross_steps(z, "m"@), a));
            flow(mask_program(z), t) == flow(mask_head_steps(z), b)
        }),
{
    flow_in_turn(neck_levels_steps(z), neck_convs_steps(z), t);
    let (p, q, r, s, u) = (
        fold_steps(z, "m.ca"@, "m"@),
        mask_start_steps(z),
        cross_steps(z, "m"@),
        mask_pixels_steps(z),
        mask_head_steps(z),
    );
    flow_in_turn(p, q, t);
    flow_in_turn(p + q, r, t);
    flow_in_turn(p + q + r, s, t);
    flow_in_turn(p + q + r + s, u, t);
}

// ---------------------------------------------------------------------------
// A text layer, run.

/// `v` is what a step of kind `op` on tensor `name` gives of `u`.
pub open spec fn makes<
    P: Fn(u32, u32) -> u32,
    M: Fn(u32, u32) -> u32,
    E: Fn(&Op, u32) -> u32,
    C: Fn(&Op, &Vec<&Value>, &Vec<Value>) -> Result<Value, Error>,
    D: Fn(&Op, &String, &Vec<&Value>) -> Result<Value, Error>,
>(parts: &Parts<P, M, E, C, D>, m: ModelView, op: Op, name: Seq<char>, u: ValueView, v: ValueView) -> bool {
    exists|s: StepView, y: Map<Reg, ValueView>| #[trigger]
        step_gives(parts, m, s, y, Ok::<ValueView, Fault>(v)) && s.op == op && s.name == name && s.from.len() == 1
            && y.contains_key(s.from[0]) && y[s.from[0]] == u
}

/// Every element of `c` is the sum of those of `a` and `b`.
pub open spec fn sums<
    P: Fn(u32, u32) -> u32,
    M: Fn(u32, u32) -> u32,
    E: Fn(&Op, u32) -> u32,
    C: Fn(&Op, &Vec<&Value>, &Vec<Value>) -> Result<Value, Error>,
    D: Fn(&Op, &String, &Vec<&Value>) -> Result<Value, Error>,
>(parts: &Parts<P, M, E, C, D>, a: Seq<u32>, b: Seq<u32>, c: Seq<u32>) -> bool {
    c.len() <= a.len() && c.len() <= b.len() && (c.len() == a.len() || c.len() == b.len()) && forall|k: int|
        #![trigger c[k]]
        0 <= k < c.len() ==> call_ensures(parts.ops.add, (a[k], b[k]), c[k])
}

/// Running a text layer on a stream `x` leaves `(x + o) + f`: `o` the
/// projection of the attention of the stream's norm, `f` the MLP of the norm
/// of `x + o`.
pub proof fn running_a_text_layer_carries_the_stream<
    P: Fn(u32, u32) -> u32,
    M: Fn(u32, u32) -> u32,
    E: Fn(&Op, u32) -> u32,
    C: Fn(&Op, &Vec<&Value>, &Vec<Value>) -> Result<Value, Error>,
    D: Fn(&Op, &String, &Vec<&Value>) -> Result<Value, Error>,
>(
    parts: &Parts<P, M, E, C, D>,
    m: ModelView,
    z: Sizes,
    i: usize,
    x: Map<Reg, ValueView>,
    y: Map<Reg, ValueView>,
)
    requires
        runs_to(parts, m, text_layer_steps(z, i), x, Ok::<(), Fault>(()), y),
    ensures
        x.contains_key(Reg::Xt) && y.contains_key(Reg::Xt),
        exists|
            h: ValueView,
            qkv: ValueView,
            a: ValueView,
            o: Seq<u32>,
            mid: Seq<u32>,
            g: ValueView,
            u: ValueView,
            w: ValueView,
            f: Seq<u32>,
        |
            {
                &&& #[trigger] makes(
                    parts,
                    m,
                    Op::LayerNorm { dim: z.tdim, eps: Eps::Text },
                    part("t."@, i, "ln1"@),
                    x[Reg::Xt],
                    h,
                )
                &&& #[trigger] makes(
                    parts,
                    m,
                    Op::Linear { n_in: z.tdim, n_out: z.tdim3, half: true },
                    part("t."@, i, "qkv"@),
                    h,
                    qkv,
                )
                &&& #[trigger] makes(parts, m, Op::SelfAttend { heads: z.theads, dim: z.tdim, causal: true }, none(), qkv, a)
                &&& #[trigger] makes(
                    parts,
                    m,
                    Op::Linear { n_in: z.tdim, n_out: z.tdim, half: true },
                    part("t."@, i, "o"@),
                    a,
                    ValueView::Reals(o),
                )
                &&& x[Reg::Xt] is Reals && #[trigger] sums(parts, x[Reg::Xt]->Reals_0, o, mid)
                &&& #[trigger] makes(
                    parts,
                    m,
                    Op::LayerNorm { dim: z.tdim, eps: Eps::Text },
                    part("t."@, i, "ln2"@),
                    ValueView::Reals(mid),
                    g,
                )
                &&& #[trigger] makes(
                    parts,
                    m,
                    Op::Linear { n_in: z.tdim, n_out: z.tffn, half: true },
                    part("t."@, i, "fc1"@),
                    g,
                    u,
                )
                &&& #[trigger] makes(parts, m, Op::Gelu, none(), u, w)
                &&& #[trigger] makes(
                    parts,
                    m,
                    Op::Linear { n_in: z.tffn, n_out: z.tdim, half: true },
                    part("t."@, i, "fc2"@),
                    w,
                    ValueView::Reals(f),
                )
                &&& y[Reg::Xt] is Reals && #[trigger] sums(parts, mid, f, y[Reg::Xt]->Reals_0)
            },
{
    let p = text_layer_steps(z, i);
    assert(p.len() == 10);
    let (tr, n) = choose|tr: Seq<Map<Reg, ValueView>>, n: int| #[trigger]
        trace(parts, m, p, x, tr, n) && y == tr.last() && n == p.len();
    assert(tr[0] == x && tr[10] == y);
    assert(step_to(parts, m, p[0], tr[0], tr[0int + 1]));
    assert(step_to(parts, m, p[1], tr[1], tr[1int + 1]));
    assert(step_to(parts, m, p[2], tr[2], tr[2int + 1]));
    assert(step_to(parts, m, p[3], tr[3], tr[3int + 1]));
    assert(step_to(parts, m, p[4], tr[4], tr[4int + 1]));
    assert(step_to(parts, m, p[5], tr[5], tr[5int + 1]));
    assert(step_to(parts, m, p[6], tr[6], tr[6int + 1]));
    assert(step_to(parts, m, p[7], tr[7], tr[7int + 1]));
    assert(step_to(parts, m, p[8], tr[8], tr[8int + 1]));
    assert(step_to(parts, m, p[9], tr[9], tr[9int + 1]));
    let h = tr[1][Reg::Ht];
    let qkv = tr[2][Reg::QkvT];
    let a = tr[3][Reg::Ot];
    let o = tr[4][Reg::Ot];
    let mid = tr[5][Reg::Xt];
    let g = tr[6][Reg::Ht];
    let u = tr[7][Reg::Ft];
    let w = tr[8][Reg::Ft];
    let f = tr[9][Reg::Ft];
    assert(sums(parts, x[Reg::Xt]->Reals_0, o->Reals_0, mid->Reals_0));
    assert(sums(parts, mid->Reals_0, f->Reals_0, y[Reg::Xt]->Reals_0));
    compute_reads(parts, m, p[0], tr[0], h);
    compute_reads(parts, m, p[1], tr[1], qkv);
    compute_reads(parts, m, p[2], tr[2], a);
    compute_reads(parts, m, p[3], tr[3], o);
    compute_reads(parts, m, p[5], tr[5], g);
    compute_reads(parts, m, p[6], tr[6], u);
    compute_reads(parts, m, p[8], tr[8], f);
    assert(makes(parts, m, Op::Gelu, none(), u, w));
    assert(o == ValueView::Reals(o->Reals_0) && mid == ValueView::Reals(mid->Reals_0) && f == ValueView::Reals(f->Reals_0));
    assert(makes(parts, m, Op::LayerNorm { dim: z.tdim, eps: Eps::Text }, part("t."@, i, "ln1"@), x[Reg::Xt], h));
    assert(makes(
        parts,
        m,
        Op::Linear { n_in: z.tdim, n_out: z.tdim3, half: true },
        part("t."@, i, "qkv"@),
        h,
        qkv,
    ));
    assert(makes(parts, m, Op::SelfAttend { heads: z.theads, dim: z.tdim, causal: true }, none(), qkv, a));
    assert(makes(parts, m, Op::Linear { n_in: z.tdim, n_out: z.tdim, half: true }, part("t."@, i, "o"@), a, o));
    assert(makes(parts, m, Op::LayerNorm { dim: z.tdim, eps: Eps::Text }, part("t."@, i, "ln2"@), mid, g));
    assert(makes(parts, m, Op::Linear { n_in: z.tdim, n_out: z.tffn, half: true }, part("t."@, i, "fc1"@), g, u));
    assert(makes(parts, m, Op::Linear { n_in: z.tffn, n_out: z.tdim, half: true }, part("t."@, i, "fc2"@), w, f));
}

/// A computation of one operand reads it.
proof fn compute_reads<
    P: Fn(u32, u32) -> u32,
    M: Fn(u32, u32) -> u32,
    E: Fn(&Op, u32) -> u32,
    C: Fn(&Op, &Vec<&Value>, &Vec<Value>) -> Result<Value, Error>,
    D: Fn(&Op, &String, &Vec<&Value>) -> Result<Value, Error>,
>(parts: &Parts<P, M, E, C, D>, m: ModelView, s: StepView, y: Map<Reg, ValueView>, v: ValueView)
    requires
        step_gives(parts, m, s, y, Ok::<ValueView, Fault>(v)),
        s.op is LayerNorm || s.op is Linear || s.op is SelfAttend,
        s.from.len() == 1,
    ensures
        y.contains_key(s.from[0]),
        makes(parts, m, s.op, s.name, y[s.from[0]], v),
{
    assert(operands(y, s) is Some);
}

} // verus!
