//! The stages of a SAM 3 forward: which registers each is given, which
//! program it runs on them, and the whole forward, one stage after another.

use crate::gather::copy32;
use crate::sam3::{rejects, Error};
use crate::sam3_config::{launch_views, launches_of, vit_launches, ConfigView, Launch, LaunchView};
use crate::sam3_instances::Output;
use crate::sam3_layout::{is_prefix_mask, ones, valid_tokens};
use crate::sam3_machine::{run, runs_to, viewed, Fault, Model, ModelView, Parts};
use crate::sam3_stages::{
    decoder_program, detr_decoder, detr_encoder, encoder_program, epilogue, mask_decoder, mask_program, neck, neck_program,
    prologue, text, text_program, too_many_queries, vit, vit_epilogue, vit_program, vit_prologue,
};
use crate::sam3_steps::{Op, Reg};
use crate::sam3_values::{Machine, Value, ValueView};
use vstd::prelude::*;

verus! {

/// A stage of the forward.
#[derive(Debug, Clone, Copy, PartialEq, Eq, Structural)]
pub enum Stage {
    Text,
    Vit,
    Neck,
    Encoder,
    Decoder,
    Masks,
}

/// A prompt's token ids and mask, and the image, channel-major, as bits.
pub struct Input {
    pub ids: Vec<u32>,
    pub mask: Vec<u32>,
    pub pixels: Vec<u32>,
}

pub struct InputView {
    pub ids: Seq<u32>,
    pub mask: Seq<u32>,
    pub pixels: Seq<u32>,
}

impl View for Input {
    type V = InputView;

    open spec fn view(&self) -> InputView {
        InputView { ids: self.ids@, mask: self.mask@, pixels: self.pixels@ }
    }
}

/// The registers of a forward.
pub type Regs = Map<Reg, ValueView>;

/// Whether each position of a prompt is valid.
pub open spec fn flags_of(mask: Seq<u32>) -> Seq<bool> {
    mask.map_values(|v: u32| v != 0)
}

/// The prompt, encoded: its ids and its valid positions are given.
pub open spec fn text_to<
    P: Fn(u32, u32) -> u32,
    M: Fn(u32, u32) -> u32,
    E: Fn(&Op, u32) -> u32,
    C: Fn(&Op, &Vec<&Value>, &Vec<Value>) -> Result<Value, Error>,
    D: Fn(&Op, &String, &Vec<&Value>) -> Result<Value, Error>,
>(parts: &Parts<P, M, E, C, D>, m: ModelView, i: InputView, x: Regs, r: Result<(), Fault>, y: Regs) -> bool {
    if is_prefix_mask(i.mask) && i.ids.len() == m.cfg.text_len {
        runs_to(
            parts,
            m,
            text_program(m.z, m.cfg.text_layers as nat, ones(i.mask) as usize),
            x.insert(Reg::Ids, ValueView::Ids(i.ids)).insert(Reg::Valid, ValueView::Flags(flags_of(i.mask))),
            r,
            y,
        )
    } else {
        y == x && (r matches Err(Fault::Failed(e)) && rejects(e, "the attention mask must be a non-empty prefix"@))
    }
}

/// `o` is the device's answer to the backbone's launches, on the stream and
/// the first layer's input.
pub open spec fn layered<
    L: Fn(&Vec<Launch>, &Value, &Value) -> Result<Value, Error>,
>(layers: &L, l: Seq<LaunchView>, stream: ValueView, first: ValueView, o: Result<ValueView, Error>) -> bool {
    exists|ls: &Vec<Launch>, s: &Value, f: &Value, out: Result<Value, Error>|
        launch_views(ls@) == l && s@ == stream && f@ == first && viewed(out) == o && #[trigger] call_ensures(
            *layers,
            (ls, s, f),
            out,
        )
}

/// The register of the device's residual stream: in single precision, or
/// rounded.
pub open spec fn stream_of(c: ConfigView) -> Reg {
    if c.vit_res_f32 {
        Reg::X
    } else {
        Reg::C
    }
}

/// The backbone with every layer on the device, from after its first steps.
pub open spec fn layers_to<
    P: Fn(u32, u32) -> u32,
    M: Fn(u32, u32) -> u32,
    E: Fn(&Op, u32) -> u32,
    C: Fn(&Op, &Vec<&Value>, &Vec<Value>) -> Result<Value, Error>,
    D: Fn(&Op, &String, &Vec<&Value>) -> Result<Value, Error>,
    L: Fn(&Vec<Launch>, &Value, &Value) -> Result<Value, Error>,
>(
    parts: &Parts<P, M, E, C, D>,
    layers: &L,
    m: ModelView,
    a: Regs,
    r: Result<(), Fault>,
    y: Regs,
) -> bool {
    let at = stream_of(m.cfg);
    if !a.contains_key(at) || !a.contains_key(Reg::A) {
        y == a && r matches Err(Fault::Misfit)
    } else {
        exists|o: Result<ValueView, Error>| #[trigger]
            layered(layers, launches_of(m.cfg.vit_layers as nat, m.cfg.vit_global), a[at], a[Reg::A], o) && match o {
                Err(e) => y == a && r == Err::<(), Fault>(Fault::Failed(e)),
                Ok(v) => runs_to(parts, m, epilogue(m.z, m.cfg.vit_res_f32), a.insert(at, v), r, y),
            }
    }
}

/// The backbone: the image is given; its layers run here, or all on the
/// device.
pub open spec fn vit_to<
    P: Fn(u32, u32) -> u32,
    M: Fn(u32, u32) -> u32,
    E: Fn(&Op, u32) -> u32,
    C: Fn(&Op, &Vec<&Value>, &Vec<Value>) -> Result<Value, Error>,
    D: Fn(&Op, &String, &Vec<&Value>) -> Result<Value, Error>,
    L: Fn(&Vec<Launch>, &Value, &Value) -> Result<Value, Error>,
>(
    parts: &Parts<P, M, E, C, D>,
    layers: &L,
    m: ModelView,
    i: InputView,
    x: Regs,
    r: Result<(), Fault>,
    y: Regs,
) -> bool {
    let seen = x.insert(Reg::Pixels, ValueView::Reals(i.pixels));
    if !m.cfg.vit_device {
        runs_to(parts, m, vit_program(m.z, m.cfg.vit_layers as nat, m.cfg.vit_global), seen, r, y)
    } else {
        ||| r is Err && runs_to(parts, m, prologue(m.z, m.cfg.vit_res_f32), seen, r, y)
        ||| exists|a: Regs| #[trigger]
            runs_to(parts, m, prologue(m.z, m.cfg.vit_res_f32), seen, Ok::<(), Fault>(()), a) && layers_to(
                parts,
                layers,
                m,
                a,
                r,
                y,
            )
    }
}

/// Every decoder layer's keys and values lie in what the kernel gives, and
/// there is a last layer.
pub open spec fn decodes(m: ModelView) -> bool {
    m.cfg.dec_layers > 0 && m.z.d <= m.z.d2 && m.cfg.dec_layers * m.z.d2 <= m.z.kv
}

/// What stage `s` comes to, from the registers `x` to `y`.
pub open spec fn stage_to<
    P: Fn(u32, u32) -> u32,
    M: Fn(u32, u32) -> u32,
    E: Fn(&Op, u32) -> u32,
    C: Fn(&Op, &Vec<&Value>, &Vec<Value>) -> Result<Value, Error>,
    D: Fn(&Op, &String, &Vec<&Value>) -> Result<Value, Error>,
    L: Fn(&Vec<Launch>, &Value, &Value) -> Result<Value, Error>,
>(
    parts: &Parts<P, M, E, C, D>,
    layers: &L,
    m: ModelView,
    s: Stage,
    i: InputView,
    x: Regs,
    r: Result<(), Fault>,
    y: Regs,
) -> bool {
    match s {
        Stage::Text => text_to(parts, m, i, x, r, y),
        Stage::Vit => vit_to(parts, layers, m, i, x, r, y),
        Stage::Neck => runs_to(parts, m, neck_program(m.z), x, r, y),
        Stage::Encoder => runs_to(parts, m, encoder_program(m.z, m.cfg.d_layers as nat), x, r, y),
        Stage::Decoder => if decodes(m) {
            runs_to(parts, m, decoder_program(m.z, m.cfg.dec_layers as nat), x, r, y)
        } else {
            y == x && r matches Err(Fault::Misfit)
        },
        Stage::Masks => if m.z.queries < m.z.head_n {
            runs_to(parts, m, mask_program(m.z), x, r, y)
        } else {
            y == x && (r matches Err(Fault::Failed(e)) && rejects(e, too_many_queries(m.z)))
        },
    }
}

/// The stages, in order.
pub open spec fn stages() -> Seq<Stage> {
    seq![Stage::Text, Stage::Vit, Stage::Neck, Stage::Encoder, Stage::Decoder, Stage::Masks]
}

/// `tr` are the registers before and after each of the first `n` stages.
pub open spec fn stage_trace<
    P: Fn(u32, u32) -> u32,
    M: Fn(u32, u32) -> u32,
    E: Fn(&Op, u32) -> u32,
    C: Fn(&Op, &Vec<&Value>, &Vec<Value>) -> Result<Value, Error>,
    D: Fn(&Op, &String, &Vec<&Value>) -> Result<Value, Error>,
    L: Fn(&Vec<Launch>, &Value, &Value) -> Result<Value, Error>,
>(
    parts: &Parts<P, M, E, C, D>,
    layers: &L,
    m: ModelView,
    i: InputView,
    tr: Seq<Regs>,
    n: int,
) -> bool {
    &&& 0 <= n <= stages().len()
    &&& tr.len() == n + 1
    &&& tr[0] == Regs::empty()
    &&& forall|k: int| #![trigger tr[k + 1]]
        0 <= k < n ==> stage_to(parts, layers, m, stages()[k], i, tr[k], Ok::<(), Fault>(()), tr[k + 1])
}

/// What the forward comes to: the registers `y` after all its stages, or the
/// fault of the first that has one.
pub open spec fn segments_to<
    P: Fn(u32, u32) -> u32,
    M: Fn(u32, u32) -> u32,
    E: Fn(&Op, u32) -> u32,
    C: Fn(&Op, &Vec<&Value>, &Vec<Value>) -> Result<Value, Error>,
    D: Fn(&Op, &String, &Vec<&Value>) -> Result<Value, Error>,
    L: Fn(&Vec<Launch>, &Value, &Value) -> Result<Value, Error>,
>(
    parts: &Parts<P, M, E, C, D>,
    layers: &L,
    m: ModelView,
    i: InputView,
    r: Result<(), Fault>,
    y: Regs,
) -> bool {
    exists|tr: Seq<Regs>, n: int| #[trigger]
        stage_trace(parts, layers, m, i, tr, n) && match r {
            Ok(_) => n == stages().len() && y == tr.last(),
            Err(_) => n < stages().len() && stage_to(parts, layers, m, stages()[n], i, tr.last(), r, y),
        }
}

fn flags(mask: &Vec<u32>) -> (r: Vec<bool>)
    ensures
        r@ == flags_of(mask@),
{
    let mut r: Vec<bool> = Vec::new();
    let mut i: usize = 0;
    while i < mask.len()
        invariant
            i <= mask@.len(),
            r@ == flags_of(mask@).take(i as int),
        decreases mask@.len() - i,
    {
        r.push(mask[i] != 0);
        i += 1;
        proof {
            assert(flags_of(mask@).take(i as int) =~= flags_of(mask@).take(i - 1).push(mask@[i - 1] != 0));
        }
    }
    proof {
        assert(flags_of(mask@).take(i as int) =~= flags_of(mask@));
    }
    r
}

fn text_stage<
    P: Fn(u32, u32) -> u32,
    M: Fn(u32, u32) -> u32,
    E: Fn(&Op, u32) -> u32,
    C: Fn(&Op, &Vec<&Value>, &Vec<Value>) -> Result<Value, Error>,
    D: Fn(&Op, &String, &Vec<&Value>) -> Result<Value, Error>,
>(m: &Model, parts: &Parts<P, M, E, C, D>, i: &Input, regs: &mut Machine) -> (r: Result<(), Fault>)
    requires
        parts.total(),
    ensures
        text_to(parts, m@, i@, old(regs)@, r, final(regs)@),
{
    let n: usize = match valid_tokens(&i.ids, &i.mask, m.cfg.text_len) {
        Ok(n) => n,
        Err(e) => {
            return Err(Fault::Failed(e));
        },
    };
    regs.set(Reg::Ids, Value::Ids(crate::sam3_moves::part_of(&i.ids, 0, i.ids.len())));
    regs.set(Reg::Valid, Value::Flags(flags(&i.mask)));
    proof {
        assert(i.ids@.subrange(0, i.ids@.len() as int) =~= i.ids@);
    }
    let p = text(m.z, m.cfg.text_layers, n);
    run(m, parts, &p, regs)
}

fn layer_stage<
    P: Fn(u32, u32) -> u32,
    M: Fn(u32, u32) -> u32,
    E: Fn(&Op, u32) -> u32,
    C: Fn(&Op, &Vec<&Value>, &Vec<Value>) -> Result<Value, Error>,
    D: Fn(&Op, &String, &Vec<&Value>) -> Result<Value, Error>,
    L: Fn(&Vec<Launch>, &Value, &Value) -> Result<Value, Error>,
>(m: &Model, parts: &Parts<P, M, E, C, D>, layers: &L, regs: &mut Machine) -> (r: Result<(), Fault>)
    requires
        parts.total(),
        forall|ls: &Vec<Launch>, s: &Value, f: &Value| call_requires(*layers, (ls, s, f)),
    ensures
        layers_to(parts, layers, m@, old(regs)@, r, final(regs)@),
{
    let at: Reg = if m.cfg.vit_res_f32 {
        Reg::X
    } else {
        Reg::C
    };
    let answer = match (regs.get(at), regs.get(Reg::A)) {
        (Some(s), Some(f)) => {
            let ls = vit_launches(m.cfg);
            let out = layers(&ls, s, f);
            proof {
                let l = launches_of(m@.cfg.vit_layers as nat, m@.cfg.vit_global);
                assert(launch_views(ls@) =~= l);
                assert(layered(layers, l, s@, f@, viewed(out)));
            }
            out
        },
        _ => {
            return Err(Fault::Misfit);
        },
    };
    let ghost o = viewed(answer);
    let ghost a = regs@;
    proof {
        let l = launches_of(m@.cfg.vit_layers as nat, m@.cfg.vit_global);
        assert(layered(layers, l, a[stream_of(m@.cfg)], a[Reg::A], o));
    }
    match answer {
        Err(e) => Err(Fault::Failed(e)),
        Ok(v) => {
            regs.set(at, v);
            let p = vit_epilogue(m.z, m.cfg.vit_res_f32);
            run(m, parts, &p, regs)
        },
    }
}

fn vit_stage<
    P: Fn(u32, u32) -> u32,
    M: Fn(u32, u32) -> u32,
    E: Fn(&Op, u32) -> u32,
    C: Fn(&Op, &Vec<&Value>, &Vec<Value>) -> Result<Value, Error>,
    D: Fn(&Op, &String, &Vec<&Value>) -> Result<Value, Error>,
    L: Fn(&Vec<Launch>, &Value, &Value) -> Result<Value, Error>,
>(m: &Model, parts: &Parts<P, M, E, C, D>, layers: &L, i: &Input, regs: &mut Machine) -> (r: Result<(), Fault>)
    requires
        parts.total(),
        forall|ls: &Vec<Launch>, s: &Value, f: &Value| call_requires(*layers, (ls, s, f)),
    ensures
        vit_to(parts, layers, m@, i@, old(regs)@, r, final(regs)@),
{
    regs.set(Reg::Pixels, Value::Reals(crate::sam3_moves::part_of(&i.pixels, 0, i.pixels.len())));
    proof {
        assert(i.pixels@.subrange(0, i.pixels@.len() as int) =~= i.pixels@);
    }
    if !m.cfg.vit_device {
        let p = vit(m.z, m.cfg);
        return run(m, parts, &p, regs);
    }
    let ghost seen = regs@;
    let p = vit_prologue(m.z, m.cfg.vit_res_f32);
    match run(m, parts, &p, regs) {
        Err(f) => Err(f),
        Ok(u) => {
            proof {
                assert(u == ());
                assert(runs_to(parts, m@, prologue(m@.z, m@.cfg.vit_res_f32), seen, Ok::<(), Fault>(()), regs@));
            }
            layer_stage(m, parts, layers, regs)
        },
    }
}

/// Whether the decoder's layers lie in what their kernel gives.
fn can_decode(m: &Model) -> (r: bool)
    ensures
        r == decodes(m@),
{
    let kv: usize = m.z.kv;
    m.cfg.dec_layers > 0 && m.z.d <= m.z.d2 && (match crate::arith::mul2(m.cfg.dec_layers, m.z.d2) {
        Some(n) => n <= kv,
        None => false,
    })
}

/// Runs one stage.
pub fn stage<
    P: Fn(u32, u32) -> u32,
    M: Fn(u32, u32) -> u32,
    E: Fn(&Op, u32) -> u32,
    C: Fn(&Op, &Vec<&Value>, &Vec<Value>) -> Result<Value, Error>,
    D: Fn(&Op, &String, &Vec<&Value>) -> Result<Value, Error>,
    L: Fn(&Vec<Launch>, &Value, &Value) -> Result<Value, Error>,
>(
    m: &Model,
    parts: &Parts<P, M, E, C, D>,
    layers: &L,
    s: Stage,
    i: &Input,
    regs: &mut Machine,
) -> (r: Result<(), Fault>)
    requires
        parts.total(),
        forall|ls: &Vec<Launch>, s: &Value, f: &Value| call_requires(*layers, (ls, s, f)),
    ensures
        stage_to(parts, layers, m@, s, i@, old(regs)@, r, final(regs)@),
{
    match s {
        Stage::Text => text_stage(m, parts, i, regs),
        Stage::Vit => vit_stage(m, parts, layers, i, regs),
        Stage::Neck => run(m, parts, &neck(m.z), regs),
        Stage::Encoder => run(m, parts, &detr_encoder(m.z, m.cfg.d_layers), regs),
        Stage::Decoder => {
            if !can_decode(m) {
                return Err(Fault::Misfit);
            }
            run(m, parts, &detr_decoder(m.z, m.cfg.dec_layers), regs)
        },
        Stage::Masks => match mask_decoder(m.z) {
            Err(e) => Err(Fault::Failed(e)),
            Ok(p) => run(m, parts, &p, regs),
        },
    }
}

/// Stage number `k`.
fn stage_at(k: usize) -> (r: Stage)
    requires
        k < 6,
    ensures
        r == stages()[k as int],
{
    match k {
        0 => Stage::Text,
        1 => Stage::Vit,
        2 => Stage::Neck,
        3 => Stage::Encoder,
        4 => Stage::Decoder,
        _ => Stage::Masks,
    }
}

/// The whole forward for one image and one prompt: every output is in its
/// register afterwards. `done` hears of every stage that ends well.
pub fn segment<
    P: Fn(u32, u32) -> u32,
    M: Fn(u32, u32) -> u32,
    E: Fn(&Op, u32) -> u32,
    C: Fn(&Op, &Vec<&Value>, &Vec<Value>) -> Result<Value, Error>,
    D: Fn(&Op, &String, &Vec<&Value>) -> Result<Value, Error>,
    L: Fn(&Vec<Launch>, &Value, &Value) -> Result<Value, Error>,
    S: Fn(Stage),
>(m: &Model, parts: &Parts<P, M, E, C, D>, layers: &L, done: &S, i: &Input, regs: &mut Machine) -> (r: Result<(), Fault>)
    requires
        parts.total(),
        forall|ls: &Vec<Launch>, s: &Value, f: &Value| call_requires(*layers, (ls, s, f)),
        forall|s: Stage| call_requires(*done, (s,)),
        old(regs)@ == Regs::empty(),
    ensures
        segments_to(parts, layers, m@, i@, r, final(regs)@),
{
    let ghost mut tr: Seq<Regs> = seq![regs@];
    let mut k: usize = 0;
    while k < 6
        invariant
            parts.total(),
            forall|ls: &Vec<Launch>, s: &Value, f: &Value| call_requires(*layers, (ls, s, f)),
            forall|s: Stage| call_requires(*done, (s,)),
            k <= 6,
            stage_trace(parts, layers, m@, i@, tr, k as int),
            tr.last() == regs@,
        decreases 6 - k,
    {
        let s = stage_at(k);
        match stage(m, parts, layers, s, i, regs) {
            Err(f) => {
                return Err(f);
            },
            Ok(u) => {
                proof {
                    assert(u == ());
                    let next = tr.push(regs@);
                    assert forall|j: int| #![trigger next[j + 1]] 0 <= j < k + 1 implies stage_to(
                        parts,
                        layers,
                        m@,
                        stages()[j],
                        i@,
                        next[j],
                        Ok::<(), Fault>(()),
                        next[j + 1],
                    ) by {
                        if j < k {
                            assert(next[j + 1] == tr[j + 1]);
                        }
                    }
                    tr = next;
                }
            },
        }
        done(s);
        k += 1;
    }
    Ok(())
}

/// The reals that register `q` holds.
pub open spec fn reals_of(x: Regs, q: Reg) -> Option<Seq<u32>> {
    if x.contains_key(q) {
        match x[q] {
            ValueView::Reals(v) => Some(v),
            _ => None,
        }
    } else {
        None
    }
}

/// The registers hold a forward's outputs.
pub open spec fn has_output(x: Regs) -> bool {
    &&& reals_of(x, Reg::Logits) is Some
    &&& reals_of(x, Reg::Boxes) is Some
    &&& reals_of(x, Reg::Presence) matches Some(p) && p.len() > 0
    &&& reals_of(x, Reg::Masks) is Some
    &&& reals_of(x, Reg::Semantic) is Some
}

/// They are the outputs `o`.
pub open spec fn is_output(x: Regs, o: Output) -> bool {
    &&& has_output(x)
    &&& o.logits@ == reals_of(x, Reg::Logits)->0
    &&& o.boxes@ == reals_of(x, Reg::Boxes)->0
    &&& o.presence == (reals_of(x, Reg::Presence)->0)[0]
    &&& o.masks@ == reals_of(x, Reg::Masks)->0
    &&& o.semantic@ == reals_of(x, Reg::Semantic)->0
}

fn reals_in(regs: &Machine, q: Reg) -> (r: Option<Vec<u32>>)
    ensures
        match r {
            Some(v) => reals_of(regs@, q) == Some(v@),
            None => reals_of(regs@, q) is None,
        },
{
    match regs.get(q) {
        Some(Value::Reals(v)) => Some(copy32(v)),
        _ => None,
    }
}

/// What a forward leaves in its registers, or nothing where one is missing.
pub fn output(regs: &Machine) -> (r: Option<Output>)
    ensures
        match r {
            Some(o) => is_output(regs@, o),
            None => !has_output(regs@),
        },
{
    match (
        reals_in(regs, Reg::Logits),
        reals_in(regs, Reg::Boxes),
        reals_in(regs, Reg::Presence),
        reals_in(regs, Reg::Masks),
        reals_in(regs, Reg::Semantic),
    ) {
        (Some(logits), Some(boxes), Some(p), Some(masks), Some(semantic)) => if p.len() > 0 {
            Some(Output { logits, boxes, presence: p[0], masks, semantic })
        } else {
            None
        },
        _ => None,
    }
}

} // verus!
