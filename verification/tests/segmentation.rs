//! SAM 3 programs, run step by step and stage by stage.

use std::cell::RefCell;

use taconite::bf16::{bf16_to_f32, f32_to_bf16};
use taconite::pack::pack_b;
use taconite::sam3::Error;
use taconite::sam3_bundle::Manifest;
use taconite::sam3_config::{Config, Launch};
use taconite::sam3_forward::{self, Input, Stage};
use taconite::sam3_machine::{self, Fault, Model, Parts};
use taconite::sam3_stages::{Sizes, Widths};
use taconite::sam3_steps::{Kernel, Op, Reg, Step};
use taconite::sam3_values::{Machine, Value};
use taconite::store::Store;
use taconite::tiled::Ops;

const MANIFEST: &str = "version 1\nxclbin c0 a.xclbin MLIR_AIE\n\
    gemm d_s ctx=c0 insts=g.bin M=4 K=8 N=8 lda=8 tile_k=8 tile_n=8 ct_k=8 bias=1 b_bytes=100\n\
    param grid 2\nparam window 1\nparam vit_dim 8\nparam vit_heads 2\nparam vit_layers 2\n\
    param vit_ffn_pad 16\nparam vit_global 1\nparam patch 2\nparam image_size 4\nparam d_model 8\nparam d_heads 2\n\
    param d_layers 1\nparam d_ffn 16\nparam text_len 4\nparam text_dim 8\nparam text_heads 2\nparam text_layers 1\n\
    param text_ffn 16\nparam text_eps 1e-5\nparam vit_eps 1e-6\nparam queries 3\nparam dec_layers 2\n\
    param neck_splits 32,32,8\nparam mask_size 8\nparam vit_device 1\n";

struct World {
    store: Store,
    manifest: Manifest,
    cfg: Config,
    z: Sizes,
    log: RefCell<Vec<String>>,
}

fn bits(v: &[f32]) -> Vec<u32> {
    v.iter().map(|x| x.to_bits()).collect()
}

fn half(x: f32) -> u16 {
    f32_to_bf16(x.to_bits())
}

fn halves(v: &[f32]) -> Vec<u16> {
    v.iter().map(|&x| half(x)).collect()
}

fn reals(v: &[f32]) -> Value {
    Value::Reals(bits(v))
}

fn add(a: u32, b: u32) -> u32 {
    (f32::from_bits(a) + f32::from_bits(b)).to_bits()
}

fn mul(a: u32, b: u32) -> u32 {
    (f32::from_bits(a) * f32::from_bits(b)).to_bits()
}

/// A store of the named tensors: eight-byte aligned, one after another.
fn store(tensors: &[(&str, &str, Vec<u8>)]) -> Store {
    let (mut index, mut data) = (String::new(), Vec::new());
    for (name, dtype, bytes) in tensors {
        let width = if *dtype == "bf16" { 2 } else { 4 };
        index += &format!("{name} {dtype} {} {} {}\n", bytes.len() / width, data.len(), bytes.len());
        data.extend_from_slice(bytes);
        data.resize(data.len().div_ceil(8) * 8, 0);
    }
    Store::load(&index, data).unwrap()
}

fn f32s(v: &[f32]) -> Vec<u8> {
    v.iter().flat_map(|x| x.to_le_bytes()).collect()
}

fn bf16s(v: &[f32]) -> Vec<u8> {
    v.iter().flat_map(|&x| half(x).to_le_bytes()).collect()
}

fn i32s(v: &[i32]) -> Vec<u8> {
    v.iter().flat_map(|x| x.to_le_bytes()).collect()
}

fn world(tensors: &[(&str, &str, Vec<u8>)]) -> World {
    let manifest = Manifest::load("/m", MANIFEST).unwrap();
    let cfg = Config::from(&manifest).unwrap();
    let widths = Widths { embed_k: 16, n_up: 32, conv_k: 96, conv_lda: 48, mha_d: 8, kv: 32, head_n: 8 };
    let z = Sizes::of(&cfg, &widths).unwrap();
    World { store: store(tensors), manifest, cfg, z, log: RefCell::new(Vec::new()) }
}

impl World {
    fn model(&self) -> Model<'_> {
        Model { store: &self.store, manifest: &self.manifest, cfg: &self.cfg, z: &self.z }
    }

    /// Computations sum up what they are given and repeat it for every
    /// operand's element; the device answers with its first operand.
    fn run(&self, p: Vec<Step>, m: &mut Machine) -> Result<(), Fault> {
        let sum = |v: &Value| -> f32 {
            match v {
                Value::Reals(v) => v.iter().map(|&x| f32::from_bits(x)).fold(0.0, |a, b| a + b),
                Value::Halves(v) => v.iter().map(|&x| f32::from_bits(bf16_to_f32(x))).fold(0.0, |a, b| a + b),
                _ => 0.0,
            }
        };
        let parts = Parts {
            ops: Ops { add, mul },
            each: |op: &Op, x: u32| match op {
                Op::Relu => f32::from_bits(x).max(0.0).to_bits(),
                Op::Clamp { bound } => f32::from_bits(x).clamp(-(*bound as f32), *bound as f32).to_bits(),
                _ => (f32::from_bits(x) + 0.5).to_bits(),
            },
            compute: |op: &Op, a: &Vec<&Value>, t: &Vec<Value>| {
                let sums: Vec<String> = t.iter().map(|v| sum(v).to_string()).collect();
                self.log.borrow_mut().push(format!("{op:?} {} [{}]", a.len(), sums.join(" ")));
                match a.first() {
                    Some(Value::Reals(v)) if !v.is_empty() => Ok(Value::Reals(v.clone())),
                    _ => Err(Error::Bundle("nothing to compute".to_string())),
                }
            },
            device: |op: &Op, name: &String, a: &Vec<&Value>| {
                self.log.borrow_mut().push(format!("{name} {}", a.len()));
                match (op, a.first()) {
                    (Op::GemmStay { .. }, _) => Ok(Value::Resident(7)),
                    (Op::GemmOn { .. }, Some(Value::Resident(h))) => Ok(Value::Halves(vec![*h as u16])),
                    (_, Some(Value::Halves(v))) => Ok(Value::Halves(v.clone())),
                    _ => Err(Error::Npu("no operand".to_string())),
                }
            },
        };
        sam3_machine::run(&self.model(), &parts, &p, m)
    }
}

fn step(op: Op, name: &str, from: &[Reg], to: Reg) -> Step {
    Step { op, name: name.to_string(), from: from.to_vec(), to }
}

fn machine(regs: &[(Reg, Value)]) -> Machine {
    let mut m = Machine::new();
    for (r, v) in regs {
        m.set(*r, v.clone());
    }
    m
}

fn real_of(m: &Machine, r: Reg) -> Vec<f32> {
    match m.get(r) {
        Some(Value::Reals(v)) => v.iter().map(|&x| f32::from_bits(x)).collect(),
        v => panic!("{v:?}"),
    }
}

fn half_of(m: &Machine, r: Reg) -> Vec<f32> {
    match m.get(r) {
        Some(Value::Halves(v)) => v.iter().map(|&x| f32::from_bits(bf16_to_f32(x))).collect(),
        v => panic!("{v:?}"),
    }
}

#[test]
fn registers_keep_what_they_were_given_last() {
    let mut m = machine(&[(Reg::X, reals(&[1.0])), (Reg::H, reals(&[2.0]))]);
    m.set(Reg::X, reals(&[3.0, 4.0]));
    assert_eq!(real_of(&m, Reg::X), [3.0, 4.0]);
    assert_eq!(real_of(&m, Reg::H), [2.0]);
    assert!(m.get(Reg::A).is_none());
}

#[test]
fn steps_move_and_round_values() {
    let w = world(&[]);
    let x: Vec<f32> = (0..16).map(|i| i as f32).collect();
    let y: Vec<f32> = (0..16).map(|i| -(i as f32)).collect();
    let mut m = machine(&[(Reg::X, reals(&x)), (Reg::Y, reals(&y))]);
    let p = vec![
        step(Op::Narrow, "", &[Reg::X], Reg::A),
        step(Op::Widen, "", &[Reg::A], Reg::H),
        step(Op::Stack, "", &[Reg::X, Reg::Y], Reg::S),
        step(Op::Beside { dim: 8, both: 16 }, "", &[Reg::X, Reg::Y], Reg::Ov),
        step(Op::FirstRows { rows: 1 }, "", &[Reg::X], Reg::P),
        step(Op::SkipRows { rows: 1 }, "", &[Reg::X], Reg::Xd),
        step(Op::PadRows { rows: 3 }, "", &[Reg::X], Reg::Hp),
        step(Op::Columns { width: 4, off: 1, n: 2 }, "", &[Reg::A], Reg::C),
        step(Op::Planes { rows: 4, width: 4, off: 0, planes: 2 }, "", &[Reg::A], Reg::Mid),
        step(Op::Zeros { rows: 2, cols: 1 }, "", &[], Reg::T),
        step(Op::Add, "", &[Reg::X, Reg::Y], Reg::Out),
        step(Op::Relu, "", &[Reg::Y], Reg::Ry),
        step(Op::Clamp { bound: 2 }, "", &[Reg::X], Reg::Rx),
        step(Op::GeluHalves, "", &[Reg::A], Reg::Qv),
        step(Op::Copy, "", &[Reg::X], Reg::Enc),
    ];
    w.run(p, &mut m).unwrap();
    assert_eq!(half_of(&m, Reg::A), x);
    assert_eq!(real_of(&m, Reg::H), x);
    assert_eq!(real_of(&m, Reg::S), [x.clone(), y.clone()].concat());
    let side: Vec<f32> = [&x[..8], &y[..8], &x[8..], &y[8..]].concat();
    assert_eq!(half_of(&m, Reg::Ov), side);
    assert_eq!(real_of(&m, Reg::P), x[..8]);
    assert_eq!(real_of(&m, Reg::Xd), x[8..]);
    assert_eq!(real_of(&m, Reg::Hp), [x.clone(), vec![0.0; 8]].concat());
    assert_eq!(half_of(&m, Reg::C), [1.0, 2.0, 5.0, 6.0, 9.0, 10.0, 13.0, 14.0]);
    assert_eq!(half_of(&m, Reg::Mid), [0.0, 4.0, 8.0, 12.0, 1.0, 5.0, 9.0, 13.0]);
    assert_eq!(real_of(&m, Reg::T), [0.0, 0.0]);
    assert_eq!(real_of(&m, Reg::Out), vec![0.0; 16]);
    assert_eq!(real_of(&m, Reg::Ry), vec![0.0; 16]);
    assert_eq!(real_of(&m, Reg::Rx)[..4], [0.0, 1.0, 2.0, 2.0]);
    assert_eq!(half_of(&m, Reg::Qv)[..2], [0.5, 1.5]);
    assert_eq!(real_of(&m, Reg::Enc), x);
}

#[test]
fn biases_and_residuals_are_added_row_by_row() {
    let w = world(&[("b", "f32", f32s(&[10.0, 20.0]))]);
    let mut m = machine(&[(Reg::X, reals(&[1.0, 2.0, 3.0, 4.0])), (Reg::C, Value::Halves(halves(&[0.5; 4])))]);
    let p = vec![
        step(Op::AddBias { dim: 2 }, "b", &[Reg::X], Reg::H),
        step(Op::Residual { dim: 2, bias: true }, "b", &[Reg::X, Reg::C], Reg::A),
        step(Op::Residual { dim: 2, bias: false }, "", &[Reg::X, Reg::C], Reg::Y),
        step(Op::Tensor { rows: 1, cols: 2 }, "b", &[], Reg::Pos),
    ];
    w.run(p, &mut m).unwrap();
    assert_eq!(real_of(&m, Reg::H), [11.0, 22.0, 13.0, 24.0]);
    assert_eq!(real_of(&m, Reg::A), [11.5, 22.5, 13.5, 24.5]);
    assert_eq!(real_of(&m, Reg::Y), [1.5, 2.5, 3.5, 4.5]);
    assert_eq!(real_of(&m, Reg::Pos), [10.0, 20.0]);
    let lacking = w.run(vec![step(Op::AddBias { dim: 2 }, "c", &[Reg::X], Reg::H)], &mut m);
    assert!(matches!(lacking, Err(Fault::Failed(Error::Bundle(t))) if t == "tensor c missing from the bundle"));
    let wide = w.run(vec![step(Op::AddBias { dim: 3 }, "b", &[Reg::X], Reg::H)], &mut m);
    assert!(matches!(wide, Err(Fault::Misfit)));
}

#[test]
fn computations_get_the_tensors_they_take() {
    let w = world(&[
        ("l.w", "bf16", bf16s(&[1.0, 2.0])),
        ("l.b", "f32", f32s(&[4.0])),
        ("k.w", "f32", f32s(&[8.0])),
        ("n.1.w", "f32", f32s(&[1.0])),
        ("n.1.b", "f32", f32s(&[2.0])),
        ("n.2.w", "f32", f32s(&[3.0])),
    ]);
    let mut m = machine(&[(Reg::X, reals(&[1.0])), (Reg::Valid, Value::Flags(vec![true]))]);
    let p = vec![
        step(Op::Linear { n_in: 1, n_out: 1, half: true }, "l", &[Reg::X], Reg::H),
        step(Op::Linear { n_in: 1, n_out: 1, half: false }, "k", &[Reg::X], Reg::H),
        step(Op::Mlp { n_in: 1, n_out: 1, layers: 2 }, "n", &[Reg::X], Reg::H),
        step(Op::MeanValid, "", &[Reg::X, Reg::Valid], Reg::H),
    ];
    w.run(p, &mut m).unwrap();
    let log = w.log.borrow().clone();
    assert!(log[0].ends_with(" 1 [3 4]"), "{log:?}");
    // a bias that the bundle lacks is none
    assert!(log[1].ends_with(" 1 [8 0]"), "{log:?}");
    assert!(log[2].ends_with(" 1 [1 2 3 0]"), "{log:?}");
    assert!(log[3].ends_with(" 2 []"), "{log:?}");
    // weights in another precision are not taken
    let half = w.run(vec![step(Op::Linear { n_in: 1, n_out: 1, half: true }, "k", &[Reg::X], Reg::H)], &mut m);
    assert!(matches!(half, Err(Fault::Failed(Error::Bundle(t))) if t == "tensor k.w is F32, wanted Bf16"));
    let norm = w.run(vec![step(Op::GroupNormRelu { dim: 1, groups: 1 }, "k", &[Reg::X], Reg::H)], &mut m);
    assert!(matches!(norm, Err(Fault::Failed(Error::Bundle(t))) if t == "tensor k.b missing from the bundle"));
}

#[test]
fn kernels_get_their_operands_and_what_others_left() {
    let w = world(&[]);
    let b: Vec<f32> = (0..64).map(|i| (i % 7) as f32).collect();
    let c = vec![1.0f32; 8];
    let mut m = machine(&[
        (Reg::A, Value::Halves(halves(&[1.0, 2.0]))),
        (Reg::Bs, reals(&b)),
        (Reg::Bb, reals(&c)),
    ]);
    let p = vec![
        step(Op::Gemm { kernel: Kernel::VQkv, rows: 1, k: 2, n: 2 }, "v.0.qkv", &[Reg::A], Reg::Y),
        step(Op::GemmStay { kernel: Kernel::VFc1, rows: 1, k: 2 }, "v.0.fc1", &[Reg::A], Reg::Mid),
        step(Op::GemmOn { kernel: Kernel::VFc2, rows: 1, n: 1 }, "v.0.fc2", &[Reg::Mid], Reg::C),
        step(Op::Pack { kernel: Kernel::DS }, "m.s", &[Reg::Bs, Reg::Bb], Reg::SlotS),
        step(Op::GemmSlot { kernel: Kernel::DS, rows: 1 }, "m.s", &[Reg::A, Reg::SlotS], Reg::S),
    ];
    w.run(p, &mut m).unwrap();
    assert_eq!(*w.log.borrow(), ["v.0.qkv 1", "v.0.fc1 1", "v.0.fc2 1", "m.s 2"]);
    assert_eq!(half_of(&m, Reg::Y), [1.0, 2.0]);
    assert!(matches!(m.get(Reg::C), Some(Value::Halves(v)) if v[..] == [7]));
    let want = pack_b(w.manifest.gemm("d_s").unwrap(), &bits(&b), Some(&bits(&c)));
    assert!(matches!(m.get(Reg::SlotS), Some(Value::Packed(v)) if *v == want));
    let none = w.run(vec![step(Op::Pack { kernel: Kernel::DC }, "m.c", &[Reg::Bs, Reg::Bb], Reg::SlotC)], &mut m);
    assert!(matches!(none, Err(Fault::Failed(Error::Bundle(t))) if t == "kernel d_c missing from the manifest"));
    let short = w.run(vec![step(Op::Pack { kernel: Kernel::DS }, "m.s", &[Reg::Bb, Reg::Bb], Reg::SlotC)], &mut m);
    assert!(matches!(short, Err(Fault::Misfit)));
}

#[test]
fn tokens_are_placed_in_the_order_a_tensor_gives() {
    let w = world(&[("v.perm", "i32", i32s(&[3, 1, 0, 2]))]);
    let x: Vec<f32> = (0..32).map(|i| i as f32).collect();
    let px: Vec<f32> = (0..48).map(|i| i as f32).collect();
    let mut m = machine(&[(Reg::X, reals(&x)), (Reg::Pixels, reals(&px))]);
    let p = vec![
        step(Op::ToRaster, "v.perm", &[Reg::X], Reg::Vit),
        step(Op::Patches { tokens: 4, width: 16 }, "v.perm", &[Reg::Pixels], Reg::Patches),
    ];
    w.run(p, &mut m).unwrap();
    let rows: Vec<f32> = [2, 1, 3, 0].iter().flat_map(|&r| x[r * 8..r * 8 + 8].to_vec()).collect();
    assert_eq!(real_of(&m, Reg::Vit), rows);
    // the first row is patch 3: rows 2 and 3, columns 2 and 3 of every plane
    let first = &half_of(&m, Reg::Patches)[..16];
    assert_eq!(first[..8], [10.0, 11.0, 14.0, 15.0, 26.0, 27.0, 30.0, 31.0]);
    assert_eq!(first[12..], [0.0; 4]);
    m.set(Reg::Pixels, reals(&px[1..]));
    let wrong = w.run(vec![step(Op::Patches { tokens: 4, width: 16 }, "v.perm", &[Reg::Pixels], Reg::Patches)], &mut m);
    assert!(matches!(wrong, Err(Fault::Failed(Error::Input(t))) if t == "pixels must be [3, 4, 4]"));
}

#[test]
fn a_program_stops_at_its_first_fault() {
    let w = world(&[]);
    let mut m = machine(&[(Reg::X, reals(&[1.0]))]);
    let p = vec![
        step(Op::Copy, "", &[Reg::X], Reg::H),
        step(Op::Narrow, "", &[Reg::Y], Reg::A),
        step(Op::Copy, "", &[Reg::X], Reg::P),
    ];
    assert!(matches!(w.run(p, &mut m), Err(Fault::Misfit)));
    assert_eq!(real_of(&m, Reg::H), [1.0]);
    assert!(m.get(Reg::A).is_none() && m.get(Reg::P).is_none());
    // another kind of value is as good as none
    assert!(matches!(w.run(vec![step(Op::Widen, "", &[Reg::X], Reg::A)], &mut m), Err(Fault::Misfit)));
    let failed = w.run(vec![step(Op::Refine, "", &[], Reg::A)], &mut m);
    assert!(matches!(failed, Err(Fault::Failed(Error::Bundle(t))) if t == "nothing to compute"));
}

/// Stages with computations that hand back what they are given and a device
/// that repeats the residual stream.
fn stage(w: &World, s: Stage, input: &Input, m: &mut Machine) -> Result<(), Fault> {
    let parts = Parts {
        ops: Ops { add, mul },
        each: |_: &Op, x: u32| x,
        compute: |_: &Op, a: &Vec<&Value>, _: &Vec<Value>| match a.first() {
            Some(Value::Reals(v)) => Ok(Value::Reals(v.clone())),
            _ => Err(Error::Bundle("nothing to compute".to_string())),
        },
        device: |_: &Op, _: &String, _: &Vec<&Value>| Ok(Value::Halves(halves(&[1.0; 32]))),
    };
    let layers = |l: &Vec<Launch>, stream: &Value, first: &Value| {
        w.log.borrow_mut().push(format!("{} launches", l.len()));
        match (stream, first) {
            (Value::Halves(v), Value::Halves(_)) => Ok(Value::Halves(v.iter().map(|_| half(2.0)).collect())),
            _ => Err(Error::Npu("no stream".to_string())),
        }
    };
    sam3_forward::stage(&w.model(), &parts, &layers, s, input, m)
}

fn prompt(ids: &[u32], mask: &[u32]) -> Input {
    Input { ids: ids.to_vec(), mask: mask.to_vec(), pixels: bits(&[1.0; 48]) }
}

#[test]
fn the_text_stage_embeds_the_valid_tokens() {
    let norm = || f32s(&[1.0; 8]);
    let tok: Vec<f32> = (0..24).map(|i| i as f32).collect();
    let mut w = world(&[
        ("t.tok_emb", "bf16", bf16s(&tok)),
        ("t.pos_emb", "f32", f32s(&[0.5; 32])),
        ("t.final_ln.w", "f32", norm()),
        ("t.final_ln.b", "f32", norm()),
        ("t.proj.w", "f32", norm()),
    ]);
    w.cfg.text_layers = 0;
    let mut m = Machine::new();
    stage(&w, Stage::Text, &prompt(&[2, 0, 1, 1], &[1, 1, 0, 0]), &mut m).unwrap();
    let mut want: Vec<f32> = (16..24).chain(0..8).map(|i| i as f32 + 0.5).collect();
    want.resize(32, 0.0);
    assert_eq!(real_of(&m, Reg::Feats), want);
    assert!(matches!(m.get(Reg::Valid), Some(Value::Flags(v)) if v[..] == [true, true, false, false]));
    for (ids, mask) in [(&[2, 0, 1, 1][..], &[0, 1, 0, 0][..]), (&[2, 0], &[1, 1]), (&[2, 0, 1, 1], &[1, 0, 1, 0])] {
        let mut m = Machine::new();
        let r = stage(&w, Stage::Text, &prompt(ids, mask), &mut m);
        assert!(matches!(r, Err(Fault::Failed(Error::Input(t))) if t == "the attention mask must be a non-empty prefix"));
        assert!(m.get(Reg::Ids).is_none());
    }
    // a token that the embedding lacks
    let r = stage(&w, Stage::Text, &prompt(&[3, 0, 1, 1], &[1, 1, 0, 0]), &mut Machine::new());
    assert!(matches!(r, Err(Fault::Misfit)));
}

#[test]
fn the_backbone_hands_its_stream_to_the_device() {
    let w = world(&[
        ("v.perm", "i32", i32s(&[0, 1, 2, 3])),
        ("v.pos", "f32", f32s(&[0.5; 32])),
        ("v.ln_pre.w", "f32", f32s(&[1.0; 8])),
        ("v.ln_pre.b", "f32", f32s(&[1.0; 8])),
    ]);
    assert!(w.cfg.vit_device && !w.cfg.vit_res_f32);
    let mut m = Machine::new();
    stage(&w, Stage::Vit, &prompt(&[], &[]), &mut m).unwrap();
    // eight launches a layer
    assert_eq!(*w.log.borrow(), ["16 launches"]);
    assert_eq!(half_of(&m, Reg::A), [1.5; 32]);
    assert_eq!(real_of(&m, Reg::Vit), [2.0; 32]);
}

#[test]
fn stages_that_cannot_run_say_so() {
    let mut w = world(&[]);
    w.cfg.dec_layers = 0;
    assert!(matches!(stage(&w, Stage::Decoder, &prompt(&[], &[]), &mut Machine::new()), Err(Fault::Misfit)));
    w.z.head_n = 3;
    let r = stage(&w, Stage::Masks, &prompt(&[], &[]), &mut Machine::new());
    assert!(matches!(r, Err(Fault::Failed(Error::Input(t))) if t == "3 queries + semantic > 3"));
    assert!(matches!(stage(&w, Stage::Neck, &prompt(&[], &[]), &mut Machine::new()), Err(Fault::Misfit)));
}

#[test]
fn the_forward_goes_stage_by_stage_until_one_fails() {
    let w = world(&[]);
    let seen: RefCell<Vec<Stage>> = RefCell::new(vec![]);
    let parts = Parts {
        ops: Ops { add, mul },
        each: |_: &Op, x: u32| x,
        compute: |_: &Op, _: &Vec<&Value>, _: &Vec<Value>| Err(Error::Bundle("no".to_string())),
        device: |_: &Op, _: &String, _: &Vec<&Value>| Err(Error::Npu("no device".to_string())),
    };
    let layers = |_: &Vec<Launch>, _: &Value, _: &Value| Err(Error::Npu("no device".to_string()));
    let done = |s: Stage| seen.borrow_mut().push(s);
    let mut m = Machine::new();
    let input = prompt(&[0, 0, 0, 0], &[1, 0, 0, 0]);
    let r = sam3_forward::segment(&w.model(), &parts, &layers, &done, &input, &mut m);
    assert!(matches!(r, Err(Fault::Failed(Error::Bundle(t))) if t == "tensor t.tok_emb missing from the bundle"));
    assert!(seen.borrow().is_empty());
    assert!(m.get(Reg::Ids).is_some() && m.get(Reg::Pixels).is_none());
}

#[test]
fn a_forward_s_outputs_are_taken_from_their_registers() {
    let mut m = machine(&[
        (Reg::Logits, reals(&[0.5, -1.0])),
        (Reg::Boxes, reals(&[0.0, 0.25, 0.5, 1.0, 0.0, 0.0, 1.0, 1.0])),
        (Reg::Presence, reals(&[])),
        (Reg::Masks, reals(&[1.0, 2.0])),
    ]);
    assert!(sam3_forward::output(&m).is_none());
    m.set(Reg::Semantic, reals(&[3.0]));
    // an empty presence is none
    assert!(sam3_forward::output(&m).is_none());
    m.set(Reg::Presence, reals(&[4.0]));
    let out = sam3_forward::output(&m).unwrap();
    assert_eq!(out.logits, bits(&[0.5, -1.0]));
    assert_eq!(out.boxes, bits(&[0.0, 0.25, 0.5, 1.0, 0.0, 0.0, 1.0, 1.0]));
    assert_eq!((out.presence, out.masks, out.semantic), (4.0f32.to_bits(), bits(&[1.0, 2.0]), bits(&[3.0])));
    m.set(Reg::Masks, Value::Halves(halves(&[1.0])));
    assert!(sam3_forward::output(&m).is_none());
}

#[test]
fn values_have_the_shapes_a_program_ends_with() {
    let w = world(&[]);
    let mut m = machine(&[(Reg::X, reals(&[1.0, 2.0, 3.0, 4.0])), (Reg::Y, reals(&[5.0, 6.0]))]);
    // 2x2 over 1x2 is 3x2, next to itself 3x4, of which the middle columns are 3x2
    let p = vec![
        step(Op::Stack, "", &[Reg::X, Reg::Y], Reg::H),
        step(Op::Beside { dim: 2, both: 4 }, "", &[Reg::H, Reg::H], Reg::A),
        step(Op::Columns { width: 4, off: 1, n: 2 }, "", &[Reg::A], Reg::P),
    ];
    assert!(w.run(p, &mut m).is_ok());
    assert_eq!(real_of(&m, Reg::H).len(), 3 * 2);
    assert_eq!(half_of(&m, Reg::A).len(), 3 * 4);
    assert_eq!(half_of(&m, Reg::P), [2.0, 1.0, 4.0, 3.0, 6.0, 5.0]);
}
