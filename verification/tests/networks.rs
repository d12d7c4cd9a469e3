//! Whole forwards, with a device that is a closure.

use std::cell::RefCell;

use taconite::adaface::{self, IrEmbedder};
use taconite::adaface_steps::Conv;
use taconite::bf16::{bf16_to_f32, f32_to_bf16};
use taconite::gaic::{build_a, check_input, epilogue_bf16, maxpool_f32, plan_for, run_backbone, stem_input, Backbone, Layer};
use taconite::gaic_bundle;
use taconite::gaic_score::{self, score, score_group, Fc1};
use taconite::ir_plan::{self, Cache, Host, Plan};
use taconite::tiled::{self, Buf, Ops};

fn add(a: u32, b: u32) -> u32 {
    (f32::from_bits(a) + f32::from_bits(b)).to_bits()
}

fn mul(a: u32, b: u32) -> u32 {
    (f32::from_bits(a) * f32::from_bits(b)).to_bits()
}

fn ops() -> Ops<fn(u32, u32) -> u32, fn(u32, u32) -> u32> {
    Ops { add, mul }
}

fn half(x: f32) -> u16 {
    f32_to_bf16(x.to_bits())
}

fn bytes16(v: &[u16]) -> Vec<u8> {
    v.iter().flat_map(|x| x.to_le_bytes()).collect()
}

/// Input 8 x 1 x 2, scaled by two and shifted by one, convolved by a device
/// that answers its input, then a head of one output summing everything.
fn small_bundle() -> (String, String, Vec<u8>) {
    let manifest = "version 1\n\
        param model IR tiny\n\
        xclbin k0 kernels/k.xclbin MLIR_AIE\n\
        input buf=0 c=8 h=1 w=2 tensor=in\n\
        affine in=0 out=1 c=8 h=1 w=2 scale=two shift=one\n\
        conv in=1 out=2 ict=8 h=1 w=2 c0=0 icg=8 wp=4 oc=8 oh=1 ow=2 owp=4 ctx=k0 insts=kernels/k.bin wt=wt first=1 last=1\n\
        add a=2 b=1 out=3 c=8 h=1 w=2\n\
        head in=3 c=8 h=1 w=2 k=16 n=1 bT=bt b2=b2\n";
    let mut data = Vec::new();
    let mut index = String::new();
    let mut put = |name: &str, dtype: &str, shape: &str, b: Vec<u8>| {
        while data.len() % 64 != 0 {
            data.push(0);
        }
        index.push_str(&format!("{name} {dtype} {shape} {} {}\n", data.len(), b.len()));
        data.extend(b);
    };
    put("in", "bf16", "16", bytes16(&(0..16).map(|i| half(i as f32)).collect::<Vec<_>>()));
    put("two", "bf16", "8", bytes16(&[half(2.0); 8]));
    put("one", "bf16", "8", bytes16(&[half(1.0); 8]));
    put("wt", "bf16", "4", bytes16(&[half(0.5); 4]));
    put("bt", "bf16", "16,1", bytes16(&[half(1.0); 16]));
    put("b2", "f32", "1", 10.0f32.to_le_bytes().to_vec());
    (manifest.to_string(), index, data)
}

#[test]
fn an_embedding_is_the_steps_one_after_another() {
    let (m, index, data) = small_bundle();
    let e = IrEmbedder::load("/b", Ok(&m), true, false, &index, data).unwrap();
    assert_eq!(e.input_dims(), (8, 1, 2));
    assert_eq!(e.embed_dim(), 1);
    assert_eq!(e.model(), Some("IR tiny"));
    assert_eq!(e.num_conv_dispatches(), 1);
    let seen: RefCell<Vec<(usize, usize, usize)>> = RefCell::new(vec![]);
    let dev = |c: &Conv, i: &Vec<u16>, w: &Vec<u16>, n: usize| {
        assert_eq!((c.xclbin.as_str(), c.insts.as_str()), ("/b/kernels/k.xclbin", "/b/kernels/k.bin"));
        seen.borrow_mut().push((i.len(), w.len(), n));
        Ok(i.clone())
    };
    let out = e.embed_recorded(&ops(), &dev).unwrap();
    // sum over i of 2 (2 i + 1), plus ten
    let want: f32 = (0..16).map(|i| 2.0 * (2.0 * i as f32 + 1.0)).sum::<f32>() + 10.0;
    assert_eq!(out, [want.to_bits()]);
    assert_eq!(*seen.borrow(), [(32, 4, 32)]);
    let chw: Vec<u32> = (0..2).map(|i| (i as f32).to_bits()).collect();
    let out = e.embed(&chw, &ops(), &dev).unwrap();
    // one channel of 0 and 1, seven of zeros
    assert_eq!(out, [(2.0 * (1.0 + 3.0 + 14.0) + 10.0f32).to_bits()]);
    assert!(matches!(e.embed(&vec![0u32; 3], &ops(), &dev), Err(adaface::Error::Input(_))));
    let refuse = |_: &Conv, _: &Vec<u16>, _: &Vec<u16>, _: usize| Err(adaface::Error::Xrt("busy".to_string()));
    assert!(matches!(e.embed_recorded(&ops(), &refuse), Err(adaface::Error::Xrt(m)) if m == "busy"));
}

#[test]
fn a_bundle_whose_steps_do_not_fit_is_refused() {
    let (m, index, data) = small_bundle();
    for (from, to) in [
        ("k=16", "k=17"),
        ("in=1 out=2", "in=7 out=2"),
        ("scale=two", "scale=wt"),
        ("stride", "stride"),
        ("ctx=k0", "ctx=k9"),
        ("c=8 h=1 w=2 tensor=in", "c=9 h=1 w=2 tensor=in"),
        ("add a=2", "sub a=2"),
        ("wp=4 oc=8", "wp=1 oc=8"),
    ] {
        if m.contains(from) && from != to {
            let bad = m.replace(from, to);
            assert!(IrEmbedder::load("/b", Ok(&bad), true, false, &index, data.clone()).is_err(), "{from} -> {to}");
        }
    }
    assert!(matches!(
        IrEmbedder::load("/b", Err("gone"), false, true, &index, data.clone()),
        Err(adaface::Error::Plan(m)) if m.starts_with("/b is an old plan.txt bundle")
    ));
    for has_plan in [false, true] {
        assert!(matches!(
            IrEmbedder::load("/b", Err("gone"), has_plan, has_plan, &index, data.clone()),
            Err(adaface::Error::Io(p, m)) if p == "/b/manifest.txt" && m == "gone"
        ));
    }
    assert!(IrEmbedder::load("/b", Ok("version 1\n"), true, false, &index, data).is_err());
}

#[test]
fn a_plan_runs_like_the_steps_it_lists() {
    let text = "INPUT buf=0 c=8 h=1 w=2 file=in.bin\n\
        AFFINE in=0 out=1 scale=two.bin shift=one.bin\n\
        CONV in=1 out=2 c0=0 icg=8 wp=4 oc=8 oh=1 ow=2 owp=4 xclbin=k.xclbin insts=k.txt kernel=MLIR_AIE wt=wt.bin first=1 last=1\n\
        ADD a=2 b=1 out=3\n\
        HEAD in=3 k=16 n=1 bT=bt.bin b2=b2.bin\n";
    let p = Plan::load(text).unwrap();
    assert_eq!(p.input_dims(), (8, 1, 2));
    assert_eq!(p.embed_dim(), 1);
    assert_eq!(p.num_conv_dispatches(), 1);
    let loads: RefCell<Vec<String>> = RefCell::new(vec![]);
    let host = Host {
        ensure: |key: &String, x: &String, i: &String, n: &String| -> Result<(), ir_plan::Error> {
            loads.borrow_mut().push(format!("{key} {x} {i} {n}"));
            Ok(())
        },
        run: |_: &String, i: &Vec<u16>, _: &Vec<u16>, n: usize| -> Result<Vec<u16>, ir_plan::Error> {
            assert_eq!(n, 32);
            Ok(i.clone())
        },
        blob: |path: &String| -> Result<Vec<u16>, ir_plan::Error> {
            Ok(match path.as_str() {
                "/b/in.bin" => (0..16).map(|i| half(i as f32)).collect(),
                "/b/two.bin" => vec![half(2.0); 8],
                "/b/one.bin" => vec![half(1.0); 8],
                "/b/wt.bin" => vec![half(0.5); 4],
                "/b/bt.bin" => vec![half(1.0); 16],
                _ => return Err(ir_plan::Error::Io(path.clone(), "not found".to_string())),
            })
        },
        reals: |path: &String| -> Result<Vec<u32>, ir_plan::Error> {
            assert_eq!(path, "/b/b2.bin");
            Ok(vec![10.0f32.to_bits()])
        },
    };
    let want: f32 = (0..16).map(|i| 2.0 * (2.0 * i as f32 + 1.0)).sum::<f32>() + 10.0;
    assert_eq!(p.forward_ops("/b", None, &mut Cache::new(), &ops(), &host).unwrap(), [want.to_bits()]);
    assert_eq!(*loads.borrow(), ["k.xclbin /b/k.xclbin /b/k.txt MLIR_AIE"]);
    assert!(matches!(p.forward_ops("/c", None, &mut Cache::new(), &ops(), &host), Err(ir_plan::Error::Io(..))));
    let given = vec![0u16; 15];
    assert!(matches!(p.forward_ops("/b", Some(&given), &mut Cache::new(), &ops(), &host), Err(ir_plan::Error::Input(_))));
    let chw = vec![1.0f32.to_bits(); 2];
    let out = p.embed("/b", &chw, &mut Cache::new(), &ops(), &host).unwrap();
    assert_eq!(out, [(2.0 * (2.0 * 3.0 + 14.0) + 10.0f32).to_bits()]);
}

#[test]
fn channels_beyond_the_last_whole_group_have_no_elements() {
    let conv = |from: u32, out: u32, oc: usize| {
        format!(
            "CONV in={from} out={out} c0=0 icg=8 wp=2 oc={oc} oh=1 ow=2 owp=2 xclbin=k insts=i kernel=K wt=w first=1 last=1\n"
        )
    };
    let text = |oc: usize, more: &str| {
        format!(
            "INPUT buf=9 c=12 h=1 w=2 file=in\nINPUT buf=0 c=8 h=1 w=2 file=in\n{}{more}{}HEAD in=3 k=16 n=1 bT=bt b2=b2\n",
            conv(9, 1, oc),
            conv(2, 3, 8)
        )
    };
    let host = Host {
        ensure: |_: &String, _: &String, _: &String, _: &String| -> Result<(), ir_plan::Error> { Ok(()) },
        run: |_: &String, i: &Vec<u16>, _: &Vec<u16>, n: usize| -> Result<Vec<u16>, ir_plan::Error> {
            assert_eq!(i.len(), 16);
            Ok((0..n).map(|k| *i.get(k).unwrap_or(&0)).collect())
        },
        blob: |_: &String| -> Result<Vec<u16>, ir_plan::Error> { Ok((0..16).map(|i| half(i as f32)).collect()) },
        reals: |_: &String| -> Result<Vec<u32>, ir_plan::Error> { Ok(vec![0]) },
    };
    let run = |t: String| Plan::load(&t).unwrap().forward_ops("", None, &mut Cache::new(), &ops(), &host);
    let whole = run(text(8, "SUBSAMPLE in=1 out=2 stride=1\n")).unwrap();
    assert_eq!(run(text(12, "SUBSAMPLE in=1 out=2 stride=1\n")).unwrap(), whole);
    assert_eq!(run(text(15, "SUBSAMPLE in=1 out=2 stride=1\n")).unwrap(), whole);
    // a value for each channel needs every channel's place
    let biased = "BIAS buf=1 bias=b\nSUBSAMPLE in=1 out=2 stride=1\n";
    assert!(run(text(8, biased)).is_ok());
    assert!(matches!(run(text(12, biased)), Err(ir_plan::Error::Plan(m)) if m == "BIAS: sizes do not fit"));
}

/// A host whose files hold 0, 1, 2, ... as many as their name says, with a
/// device that answers with its input, noting what is read.
fn replay(text: &str, cache: &mut Cache, reads: &RefCell<Vec<String>>) -> Result<Vec<f32>, ir_plan::Error> {
    let host = Host {
        ensure: |_: &String, _: &String, _: &String, _: &String| -> Result<(), ir_plan::Error> { Ok(()) },
        run: |_: &String, i: &Vec<u16>, _: &Vec<u16>, _: usize| -> Result<Vec<u16>, ir_plan::Error> { Ok(i.clone()) },
        blob: |p: &String| -> Result<Vec<u16>, ir_plan::Error> {
            reads.borrow_mut().push(p.clone());
            let n: usize = p.rsplit('/').next().unwrap().parse().unwrap();
            Ok((0..n).map(|i| half(i as f32)).collect())
        },
        reals: |p: &String| -> Result<Vec<u32>, ir_plan::Error> {
            reads.borrow_mut().push(format!("{p} in single precision"));
            Ok(vec![100.0f32.to_bits()])
        },
    };
    let v = Plan::load(text).unwrap().forward_ops("/b", None, cache, &ops(), &host)?;
    Ok(v.into_iter().map(f32::from_bits).collect())
}

fn run_once(text: &str) -> Result<Vec<f32>, ir_plan::Error> {
    replay(text, &mut Cache::new(), &RefCell::new(vec![]))
}

#[test]
fn elements_that_are_never_read_need_not_be_there() {
    // the file has one group of the two its sizes name
    let conv = |c0: usize| {
        format!(
            "INPUT buf=0 c=16 h=1 w=2 file=16\n\
             CONV in=0 out=1 c0={c0} icg=8 wp=2 oc=8 oh=1 ow=2 owp=2 xclbin=k insts=i kernel=K wt=1 first=1 last=1\n\
             HEAD in=1 k=16 n=1 bT=16 b2=b\n"
        )
    };
    // planar order of the tile, against weights 0 to 15
    let planar: Vec<f32> = (0..8).flat_map(|ch| [ch as f32, (8 + ch) as f32]).collect();
    let want: f32 = planar.iter().enumerate().map(|(i, x)| i as f32 * x).sum::<f32>() + 100.0;
    assert_eq!(run_once(&conv(0)).unwrap(), [want]);
    assert!(matches!(run_once(&conv(1)), Err(ir_plan::Error::Plan(m)) if m == "CONV: sizes do not fit"));
    // a longer file is kept whole
    assert_eq!(run_once(&conv(0).replace("file=16", "file=99")).unwrap(), [want]);
    // a channel's value is looked for only where the buffer has the channel
    let head = "HEAD in=0 k=8 n=1 bT=8 b2=b\n";
    for (op, n) in [("BIAS buf=0 bias=", 8), ("PRELU_BIAS buf=0 bias=8 alpha=", 8), ("AFFINE in=0 out=0 scale=8 shift=", 8)] {
        let text = |c: usize, n: usize| format!("INPUT buf=0 c=8 h=1 w=1 file={c}\n{op}{n}\n{head}");
        assert!(run_once(&text(8, n)).is_ok());
        assert!(run_once(&text(9, n + 1)).is_ok());
        assert!(matches!(run_once(&text(7, n)), Err(ir_plan::Error::Plan(m)) if m.ends_with(": sizes do not fit")));
        assert!(matches!(run_once(&text(8, n - 1)), Err(ir_plan::Error::Plan(m)) if m.ends_with(": sizes do not fit")));
    }
    assert!(matches!(
        run_once("INPUT buf=0 c=8 h=1 w=1 file=7\nHEAD in=0 k=8 n=1 bT=8 b2=b\n"),
        Err(ir_plan::Error::Plan(m)) if m == "HEAD: sizes do not fit"
    ));
}

#[test]
fn a_sum_goes_as_far_as_both_buffers() {
    let text = |b: usize, tail: &str| {
        format!("INPUT buf=0 c=8 h=2 w=2 file=32\nINPUT buf=1 c=8 h=2 w=2 file={b}\nADD a=0 b=1 out=2\n{tail}")
    };
    let corner = "SUBSAMPLE in=2 out=3 stride=2\nHEAD in=3 k=8 n=1 bT=8 b2=b\n";
    let want: f32 = (0..8).map(|i| (2 * i * i) as f32).sum::<f32>() + 100.0;
    for b in [8, 9, 32, 40] {
        assert_eq!(run_once(&text(b, corner)).unwrap(), [want]);
    }
    assert!(matches!(run_once(&text(7, corner)), Err(ir_plan::Error::Plan(m)) if m == "SUBSAMPLE: sizes do not fit"));
    let all = "HEAD in=2 k=32 n=1 bT=32 b2=b\n";
    assert!(run_once(&text(32, all)).is_ok());
    assert!(matches!(run_once(&text(31, all)), Err(ir_plan::Error::Plan(m)) if m == "HEAD: sizes do not fit"));
}

#[test]
fn files_are_read_once_and_a_head_shares_what_it_read() {
    let reads: RefCell<Vec<String>> = RefCell::new(vec![]);
    let mut cache = Cache::new();
    // one name for weights and biases: the widened weights serve as both
    let shared = "INPUT buf=0 c=8 h=1 w=1 file=8\nHEAD in=0 k=8 n=1 bT=8 b2=8\n";
    let sum: f32 = (0..8).map(|i| (i * i) as f32).sum();
    let mut want: Vec<f32> = (0..8).map(|i| i as f32).collect();
    want[0] += sum;
    assert_eq!(replay(shared, &mut cache, &reads).unwrap(), want);
    assert_eq!(*reads.borrow(), ["/b/8", "/b/8"]);
    // later forwards read nothing again
    assert_eq!(replay(shared, &mut cache, &reads).unwrap(), want);
    assert_eq!(reads.borrow().len(), 2);
    // what was read as biases is not read as weights
    let mut other = Cache::new();
    reads.borrow_mut().clear();
    let first = "INPUT buf=0 c=8 h=1 w=1 file=8\nHEAD in=0 k=8 n=1 bT=8 b2=b\n";
    assert_eq!(replay(first, &mut other, &reads).unwrap(), [100.0 + sum]);
    let second = "INPUT buf=0 c=8 h=1 w=1 file=8\nHEAD in=0 k=8 n=1 bT=b b2=b\n";
    assert!(matches!(replay(second, &mut other, &reads), Err(ir_plan::Error::Plan(m)) if m == "HEAD: sizes do not fit"));
    assert_eq!(*reads.borrow(), ["/b/8", "/b/8", "/b/b in single precision"]);
}

#[test]
fn a_plan_without_an_input_or_a_head_is_refused() {
    assert!(matches!(Plan::load("HEAD in=0 k=1 n=1 bT=a b2=b\n"), Err(ir_plan::Error::Plan(m)) if m == "no valid INPUT op"));
    assert!(matches!(Plan::load("INPUT buf=0 c=8 h=1 w=1 file=f\n"), Err(ir_plan::Error::Plan(m)) if m == "no HEAD op"));
    assert!(Plan::load("INPUT buf=0 c=7 h=1 w=1 file=f\nHEAD in=0 k=1 n=1 bT=a b2=b\n").is_err());
}

#[test]
fn tiled_images_come_back_as_they_were() {
    let chw: Vec<u32> = (0..8 * 2 * 3).map(|i| (i as f32).to_bits()).collect();
    let t = tiled::tile_image(&chw, 8, 2, 3);
    assert_eq!((t.c, t.h, t.w, t.v.len()), (8, 2, 3, 48));
    assert_eq!(tiled::tiled_to_nchw(&t), chw);
    assert_eq!(t.v[tiled::tidx(8, 2, 3, 5, 1, 2)], half((5 * 6 + 5) as f32));
    let s = tiled::subsample_tiled(&t, 2);
    assert_eq!((s.h, s.w), (1, 1));
    assert_eq!(s.v[3], half(18.0));
    let mut b = Buf { v: vec![half(-4.0); 8], c: 8, h: 1, w: 1 };
    tiled::prelu_bias_tiled(&mut b, &[half(0.5); 8], &[half(1.0); 8], &ops());
    assert_eq!(b.v, [half(-1.5); 8]);
    tiled::bias_tiled(&mut b, &[half(2.0); 8], &ops());
    assert_eq!(b.v, [half(0.5); 8]);
    assert_eq!(tiled::add_tiled(&b, &b, &ops()).v, [half(1.0); 8]);
    let wide = tiled::slice_groups_wpad(&t, 0, 1, 4);
    assert_eq!(wide.len(), 2 * 4 * 8);
    assert_eq!(wide[3 * 8..4 * 8], [0u16; 8]);
}

fn layer(c: usize, oc: usize, pool_before: bool) -> Layer {
    let d = 3 * c;
    Layer { c, oc, pool_before, m_chunk: 2, p: 1, window: false, d, k: 3 * d, a_elems: d + 3 * d, c_elems: 2 * oc }
}

#[test]
fn inputs_of_the_wrong_size_are_refused() {
    assert!(check_input(64, 96, 3 * 64 * 96).is_ok());
    assert!(check_input(64, 32, 3 * 64 * 32).is_err());
    assert!(matches!(check_input(64, 64, 7), Err(gaic_bundle::Error::Input(_))));
    assert!(matches!(check_input(80, 64, 3 * 80 * 64), Err(gaic_bundle::Error::Input(_))));
    assert!(check_input(0, 32, 0).is_err());
}

#[test]
fn a_plan_dispatches_every_pixel() {
    let layers = vec![layer(3, 4, false), layer(4, 4, true)];
    let p = plan_for(&layers, 4, 4).unwrap();
    assert_eq!(p.layers.len(), 2);
    assert_eq!((p.layers[0].h, p.layers[0].w), (4, 4));
    assert_eq!((p.layers[1].h, p.layers[1].w), (2, 2));
    // 4 rows of 6 pixels, two at a time
    assert_eq!((p.layers[0].pixels, p.layers[0].dispatches.len()), (24, 12));
    assert_eq!((p.layers[0].dispatches[1].a_off, p.layers[0].dispatches[1].c_off), (2 * 9, 2 * 4));
    assert_eq!((p.layers[1].pixels, p.layers[1].dispatches.len()), (8, 4));
    assert_eq!(p.dispatches(), 16);
    assert_eq!([0, 1, 8, 9, 16].map(|n| gaic_score::dispatches(n, 8)), [0, 1, 1, 2, 2]);
}

#[test]
fn a_row_holds_a_pixel_and_the_two_below_it() {
    let l = layer(1, 1, false);
    let act: Vec<u16> = (1..=4).collect();
    let a = build_a(&act, &l, 2, 2);
    // bordered rows: 0000 0120 0340 0000
    assert_eq!(a[0..3], [0, 0, 0]);
    assert_eq!(a[3..6], [0, 1, 3]);
    assert_eq!(a[6..9], [0, 2, 4]);
    assert_eq!(a[4 * 3 + 3..4 * 3 + 6], [1, 3, 0]);
}

#[test]
fn pooling_takes_the_largest_of_four() {
    let f: Vec<u32> = [1.0f32, 5.0, -3.0, 2.0].iter().map(|x| x.to_bits()).collect();
    assert_eq!(maxpool_f32(&f, 2, 2, 1), [5.0f32.to_bits()]);
    let out: Vec<u16> = [1.0f32, 2.0, 9.0, 9.0, 3.0, -4.0, 9.0, 9.0].iter().map(|&x| half(x)).collect();
    let r = epilogue_bf16(&out, 2, 2, 1, &vec![(-1.0f32).to_bits()], true, &add);
    assert_eq!(r, [half(2.0)]);
    let r = epilogue_bf16(&out, 2, 2, 1, &vec![(-1.0f32).to_bits()], false, &add);
    assert_eq!(r, [half(0.0), half(1.0), half(2.0), half(0.0)]);
}

#[test]
fn the_backbone_runs_layer_by_layer() {
    let b = Backbone {
        layers: vec![layer(3, 2, false), layer(2, 2, true)],
        biases: vec![vec![1.0f32.to_bits(); 2], vec![0; 2]],
        f3: 0,
        f4: 1,
    };
    let chw: Vec<u32> = vec![0.5f32.to_bits(); 3 * 4];
    assert_eq!(stem_input(&chw, 2, 2), vec![half(0.5); 12]);
    let asked: RefCell<Vec<usize>> = RefCell::new(vec![]);
    let dev = |i: usize, _: &Vec<u16>| -> Result<Vec<u16>, String> {
        asked.borrow_mut().push(i);
        Ok(vec![half(i as f32 + 2.0); 64])
    };
    let (f3, f4) = run_backbone(&b, &chw, 2, 2, &add, &dev).unwrap();
    assert_eq!(f3, vec![3.0f32.to_bits(); 8]);
    assert_eq!(f4, vec![3.0f32.to_bits(); 2]);
    assert_eq!(*asked.borrow(), [0, 1]);
    let refuse = |i: usize, _: &Vec<u16>| -> Result<Vec<u16>, String> {
        if i == 0 { Ok(vec![0; 64]) } else { Err("no".to_string()) }
    };
    assert!(matches!(run_backbone(&b, &chw, 2, 2, &add, &refuse), Err(gaic_bundle::Error::Npu(m)) if m == "no"));
}

#[test]
fn boxes_are_scored_in_groups() {
    let l = Fc1 { k_pad: 3, n: 2, rows: 2, bias: vec![1.0f32.to_bits(), (-9.0f32).to_bits()] };
    let feat = |i: usize| vec![(i as f32).to_bits(), 0.5f32.to_bits()];
    let groups: RefCell<Vec<Vec<u16>>> = RefCell::new(vec![]);
    let dev = |a: &Vec<u16>| -> Result<Vec<u16>, String> {
        groups.borrow_mut().push(a.clone());
        Ok(vec![a[0], a[1], a[3], a[4]])
    };
    let head = |h: &Vec<u32>| add(h[0], h[1]);
    let s = score(&l, 3, &feat, &dev, &add, &head).unwrap();
    assert_eq!(s, [1.0f32.to_bits(), 2.0f32.to_bits(), 3.0f32.to_bits()]);
    let g = groups.borrow().clone();
    assert_eq!(g.len(), 2);
    assert_eq!(g[0], [0, half(0.5), 0, half(1.0), half(0.5), 0]);
    assert_eq!(g[1], [half(2.0), half(0.5), 0, 0, 0, 0]);
    let refuse = |_: &Vec<u16>| -> Result<Vec<u16>, String> { Err("gone".to_string()) };
    assert!(matches!(score(&l, 1, &feat, &refuse, &add, &head), Err(gaic_bundle::Error::Npu(m)) if m == "gone"));
    assert_eq!(score(&l, 0, &feat, &refuse, &add, &head).unwrap(), []);
    assert_eq!(score_group(&l, 5, 1, &feat, &dev, &add, &head).unwrap(), [6.0f32.to_bits()]);
    assert_eq!(bf16_to_f32(half(5.0)), 5.0f32.to_bits());
}
