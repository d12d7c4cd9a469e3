//! The pieces the models are made of.

use taconite::clip;
use taconite::clip_config;
use taconite::clip_npu::{self, Kernels, Rows};
use taconite::gaic_manifest;
use taconite::io_plan;
use taconite::manifest;
use taconite::pack::pack_b;
use taconite::residency::{is_full, load_order, sources, Residency};
use taconite::rows::{split_balanced, split_evenly, threads};
use taconite::sam3::Error;
use taconite::sam3_bundle::{unescape, GemmSpec, Manifest};
use taconite::sam3_config::{is_global, vit_launches, weight_names, weight_slots, Config, Launch, Slot};
use taconite::sam3_instances::{instances, Output, Scoring};
use taconite::sam3_layout::{
    bias_by_head, by_head, check_pixels, columns, conv_rows, drop_border, merge_heads, patches, rotate, shuffle, split_heads,
    to_raster, transposed, upsample, valid_tokens,
};
use taconite::sam3_manifest;
use taconite::sam3_operands::{admits_all, operands, wants, Want};
use taconite::sam3_stages::{self, Sizes, Widths};
use taconite::sam3_steps::{Kernel, Op, Reg, Step};
use taconite::tiled::Ops;
use taconite::timing::Timing;

fn add(a: u32, b: u32) -> u32 {
    (f32::from_bits(a) + f32::from_bits(b)).to_bits()
}

fn mul(a: u32, b: u32) -> u32 {
    (f32::from_bits(a) * f32::from_bits(b)).to_bits()
}

fn bits(v: &[f32]) -> Vec<u32> {
    v.iter().map(|x| x.to_bits()).collect()
}

const HEAD: &str = "version 1\n\
    xclbin c0 kernels/a.xclbin MLIR_AIE\n\
    gemm g0 ctx=c0 insts=kernels/g0.bin M=4 K=8 N=16 lda=8 tile_k=8 tile_n=8 ct_k=8 bias=1 b_bytes=100\n\
    gemm g1 ctx=c0 insts=kernels/g1.bin M=4 K=16 N=8 lda=16 tile_k=8 tile_n=8 ct_k=8 bias=0 b_bytes=50\n\
    mha m0 xclbin=kernels/m.xclbin insts=kernels/m.bin heads=2 seq=4 d=8 token_major=1 elems=64\n\
    op rope xclbin=kernels/r.xclbin insts=kernels/r.bin name=ROPE\n\
    ref_image refs/cat.jpg\n\
    ref_prompt a  cat\n\
    tok_test 3 a\\tb\n\
    case 1 cases/x.jpg two dogs\n";

const PARAMS: &str = "param grid 2\nparam window 1\nparam vit_dim 8\nparam vit_heads 2\nparam vit_layers 2\n\
    param vit_ffn_pad 16\nparam vit_global 1\nparam patch 2\nparam image_size 4\nparam d_model 8\nparam d_heads 2\n\
    param d_layers 1\nparam d_ffn 16\nparam text_len 4\nparam text_dim 8\nparam text_heads 2\nparam text_layers 1\n\
    param text_ffn 16\nparam text_eps 1e-5\nparam vit_eps 1e-6\nparam queries 3\nparam dec_layers 2\n\
    param neck_splits 32,32,8\nparam mask_size 8\nparam vit_device 1\n";

fn model() -> (Manifest, Config) {
    let m = Manifest::load("/m", &format!("{HEAD}{PARAMS}")).unwrap();
    let c = Config::from(&m).unwrap();
    (m, c)
}

#[test]
fn a_sam3_manifest_lists_kernels_and_cases() {
    let (m, c) = model();
    let g = m.gemm("g0").unwrap();
    assert_eq!((g.m, g.k, g.n, g.bias, g.insts.as_str()), (4, 8, 16, true, "/m/kernels/g0.bin"));
    assert!(matches!(m.gemm("g9"), Err(Error::Bundle(t)) if t == "kernel g9 missing from the manifest"));
    assert_eq!(m.xclbin("c0").unwrap().kernel, "MLIR_AIE");
    assert_eq!(m.mhas.get("m0").unwrap().name, "MLIR_AIE");
    assert_eq!(m.ops.get("rope").unwrap().name, "ROPE");
    assert_eq!(m.ref_image.as_deref(), Some("/m/refs/cat.jpg"));
    assert_eq!(m.ref_prompt.as_deref(), Some("a  cat"));
    assert_eq!(m.tok_tests, [(3, "a\tb".to_string())]);
    assert_eq!((m.cases[0].idx, m.cases[0].prompt.as_str()), (1, "two dogs"));
    assert_eq!(c.tokens(), 4);
    assert_eq!(c.neck_splits, [32, 32, 8]);
    assert!(c.vit_device);
    assert!(Config::from(&Manifest::load("/m", HEAD).unwrap()).is_err());
    let stray = HEAD.replace("ctx=c0 insts=kernels/g1", "ctx=c7 insts=kernels/g1");
    let e = Manifest::load("/m", &stray).err().unwrap().message();
    assert!(e.contains("gemm g1 runs on unknown xclbin c7"), "{e}");
}

#[test]
fn operands_are_planned_in_order() {
    let (m, c) = model();
    let all = wants(&c);
    assert_eq!(all.len(), 18);
    assert!(matches!(all[1], Want::Chained { key: "v_fc2", from: 0 }));
    assert!(matches!(all[6], Want::Conv { side: 8 }));
    assert!(matches!(all[11], Want::Plain { key: "n_up", rows: 16 }));
    assert!(matches!(all[17], Want::Plain { key: "m_head", rows: 64 }));
    assert!(admits_all(&m, &all));
    assert!(matches!(operands(&m, &all), Err(Error::Bundle(t)) if t == "kernel v_fc1 missing from the manifest"));
    let two = vec![Want::Plain { key: "g0", rows: 6 }, Want::Chained { key: "g1", from: 0 }];
    assert!(admits_all(&m, &two));
    let p = operands(&m, &two).unwrap();
    assert_eq!((p[0].rows, p[0].a_bytes, p[0].c_bytes, p[0].chunks.len(), p[0].chained), (8, 128, 256, 2, false));
    assert_eq!((p[1].rows, p[1].a_bytes, p[1].c_bytes, p[1].chunks.len(), p[1].chained), (8, 256, 128, 2, true));
    let wide = vec![Want::Plain { key: "g0", rows: 6 }, Want::Chained { key: "g0", from: 0 }];
    assert!(!admits_all(&m, &wide));
    let huge = vec![Want::Plain { key: "g0", rows: usize::MAX / 4 }];
    assert!(matches!(operands(&m, &huge), Err(Error::Bundle(t)) if t == "g0: sizes overflow"));
}

#[test]
fn escapes_are_undone() {
    assert_eq!(unescape("a\\tb\\n\\r\\\\"), "a\tb\n\r\\");
    assert_eq!(unescape("\\x41\\u00e9\\U0001f600"), "Aé😀");
    assert_eq!(unescape("\\q\\"), "\\q\\");
    assert_eq!(unescape("plain text"), "plain text");
    // whatever a prompt holds, written escaped, comes back
    for prompt in ["a \\ b", "tab\tline\n\r", "caf\u{e9} \u{7f}\u{1}", "\u{1f600}\u{4e2d}", "\\u0041", ""] {
        let written: String = prompt
            .chars()
            .map(|c| match c {
                '\t' => "\\t".to_string(),
                '\n' => "\\n".to_string(),
                '\r' => "\\r".to_string(),
                '\\' => "\\\\".to_string(),
                ' '..='~' => c.to_string(),
                _ if (c as u32) < 0x100 => format!("\\x{:02x}", c as u32),
                _ if (c as u32) < 0x10000 => format!("\\u{:04x}", c as u32),
                _ => format!("\\U{:08x}", c as u32),
            })
            .collect();
        assert_eq!(unescape(&written), prompt);
    }
}

#[test]
fn a_line_based_manifest_is_read_too() {
    let text = format!("{HEAD}{PARAMS}");
    let m = sam3_manifest::Manifest::load("/m", &text).unwrap();
    assert_eq!(m.dir, "/m");
    assert_eq!(m.usize("grid").unwrap(), 2);
    assert_eq!(m.list("neck_splits").unwrap(), [32, 32, 8]);
    assert_eq!(m.real_param("vit_eps").unwrap(), "1e-6");
    assert_eq!(m.gemm("g1").unwrap().k, 16);
    assert_eq!(m.ref_prompt.as_deref(), Some("a  cat"));
    assert!(m.param("none").is_err());
    assert!(m.usize("vit_eps").is_err());
    let e = sam3_manifest::Manifest::load("/m", "version 2\n").err().unwrap().message();
    assert!(e.contains("bundle version Some(2), this runtime reads 1"), "{e}");
    let e = sam3_manifest::Manifest::load("/m", "param a 1\n").err().unwrap().message();
    assert!(e.contains("bundle version None"), "{e}");
}

#[test]
fn kernels_come_and_go_by_use() {
    let (m, _) = model();
    let s = sources(&m).unwrap();
    assert_eq!(load_order(&s).len(), 4);
    let mut r = Residency::new(sources(&m).unwrap(), 2);
    assert!(!r.request("g0").unwrap());
    r.loaded("g0");
    assert!(r.request("g0").unwrap());
    // g1 shares g0's context
    assert!(r.has_room("g1").unwrap());
    assert!(!r.request("m0").unwrap());
    r.loaded("m0");
    assert!(r.is_loaded("g0") && r.is_loaded("m0"));
    assert!(r.request("g0").unwrap());
    assert!(!r.request("rope").unwrap());
    r.loaded("rope");
    // m0 was the least recently used
    assert!(r.is_loaded("g0") && !r.is_loaded("m0") && r.is_loaded("rope"));
    assert_eq!(r.contexts(), (3, 1));
    assert!(r.request("nothing").is_err());
    assert!(!r.request("m0").unwrap());
    assert_eq!(r.contexts(), (3, 2));
    assert!(r.full("m0", "CREATE_HWCTX: no room").is_ok());
    assert_eq!(r.contexts(), (3, 3));
    assert!(r.full("m0", "CREATE_HWCTX: no room").is_err());
    assert!(is_full("CREATE_HWCTX: No space left on device") && !is_full("unrelated"));
    assert!(Residency::failed("m0", "broken").message().contains("m0"));
}

#[test]
fn startup_loads_keep_the_order_of_first_use() {
    let (m, _) = model();
    let names = |r: &Residency| r.lru.clone();
    let mut r = Residency::new(sources(&m).unwrap(), 3);
    for key in ["g0", "m0", "g1"] {
        r.preloaded(key);
    }
    assert_eq!(names(&r), ["c0", "m0"]);
    assert_eq!(r.contexts(), (2, 0));
    let mut q = Residency::new(sources(&m).unwrap(), 3);
    for key in ["g0", "m0", "g1"] {
        assert!(!q.request(key).unwrap());
        q.loaded(key);
    }
    assert_eq!(names(&q), ["m0", "c0"]);
}

#[test]
fn rows_are_padded_to_whole_runs() {
    let (m, _) = model();
    let g = m.gemm("g0").unwrap();
    let p = io_plan::io(g, 6).unwrap();
    assert_eq!((p.rows, p.n, p.chunks.len()), (8, 16, 2));
    assert_eq!((p.a_bytes, p.c_bytes), (8 * 8 * 2, 8 * 16 * 2));
    assert_eq!((p.chunks[1].a_off, p.chunks[1].a_len, p.chunks[1].c_off, p.chunks[1].c_len), (64, 64, 128, 128));
    let q = io_plan::io_chained(m.gemm("g1").unwrap(), &p).unwrap();
    assert!(q.chained && !p.chained);
    assert_eq!(q.chunks.len(), 2);
    assert_eq!(q.a_bytes, p.c_bytes);
    assert!(io_plan::io_exact("g", 4, 8, 16, 6).is_err());
    assert_eq!(io_plan::io_exact("g", 4, 8, 16, 8).unwrap().chunks.len(), 2);
}

#[test]
fn totals_sum_what_was_added_under_a_prefix() {
    let mut t = Timing::new();
    for (k, d) in [("npu:a", 5), ("text", 7), ("npu:b", 1), ("npu:a", 2), ("text", 3)] {
        t.add(k, d);
    }
    assert_eq!(t.npu_total(), 8);
    assert_eq!(t.total(), 18);
    let keys: Vec<&str> = t.entries.iter().map(|e| e.0.as_str()).collect();
    assert_eq!(keys, ["npu:a", "text", "npu:b"]);
}

#[test]
fn time_adds_up_by_stage() {
    let mut t = Timing::new();
    t.add("vit", 5);
    t.add("npu:g0", 7);
    t.add("vit", 1);
    assert_eq!((t.get("vit"), t.get("npu:g0"), t.get("neck")), (6, 7, 0));
    assert_eq!((t.npu_total(), t.total()), (7, 13));
    t.add("npu:m0", 2);
    let own = |v: &[(&str, u64)]| v.iter().map(|e| (e.0.to_string(), e.1)).collect::<Vec<_>>();
    assert_eq!(t.by_place(), (own(&[("vit", 6)]), own(&[("g0", 7), ("m0", 2)])));
    t.clear();
    assert_eq!(t.total(), 0);
}

#[test]
fn everything_packed_is_uploaded() {
    let (_, c) = model();
    let names = weight_names(&c);
    assert_eq!(names.len(), 4 + 8 + 4 + 5 + 2);
    assert!(names.contains(&"v.1.fc2".to_string()) && names.contains(&"d.0.qkv".to_string()));
    assert_eq!(names.last().unwrap(), "v.rope_tab.glob");
    let slots = weight_slots(1);
    assert_eq!(slots.iter().map(|s| s.0.as_str()).collect::<Vec<_>>(), ["d.0.s", "d.0.c", "m.s", "m.c", "m.head"]);
    assert_eq!(slots[4].1, "m_head");
}

#[test]
fn a_layer_is_eight_launches() {
    let (_, c) = model();
    assert!(!is_global(&c, 0) && is_global(&c, 1));
    let l = vit_launches(&c);
    assert_eq!(l.len(), 16);
    assert!(matches!(&l[0], Launch::Gemm { io, weights } if *io == "v_qkv" && weights == "v.0.qkv"));
    assert!(matches!(&l[2], Launch::Op { kernel, .. } if *kernel == "mha_win"));
    assert!(matches!(&l[10], Launch::Op { kernel, table, .. } if *kernel == "mha_glob" && *table == "v.rope_tab.glob"));
    assert!(matches!(&l[15], Launch::Op { args, .. } if args[2] == Slot::Res0));
}

fn widths() -> Widths {
    Widths { embed_k: 16, n_up: 32, conv_k: 96, conv_lda: 48, mha_d: 8, kv: 32, head_n: 8 }
}

#[test]
fn the_stages_name_their_tensors() {
    let (_, c) = model();
    let z = Sizes::of(&c, &widths()).unwrap();
    assert_eq!((z.tokens, z.pixels, z.hd, z.pd3, z.conv_c), (4, 64, 4, 48, 8));
    let has = |p: &Vec<Step>, name: &str| p.iter().any(|s| s.name == name);
    let text = sam3_stages::text(&z, c.text_layers, 2);
    assert_eq!(text.len(), 1 + 10 + 3);
    assert!(has(&text, "t.0.qkv") && has(&text, "t.final_ln") && has(&text, "t.proj"));
    let vit = sam3_stages::vit(&z, &c);
    assert_eq!(vit.len(), 10 + 2 * 15 + 1);
    let kernels: Vec<Kernel> =
        vit.iter().filter_map(|s| if let Op::Mha { kernel } = s.op { Some(kernel) } else { None }).collect();
    assert_eq!(kernels, [Kernel::MhaWin, Kernel::MhaGlob]);
    assert_eq!(kernels[1].key(), "mha_glob");
    let neck = sam3_stages::neck(&z);
    assert_eq!(neck.len(), 8 + 15);
    let enc = sam3_stages::detr_encoder(&z, 1);
    assert!(has(&enc, "d.0.ca.k") && has(&enc, "d.0.s") && has(&enc, "d.0.fc2.b"));
    assert!((c.dec_layers * z.d2) <= z.kv);
    let dec = sam3_stages::detr_decoder(&z, c.dec_layers);
    assert!(has(&dec, "dec.1.vca.q") && has(&dec, "score.query_proj"));
    let offs: Vec<usize> =
        dec.iter().filter_map(|s| if let Op::Planes { off, .. } = s.op { Some(off) } else { None }).collect();
    assert_eq!(offs, [0, 16]);
    let mask = sam3_stages::mask_decoder(&z).unwrap();
    assert_eq!(mask.last().unwrap().to, Reg::Semantic);
    let few = Sizes::of(&c, &Widths { head_n: 3, ..widths() }).unwrap();
    assert!(matches!(sam3_stages::mask_decoder(&few), Err(Error::Input(m)) if m == "3 queries + semantic > 3"));
    let mut none = model().1;
    none.vit_heads = 0;
    assert!(Sizes::of(&none, &widths()).is_none());
}

#[test]
fn every_step_reads_what_an_earlier_one_wrote() {
    let (_, c) = model();
    let z = Sizes::of(&c, &widths()).unwrap();
    let mut known = vec![Reg::Ids, Reg::Valid, Reg::Pixels];
    let mut stages = vec![sam3_stages::text(&z, c.text_layers, 2), sam3_stages::vit(&z, &c), sam3_stages::neck(&z)];
    stages.push(sam3_stages::detr_encoder(&z, c.d_layers));
    stages.push(sam3_stages::detr_decoder(&z, c.dec_layers));
    stages.push(sam3_stages::mask_decoder(&z).unwrap());
    for s in stages.iter().flatten() {
        for r in &s.from {
            assert!(known.contains(r), "{s:?}");
        }
        known.push(s.to);
    }
    for out in [Reg::Logits, Reg::Boxes, Reg::Presence, Reg::Masks, Reg::Semantic] {
        assert!(known.contains(&out));
    }
}

#[test]
fn the_host_surrounds_the_device_backbone() {
    let (_, c) = model();
    let z = Sizes::of(&c, &widths()).unwrap();
    let single = sam3_stages::vit_prologue(&z, true);
    assert_eq!(single.len(), 8);
    assert_eq!(single[5].name, "v.ln_pre");
    assert!(matches!(single[6].op, Op::Standardize { dim, .. } if dim == z.vdim));
    assert_eq!((single[7].op, single[7].to), (Op::Narrow, Reg::A));
    let rounded = sam3_stages::vit_prologue(&z, false);
    assert_eq!(rounded.len(), 10);
    assert_eq!((rounded[6].to, rounded[7].to), (Reg::C, Reg::X));
    assert_eq!(sam3_stages::vit_epilogue(&z, true).len(), 1);
    let back = sam3_stages::vit_epilogue(&z, false);
    assert_eq!((back[0].op, back[1].op), (Op::Widen, Op::ToRaster));
    assert_eq!(back[1].to, Reg::Vit);
}

#[test]
fn heads_split_and_merge() {
    let (tokens, heads, hd, ws2) = (4usize, 2usize, 2usize, 2usize);
    let dim = heads * hd;
    let qkv: Vec<u16> = (0..(tokens * 3 * dim) as u16).collect();
    for global in [false, true] {
        let v = split_heads(&qkv, tokens, heads, hd, ws2, global, 2);
        let back = merge_heads(&v, tokens, heads, hd, ws2, global);
        let want: Vec<u16> = columns(&qkv, tokens, 3 * dim, 2 * dim, dim);
        assert_eq!(back, want);
    }
    let v = split_heads(&qkv, tokens, heads, hd, ws2, false, 0);
    // window 0, head 1, token 1
    assert_eq!(v[6..8], [14, 15]);
    let one = Ops { add: add as fn(u32, u32) -> u32, mul: mul as fn(u32, u32) -> u32 };
    let rows: Vec<u16> = vec![0x3f80, 0x4000];
    let r = rotate(&one, &rows, &bits(&[0.0]), &bits(&[1.0]), 1, 1, 2, 1, true);
    assert_eq!(r, [0xc000, 0x3f80]);
}

#[test]
fn patches_and_tokens_change_order() {
    assert!(check_pixels(48, 4).is_ok());
    assert!(matches!(check_pixels(47, 4), Err(Error::Input(_))));
    let pixels = bits(&(0..48).map(|i| i as f32).collect::<Vec<_>>());
    let p = patches(&pixels, &vec![3, 0, 1, 2], 2, 2, 4, 14);
    assert_eq!(p.len(), 4 * 14);
    // the last patch first: its top row of the first channel
    assert_eq!((p[0], p[1]), (0x4120, 0x4130));
    assert_eq!(p[12..14], [0, 0]);
    let x = bits(&[1.0, 2.0, 3.0, 4.0]);
    assert_eq!(to_raster(&x, &vec![3, 0, 1, 2], 1), bits(&[2.0, 3.0, 4.0, 1.0]));
}

#[test]
fn grids_are_spread_and_bordered() {
    let y: Vec<u16> = (0..8).collect();
    assert_eq!(shuffle(&y, 1, 8, 4, 1), [4, 5, 6, 7]);
    let c = conv_rows(&vec![5], 1, 1, 3);
    assert_eq!(c, [0, 0, 0, 0, 5, 0, 0, 0, 0]);
    assert_eq!(drop_border(&vec![1, 2, 3], 1, 1), [1]);
    assert_eq!(transposed(&vec![1, 2, 3, 4, 5, 6], 2, 3, 1, 2), [2, 5, 3, 6]);
    assert_eq!(by_head(&vec![1, 2, 3, 4, 5, 6, 7, 8], 2, 2, 1, 4, 1), [2, 6, 3, 7]);
    assert_eq!(bias_by_head(&vec![1, 2, 3, 4], 2, 1, 2), [0, 0, 1, 3, 0, 0, 2, 4]);
    let up = upsample(&bits(&[1.0]), &bits(&[1.0, 2.0, 3.0, 4.0]), 1, 1, &add);
    assert_eq!(up, [0x4000, 0x4040, 0x4080, 0x40a0]);
    assert_eq!(valid_tokens(&vec![1, 2, 3], &vec![1, 1, 0], 3).unwrap(), 2);
    assert!(valid_tokens(&vec![1, 2, 3], &vec![1, 0, 1], 3).is_err());
    assert!(valid_tokens(&vec![1, 2, 3], &vec![0, 0, 0], 3).is_err());
    assert!(valid_tokens(&vec![1, 2], &vec![1, 1, 0], 3).is_err());
}

#[test]
fn weights_are_packed_in_blocks_with_their_bias() {
    let g = GemmSpec {
        key: "g".to_string(),
        ctx: "c".to_string(),
        insts: "i".to_string(),
        m: 1,
        k: 8,
        n: 8,
        lda: 8,
        tile_k: 8,
        tile_n: 8,
        ct_k: 8,
        bias: true,
        b_bytes: 0,
    };
    let b = bits(&[1.0; 64]);
    let plain = pack_b(&g, &b, None);
    assert_eq!(plain.len(), 72);
    assert_eq!(plain[..9], [127, 64, 64, 64, 64, 64, 64, 64, 64]);
    let biased = pack_b(&g, &b, Some(&bits(&[2.0; 8])));
    assert!(biased.len() > plain.len());
}

#[test]
fn work_is_cut_into_rows() {
    let p = split_evenly(12, 2, 4);
    assert_eq!(p.iter().map(|x| x.len).sum::<usize>(), 12);
    assert_eq!(p[0].start, 0);
    assert_eq!(split_evenly(12, 2, 1).len(), 1);
    assert_eq!(split_balanced(12, 2, 4, true).len(), 1);
    assert_eq!(threads(3, Some(8)), 3);
    assert_eq!(threads(0, Some(8)), 8);
}

#[test]
fn clip_inputs_are_grouped_and_checked() {
    let g = clip::groups(5, 2);
    assert_eq!(g.iter().map(|x| (x.first, x.count)).collect::<Vec<_>>(), [(0, 2), (2, 2), (4, 1)]);
    assert_eq!(clip::check_pixels(24, 2).unwrap(), 2);
    assert!(matches!(clip::check_pixels(25, 2), Err(Error::Input(_))));
    assert_eq!(clip::check_ids(&vec![1, 2, 3, 4], 2, 5).unwrap(), 2);
    assert!(matches!(clip::check_ids(&vec![1, 2, 3], 2, 5), Err(Error::Input(_))));
    assert!(matches!(clip::check_ids(&vec![1, 9], 2, 5), Err(Error::Input(m)) if m.contains('9')));
    assert_eq!(clip::end_token(&[7, 3, 9, 3], 3, false), 1);
    assert_eq!(clip::end_token(&[7, 3, 9, 3], 3, true), 2);
    assert_eq!(clip::prompt("a photo of a {}.", "cat"), "a photo of a cat.");
    assert_eq!(clip::prompt("plain", "cat"), "plain");
    let r = clip::token_rows(&bits(&[10.0]), &bits(&[1.0, 2.0]), &bits(&[100.0, 200.0]), 2, 2, 3, 1, &add);
    assert_eq!(r, bits(&[110.0, 201.0, 0.0, 110.0, 202.0, 0.0]));
    let r = clip::prompt_rows(&vec![1, 0], 0, 1, 2, 3, 1, &bits(&[5.0, 6.0]), &bits(&[0.5, 1.0]), &add);
    assert_eq!(r, bits(&[6.5, 6.0, 0.0]));
    let px = bits(&(0..12).map(|i| i as f32).collect::<Vec<_>>());
    assert_eq!(clip::patches(&px, 0, 1, 2, 1, 2)[..3], bits(&[0.0, 4.0, 8.0]));
}

#[test]
fn a_clip_bundle_says_what_it_is() {
    let text = "version 1\nxclbin c k.xclbin K\n\
        param v_layers 1\nparam v_dim 8\nparam v_tokens 5\nparam v_stride 6\nparam v_batch 2\nparam v_rows 12\n\
        param v_mha_rows 6\nparam v_eps 1e-5\nparam patch 2\nparam image_size 4\nparam t_layers 1\nparam t_dim 8\n\
        param t_batch 1\nparam t_seq_pad 4\nparam t_rows 4\nparam t_eps 1e-5\nparam context 4\nparam embed_dim 8\n\
        param logit_scale 100\nparam eos_argmax 1\nparam prompt_template a {}\nparam bos 1\nparam eos 2\nparam pad 0\n\
        param resize_shortest 4\nparam crop 4\nparam mean 0.1,0.2,0.3\nparam std 1,1,1\n\
        gemm v_qkv ctx=c insts=a M=4 K=8 N=24 b_bytes=1\ngemm v_o ctx=c insts=b M=4 K=8 N=8 b_bytes=1\n\
        gemm v_fc1 ctx=c insts=d M=4 K=8 N=32 b_bytes=1\ngemm v_fc2 ctx=c insts=e M=4 K=32 N=8 b_bytes=1\n\
        op v_addln xclbin=x.xclbin insts=f name=ADD\n";
    let m = manifest::Manifest::load("/c", text, clip_config::VERSION).unwrap();
    let c = clip_config::Config::load(&m).unwrap();
    assert_eq!((c.v_dim, c.grid(), c.eos_argmax), (8, 2, true));
    let s = clip_config::Settings::load(&m, &c).unwrap();
    assert_eq!((s.eos, s.crop, s.mean[1].as_str()), (2, 4, "0.2"));
    let wrong = text.replace("param crop 4", "param crop 5");
    let m2 = manifest::Manifest::load("/c", &wrong, 1).unwrap();
    assert!(matches!(clip_config::Settings::load(&m2, &c), Err(Error::Bundle(t)) if t == "crop size != image size"));
    let k = Kernels::read(&m).unwrap();
    assert_eq!(k.contexts(), 2);
    let refs = "refset 1 images=2\nref_image 1 0 a cat.png\nref_image 11 0 no.png\nref_label 1 0 cat\nref_image 1 1 b.png\n";
    let m5 = manifest::Manifest::load("/c", &format!("{text}{refs}"), 1).unwrap();
    assert_eq!(clip_config::set_names(&m5, "ref_image", 1), ["a cat.png", "b.png"]);
    assert_eq!(clip_config::set_names(&m5, "ref_label", 1), ["cat"]);
    assert!(clip_config::set_names(&m5, "ref_label", 2).is_empty());
    // one path written twice is one context
    let again = format!("{text}op v_rope xclbin=./x.xclbin insts=g name=R\nop v_add xclbin=.//x.xclbin insts=h name=A\n");
    let m3 = manifest::Manifest::load("/c", &again, 1).unwrap();
    assert_eq!(Kernels::read(&m3).unwrap().contexts(), 2);
    let apart = format!("{text}op v_rope xclbin=../c/x.xclbin insts=g name=R\n");
    let m4 = manifest::Manifest::load("/c", &apart, 1).unwrap();
    assert_eq!(Kernels::read(&m4).unwrap().contexts(), 3);
    assert_eq!(k.spec("v_fc2").unwrap().k, 32);
    assert!(k.spec("v_none").is_err());
    assert!(k.kernel("v_addln").is_ok());
    assert_eq!(clip_npu::kernel_key("v", "qkv"), "v_qkv");
    let rows: Vec<Rows> = clip_npu::vision_rows(2, 6, 6);
    assert_eq!((rows[1].first, rows[1].count), (6, 6));
    let o = clip_npu::operands(&k, "v", 8, 12, &rows).unwrap();
    assert_eq!(o.qkv.chunks.len(), 3);
    assert!(o.fc2.chained);
    assert!(clip_npu::operands(&k, "v", 8, 13, &rows).is_err());
    assert_eq!(clip_npu::tower_weights("v", 1), ["v.0.qkv", "v.0.o", "v.0.fc1", "v.0.fc2"]);
    assert_eq!(clip_npu::launches(2).len(), 8);
}

const POSITIONAL: &str = "gaic 1\n\
    kernel stem s.xclbin s.bin K 4 27 4 108 10 16\n\
    kernel fc f.xclbin f.bin K 2 4 2 8 10 4\n\
    conv conv1 stem 3 4 0 4 1 1 9 c.b c.bias\n\
    f3 conv1\nf4 conv1\n\
    dimred d.w d.b 2 4\n\
    fc1 fc f.b f.bias 3 4 2 2\n\
    fc2 g.w g.b 2 3\n\
    fc3 h.w h.b 3\n\
    align 1 0.0625\n\
    ref cat.jpg 64 64 9 100 100\n";

#[test]
fn a_positional_manifest_is_read_field_by_field() {
    match gaic_manifest::Manifest::load("/g", POSITIONAL) {
        Ok(m) => {
            assert_eq!(m.kernel("stem").unwrap().k, 27);
            assert!(m.kernel("none").is_err());
            assert_eq!((m.f3.as_str(), m.align_size, m.spatial_scale.as_str()), ("conv1", 1, "0.0625"));
            assert_eq!(m.reference.as_ref().map(|r| r.n_anchors), Some(9));
        },
        Err(e) => assert!(!e.message().contains("fields"), "{}", e.message()),
    }
    let e = gaic_manifest::Manifest::load("/g", "gaic 2\n").err().unwrap().message();
    assert!(e.contains("bundle version 2, this runtime reads 1"), "{e}");
    let e = gaic_manifest::Manifest::load("/g", "").err().unwrap().message();
    assert!(e.contains("no `gaic <version>` line"), "{e}");
    let e = gaic_manifest::Manifest::load("/g", "gaic 1\nwhat 3\n").err().unwrap().message();
    assert!(e.contains("unknown record \"what\""), "{e}");
    let e = gaic_manifest::Manifest::load("/g", "gaic 1\nf3 a b\n").err().unwrap().message();
    assert!(e.contains("f3: 3 fields, expected 2"), "{e}");
    let e = gaic_manifest::Manifest::load("/g", "gaic 1\n").err().unwrap().message();
    assert!(e.contains("no dimred record"), "{e}");
    assert_eq!(gaic_manifest::floats("f", &[0, 0, 128, 63]).unwrap(), bits(&[1.0]));
    assert!(gaic_manifest::floats("f", &[0, 0, 128]).is_err());
    assert!(gaic_manifest::floats_n("f", &[0, 0, 128, 63], 2).is_err());
}

fn value(x: u32) -> f32 {
    f32::from_bits(x)
}

#[test]
fn instances_are_the_queries_that_score_enough() {
    let out = Output {
        logits: bits(&[0.2, 0.9, 0.6]),
        boxes: bits(&[0.0, 0.0, 1.0, 1.0, 0.25, 0.5, 0.75, 1.0, 0.0, 0.5, 0.5, 1.0]),
        presence: 1.0f32.to_bits(),
        masks: bits(&[0.0, 0.0, 0.0, 0.0, 1.0, 0.0, 0.0, 1.0, 0.0, 1.0, 0.0, 1.0]),
        semantic: bits(&[0.0, 0.0, 0.0, 0.0]),
    };
    let parts = Scoring {
        score: |l: u32, p: u32| (value(l) * value(p)).to_bits(),
        keep: |s: u32| value(s) > 0.5,
        stretch: |v: u32, n: usize| (value(v) * n as f32).to_bits(),
        probability: |v: u32| v,
        axis: |d: usize, i: usize, o: usize| (d * i / o, 0u32),
        on: |_: u32, _: u32, a: u32, _: u32, _: u32, _: u32| value(a) > 0.5,
    };
    let r = instances(&out, 2, 4, 2, &parts);
    assert_eq!(r.iter().map(|i| value(i.score)).collect::<Vec<f32>>(), [0.9, 0.6]);
    assert_eq!(r[0].bbox.map(value), [1.0, 1.0, 3.0, 2.0]);
    assert_eq!(r[0].mask, [true, true, false, false, false, false, true, true]);
    assert_eq!(r[1].bbox.map(value), [0.0, 1.0, 2.0, 2.0]);
    assert_eq!(r[1].mask, [false, false, true, true, false, false, true, true]);
    // the far neighbours of the last place are the last place itself
    let far = Scoring {
        score: |l: u32, _: u32| l,
        keep: |_: u32| true,
        stretch: |v: u32, _: usize| v,
        probability: |v: u32| v,
        axis: |_: usize, i: usize, _: usize| (i - 1, 0u32),
        on: |_: u32, _: u32, _: u32, _: u32, _: u32, d: u32| value(d) > 0.5,
    };
    let r = instances(&out, 2, 1, 1, &far);
    assert_eq!(r.iter().map(|i| i.mask[0]).collect::<Vec<bool>>(), [false, true, true]);
}
