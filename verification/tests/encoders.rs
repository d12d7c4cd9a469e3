//! Feature maps and embeddings, with a device that is a closure.

use std::cell::RefCell;

use taconite::bf16::f32_to_bf16;
use taconite::clip_encode::{encode_images, encode_texts, encode_token_ids, token_ids, tower_input, Images, Prompts, Vision, Words};
use taconite::gaic::{Backbone, Layer};
use taconite::gaic_align::{box_features, Aligner};
use taconite::gaic_bundle;
use taconite::gaic_features::{features, prepare, Parts};
use taconite::sam3::Error;
use taconite::tokenizer::Tokenizer;

fn add(a: u32, b: u32) -> u32 {
    (f32::from_bits(a) + f32::from_bits(b)).to_bits()
}

fn bits(v: &[f32]) -> Vec<u32> {
    v.iter().map(|x| x.to_bits()).collect()
}

fn reals(v: &[u32]) -> Vec<f32> {
    v.iter().map(|&x| f32::from_bits(x)).collect()
}

fn half(x: f32) -> u16 {
    f32_to_bf16(x.to_bits())
}

fn layer(c: usize, oc: usize, pool_before: bool) -> Layer {
    let d = 3 * c;
    Layer { c, oc, pool_before, m_chunk: 2, p: 1, window: false, d, k: 3 * d, a_elems: d + 3 * d, c_elems: 2 * oc }
}

fn backbone() -> Backbone {
    Backbone {
        layers: vec![layer(3, 2, false), layer(2, 2, true)],
        biases: vec![bits(&[1.0, 1.0]), bits(&[0.0, 0.0])],
        f3: 0,
        f4: 1,
    }
}

#[test]
fn the_map_adds_up_three_levels() {
    let b = backbone();
    let plan = prepare(&b, 3 * 64 * 64, 64, 64, 2).unwrap();
    let dev = |i: usize, _: &Vec<u16>| -> Result<Vec<u16>, String> { Ok(vec![half(i as f32 + 2.0); 10000]) };
    let parts = Parts {
        dot: |f: &Vec<u32>, p: usize, off: usize, k: usize| {
            let own: f32 = f[p * 2..p * 2 + 2].iter().map(|&x| f32::from_bits(x)).sum();
            let place = if off == 0 { p as f32 } else { 0.0 };
            (own + place + off as f32 * 0.5 + k as f32 * 1000.0).to_bits()
        },
        axis: |d: usize, i: usize, o: usize| (d * i / o, 0u32),
        mix: |_: u32, _: u32, a: u32, _: u32, _: u32, _: u32| a,
        blend: |a: u32, b: u32, c: u32, bias: u32| {
            let v = [a, b, c, bias].map(f32::from_bits);
            ((v[0] + v[1]) + (0.5 * v[2] + v[3])).to_bits()
        },
    };
    let chw = vec![0u32; 3 * 64 * 64];
    let f = features(&b, &plan, &chw, &bits(&[0.25, 0.75]), &add, &dev, &parts).unwrap();
    assert_eq!((f.input_w, f.input_h, f.h, f.w, f.channels), (64, 64, 32, 32, 2));
    assert_eq!(f.map.len(), 2 * 32 * 32);
    let map = reals(&f.map);
    // every level sums to 6; offsets 0, 2 and 4 add 0, 1 and 2
    let at = |k: usize, y: usize, x: usize| map[k * 1024 + y * 32 + x];
    assert_eq!(at(0, 0, 0), (6.0 + 7.0) + (4.0 + 0.25));
    assert_eq!(at(0, 3, 5), (6.0 + (6 * 64 + 10) as f32 + 7.0) + (4.0 + 0.25));
    assert_eq!(at(1, 1, 0), (6.0 + 128.0 + 1000.0 + 1007.0) + (504.0 + 0.75));
    let refuse = |_: usize, _: &Vec<u16>| -> Result<Vec<u16>, String> { Err("gone".to_string()) };
    let r = features(&b, &plan, &chw, &bits(&[0.0, 0.0]), &add, &refuse, &parts);
    assert!(matches!(r, Err(gaic_bundle::Error::Npu(m)) if m == "gone"));
}

#[test]
fn far_neighbours_stop_at_the_edge() {
    let b = backbone();
    let plan = prepare(&b, 3 * 64 * 64, 64, 64, 1).unwrap();
    let dev = |_: usize, _: &Vec<u16>| -> Result<Vec<u16>, String> { Ok(vec![half(0.0); 10000]) };
    let parts = Parts {
        dot: |_: &Vec<u32>, p: usize, off: usize, _: usize| if off == 0 { (p as f32).to_bits() } else { 0 },
        // the last place, whatever is asked for
        axis: |_: usize, i: usize, _: usize| (i - 1, 0u32),
        mix: |_: u32, _: u32, _: u32, _: u32, _: u32, d: u32| d,
        blend: |a: u32, _: u32, _: u32, _: u32| a,
    };
    let f = features(&b, &plan, &vec![0u32; 3 * 64 * 64], &bits(&[0.0]), &add, &dev, &parts).unwrap();
    assert!(reals(&f.map).iter().all(|&v| v == 4095.0));
}

#[test]
fn a_plan_is_refused_where_its_input_is() {
    let b = backbone();
    assert!(matches!(prepare(&b, 7, 64, 64, 2), Err(gaic_bundle::Error::Input(_))));
    assert!(matches!(prepare(&b, 3 * 80 * 64, 80, 64, 2), Err(gaic_bundle::Error::Input(_))));
    let r = prepare(&b, 3 * 64 * 64, 64, 64, usize::MAX);
    assert!(matches!(r, Err(gaic_bundle::Error::Bundle(m)) if m == "sizes overflow"));
}

#[test]
fn a_box_is_averaged_inside_and_around() {
    let map = bits(&[1.0, 2.0, 3.0, 4.0, 10.0, 20.0, 30.0, 40.0]);
    let parts = Aligner {
        inside: |y: usize, x: usize| Some((0usize, 0usize, y as u64, x as u64)),
        around: |y: usize, x: usize| if (y, x) == (0, 0) { None } else { Some((0usize, 0usize, y as u64, x as u64)) },
        between: |y: u64, x: u64, a: u32, b: u32, c: u32, d: u32| [[a, b], [c, d]][y as usize][x as usize],
        mean: |a: u32, b: u32, c: u32, d: u32| (reals(&[a, b, c, d]).iter().sum::<f32>() / 4.0).to_bits(),
    };
    assert_eq!(reals(&box_features(&map, 2, 2, 2, 1, &parts)), [2.5, 25.0, 2.25, 22.5]);
    assert!(box_features(&vec![], 0, 2, 2, 1, &parts).is_empty());
}

fn vision() -> Vision {
    Vision { image_size: 2, patch: 1, grid: 2, dim: 2, tokens: 5, stride: 6, batch: 2, rows: 13, embed_dim: 1 }
}

#[test]
fn images_are_encoded_in_their_order() {
    let v = vision();
    // image i, channel c, pixel p
    let pixels: Vec<f32> = (0..3 * 12).map(|k| (100 * (k / 12) + 10 * (k / 4 % 3) + k % 4) as f32).collect();
    let seen: RefCell<Vec<Vec<f32>>> = RefCell::new(vec![]);
    let parts = Images {
        plus: add,
        embed: |p: &Vec<u32>| bits(&reals(p).chunks(3).flat_map(|c| [c[0] + c[1] + c[2], c[0]]).collect::<Vec<f32>>()),
        norm: |r: &Vec<u32>| bits(&reals(r).iter().map(|x| x + 0.5).collect::<Vec<f32>>()),
        // every row answers with the next one
        run: |x: &Vec<u32>| -> Result<Vec<u32>, Error> {
            seen.borrow_mut().push(reals(x));
            Ok(x.iter().skip(2).copied().chain([0, 0]).collect())
        },
        head: |r: &Vec<u32>| bits(&[f32::from_bits(r[0]) * 1000.0 + f32::from_bits(r[1])]),
    };
    let (cls, pos) = (bits(&[7.0, 8.0]), bits(&[0.0, 0.0, 1.0, 2.0, 0.0, 0.0, 0.0, 0.0, 0.0, 0.0]));
    let s = reals(&encode_images(&v, &bits(&pixels), &cls, &pos, &parts).unwrap());
    // pixel 0 of image i: channels 100 i, 100 i + 10, 100 i + 20; position 1, 2; norm 0.5
    assert_eq!(s, [31.5 * 1000.0 + 2.5, 331.5 * 1000.0 + 102.5, 631.5 * 1000.0 + 202.5]);
    let seen = seen.borrow();
    assert_eq!(seen.len(), 2);
    assert_eq!(seen[0].len(), 26);
    assert_eq!(seen[0][..4], [7.5, 8.5, 31.5, 2.5]);
    assert_eq!(seen[0][10..14], [0.0, 0.0, 7.5, 8.5]);
    assert_eq!(seen[1][12..], [0.0; 14]);
}

#[test]
fn an_image_is_embedded_alike_in_any_company() {
    let v = vision();
    let parts = Images {
        plus: add,
        embed: |p: &Vec<u32>| bits(&reals(p).chunks(3).flat_map(|c| [c[0] - c[2], c[1]]).collect::<Vec<f32>>()),
        norm: |r: &Vec<u32>| bits(&reals(r).iter().map(|x| x * 0.5).collect::<Vec<f32>>()),
        // every row of an image answers with the sum of the image's rows
        run: |x: &Vec<u32>| -> Result<Vec<u32>, Error> {
            Ok(x.chunks(12)
                .flat_map(|b| {
                    let sums = [0, 1].map(|j| reals(b).iter().skip(j).step_by(2).sum::<f32>().to_bits());
                    (0..b.len()).map(move |k| sums[k % 2])
                })
                .collect())
        },
        head: |r: &Vec<u32>| bits(&[f32::from_bits(r[0]) + 100.0 * f32::from_bits(r[1])]),
    };
    let (cls, pos) = (bits(&[1.0, 2.0]), bits(&[0.0, 1.0, 2.0, 3.0, 4.0, 5.0, 6.0, 7.0, 8.0, 9.0]));
    let encode = |p: &[f32]| encode_images(&v, &bits(p), &cls, &pos, &parts).unwrap();
    let pixels: Vec<f32> = (0..5 * 12).map(|k| (k * k % 31) as f32).collect();
    let all = encode(&pixels);
    assert_eq!(all.len(), 5);
    for cut in 1..5 {
        let (a, b) = pixels.split_at(12 * cut);
        assert_eq!([encode(a), encode(b)].concat(), all);
    }
    assert_ne!(all[0], all[1]);
}

#[test]
fn an_image_of_the_wrong_size_or_a_lost_tower_is_an_error() {
    let v = vision();
    let parts = Images {
        plus: add,
        embed: |p: &Vec<u32>| p[..p.len() / 3 * 2].to_vec(),
        norm: |r: &Vec<u32>| r.clone(),
        run: |_: &Vec<u32>| -> Result<Vec<u32>, Error> { Err(Error::Npu("lost".to_string())) },
        head: |_: &Vec<u32>| vec![0u32],
    };
    let (cls, pos) = (vec![0u32; 2], vec![0u32; 10]);
    let r = encode_images(&v, &vec![0u32; 13], &cls, &pos, &parts);
    assert!(matches!(r, Err(Error::Input(m)) if m == "pixels must be [n, 3, 2, 2]"));
    assert!(matches!(encode_images(&v, &vec![], &cls, &pos, &parts), Err(Error::Input(_))));
    let r = encode_images(&v, &vec![0u32; 12], &cls, &pos, &parts);
    assert!(matches!(r, Err(Error::Npu(m)) if m == "lost"));
}

fn words() -> Words {
    Words { context: 3, dim: 1, pad: 4, batch: 2, rows: 9, embed_dim: 1, vocab: 10, eos: 9, highest: false }
}

#[test]
fn prompts_are_read_at_their_end() {
    let parts = Prompts {
        plus: add,
        run: |x: &Vec<u32>| -> Result<Vec<u32>, Error> { Ok(x.clone()) },
        head: |r: &Vec<u32>| r.clone(),
    };
    let tok: Vec<u32> = bits(&(0..10).map(|i| i as f32).collect::<Vec<f32>>());
    let pos = bits(&[0.5, 0.25, 0.125]);
    let ids = vec![1, 9, 0, 2, 3, 9, 4, 5, 6];
    let s = encode_token_ids(&words(), &ids, &tok, &pos, &parts).unwrap();
    assert_eq!(reals(&s), [9.25, 9.125, 4.5]);
    let highest = Words { highest: true, ..words() };
    let s = encode_token_ids(&highest, &ids, &tok, &pos, &parts).unwrap();
    assert_eq!(reals(&s), [9.25, 9.125, 6.125]);
    let r = encode_token_ids(&words(), &vec![1, 2], &tok, &pos, &parts);
    assert!(matches!(r, Err(Error::Input(m)) if m == "token ids must be [n, 3]"));
    let r = encode_token_ids(&words(), &vec![1, 12, 11], &tok, &pos, &parts);
    assert!(matches!(r, Err(Error::Input(m)) if m == "token id 12 >= vocabulary size 10"));
}

#[test]
fn texts_are_tokenized_and_encoded() {
    let vocab = r#"{"l": 0, "o": 1, "w</w>": 2, "lo": 3, "low</w>": 4, "!</w>": 5}"#;
    let t = Tokenizer::load(vocab, "#version: 0.2\nl o\nlo w</w>\n", 6, 7, 8, 5).unwrap();
    let texts = vec!["Low".to_string(), "low !".to_string()];
    assert_eq!(token_ids(&t, &texts), [6, 4, 7, 8, 8, 6, 4, 5, 7, 8]);
    assert!(token_ids(&t, &vec![]).is_empty());
    let w = Words { context: 5, dim: 1, pad: 5, batch: 1, rows: 5, embed_dim: 1, vocab: 9, eos: 7, highest: false };
    let calls = RefCell::new(0usize);
    let parts = Prompts {
        plus: add,
        run: |x: &Vec<u32>| -> Result<Vec<u32>, Error> {
            *calls.borrow_mut() += 1;
            Ok(x.clone())
        },
        head: |r: &Vec<u32>| r.clone(),
    };
    let tok = bits(&(0..9).map(|i| i as f32).collect::<Vec<f32>>());
    let pos = bits(&[0.0, 0.1, 0.2, 0.3, 0.4]);
    let s = encode_texts(&w, &t, &texts, &tok, &pos, &parts).unwrap();
    assert_eq!(reals(&s), [7.2, 7.3]);
    assert_eq!(*calls.borrow(), 2);
    assert!(matches!(encode_texts(&w, &t, &vec![], &tok, &pos, &parts), Err(Error::Input(_))));
}

#[test]
fn a_tower_starts_from_a_rounded_stream() {
    // 1 + 2^-9 is no half
    let x = bits(&[1.001953125, 2.0, 3.0, -4.0]);
    let seen: RefCell<Vec<Vec<f32>>> = RefCell::new(vec![]);
    let norm = |r: &Vec<u32>| {
        seen.borrow_mut().push(reals(r));
        bits(&reals(r).iter().map(|v| v * 0.5).collect::<Vec<f32>>())
    };
    let (stream, h) = tower_input(&x, 2, 2, &norm);
    assert_eq!(stream, [half(1.0), half(2.0), half(3.0), half(-4.0)]);
    assert_eq!(h, [half(0.5), half(1.0), half(1.5), half(-2.0)]);
    assert_eq!(*seen.borrow(), [vec![1.0, 2.0], vec![3.0, -4.0]]);
}
