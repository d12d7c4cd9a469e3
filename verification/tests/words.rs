//! Text: tokens, vocabularies and packing.

use taconite::marks::mark;
use taconite::pack::block;
use taconite::paths::equal_paths;
use taconite::tokenizer::{parse_vocab, pretokenize};

#[test]
fn pretokenizer_follows_the_clip_regex() {
    assert_eq!(pretokenize("the laptop's screen"), ["the", "laptop", "'s", "screen"]);
    assert_eq!(pretokenize("two dogs, playing!"), ["two", "dogs", ",", "playing", "!"]);
    assert_eq!(pretokenize("red car 22"), ["red", "car", "2", "2"]);
    assert_eq!(pretokenize("a!'s"), ["a", "!'", "s"]);
}

#[test]
fn vocab_parser_handles_escapes() {
    let v = parse_vocab(r#"{"a": 1, "\"q\"": 2, "été</w>": 3, "😀": 4}"#).unwrap();
    assert_eq!(v.get("a"), Some(&1));
    assert_eq!(v.get("\"q\""), Some(&2));
    assert_eq!(v.get("été</w>"), Some(&3));
    assert_eq!(v.get("😀"), Some(&4));
}

#[test]
fn rounds_half_to_even_on_the_shared_exponent() {
    let v: Vec<u32> = [64.0f32, 14.9375, 106.5, 94.5, 0.0, -1.5, -2.5, 3.0].iter().map(|x| x.to_bits()).collect();
    let out = block(&v);
    let m: Vec<i8> = out[1..].iter().map(|&b| b as i8).collect();
    assert_eq!(out[0], 133);
    assert_eq!(m, vec![64, 15, 106, 94, 0, -2, -2, 3]);
}

use taconite::dict::Dict;
use taconite::text;
use taconite::tokenizer::{parse_merges, Tokenizer};

fn toy() -> Tokenizer {
    let vocab = r#"{"l": 0, "o": 1, "w</w>": 2, "lo": 3, "low</w>": 4, "é": 5, "Ã©</w>": 6, "!</w>": 7}"#;
    Tokenizer::load(vocab, "#version: 0.2\nl o\nlo w</w>\nÃ ©</w>\n", 90, 91, 92, 6).unwrap()
}

#[test]
fn pieces_are_merged_by_rank() {
    let t = toy();
    assert_eq!(t.bpe("low"), ["low</w>"]);
    assert_eq!(t.bpe("lol"), ["lo", "l</w>"]);
    // bytes stand for letters of their own
    assert_eq!(t.bpe("é"), ["Ã©</w>"]);
}

#[test]
fn prompts_are_framed_padded_and_masked() {
    let t = toy();
    assert_eq!(t.encode("  LOW\t low "), (vec![90, 4, 4, 91, 92, 92], vec![1, 1, 1, 1, 0, 0]));
    assert_eq!(t.encode(""), (vec![90, 91, 92, 92, 92, 92], vec![1, 1, 0, 0, 0, 0]));
    assert_eq!(t.encode("low low low low low").0, [90, 4, 4, 4, 4, 91]);
    assert_eq!(t.encode("É").0[1], 6);
    assert_eq!(t.encode("zz!").0[..4], [90, 91, 91, 7]);
}

#[test]
fn broken_tables_are_refused() {
    assert!(parse_vocab("").is_err());
    assert!(parse_vocab(r#"{"a": "#).is_err());
    assert!(parse_vocab("{a: 1}").is_err());
    assert!(parse_vocab(r#"{"a": x}"#).is_err());
    assert!(parse_vocab(r#"{"\ud800": 1}"#).is_err());
    assert_eq!(parse_vocab(r#"{"A\n": 7}"#).unwrap().get("A\n"), Some(&7));
    assert!(parse_merges("ab\n").is_err());
    assert_eq!(parse_merges("#version\na b\n\nc d\n").unwrap().get("c d"), Some(&1));
}

#[test]
fn letters_and_digits_of_any_script_are_told_apart() {
    assert_eq!(pretokenize("été 42"), ["été", "4", "2"]);
    assert_eq!(pretokenize("日本²"), ["日本", "²"]);
    assert_eq!(pretokenize("don't we'll"), ["don", "'t", "we", "'ll"]);
    // letter numbers are numbers
    assert_eq!(pretokenize("x\u{2177}"), ["x", "\u{2177}"]);
    assert_eq!(pretokenize("\u{2177}\u{2177}x"), ["\u{2177}", "\u{2177}", "x"]);
    // vowel signs and enclosed letters are neither
    assert_eq!(pretokenize("\u{915}\u{903}\u{916}"), ["\u{915}", "\u{903}", "\u{916}"]);
    assert_eq!(pretokenize("a\u{24b6}b"), ["a", "\u{24b6}", "b"]);
    assert_eq!(pretokenize("\u{24b6}!\u{1f130}"), ["\u{24b6}!\u{1f130}"]);
    assert_eq!(pretokenize("\u{e01}\u{e33}\u{e31}"), ["\u{e01}\u{e33}", "\u{e31}"]);
}

#[test]
fn marks_are_alphabetic_but_neither_letters_nor_numbers() {
    let all: Vec<char> = (0..=0x10ffff).filter_map(char::from_u32).filter(|&c| mark(c)).collect();
    assert!(all.iter().all(|c| c.is_alphabetic() && !c.is_numeric()));
    assert!(['\u{345}', '\u{903}', '\u{24b6}', '\u{24e9}', '\u{1f189}'].iter().all(|c| all.contains(c)));
    assert!(['a', 'é', 'ª', 'ʰ', '日', '\u{e33}', '\u{2177}', '1', ' ', '\u{301}'].iter().all(|c| !all.contains(c)));
    // what combines with the character before it and is alphabetic is a
    // mark, but for the two halfwidth sound marks, which are letters
    let combining = |c: &char| c.is_alphabetic() && c.escape_debug().count() > 1;
    let rest: Vec<char> = (0..=0x10ffff).filter_map(char::from_u32).filter(combining).filter(|&c| !mark(c)).collect();
    assert_eq!(rest, ['\u{ff9e}', '\u{ff9f}']);
}

#[test]
fn lines_words_and_numbers() {
    assert_eq!(text::split_lines("a\r\nb\n\nc"), ["a", "b", "", "c"]);
    assert_eq!(text::split_words(&text::chars_of(" a  b\tc ")), ["a", "b", "c"]);
    assert_eq!(text::split_pieces("1,,2", ','), ["1", "", "2"]);
    assert_eq!(text::split_once("k=v=w", '='), Some(("k".to_string(), "v=w".to_string())));
    assert_eq!(text::split_once("kv", '='), None);
    assert_eq!(text::parse_unsigned("+255", 255), Some(255));
    assert_eq!(text::parse_unsigned("256", 255), None);
    assert_eq!(text::parse_unsigned("", 255), None);
    assert_eq!(text::decimal_of(1234567890123), "1234567890123");
    assert!(text::denotes_real("-1.5e-3") && text::denotes_real("inf") && !text::denotes_real("1e") && !text::denotes_real("."));
    assert_eq!(text::sorted(&vec!["b".to_string(), "a".to_string(), "ab".to_string()]), ["a", "ab", "b"]);
    assert_eq!(text::find("abcabc", "ca"), Some(2));
    assert!(text::contains("abc", "") && !text::contains("abc", "d"));
    assert!(text::has_prefix("npu:x", "npu:"));
}

#[test]
fn a_dictionary_keeps_its_first_order() {
    let mut d: Dict<u32> = Dict::new();
    assert!(!d.insert("b".to_string(), 1));
    assert!(!d.insert("a".to_string(), 2));
    assert!(d.insert("b".to_string(), 3));
    assert_eq!((d.len(), d.get("b"), d.get("c")), (2, Some(&3), None));
    assert_eq!(d.keys(), ["b", "a"]);
}

#[test]
fn paths_are_compared_step_by_step() {
    for (a, b) in [("a/b", "a//b"), ("a/./b", "a/b"), ("a/b/", "a/b"), ("/a", "//a/."), ("./a", "./a/"), ("", "")] {
        assert!(equal_paths(a, b) && equal_paths(b, a), "{a} {b}");
        assert_eq!(std::path::Path::new(a), std::path::Path::new(b));
    }
    for (a, b) in [("a/b", "/a/b"), ("a", "./a"), ("", "."), ("a/../b", "b"), ("a/b", "a/B"), ("a", "a/b"), ("/", "")] {
        assert!(!equal_paths(a, b) && !equal_paths(b, a), "{a} {b}");
        assert_ne!(std::path::Path::new(a), std::path::Path::new(b));
    }
}
