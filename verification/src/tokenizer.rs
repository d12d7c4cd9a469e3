//! CLIP's byte-level BPE tokenizer.
//!
//! Normalizer: white space runs become one space, then lowercase; composed
//! input is assumed. Pre-tokenizer: the expression
//! `'s|'t|'re|'ve|'m|'ll|'d|[\p{L}]+|[\p{N}]|[^\s\p{L}\p{N}]+`, matches
//! kept and white space dropped; each piece is mapped to printable
//! characters byte by byte and merged with `</w>` on its last symbol. Then
//! start, tokens, end, truncated and padded to the model's length.

use crate::dict::Dict;
use crate::marks::{is_mark, mark};
use crate::sam3::{faults, reads, Error};
use crate::text::{
    cat2, cat3, chars_of, has_prefix, is_digit, is_space, run, run_bound, run_is, same, space, split_lines, split_once,
    split_words, starts_with, string_of, texts, texts_push, words,
};
use vstd::prelude::*;

verus! {

// ---------------------------------------------------------------------------
// Characters.

/// What `char::is_alphabetic` says of `c`: the Unicode `Alphabetic` property.
pub uninterp spec fn alphabetic(c: char) -> bool;

/// `char::is_alphabetic`, a function of the character alone.
#[verifier::external_body]
fn in_alphabet(c: char) -> (r: bool)
    ensures
        r == alphabetic(c),
{
    c.is_alphabetic()
}

/// What `char::is_numeric` says of `c`: the Unicode categories `Nd`, `Nl`
/// and `No`.
pub uninterp spec fn numeric(c: char) -> bool;

/// `char::is_numeric`, a function of the character alone.
#[verifier::external_body]
fn number(c: char) -> (r: bool)
    ensures
        r == numeric(c),
{
    c.is_numeric()
}

/// A letter, `\p{L}`: alphabetic, and neither a number, a mark nor white
/// space.
pub open spec fn is_letter(c: char) -> bool {
    alphabetic(c) && !numeric(c) && !is_mark(c) && !is_space(c)
}

fn letter(c: char) -> (r: bool)
    ensures
        r == is_letter(c),
{
    in_alphabet(c) && !number(c) && !mark(c) && !space(c)
}

/// What `str::to_lowercase` makes of a text.
pub uninterp spec fn lowercase(s: Seq<char>) -> Seq<char>;

/// `str::to_lowercase`, a function of the text alone.
#[verifier::external_body]
fn lowered(s: &str) -> (r: String)
    ensures
        r@ == lowercase(s@),
{
    s.to_lowercase()
}

/// Whether `u` is a Unicode scalar value.
pub open spec fn is_scalar(u: int) -> bool {
    0 <= u < 0xd800 || 0xe000 <= u <= 0x10_ffff
}

/// `char::from_u32`: the character with that scalar value, if it is one.
#[verifier::external_body]
pub(crate) fn scalar(u: u32) -> (r: Option<char>)
    ensures
        r == (if is_scalar(u as int) {
            Some(u as char)
        } else {
            None
        }),
{
    char::from_u32(u)
}

// ---------------------------------------------------------------------------
// The byte alphabet.

/// Whether a byte stands for itself.
pub open spec fn printable(b: int) -> bool {
    0x21 <= b <= 0x7e || 0xa1 <= b <= 0xac || 0xae <= b <= 0xff
}

/// How many bytes below `b` do not.
pub open spec fn unprintable_below(b: nat) -> nat
    decreases b,
{
    if b == 0 {
        0
    } else {
        unprintable_below((b - 1) as nat) + (if printable(b - 1) {
            0nat
        } else {
            1
        })
    }
}

/// The code point that stands for byte `b`: its own, or the next free one
/// from 256 on.
pub open spec fn surface_code(b: nat) -> nat {
    if printable(b as int) {
        b
    } else {
        256 + unprintable_below(b)
    }
}

pub open spec fn surface(b: u8) -> char {
    surface_code(b as nat) as char
}

proof fn unprintable_bound(b: nat)
    ensures
        unprintable_below(b) <= b,
    decreases b,
{
    if b > 0 {
        unprintable_bound((b - 1) as nat);
    }
}

proof fn unprintable_grows(a: nat, b: nat)
    requires
        a < b,
        !printable(a as int),
    ensures
        unprintable_below(a) < unprintable_below(b),
    decreases b,
{
    if a < b - 1 {
        unprintable_grows(a, (b - 1) as nat);
    }
}

/// Distinct bytes have distinct surface characters, and none is a space.
pub proof fn surface_injective(a: u8, b: u8)
    ensures
        surface(a) == surface(b) ==> a == b,
        !is_space(surface(a)),
{
    unprintable_bound(a as nat);
    unprintable_bound(b as nat);
    if !printable(a as int) && !printable(b as int) {
        if a < b {
            unprintable_grows(a as nat, b as nat);
        } else if b < a {
            unprintable_grows(b as nat, a as nat);
        }
    }
}

fn bytes_to_unicode() -> (r: Vec<char>)
    ensures
        r.len() == 256,
        forall|b: int| 0 <= b < 256 ==> r[b] == surface(b as u8),
{
    let mut table: Vec<char> = Vec::new();
    let mut n: u32 = 0;
    let mut b: u32 = 0;
    while b < 256
        invariant
            b <= 256,
            n == unprintable_below(b as nat),
            n <= b,
            table.len() == b,
            forall|i: int| 0 <= i < b ==> table[i] == surface(i as u8),
        decreases 256 - b,
    {
        let own: bool = (0x21 <= b && b <= 0x7e) || (0xa1 <= b && b <= 0xac) || (0xae <= b && b <= 0xff);
        let code: u32 = if own {
            b
        } else {
            256 + n
        };
        let c: char = match scalar(code) {
            Some(c) => c,
            None => '?',
        };
        assert(c == surface(b as u8));
        table.push(c);
        if !own {
            n += 1;
        }
        b += 1;
    }
    table
}

// ---------------------------------------------------------------------------
// The vocabulary: a flat `{"token": id}` object.

pub open spec fn hex_digit(c: char) -> Option<nat> {
    let u = c as u32;
    if 48 <= u <= 57 {
        Some((u - 48) as nat)
    } else if 97 <= u <= 102 {
        Some((u - 87) as nat)
    } else if 65 <= u <= 70 {
        Some((u - 55) as nat)
    } else {
        None
    }
}

/// The number a string of hexadecimal digits denotes.
pub open spec fn hex_digits(s: Seq<char>) -> Option<nat>
    decreases s.len(),
{
    if s.len() == 0 {
        Some(0)
    } else {
        match (hex_digits(s.drop_last()), hex_digit(s.last())) {
            (Some(n), Some(d)) => Some(n * 16 + d),
            _ => None,
        }
    }
}

/// The number `s` denotes in base 16: digits, at least one, after an
/// optional `+`.
pub open spec fn hex_value(s: Seq<char>) -> Option<nat> {
    let d = if s.len() > 0 && s[0] == '+' {
        s.skip(1)
    } else {
        s
    };
    if d.len() == 0 {
        None
    } else {
        hex_digits(d)
    }
}

/// The number the four characters at `i` denote.
pub open spec fn hex4(s: Seq<char>, i: int) -> Option<nat> {
    if i + 4 <= s.len() {
        hex_value(s.subrange(i, i + 4))
    } else {
        None
    }
}

/// The character an escape stands for, and where it ends; `i` is the
/// position behind the backslash.
pub open spec fn escape_at(s: Seq<char>, i: int) -> Option<(char, int)> {
    if i >= s.len() {
        None
    } else if s[i] == 'n' {
        Some(('\n', i + 1))
    } else if s[i] == 't' {
        Some(('\t', i + 1))
    } else if s[i] == 'r' {
        Some(('\r', i + 1))
    } else if s[i] == 'b' {
        Some(('\u{8}', i + 1))
    } else if s[i] == 'f' {
        Some(('\u{c}', i + 1))
    } else if s[i] == 'u' {
        match hex4(s, i + 1) {
            None => None,
            Some(u) => if 0xd800 <= u < 0xdc00 && i + 6 < s.len() && s[i + 5] == '\\' && s[i + 6] == 'u' {
                match hex4(s, i + 7) {
                    None => None,
                    Some(lo) => {
                        let v = 0x1_0000 + (u - 0xd800) * 0x400 + (lo - 0xdc00);
                        if lo >= 0xdc00 && is_scalar(v) {
                            Some((v as char, i + 11))
                        } else {
                            None
                        }
                    },
                }
            } else if is_scalar(u as int) {
                Some((u as char, i + 5))
            } else {
                None
            },
        }
    } else {
        Some((s[i], i + 1))
    }
}

/// The rest of a key from `i` on, appended to `key`, and the position
/// behind its closing quote.
pub open spec fn key_from(s: Seq<char>, i: int, key: Seq<char>) -> Option<(Seq<char>, int)>
    decreases s.len() - i,
{
    if i < 0 || i >= s.len() {
        None
    } else if s[i] == '"' {
        Some((key, i + 1))
    } else if s[i] == '\\' {
        match escape_at(s, i + 1) {
            None => None,
            Some((c, j)) => if j > i {
                key_from(s, j, key.push(c))
            } else {
                None
            },
        }
    } else {
        key_from(s, i + 1, key.push(s[i]))
    }
}

pub open spec fn space_or(x: char) -> spec_fn(char) -> bool {
    |c: char| is_space(c) || c == x
}

pub open spec fn decimal_digits() -> spec_fn(char) -> bool {
    |c: char| is_digit(c)
}

/// The position of the first character from `i` on that does not satisfy
/// `p`.
pub open spec fn past(s: Seq<char>, i: int, p: spec_fn(char) -> bool) -> int {
    i + run(s.skip(i), p)
}

/// The entry at `i` (its opening quote): the key, the id, and where it
/// ends.
pub open spec fn entry_at(s: Seq<char>, i: int) -> Option<(Seq<char>, u32, int)> {
    if s[i] != '"' {
        None
    } else {
        match key_from(s, i + 1, Seq::empty()) {
            None => None,
            Some((key, j)) => {
                let from = past(s, j, space_or(':'));
                let to = past(s, from, decimal_digits());
                match crate::text::unsigned_value(s.subrange(from, to), u32::MAX as nat) {
                    None => None,
                    Some(id) => Some((key, id as u32, to)),
                }
            },
        }
    }
}

/// The entries from `i` on, added to `m`.
pub open spec fn entries_from(s: Seq<char>, i: int, m: Map<Seq<char>, u32>) -> Option<Map<Seq<char>, u32>>
    decreases s.len() - i,
{
    let at = past(s, i, space_or(','));
    if i < 0 || at >= s.len() || s[at] == '}' {
        Some(m)
    } else {
        match entry_at(s, at) {
            None => None,
            Some((key, id, next)) => if i < next <= s.len() {
                entries_from(s, next, m.insert(key, id))
            } else {
                None
            },
        }
    }
}

pub open spec fn vocab_fault() -> Seq<char> {
    "vocab.json: not a flat {string: int} object"@
}

/// The vocabulary a text holds, from behind its first brace on.
pub open spec fn vocab_of(s: Seq<char>) -> Result<Map<Seq<char>, u32>, Seq<char>> {
    let at = run(s, crate::text::other_than('{'));
    if at >= s.len() {
        Err(vocab_fault())
    } else {
        match entries_from(s, at as int + 1, Map::empty()) {
            Some(m) => Ok(m),
            None => Err(vocab_fault()),
        }
    }
}

fn hex_digit_of(c: char) -> (r: Option<u32>)
    ensures
        match r {
            Some(d) => hex_digit(c) == Some(d as nat) && d < 16,
            None => hex_digit(c) is None,
        },
{
    let u: u32 = c as u32;
    if 48 <= u && u <= 57 {
        Some(u - 48)
    } else if 97 <= u && u <= 102 {
        Some(u - 87)
    } else if 65 <= u && u <= 70 {
        Some(u - 55)
    } else {
        None
    }
}

/// The number the characters `from..to` denote in base 16.
pub fn hex_of(c: &[char], from: usize, to: usize) -> (r: Option<u32>)
    requires
        from <= to <= c.len(),
        to - from <= 8,
    ensures
        match r {
            Some(v) => hex_value(c@.subrange(from as int, to as int)) == Some(v as nat),
            None => hex_value(c@.subrange(from as int, to as int)) is None,
        },
{
    let ghost s = c@.subrange(from as int, to as int);
    let first: usize = if from < to && c[from] == '+' {
        from + 1
    } else {
        from
    };
    let ghost d = c@.subrange(first as int, to as int);
    proof {
        if first > from {
            assert(d =~= s.skip(1));
        }
    }
    if first == to {
        return None;
    }
    let mut v: u64 = 0;
    let mut i: usize = first;
    while i < to
        invariant
            from <= first <= i <= to <= c.len(),
            to - from <= 8,
            d == c@.subrange(first as int, to as int),
            s == c@.subrange(from as int, to as int),
            d == (if s.len() > 0 && s[0] == '+' {
                s.skip(1)
            } else {
                s
            }),
            first < to,
            hex_digits(d.take(i - first)) == Some(v as nat),
            v < 0x1_0000_0000,
            i - first <= 0 ==> v == 0,
            i - first <= 1 ==> v < 0x10,
            i - first <= 2 ==> v < 0x100,
            i - first <= 3 ==> v < 0x1000,
            i - first <= 4 ==> v < 0x1_0000,
            i - first <= 5 ==> v < 0x10_0000,
            i - first <= 6 ==> v < 0x100_0000,
            i - first <= 7 ==> v < 0x1000_0000,
        decreases to - i,
    {
        proof {
            assert(d.take(i - first + 1).drop_last() =~= d.take(i - first));
            assert(d.take(i - first + 1).last() == c@[i as int]);
        }
        match hex_digit_of(c[i]) {
            Some(x) => {
                v = v * 16 + x as u64;
            },
            None => {
                proof {
                    hex_digits_prefix(d, i - first + 1);
                }
                return None;
            },
        }
        i += 1;
    }
    proof {
        assert(d.take(to - first) =~= d);
    }
    Some(v as u32)
}

proof fn hex_digits_prefix(d: Seq<char>, n: int)
    requires
        0 <= n <= d.len(),
        hex_digits(d.take(n)) is None,
    ensures
        hex_digits(d) is None,
    decreases d.len() - n,
{
    if n < d.len() {
        assert(d.take(n + 1).drop_last() =~= d.take(n));
        hex_digits_prefix(d, n + 1);
    } else {
        assert(d.take(n) =~= d);
    }
}

fn hex4_at(c: &[char], i: usize) -> (r: Option<u32>)
    requires
        i <= c.len(),
    ensures
        match r {
            Some(v) => hex4(c@, i as int) == Some(v as nat) && v < 0x1_0000,
            None => hex4(c@, i as int) is None,
        },
{
    if i <= c.len() && 4 <= c.len() - i {
        let r = hex_of(c, i, i + 4);
        proof {
            if let Some(v) = r {
                hex_bound(c@.subrange(i as int, i + 4));
            }
        }
        r
    } else {
        None
    }
}

proof fn hex_bound(s: Seq<char>)
    requires
        s.len() == 4,
    ensures
        hex_value(s) matches Some(v) ==> v < 0x1_0000,
{
    let d = if s[0] == '+' {
        s.skip(1)
    } else {
        s
    };
    reveal_with_fuel(hex_digits, 5);
}

fn escape_of(c: &[char], i: usize) -> (r: Option<(char, usize)>)
    requires
        i <= c.len(),
    ensures
        match r {
            Some((x, j)) => escape_at(c@, i as int) == Some((x, j as int)) && i < j <= c.len(),
            None => escape_at(c@, i as int) is None,
        },
{
    if i >= c.len() {
        return None;
    }
    let x: char = c[i];
    if x == 'n' {
        return Some(('\n', i + 1));
    }
    if x == 't' {
        return Some(('\t', i + 1));
    }
    if x == 'r' {
        return Some(('\r', i + 1));
    }
    if x == 'b' {
        return Some(('\u{8}', i + 1));
    }
    if x == 'f' {
        return Some(('\u{c}', i + 1));
    }
    if x != 'u' {
        return Some((x, i + 1));
    }
    let u: u32 = match hex4_at(c, i + 1) {
        Some(u) => u,
        None => {
            return None;
        },
    };
    if 0xd800 <= u && u < 0xdc00 && c.len() - i > 6 && c[i + 5] == '\\' && c[i + 6] == 'u' {
        let lo: u32 = match hex4_at(c, i + 7) {
            Some(lo) => lo,
            None => {
                return None;
            },
        };
        if lo < 0xdc00 {
            return None;
        }
        match scalar(0x1_0000 + (u - 0xd800) * 0x400 + (lo - 0xdc00)) {
            Some(x) => Some((x, i + 11)),
            None => None,
        }
    } else {
        match scalar(u) {
            Some(x) => Some((x, i + 5)),
            None => None,
        }
    }
}

fn key_of(c: &[char], from: usize) -> (r: Option<(String, usize)>)
    requires
        from <= c.len(),
    ensures
        match r {
            Some((key, j)) => key_from(c@, from as int, Seq::empty()) == Some((key@, j as int)) && from < j <= c.len(),
            None => key_from(c@, from as int, Seq::empty()) is None,
        },
{
    let mut key = String::new();
    let mut i: usize = from;
    proof {
        assert(key@ =~= Seq::empty());
    }
    while i < c.len()
        invariant
            from <= i <= c.len(),
                key_from(c@, from as int, Seq::empty()) == key_from(c@, i as int, key@),
        decreases c.len() - i,
    {
        if c[i] == '"' {
            return Some((key, i + 1));
        }
        if c[i] == '\\' {
            match escape_of(c, i + 1) {
                None => {
                    return None;
                },
                Some((x, j)) => {
                    key.push(x);
                    i = j;
                },
            }
        } else {
            key.push(c[i]);
            i += 1;
        }
    }
    None
}

/// Skips white space and `x`.
fn skip_space_or(c: &[char], from: usize, x: char) -> (r: usize)
    requires
        from <= c.len(),
    ensures
        r == past(c@, from as int, space_or(x)),
        from <= r <= c.len(),
        r < c.len() ==> !is_space(c@[r as int]) && c@[r as int] != x,
{
    let mut i: usize = from;
    while i < c.len() && (space(c[i]) || c[i] == x)
        invariant
            from <= i <= c.len(),
            forall|k: int| from <= k < i ==> is_space(#[trigger] c@[k]) || c@[k] == x,
        decreases c.len() - i,
    {
        i += 1;
    }
    proof {
        let s = c@.skip(from as int);
        let p = space_or(x);
        assert forall|k: int| 0 <= k < i - from implies p(#[trigger] s[k]) by {
            assert(s[k] == c@[from + k]);
        }
        run_is(s, p, (i - from) as nat);
    }
    i
}

fn skip_digits(c: &[char], from: usize) -> (r: usize)
    requires
        from <= c.len(),
    ensures
        r == past(c@, from as int, decimal_digits()),
        from <= r <= c.len(),
{
    let mut i: usize = from;
    while i < c.len() && '0' <= c[i] && c[i] <= '9'
        invariant
            from <= i <= c.len(),
            forall|k: int| from <= k < i ==> is_digit(#[trigger] c@[k]),
        decreases c.len() - i,
    {
        i += 1;
    }
    proof {
        let s = c@.skip(from as int);
        let p = decimal_digits();
        assert forall|k: int| 0 <= k < i - from implies p(#[trigger] s[k]) by {
            assert(s[k] == c@[from + k]);
        }
        run_is(s, p, (i - from) as nat);
    }
    i
}

fn entry_of(c: &[char], i: usize) -> (r: Option<(String, u32, usize)>)
    requires
        i < c.len(),
    ensures
        match r {
            Some((key, id, next)) => entry_at(c@, i as int) == Some((key@, id, next as int)) && i < next <= c.len(),
            None => entry_at(c@, i as int) is None,
        },
{
    if c[i] != '"' {
        return None;
    }
    match key_of(c, i + 1) {
        None => None,
        Some((key, j)) => {
            let from: usize = skip_space_or(c, j, ':');
            let to: usize = skip_digits(c, from);
            let number = string_of(c, from, to);
            match crate::text::parse_unsigned(number.as_str(), u32::MAX as u64) {
                None => None,
                Some(id) => Some((key, id as u32, to)),
            }
        },
    }
}

/// Reads a flat `{"token": id}` object: string keys with `\"`, `\\`, `\/`,
/// `\n`-style and `\uXXXX` (surrogate pairs too) escapes, integer values.
pub fn parse_vocab(text: &str) -> (r: Result<Dict<u32>, Error>)
    ensures
        reads(r, vocab_of(text@)),
{
    let c: Vec<char> = chars_of(text);
    let open: usize = crate::text::find_char(&c, 0, '{');
    proof {
        assert(c@.skip(0) =~= c@);
    }
    if open >= c.len() {
        return Err(Error::Bundle("vocab.json: not a flat {string: int} object".to_string()));
    }
    let mut map: Dict<u32> = Dict::new();
    let mut i: usize = open + 1;
    loop
        invariant
            c@ == text@,
                open < c.len(),
            open == run(c@, crate::text::other_than('{')),
            0 <= i <= c.len(),
            entries_from(c@, open + 1, Map::empty()) == entries_from(c@, i as int, map@),
        decreases c.len() - i,
    {
        let at: usize = skip_space_or(&c, i, ',');
        if at >= c.len() || c[at] == '}' {
            return Ok(map);
        }
        match entry_of(&c, at) {
            None => {
                return Err(Error::Bundle("vocab.json: not a flat {string: int} object".to_string()));
            },
            Some((key, id, next)) => {
                map.insert(key, id);
                i = next;
            },
        }
    }
}

// ---------------------------------------------------------------------------
// The pre-tokenizer.

pub open spec fn letters() -> spec_fn(char) -> bool {
    |c: char| is_letter(c)
}

/// Neither white space, nor a letter, nor a number.
pub open spec fn is_other(c: char) -> bool {
    !is_space(c) && !is_letter(c) && !numeric(c)
}

pub open spec fn others() -> spec_fn(char) -> bool {
    |c: char| is_other(c)
}

/// The length of the contraction `s` begins with, zero if it begins with
/// none: `'s 't 're 've 'm 'll 'd`.
pub open spec fn contraction(s: Seq<char>) -> nat {
    if s.len() >= 2 && s[0] == '\'' && (s[1] == 's' || s[1] == 't' || s[1] == 'm' || s[1] == 'd') {
        2
    } else if s.len() >= 3 && s[0] == '\'' && (s[1] == 'r' && s[2] == 'e' || s[1] == 'v' && s[2] == 'e' || s[1] == 'l'
        && s[2] == 'l') {
        3
    } else {
        0
    }
}

/// The length of the match at the start of `s`, which does not start with
/// white space.
pub open spec fn match_len(s: Seq<char>) -> nat {
    if contraction(s) > 0 {
        contraction(s)
    } else if is_letter(s[0]) {
        run(s, letters())
    } else if numeric(s[0]) {
        1
    } else {
        run(s, others())
    }
}

/// The matches in `s`, in order, white space between them dropped.
pub open spec fn matches_of(s: Seq<char>) -> Seq<Seq<char>>
    decreases s.len(),
{
    if s.len() == 0 {
        Seq::empty()
    } else if is_space(s[0]) {
        matches_of(s.skip(1))
    } else {
        let n = match_len(s);
        if 0 < n <= s.len() {
            seq![s.take(n as int)] + matches_of(s.skip(n as int))
        } else {
            Seq::empty()
        }
    }
}

/// A match is never empty and stays in the text.
proof fn match_len_bound(s: Seq<char>)
    requires
        s.len() > 0,
        !is_space(s[0]),
    ensures
        0 < match_len(s) <= s.len(),
{
    run_bound(s, letters());
    run_bound(s, others());
    assert(is_letter(s[0]) ==> letters()(s[0]));
    assert(is_other(s[0]) ==> others()(s[0]));
}

/// Nothing but white space is dropped: the matches, in order, are the text
/// without it.
pub proof fn matches_keep_text(s: Seq<char>)
    ensures
        matches_of(s).flatten() == s.filter(|c: char| !is_space(c)),
    decreases s.len(),
{
    let p = |c: char| !is_space(c);
    if s.len() == 0 {
        assert(s.filter(p) =~= Seq::empty()) by {
            reveal(Seq::filter);
        }
        assert(matches_of(s).flatten() =~= Seq::empty());
    } else if is_space(s[0]) {
        matches_keep_text(s.skip(1));
        filter_first(s, p);
    } else {
        match_len_bound(s);
        let n = match_len(s) as int;
        let (h, t) = (s.take(n), s.skip(n));
        matches_keep_text(t);
        match_has_no_space(s);
        filter_all(h, p);
        assert(s =~= h + t);
        Seq::<char>::filter_distributes_over_add(h, t, p);
        let rest = matches_of(t);
        let all = seq![h] + rest;
        assert(all.first() == h);
        assert(all.drop_first() =~= rest);
        assert(all.flatten() == h + rest.flatten());
    }
}

proof fn match_has_no_space(s: Seq<char>)
    requires
        s.len() > 0,
        !is_space(s[0]),
    ensures
        forall|i: int| 0 <= i < match_len(s) ==> !is_space(#[trigger] s[i]),
{
    match_len_bound(s);
    run_bound(s, letters());
    run_bound(s, others());
    assert forall|i: int| 0 <= i < match_len(s) implies !is_space(#[trigger] s[i]) by {
        if contraction(s) == 0 {
            if is_letter(s[0]) {
                assert(letters()(s[i]));
                assert(is_letter(s[i]));
            } else if !numeric(s[0]) {
                assert(others()(s[i]));
            }
        }
    }
}

proof fn filter_first(s: Seq<char>, p: spec_fn(char) -> bool)
    requires
        s.len() > 0,
        !p(s[0]),
    ensures
        s.filter(p) == s.skip(1).filter(p),
{
    let h = s.take(1);
    let t = s.skip(1);
    assert(s =~= h + t);
    Seq::<char>::filter_distributes_over_add(h, t, p);
    assert(h.filter(p) =~= Seq::empty()) by {
        reveal_with_fuel(Seq::filter, 2);
        assert(h.drop_last() =~= Seq::empty());
    }
    assert(Seq::<char>::empty() + t.filter(p) =~= t.filter(p));
}

proof fn filter_all(s: Seq<char>, p: spec_fn(char) -> bool)
    requires
        forall|i: int| 0 <= i < s.len() ==> p(#[trigger] s[i]),
    ensures
        s.filter(p) == s,
    decreases s.len(),
{
    reveal(Seq::filter);
    if s.len() > 0 {
        let t = s.drop_last();
        assert forall|i: int| 0 <= i < t.len() implies p(#[trigger] t[i]) by {
            assert(t[i] == s[i]);
        }
        filter_all(t, p);
        assert(p(s[s.len() - 1]));
        assert(t.push(s.last()) =~= s);
    }
}

fn contraction_of(c: &[char], i: usize) -> (r: usize)
    requires
        i <= c.len(),
    ensures
        r == contraction(c@.skip(i as int)),
        r <= c.len() - i,
{
    let n: usize = c.len() - i;
    let ghost s = c@.skip(i as int);
    if n >= 2 && c[i] == '\'' {
        let a: char = c[i + 1];
        if a == 's' || a == 't' || a == 'm' || a == 'd' {
            return 2;
        }
        if n >= 3 {
            let b: char = c[i + 2];
            if (a == 'r' && b == 'e') || (a == 'v' && b == 'e') || (a == 'l' && b == 'l') {
                return 3;
            }
        }
    }
    0
}

fn match_end(c: &[char], i: usize) -> (r: usize)
    requires
        i < c.len(),
        !is_space(c@[i as int]),
    ensures
        r == i + match_len(c@.skip(i as int)),
        i < r <= c.len(),
{
    let ghost s = c@.skip(i as int);
    proof {
        match_len_bound(s);
    }
    let k: usize = contraction_of(c, i);
    if k > 0 {
        return i + k;
    }
    let x: char = c[i];
    let mut j: usize = i + 1;
    if letter(x) {
        while j < c.len() && letter(c[j])
            invariant
                i < j <= c.len(),
                forall|k: int| i <= k < j ==> is_letter(#[trigger] c@[k]),
            decreases c.len() - j,
        {
            j += 1;
        }
        proof {
            assert forall|k: int| 0 <= k < j - i implies letters()(#[trigger] s[k]) by {
                assert(s[k] == c@[i + k]);
            }
            run_is(s, letters(), (j - i) as nat);
        }
    } else if !number(x) {
        while j < c.len() && !space(c[j]) && !letter(c[j]) && !number(c[j])
            invariant
                i < j <= c.len(),
                forall|k: int| i <= k < j ==> is_other(#[trigger] c@[k]),
            decreases c.len() - j,
        {
            j += 1;
        }
        proof {
            assert forall|k: int| 0 <= k < j - i implies others()(#[trigger] s[k]) by {
                assert(s[k] == c@[i + k]);
            }
            run_is(s, others(), (j - i) as nat);
        }
    }
    j
}

/// The expression's matches, in order (white space between them dropped).
pub fn pretokenize(text: &str) -> (r: Vec<String>)
    ensures
        texts(r@) == matches_of(text@),
{
    let c: Vec<char> = chars_of(text);
    let mut out: Vec<String> = Vec::new();
    let mut i: usize = 0;
    proof {
        assert(c@.skip(0) =~= c@);
        assert(texts(out@) + matches_of(c@) =~= matches_of(c@));
    }
    while i < c.len()
        invariant
            i <= c.len(),
            texts(out@) + matches_of(c@.skip(i as int)) == matches_of(c@),
        decreases c.len() - i,
    {
        let ghost s = c@.skip(i as int);
        if space(c[i]) {
            proof {
                assert(s.skip(1) =~= c@.skip(i + 1));
            }
            i += 1;
        } else {
            let j: usize = match_end(&c, i);
            let piece = string_of(&c, i, j);
            proof {
                let n = j - i;
                assert(s.take(n) =~= piece@);
                assert(s.skip(n) =~= c@.skip(j as int));
                texts_push(out@, piece);
                let rest = matches_of(c@.skip(j as int));
                assert(texts(out@).push(piece@) + rest =~= texts(out@) + (seq![piece@] + rest));
            }
            out.push(piece);
            i = j;
        }
    }
    proof {
        assert(c@.skip(i as int) =~= Seq::empty());
        assert(texts(out@) + Seq::empty() =~= texts(out@));
    }
    out
}

// ---------------------------------------------------------------------------
// Merging.

/// What a pair is ranked under.
pub open spec fn pair_key(a: Seq<char>, b: Seq<char>) -> Seq<char> {
    a + " "@ + b
}

/// The merge ranks of a list of lines, and how many pairs have one: every
/// line but empty ones and the version header is a pair; a repeated pair
/// is ranked anew.
pub open spec fn ranks_of(ls: Seq<Seq<char>>) -> Result<(Map<Seq<char>, usize>, nat), Seq<char>>
    decreases ls.len(),
{
    if ls.len() == 0 {
        Ok((Map::empty(), 0))
    } else {
        match ranks_of(ls.drop_last()) {
            Err(m) => Err(m),
            Ok((ranks, n)) => {
                let line = ls.last();
                if line.len() == 0 || starts_with(line, "#version"@) {
                    Ok((ranks, n))
                } else if crate::text::split_at_first(line, ' ') is None {
                    Err("merges.txt: "@ + line)
                } else {
                    Ok(
                        (
                            ranks.insert(line, n as usize),
                            if ranks.contains_key(line) {
                                n
                            } else {
                                n + 1
                            },
                        ),
                    )
                }
            },
        }
    }
}

proof fn ranks_error(ls: Seq<Seq<char>>, n: int)
    requires
        0 <= n <= ls.len(),
        ranks_of(ls.take(n)) is Err,
    ensures
        ranks_of(ls) == ranks_of(ls.take(n)),
    decreases ls.len() - n,
{
    if n < ls.len() {
        assert(ls.take(n + 1).drop_last() =~= ls.take(n));
        ranks_error(ls, n + 1);
    } else {
        assert(ls.take(n) =~= ls);
    }
}

/// A merge line is the key of its two halves.
pub proof fn line_is_its_pair(line: Seq<char>)
    ensures
        crate::text::split_at_first(line, ' ') matches Some((a, b)) ==> pair_key(a, b) == line,
{
    let n = run(line, crate::text::other_than(' ')) as int;
    run_bound(line, crate::text::other_than(' '));
    if n < line.len() {
        reveal_strlit(" ");
        assert(line[n] == ' ');
        assert(pair_key(line.take(n), line.skip(n + 1)) =~= line);
    }
}

/// Reads the merge ranks.
pub fn parse_merges(text: &str) -> (r: Result<Dict<usize>, Error>)
    ensures
        match r {
            Ok(d) => ranks_of(crate::text::lines(text@)) == Ok::<(Map<Seq<char>, usize>, nat), Seq<char>>(
                (d@, d.pairs().len()),
            ),
            Err(e) => ranks_of(crate::text::lines(text@)) matches Err(m) && faults(e, m),
        },
{
    let ls: Vec<String> = split_lines(text);
    let ghost all = texts(ls@);
    let mut ranks: Dict<usize> = Dict::new();
    let mut i: usize = 0;
    while i < ls.len()
        invariant
            i <= ls.len(),
            all == texts(ls@),
            all == crate::text::lines(text@),
            ranks_of(all.take(i as int)) == Ok::<(Map<Seq<char>, usize>, nat), Seq<char>>(
                (ranks@, ranks.pairs().len()),
            ),
        decreases ls.len() - i,
    {
        let line = &ls[i];
        proof {
            assert(all.take(i + 1).drop_last() =~= all.take(i as int));
            assert(all.take(i + 1).last() == line@);
        }
        let empty: bool = line.as_str().unicode_len() == 0;
        if !empty && !has_prefix(line.as_str(), "#version") {
            match split_once(line.as_str(), ' ') {
                None => {
                    proof {
                        ranks_error(all, i + 1);
                    }
                    return Err(Error::Bundle(cat2("merges.txt: ", line.as_str())));
                },
                Some(_) => {
                    let n: usize = ranks.len();
                    ranks.insert(line.clone(), n);
                },
            }
        }
        i += 1;
    }
    proof {
        assert(all.take(i as int) =~= all);
    }
    Ok(ranks)
}

/// The best-ranked pair among the first `n`, the leftmost of equals: its
/// rank and where it stands.
pub open spec fn best_pair(word: Seq<Seq<char>>, ranks: Map<Seq<char>, usize>, n: nat) -> Option<(usize, int)>
    decreases n,
{
    if n == 0 {
        None
    } else {
        let key = pair_key(word[n - 1], word[n as int]);
        let before = best_pair(word, ranks, (n - 1) as nat);
        if ranks.contains_key(key) && (before matches Some((r, _)) ==> ranks[key] < r) {
            Some((ranks[key], n - 1))
        } else {
            before
        }
    }
}

/// The symbols from `i` on with every occurrence of `a` `b`, left to right,
/// joined.
pub open spec fn merged(word: Seq<Seq<char>>, i: int, a: Seq<char>, b: Seq<char>) -> Seq<Seq<char>>
    decreases word.len() - i,
{
    if i < 0 || i >= word.len() {
        Seq::empty()
    } else if i + 1 < word.len() && word[i] == a && word[i + 1] == b {
        seq![a + b] + merged(word, i + 2, a, b)
    } else {
        seq![word[i]] + merged(word, i + 1, a, b)
    }
}

pub proof fn best_pair_bound(word: Seq<Seq<char>>, ranks: Map<Seq<char>, usize>, n: nat)
    ensures
        best_pair(word, ranks, n) matches Some((_, i)) ==> 0 <= i < n,
    decreases n,
{
    if n > 0 {
        best_pair_bound(word, ranks, (n - 1) as nat);
    }
}

proof fn merged_len(word: Seq<Seq<char>>, i: int, a: Seq<char>, b: Seq<char>)
    requires
        0 <= i <= word.len() + 1,
    ensures
        i <= word.len() ==> merged(word, i, a, b).len() <= word.len() - i,
        i > word.len() ==> merged(word, i, a, b).len() == 0,
    decreases word.len() + 1 - i,
{
    if i < word.len() {
        merged_len(word, i + 1, a, b);
        if i + 1 < word.len() {
            merged_len(word, i + 2, a, b);
        }
    }
}

/// Joining an occurrence shortens the word.
pub proof fn merged_shrinks(word: Seq<Seq<char>>, i: int, j: int)
    requires
        0 <= i <= j,
        j + 1 < word.len(),
    ensures
        merged(word, i, word[j], word[j + 1]).len() < word.len() - i,
    decreases word.len() - i,
{
    let (a, b) = (word[j], word[j + 1]);
    if i + 1 < word.len() && word[i] == a && word[i + 1] == b {
        merged_len(word, i + 2, a, b);
    } else {
        merged_shrinks(word, i + 1, j);
    }
}

/// The word after all merges.
pub open spec fn merged_fully(word: Seq<Seq<char>>, ranks: Map<Seq<char>, usize>) -> Seq<Seq<char>>
    decreases word.len(),
{
    if word.len() <= 1 {
        word
    } else {
        match best_pair(word, ranks, (word.len() - 1) as nat) {
            None => word,
            Some((_, i)) => {
                proof {
                    best_pair_bound(word, ranks, (word.len() - 1) as nat);
                    merged_shrinks(word, 0, i);
                }
                merged_fully(merged(word, 0, word[i], word[i + 1]), ranks)
            },
        }
    }
}

/// The symbols a piece starts from: its bytes' surfaces, the last with the
/// end-of-word mark.
pub open spec fn start_word(piece: Seq<char>) -> Seq<Seq<char>> {
    let bytes = vstd::utf8::encode_utf8(piece);
    Seq::new(
        bytes.len(),
        |k: int|
            if k == bytes.len() - 1 {
                seq![surface(bytes[k])] + "</w>"@
            } else {
                seq![surface(bytes[k])]
            },
    )
}

/// The tokens of a piece.
pub open spec fn bpe_of(piece: Seq<char>, ranks: Map<Seq<char>, usize>) -> Seq<Seq<char>> {
    merged_fully(start_word(piece), ranks)
}

/// Merging joins symbols and loses none: the tokens of a piece spell what
/// its symbols spell.
pub proof fn merging_keeps_text(word: Seq<Seq<char>>, ranks: Map<Seq<char>, usize>)
    ensures
        merged_fully(word, ranks).flatten() == word.flatten(),
    decreases word.len(),
{
    if word.len() > 1 {
        best_pair_bound(word, ranks, (word.len() - 1) as nat);
        if let Some((_, i)) = best_pair(word, ranks, (word.len() - 1) as nat) {
            merged_shrinks(word, 0, i);
            merging_keeps_text(merged(word, 0, word[i], word[i + 1]), ranks);
            merged_flat(word, 0, word[i], word[i + 1]);
            assert(word.skip(0) =~= word);
        }
    }
}

proof fn flatten_cons(h: Seq<char>, t: Seq<Seq<char>>)
    ensures
        (seq![h] + t).flatten() == h + t.flatten(),
{
    let all = seq![h] + t;
    assert(all.first() == h);
    assert(all.drop_first() =~= t);
}

pub(crate) proof fn merged_flat(word: Seq<Seq<char>>, i: int, a: Seq<char>, b: Seq<char>)
    requires
        0 <= i <= word.len(),
    ensures
        merged(word, i, a, b).flatten() == word.skip(i).flatten(),
    decreases word.len() - i,
{
    if i >= word.len() {
        assert(word.skip(i) =~= Seq::empty());
    } else if i + 1 < word.len() && word[i] == a && word[i + 1] == b {
        merged_flat(word, i + 2, a, b);
        let rest = word.skip(i + 2);
        flatten_cons(a + b, merged(word, i + 2, a, b));
        flatten_cons(b, rest);
        flatten_cons(a, seq![b] + rest);
        assert(word.skip(i) =~= seq![a] + (seq![b] + rest));
        assert((a + b) + rest.flatten() =~= a + (b + rest.flatten()));
    } else {
        merged_flat(word, i + 1, a, b);
        flatten_cons(word[i], merged(word, i + 1, a, b));
        flatten_cons(word[i], word.skip(i + 1));
        assert(word.skip(i) =~= seq![word[i]] + word.skip(i + 1));
    }
}

fn find_best(word: &Vec<String>, ranks: &Dict<usize>) -> (r: Option<(usize, usize)>)
    requires
        word.len() >= 1,
    ensures
        match r {
            Some((rank, i)) => best_pair(texts(word@), ranks@, (word.len() - 1) as nat) == Some((rank, i as int)) && i
                + 1 < word.len(),
            None => best_pair(texts(word@), ranks@, (word.len() - 1) as nat) is None,
        },
{
    let mut best: Option<(usize, usize)> = None;
    let mut n: usize = 0;
    while n + 1 < word.len()
        invariant
            n + 1 <= word.len(),
            match best {
                Some((rank, i)) => best_pair(texts(word@), ranks@, n as nat) == Some((rank, i as int)) && i < n,
                None => best_pair(texts(word@), ranks@, n as nat) is None,
            },
        decreases word.len() - n,
    {
        let key = cat3(word[n].as_str(), " ", word[n + 1].as_str());
        proof {
            assert(texts(word@)[n as int] == word@[n as int]@);
            assert(texts(word@)[n + 1] == word@[n + 1]@);
            assert(key@ == pair_key(texts(word@)[n as int], texts(word@)[n + 1]));
        }
        if let Some(rank) = ranks.get(key.as_str()) {
            let better: bool = match best {
                Some((r, _)) => *rank < r,
                None => true,
            };
            if better {
                best = Some((*rank, n));
            }
        }
        n += 1;
    }
    best
}

fn merge(word: &Vec<String>, a: &str, b: &str) -> (r: Vec<String>)
    ensures
        texts(r@) == merged(texts(word@), 0, a@, b@),
{
    let ghost w = texts(word@);
    let mut out: Vec<String> = Vec::new();
    let mut i: usize = 0;
    proof {
        assert(texts(out@) + merged(w, 0, a@, b@) =~= merged(w, 0, a@, b@));
    }
    while i < word.len()
        invariant
            i <= word.len(),
            w == texts(word@),
            texts(out@) + merged(w, i as int, a@, b@) == merged(w, 0, a@, b@),
        decreases word.len() - i,
    {
        let ghost before = texts(out@);
        proof {
            assert(w[i as int] == word@[i as int]@);
        }
        if i + 1 < word.len() && same(word[i].as_str(), a) && same(word[i + 1].as_str(), b) {
            let s = cat2(a, b);
            proof {
                assert(w[i + 1] == word@[i + 1]@);
                texts_push(out@, s);
                let rest = merged(w, i + 2, a@, b@);
                assert(before.push(s@) + rest =~= before + (seq![s@] + rest));
            }
            out.push(s);
            i += 2;
        } else {
            let s = word[i].clone();
            proof {
                if i + 1 < word.len() {
                    assert(w[i + 1] == word@[i + 1]@);
                }
                texts_push(out@, s);
                let rest = merged(w, i + 1, a@, b@);
                assert(before.push(s@) + rest =~= before + (seq![s@] + rest));
            }
            out.push(s);
            i += 1;
        }
    }
    proof {
        assert(texts(out@) + Seq::empty() =~= texts(out@));
    }
    out
}

/// The surface character of every byte.
#[derive(Debug)]
pub struct Alphabet {
    table: Vec<char>,
}

impl Alphabet {
    #[verifier::type_invariant]
    spec fn wf(&self) -> bool {
        self.table.len() == 256 && forall|b: int| 0 <= b < 256 ==> self.table[b] == surface(b as u8)
    }

    fn new() -> (r: Self) {
        Alphabet { table: bytes_to_unicode() }
    }

    fn at(&self, b: u8) -> (r: char)
        ensures
            r == surface(b),
    {
        proof {
            use_type_invariant(self);
        }
        self.table[b as usize]
    }
}

fn symbols(piece: &str, table: &Alphabet) -> (r: Vec<String>)
    ensures
        texts(r@) == start_word(piece@),
{
    let bytes = piece.as_bytes();
    let mut out: Vec<String> = Vec::new();
    let mut i: usize = 0;
    while i < bytes.len()
        invariant
            i <= bytes.len(),
            bytes@ == vstd::utf8::encode_utf8(piece@),
            texts(out@) == start_word(piece@).take(i as int),
        decreases bytes.len() - i,
    {
        let mut s = String::new();
        s.push(table.at(bytes[i]));
        proof {
            assert(s@ =~= seq![surface(bytes@[i as int])]);
        }
        let s: String = if i + 1 == bytes.len() {
            cat2(s.as_str(), "</w>")
        } else {
            s
        };
        proof {
            texts_push(out@, s);
            assert(start_word(piece@).take(i + 1) =~= start_word(piece@).take(i as int).push(s@));
        }
        out.push(s);
        i += 1;
    }
    proof {
        assert(start_word(piece@).take(i as int) =~= start_word(piece@));
    }
    out
}

#[derive(Debug)]
pub struct Tokenizer {
    pub vocab: Dict<u32>,
    pub ranks: Dict<usize>,
    pub table: Alphabet,
    pub bos: u32,
    pub eos: u32,
    pub pad: u32,
    pub max_len: usize,
}

/// The words of a text with one space between them.
pub open spec fn spaced(ws: Seq<Seq<char>>) -> Seq<char>
    decreases ws.len(),
{
    if ws.len() == 0 {
        Seq::empty()
    } else if ws.len() == 1 {
        ws[0]
    } else {
        spaced(ws.drop_last()) + " "@ + ws.last()
    }
}

pub open spec fn normalized(text: Seq<char>) -> Seq<char> {
    lowercase(spaced(words(text)))
}

/// The tokens of the pieces, in order.
pub open spec fn tokens_of(pieces: Seq<Seq<char>>, ranks: Map<Seq<char>, usize>) -> Seq<Seq<char>>
    decreases pieces.len(),
{
    if pieces.len() == 0 {
        Seq::empty()
    } else {
        tokens_of(pieces.drop_last(), ranks) + bpe_of(pieces.last(), ranks)
    }
}

/// The id of a token; an unknown one has the end token's.
pub open spec fn id_of(token: Seq<char>, vocab: Map<Seq<char>, u32>, eos: u32) -> u32 {
    if vocab.contains_key(token) {
        vocab[token]
    } else {
        eos
    }
}

pub open spec fn ids_of(tokens: Seq<Seq<char>>, vocab: Map<Seq<char>, u32>, eos: u32) -> Seq<u32> {
    tokens.map_values(|t: Seq<char>| id_of(t, vocab, eos))
}

/// Start, tokens, end; the tokens are cut so that all of it fits
/// `max_len`.
pub open spec fn framed(ids: Seq<u32>, bos: u32, eos: u32, max_len: nat) -> Seq<u32> {
    let kept = if max_len >= 2 && ids.len() > max_len - 2 {
        ids.take(max_len - 2)
    } else {
        ids
    };
    seq![bos] + kept + seq![eos]
}

/// `s` cut or filled up to `n`.
pub open spec fn resized(s: Seq<u32>, n: nat, fill: u32) -> Seq<u32> {
    Seq::new(
        n,
        |i: int|
            if i < s.len() {
                s[i]
            } else {
                fill
            },
    )
}

impl Tokenizer {
    /// The token ids of a normalized text, with start and end.
    pub open spec fn ids(&self, text: Seq<char>) -> Seq<u32> {
        framed(
            ids_of(tokens_of(matches_of(text), self.ranks@), self.vocab@, self.eos),
            self.bos,
            self.eos,
            self.max_len as nat,
        )
    }

    /// Reads the vocabulary and the merges.
    pub fn load(vocab: &str, merges: &str, bos: u32, eos: u32, pad: u32, max_len: usize) -> (r: Result<Self, Error>)
        ensures
            match r {
                Ok(t) => {
                    &&& vocab_of(vocab@) == Ok::<Map<Seq<char>, u32>, Seq<char>>(t.vocab@)
                    &&& ranks_of(crate::text::lines(merges@)) matches Ok((ranks, _)) && t.ranks@ == ranks
                    &&& t.bos == bos && t.eos == eos && t.pad == pad && t.max_len == max_len
                },
                Err(e) => match vocab_of(vocab@) {
                    Err(m) => faults(e, m),
                    Ok(_) => ranks_of(crate::text::lines(merges@)) matches Err(m) && faults(e, m),
                },
            },
    {
        let vocab = parse_vocab(vocab)?;
        let ranks = parse_merges(merges)?;
        Ok(Tokenizer { vocab, ranks, table: Alphabet::new(), bos, eos, pad, max_len })
    }

    /// The tokens of one piece.
    pub fn bpe(&self, piece: &str) -> (r: Vec<String>)
        ensures
            texts(r@) == bpe_of(piece@, self.ranks@),
    {
        let mut word: Vec<String> = symbols(piece, &self.table);
        while word.len() > 1
            invariant
                bpe_of(piece@, self.ranks@) == merged_fully(texts(word@), self.ranks@),
            ensures
                texts(word@) == bpe_of(piece@, self.ranks@),
            decreases word.len(),
        {
            match find_best(&word, &self.ranks) {
                None => {
                    break;
                },
                Some((_, i)) => {
                    proof {
                        merged_shrinks(texts(word@), 0, i as int);
                        assert(texts(word@)[i as int] == word@[i as int]@);
                        assert(texts(word@)[i + 1] == word@[i + 1]@);
                    }
                    let next: Vec<String> = merge(&word, word[i].as_str(), word[i + 1].as_str());
                    proof {
                        assert(texts(next@).len() == next@.len());
                    }
                    word = next;
                },
            }
        }
        word
    }

    fn all_ids(&self, pieces: &Vec<String>) -> (r: Vec<u32>)
        ensures
            r@ == ids_of(tokens_of(texts(pieces@), self.ranks@), self.vocab@, self.eos),
    {
        let ghost all = texts(pieces@);
        let mut out: Vec<u32> = Vec::new();
        let mut i: usize = 0;
        proof {
            assert(all.take(0) =~= Seq::empty());
            assert(out@ =~= ids_of(tokens_of(all.take(0), self.ranks@), self.vocab@, self.eos));
        }
        while i < pieces.len()
            invariant
                i <= pieces.len(),
                all == texts(pieces@),
                out@ == ids_of(tokens_of(all.take(i as int), self.ranks@), self.vocab@, self.eos),
            decreases pieces.len() - i,
        {
            let toks: Vec<String> = self.bpe(pieces[i].as_str());
            let ghost before = out@;
            let ghost head = tokens_of(all.take(i as int), self.ranks@);
            let mut k: usize = 0;
            while k < toks.len()
                invariant
                    k <= toks.len(),
                    out@ == before + ids_of(texts(toks@).take(k as int), self.vocab@, self.eos),
                decreases toks.len() - k,
            {
                let id: u32 = match self.vocab.get(toks[k].as_str()) {
                    Some(id) => *id,
                    None => self.eos,
                };
                proof {
                    assert(texts(toks@)[k as int] == toks@[k as int]@);
                    assert(ids_of(texts(toks@).take(k + 1), self.vocab@, self.eos) =~= ids_of(
                        texts(toks@).take(k as int),
                        self.vocab@,
                        self.eos,
                    ).push(id));
                }
                out.push(id);
                k += 1;
            }
            proof {
                assert(texts(toks@).take(k as int) =~= texts(toks@));
                assert(all.take(i + 1).drop_last() =~= all.take(i as int));
                assert(all.take(i + 1).last() == pieces@[i as int]@);
                assert(out@ =~= ids_of(head + texts(toks@), self.vocab@, self.eos));
            }
            i += 1;
        }
        proof {
            assert(all.take(i as int) =~= all);
        }
        out
    }

    /// The ids and the attention mask of an already normalized text.
    pub fn encode_normalized(&self, text: &str) -> (r: (Vec<u32>, Vec<u32>))
        ensures
            r.0@ == resized(self.ids(text@), self.max_len as nat, self.pad),
            r.1@ == resized(Seq::new(self.ids(text@).len(), |i: int| 1u32), self.max_len as nat, 0),
    {
        let pieces: Vec<String> = pretokenize(text);
        let body: Vec<u32> = self.all_ids(&pieces);
        let kept: usize = if self.max_len >= 2 && body.len() > self.max_len - 2 {
            self.max_len - 2
        } else {
            body.len()
        };
        let ghost ids = self.ids(text@);
        proof {
            assert(ids =~= seq![self.bos] + body@.take(kept as int) + seq![self.eos]);
        }
        let mut out: Vec<u32> = Vec::new();
        let mut mask: Vec<u32> = Vec::new();
        let mut i: usize = 0;
        while i < self.max_len
            invariant
                i <= self.max_len,
                kept <= body.len(),
                ids == seq![self.bos] + body@.take(kept as int) + seq![self.eos],
                out@ =~= resized(ids, i as nat, self.pad),
                mask@ =~= resized(Seq::new(ids.len(), |i: int| 1u32), i as nat, 0),
            decreases self.max_len - i,
        {
            if i == 0 {
                out.push(self.bos);
                mask.push(1);
            } else if i - 1 < kept {
                out.push(body[i - 1]);
                mask.push(1);
            } else if i - 1 == kept {
                out.push(self.eos);
                mask.push(1);
            } else {
                out.push(self.pad);
                mask.push(0);
            }
            i += 1;
        }
        (out, mask)
    }

    /// `(input_ids, attention_mask)`, both `max_len` long.
    pub fn encode(&self, text: &str) -> (r: (Vec<u32>, Vec<u32>))
        ensures
            r.0@ == resized(self.ids(normalized(text@)), self.max_len as nat, self.pad),
            r.1@ == resized(Seq::new(self.ids(normalized(text@)).len(), |i: int| 1u32), self.max_len as nat, 0),
    {
        let ws: Vec<String> = split_words(&chars_of(text));
        let one: String = join_spaced(&ws);
        self.encode_normalized(lowered(one.as_str()).as_str())
    }
}

fn join_spaced(ws: &Vec<String>) -> (r: String)
    ensures
        r@ == spaced(texts(ws@)),
{
    let ghost all = texts(ws@);
    if ws.len() == 0 {
        return String::new();
    }
    let mut out: String = ws[0].clone();
    let mut i: usize = 1;
    proof {
        assert(all.take(1)[0] == ws@[0]@);
    }
    while i < ws.len()
        invariant
            1 <= i <= ws.len(),
            all == texts(ws@),
            out@ == spaced(all.take(i as int)),
        decreases ws.len() - i,
    {
        out = cat3(out.as_str(), " ", ws[i].as_str());
        proof {
            assert(all.take(i + 1).drop_last() =~= all.take(i as int));
            assert(all.take(i + 1).last() == ws@[i as int]@);
        }
        i += 1;
    }
    proof {
        assert(all.take(i as int) =~= all);
    }
    out
}

/// The mask is a run of ones, as long as what was not padded, before zeros.
pub proof fn mask_is_a_prefix(n: nat, max_len: nat, i: int)
    requires
        0 <= i < max_len,
    ensures
        resized(Seq::new(n, |i: int| 1u32), max_len, 0)[i] == (if i < n {
            1u32
        } else {
            0
        }),
{
}

/// With room for start and end, a text's ids always hold its end token:
/// framing leaves at most `max_len` of them.
pub proof fn framing_fits(ids: Seq<u32>, bos: u32, eos: u32, max_len: nat)
    requires
        max_len >= 2,
    ensures
        2 <= framed(ids, bos, eos, max_len).len() <= max_len,
        framed(ids, bos, eos, max_len).first() == bos,
        framed(ids, bos, eos, max_len).last() == eos,
{
}

} // verus!
