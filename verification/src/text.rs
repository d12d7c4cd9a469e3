//! Text primitives the manifest and tensor-index readers are built from:
//! line and word splitting, decimal integers, and message assembly, each
//! stated over the sequence of characters a string holds.

use vstd::prelude::*;

verus! {

/// `String::push` appends one character.
pub assume_specification[ String::push ](s: &mut String, c: char)
    ensures
        final(s)@ == old(s)@.push(c),
;

/// What `format!("{s:?}")` writes for a string holding `s`: the text in
/// double quotes, with the escapes of `str`'s `Debug`.
pub uninterp spec fn quoted_text(s: Seq<char>) -> Seq<char>;

/// `format!("{s:?}")`: `str`'s `Debug` output, a function of the text alone.
#[verifier::external_body]
pub(crate) fn quoted(s: &str) -> (r: String)
    ensures
        r@ == quoted_text(s@),
{
    format!("{s:?}")
}

/// The texts a list of strings holds.
pub open spec fn texts(v: Seq<String>) -> Seq<Seq<char>> {
    v.map_values(|s: String| s@)
}

pub proof fn texts_push(v: Seq<String>, s: String)
    ensures
        texts(v.push(s)) == texts(v).push(s@),
{
    assert(texts(v.push(s)) =~= texts(v).push(s@));
}

// ----------------------------------------------------------------------------
// Characters
// ----------------------------------------------------------------------------

/// Whether `c` has the Unicode `White_Space` property.
pub open spec fn is_space(c: char) -> bool {
    let u = c as u32;
    ||| 0x9 <= u <= 0xd
    ||| u == 0x20
    ||| u == 0x85
    ||| u == 0xa0
    ||| u == 0x1680
    ||| 0x2000 <= u <= 0x200a
    ||| u == 0x2028
    ||| u == 0x2029
    ||| u == 0x202f
    ||| u == 0x205f
    ||| u == 0x3000
}

/// Whether `c` is white space (`char::is_whitespace`).
pub fn space(c: char) -> (r: bool)
    ensures
        r == is_space(c),
{
    let u: u32 = c as u32;
    (0x9 <= u && u <= 0xd) || u == 0x20 || u == 0x85 || u == 0xa0 || u == 0x1680 || (0x2000 <= u && u <= 0x200a)
        || u == 0x2028 || u == 0x2029 || u == 0x202f || u == 0x205f || u == 0x3000
}

pub open spec fn is_digit(c: char) -> bool {
    '0' <= c && c <= '9'
}

/// The characters of `s`, in order.
pub fn chars_of(s: &str) -> (r: Vec<char>)
    ensures
        r@ == s@,
{
    let mut r: Vec<char> = Vec::new();
    for c in it: s.chars()
        invariant
            it.seq() == s@,
            r@ == s@.take(it.index() as int),
    {
        r.push(c);
    }
    r
}

/// Whether two texts hold the same characters.
pub(crate) fn same(a: &str, b: &str) -> (r: bool)
    ensures
        r == (a@ == b@),
{
    let (x, y) = (chars_of(a), chars_of(b));
    if x.len() != y.len() {
        return false;
    }
    let mut i: usize = 0;
    while i < x.len()
        invariant
            x@ == a@,
            y@ == b@,
            i <= x@.len(),
            x@.len() == y@.len(),
            x@.take(i as int) == y@.take(i as int),
        decreases x@.len() - i,
    {
        if x[i] != y[i] {
            assert(a@[i as int] != b@[i as int]);
            return false;
        }
        i += 1;
        proof {
            assert(x@.take(i as int) =~= x@.take(i - 1).push(x@[i - 1]));
            assert(y@.take(i as int) =~= y@.take(i - 1).push(y@[i - 1]));
        }
    }
    proof {
        assert(x@.take(i as int) =~= x@);
        assert(y@.take(i as int) =~= y@);
    }
    true
}

/// `c[from..to]` as a string.
pub fn string_of(c: &[char], from: usize, to: usize) -> (r: String)
    requires
        from <= to <= c.len(),
    ensures
        r@ == c@.subrange(from as int, to as int),
{
    let mut r = String::new();
    let mut i: usize = from;
    while i < to
        invariant
            from <= i <= to <= c.len(),
            r@ == c@.subrange(from as int, i as int),
        decreases to - i,
    {
        r.push(c[i]);
        i += 1;
    }
    r
}

// ----------------------------------------------------------------------------
// Runs of characters
// ----------------------------------------------------------------------------

/// The length of the longest prefix of `s` whose characters all satisfy `p`.
pub open spec fn run(s: Seq<char>, p: spec_fn(char) -> bool) -> nat
    decreases s.len(),
{
    if s.len() > 0 && p(s[0]) {
        1 + run(s.skip(1), p)
    } else {
        0
    }
}

/// `run` is characterised by its prefix satisfying `p` and stopping at the
/// end or at a character that does not.
pub proof fn run_is(s: Seq<char>, p: spec_fn(char) -> bool, n: nat)
    requires
        n <= s.len(),
        forall|i: int| 0 <= i < n ==> p(#[trigger] s[i]),
        n == s.len() || !p(s[n as int]),
    ensures
        run(s, p) == n,
    decreases s.len(),
{
    if n > 0 {
        assert(p(s[0]));
        let t = s.skip(1);
        assert forall|i: int| 0 <= i < n - 1 implies p(#[trigger] t[i]) by {
            assert(t[i] == s[i + 1]);
        }
        run_is(t, p, (n - 1) as nat);
    }
}

pub proof fn run_bound(s: Seq<char>, p: spec_fn(char) -> bool)
    ensures
        run(s, p) <= s.len(),
        forall|i: int| 0 <= i < run(s, p) ==> p(#[trigger] s[i]),
        run(s, p) < s.len() ==> !p(s[run(s, p) as int]),
    decreases s.len(),
{
    if s.len() > 0 && p(s[0]) {
        let t = s.skip(1);
        run_bound(t, p);
        assert forall|i: int| 0 <= i < run(s, p) implies p(#[trigger] s[i]) by {
            if i > 0 {
                assert(t[i - 1] == s[i]);
            }
        }
        if run(s, p) < s.len() {
            assert(t[run(t, p) as int] == s[run(s, p) as int]);
        }
    }
}

pub open spec fn spaces() -> spec_fn(char) -> bool {
    |c: char| is_space(c)
}

pub open spec fn non_spaces() -> spec_fn(char) -> bool {
    |c: char| !is_space(c)
}

pub open spec fn other_than(x: char) -> spec_fn(char) -> bool {
    |c: char| c != x
}

/// The end of the run of white space (`want`) or of anything else
/// (`!want`) that starts at `from`.
pub fn space_run(c: &[char], from: usize, want: bool) -> (r: usize)
    requires
        from <= c.len(),
    ensures
        from <= r <= c.len(),
        want ==> r == from + run(c@.skip(from as int), spaces()),
        !want ==> r == from + run(c@.skip(from as int), non_spaces()),
{
    let mut i: usize = from;
    while i < c.len() && space(c[i]) == want
        invariant
            from <= i <= c.len(),
            forall|k: int| from <= k < i ==> is_space(#[trigger] c@[k]) == want,
        decreases c.len() - i,
    {
        i += 1;
    }
    proof {
        let s = c@.skip(from as int);
        let n = (i - from) as nat;
        assert(forall|k: int| 0 <= k < n ==> #[trigger] s[k] == c@[from + k]);
        if want {
            run_is(s, spaces(), n);
        } else {
            run_is(s, non_spaces(), n);
        }
    }
    i
}

/// The index of the first `x` at or after `from`, or the length.
pub fn find_char(c: &[char], from: usize, x: char) -> (r: usize)
    requires
        from <= c.len(),
    ensures
        from <= r <= c.len(),
        r == from + run(c@.skip(from as int), other_than(x)),
        r < c.len() ==> c@[r as int] == x,
        forall|k: int| from <= k < r ==> c@[k] != x,
{
    let mut i: usize = from;
    while i < c.len() && c[i] != x
        invariant
            from <= i <= c.len(),
            forall|k: int| from <= k < i ==> #[trigger] c@[k] != x,
        decreases c.len() - i,
    {
        i += 1;
    }
    proof {
        let s = c@.skip(from as int);
        let n = (i - from) as nat;
        assert(forall|k: int| 0 <= k < n ==> #[trigger] s[k] == c@[from + k]);
        run_is(s, other_than(x), n);
    }
    i
}

// ----------------------------------------------------------------------------
// Words, lines, pieces
// ----------------------------------------------------------------------------

/// The white-space separated words of `s`, in order.
pub open spec fn words(s: Seq<char>) -> Seq<Seq<char>>
    decreases s.len(),
{
    if s.len() == 0 {
        seq![]
    } else if is_space(s[0]) {
        words(s.skip(1))
    } else {
        let n = run(s, non_spaces()) as int;
        proof {
            run_bound(s, non_spaces());
        }
        seq![s.take(n)] + words(s.skip(n))
    }
}

/// Leading white space holds no word.
pub proof fn words_skip_spaces(s: Seq<char>, n: int)
    requires
        0 <= n <= run(s, spaces()),
    ensures
        run(s, spaces()) <= s.len(),
        words(s) == words(s.skip(n)),
    decreases n,
{
    run_bound(s, spaces());
    if n > 0 {
        words_skip_spaces(s.skip(1), n - 1);
        assert(s.skip(1).skip(n - 1) =~= s.skip(n));
    } else {
        assert(s.skip(0) =~= s);
    }
}

/// `s.split_whitespace()`.
pub fn split_words(c: &[char]) -> (r: Vec<String>)
    ensures
        texts(r@) == words(c@),
{
    let mut r: Vec<String> = Vec::new();
    let mut i: usize = 0;
    proof {
        assert(c@.skip(0) =~= c@);
        assert(texts(r@) =~= seq![]);
        assert(seq![] + words(c@) =~= words(c@));
    }
    while i < c.len()
        invariant
            i <= c.len(),
            texts(r@) + words(c@.skip(i as int)) == words(c@),
        decreases c.len() - i,
    {
        let a: usize = space_run(c, i, true);
        let b: usize = space_run(c, a, false);
        proof {
            words_skip_spaces(c@.skip(i as int), a - i);
            assert(c@.skip(i as int).skip(a - i) =~= c@.skip(a as int));
            run_bound(c@.skip(i as int), spaces());
        }
        if b > a {
            let w = string_of(c, a, b);
            proof {
                let t = c@.skip(a as int);
                assert(!is_space(t[0]));
                assert(t.take(b - a) =~= c@.subrange(a as int, b as int));
                assert(t.skip(b - a) =~= c@.skip(b as int));
                assert(texts(r@.push(w)) =~= texts(r@).push(w@));
                assert(texts(r@).push(w@) + words(c@.skip(b as int)) =~= texts(r@) + (seq![w@] + words(
                    c@.skip(b as int),
                )));
            }
            r.push(w);
        } else {
            proof {
                if a < c.len() {
                    assert(c@.skip(a as int)[0] == c@.skip(i as int)[a - i]);
                }
            }
        }
        i = b;
    }
    proof {
        assert(words(c@.skip(i as int)) =~= seq![]);
        assert(texts(r@) + seq![] =~= texts(r@));
    }
    r
}

/// A line without the carriage return that ends it, if any.
pub open spec fn strip_cr(l: Seq<char>) -> Seq<char> {
    if l.len() > 0 && l.last() == '\r' {
        l.drop_last()
    } else {
        l
    }
}

/// The lines of `s`: each ends at a line feed, which with a carriage
/// return right before it is dropped; a last line may go without.
pub open spec fn lines(s: Seq<char>) -> Seq<Seq<char>>
    decreases s.len(),
{
    let n = run(s, other_than('\n')) as int;
    if s.len() == 0 {
        seq![]
    } else if n >= s.len() {
        seq![s]
    } else {
        seq![strip_cr(s.take(n))] + lines(s.skip(n + 1))
    }
}

/// `text.lines()`.
pub fn split_lines(text: &str) -> (r: Vec<String>)
    ensures
        texts(r@) == lines(text@),
{
    let c = chars_of(text);
    let mut r: Vec<String> = Vec::new();
    let mut i: usize = 0;
    proof {
        assert(c@.skip(0) =~= c@);
        assert(texts(r@) =~= seq![]);
        assert(seq![] + lines(c@) =~= lines(c@));
    }
    while i < c.len()
        invariant
            i <= c.len(),
            c@ == text@,
            texts(r@) + lines(c@.skip(i as int)) == lines(c@),
        decreases c.len() - i,
    {
        let ghost s = c@.skip(i as int);
        let n: usize = find_char(&c, i, '\n');
        if n == c.len() {
            let l = string_of(&c, i, n);
            proof {
                assert(c@.subrange(i as int, n as int) =~= s);
                assert(texts(r@.push(l)) =~= texts(r@).push(l@));
                assert(lines(c@.skip(n as int)) =~= seq![]);
                assert(texts(r@).push(l@) + seq![] =~= texts(r@) + seq![s]);
            }
            r.push(l);
            i = n;
        } else {
            let e: usize = if n > i && c[n - 1] == '\r' {
                n - 1
            } else {
                n
            };
            let l = string_of(&c, i, e);
            proof {
                assert(s.take(n - i) =~= c@.subrange(i as int, n as int));
                assert(strip_cr(s.take(n - i)) =~= l@);
                assert(s.skip(n - i + 1) =~= c@.skip(n + 1));
                assert(texts(r@.push(l)) =~= texts(r@).push(l@));
                assert(texts(r@).push(l@) + lines(c@.skip(n + 1)) =~= texts(r@) + (seq![l@] + lines(c@.skip(n + 1))));
            }
            r.push(l);
            i = n + 1;
        }
    }
    proof {
        assert(lines(c@.skip(i as int)) =~= seq![]);
        assert(texts(r@) + seq![] =~= texts(r@));
    }
    r
}

/// The pieces of `s` between separators `x` (one more than there are `x`).
pub open spec fn pieces(s: Seq<char>, x: char) -> Seq<Seq<char>>
    decreases s.len(),
{
    let n = run(s, other_than(x)) as int;
    if n >= s.len() {
        seq![s]
    } else {
        seq![s.take(n)] + pieces(s.skip(n + 1), x)
    }
}

/// `s.split(x)`.
pub fn split_pieces(s: &str, x: char) -> (r: Vec<String>)
    ensures
        texts(r@) == pieces(s@, x),
{
    let c = chars_of(s);
    let mut r: Vec<String> = Vec::new();
    let mut i: usize = 0;
    proof {
        assert(c@.skip(0) =~= c@);
        assert(texts(r@) =~= seq![]);
        assert(seq![] + pieces(c@, x) =~= pieces(c@, x));
    }
    loop
        invariant_except_break
            texts(r@) + pieces(c@.skip(i as int), x) == pieces(c@, x),
        invariant
            i <= c.len(),
            c@ == s@,
        ensures
            texts(r@) == pieces(s@, x),
        decreases c.len() - i,
    {
        let ghost t = c@.skip(i as int);
        let n: usize = find_char(&c, i, x);
        let l = string_of(&c, i, n);
        proof {
            assert(t.take(n - i) =~= c@.subrange(i as int, n as int));
            assert(texts(r@.push(l)) =~= texts(r@).push(l@));
        }
        if n == c.len() {
            proof {
                assert(l@ =~= t);
                assert(texts(r@).push(l@) =~= texts(r@) + seq![t]);
            }
            r.push(l);
            break;
        }
        proof {
            assert(t.skip(n - i + 1) =~= c@.skip(n + 1));
            assert(texts(r@).push(l@) + pieces(c@.skip(n + 1), x) =~= texts(r@) + (seq![l@] + pieces(c@.skip(n + 1), x)));
        }
        r.push(l);
        i = n + 1;
    }
    r
}

/// What stands before and after the first `x` of `s`, if there is one.
pub open spec fn split_at_first(s: Seq<char>, x: char) -> Option<(Seq<char>, Seq<char>)> {
    let n = run(s, other_than(x)) as int;
    if n >= s.len() {
        None
    } else {
        Some((s.take(n), s.skip(n + 1)))
    }
}

/// `s.split_once(x)`.
pub fn split_once(s: &str, x: char) -> (r: Option<(String, String)>)
    ensures
        match r {
            Some((a, b)) => split_at_first(s@, x) == Some((a@, b@)),
            None => split_at_first(s@, x) is None,
        },
{
    let c = chars_of(s);
    let n: usize = find_char(&c, 0, x);
    proof {
        assert(c@.skip(0) =~= c@);
    }
    if n == c.len() {
        None
    } else {
        let a = string_of(&c, 0, n);
        let b = string_of(&c, n + 1, c.len());
        proof {
            assert(c@.take(n as int) =~= a@);
            assert(c@.skip(n + 1) =~= b@);
        }
        Some((a, b))
    }
}

pub open spec fn starts_with(s: Seq<char>, p: Seq<char>) -> bool {
    p.len() <= s.len() && s.take(p.len() as int) == p
}

/// `s.starts_with(p)`.
pub fn has_prefix(s: &str, p: &str) -> (r: bool)
    ensures
        r == starts_with(s@, p@),
{
    let n: usize = p.unicode_len();
    if s.unicode_len() < n {
        false
    } else {
        same(s.substring_char(0, n), p)
    }
}

/// Whether `p` occurs in `s`.
pub open spec fn occurs(s: Seq<char>, p: Seq<char>) -> bool {
    exists|i: int| 0 <= i <= s.len() && #[trigger] starts_with(s.skip(i), p)
}

// ----------------------------------------------------------------------------
// Decimal integers
// ----------------------------------------------------------------------------

pub open spec fn digit_value(c: char) -> nat {
    (c as u32 - 48) as nat
}

pub open spec fn all_digits(s: Seq<char>) -> bool {
    forall|i: int| 0 <= i < s.len() ==> is_digit(#[trigger] s[i])
}

/// The number a string of decimal digits denotes.
pub open spec fn digits_value(s: Seq<char>) -> nat
    decreases s.len(),
{
    if s.len() == 0 {
        0
    } else {
        digits_value(s.drop_last()) * 10 + digit_value(s.last())
    }
}

/// The number `s` denotes as an unsigned integer of at most `max`: decimal
/// digits, at least one, after an optional `+`.
pub open spec fn unsigned_value(s: Seq<char>, max: nat) -> Option<nat> {
    let d = if s.len() > 0 && s[0] == '+' {
        s.skip(1)
    } else {
        s
    };
    if d.len() > 0 && all_digits(d) && digits_value(d) <= max {
        Some(digits_value(d))
    } else {
        None
    }
}

proof fn digits_value_grows(s: Seq<char>, n: int)
    requires
        0 <= n <= s.len(),
    ensures
        digits_value(s.take(n)) <= digits_value(s),
    decreases s.len() - n,
{
    if n < s.len() {
        digits_value_grows(s, n + 1);
        assert(s.take(n + 1).drop_last() =~= s.take(n));
    } else {
        assert(s.take(n) =~= s);
    }
}

/// `s.parse()` for an unsigned integer type with the largest value `max`.
pub fn parse_unsigned(s: &str, max: u64) -> (r: Option<u64>)
    ensures
        match r {
            Some(v) => unsigned_value(s@, max as nat) == Some(v as nat),
            None => unsigned_value(s@, max as nat) is None,
        },
{
    let c = chars_of(s);
    let from: usize = if c.len() > 0 && c[0] == '+' {
        1
    } else {
        0
    };
    let ghost d = c@.skip(from as int);
    proof {
        assert(from == 0 ==> d =~= c@);
    }
    if from == c.len() {
        return None;
    }
    let mut v: u64 = 0;
    let mut i: usize = from;
    while i < c.len()
        invariant
            from <= i <= c.len(),
            d == c@.skip(from as int),
            d.len() > 0,
            c@ == s@,
            unsigned_value(s@, max as nat) == (if all_digits(d) && digits_value(d) <= max {
                Some(digits_value(d))
            } else {
                None
            }),
            v <= max,
            v == digits_value(d.take(i - from)),
            forall|k: int| 0 <= k < i - from ==> is_digit(#[trigger] d[k]),
        decreases c.len() - i,
    {
        let x = c[i];
        proof {
            assert(d[i - from] == x);
            assert(d.take(i - from + 1).drop_last() =~= d.take(i - from));
            digits_value_grows(d, i - from + 1);
        }
        if !('0' <= x && x <= '9') {
            return None;
        }
        let w: u128 = v as u128 * 10 + (x as u32 - 48) as u128;
        if w > max as u128 {
            return None;
        }
        v = w as u64;
        i += 1;
    }
    proof {
        assert(d.take(i - from) =~= d);
    }
    Some(v)
}

/// A type whose values manifests write as one field.
pub trait FromText: Sized {
    /// The value `s` denotes, if it denotes one.
    spec fn from_text(s: Seq<char>) -> Option<Self>;

    fn parse_text(s: &str) -> (r: Option<Self>)
        ensures
            r == Self::from_text(s@),
    ;
}

impl FromText for u8 {
    open spec fn from_text(s: Seq<char>) -> Option<u8> {
        match unsigned_value(s, u8::MAX as nat) {
            Some(v) => Some(v as u8),
            None => None,
        }
    }

    fn parse_text(s: &str) -> (r: Option<u8>) {
        match parse_unsigned(s, u8::MAX as u64) {
            Some(v) => Some(v as u8),
            None => None,
        }
    }
}

impl FromText for u32 {
    open spec fn from_text(s: Seq<char>) -> Option<u32> {
        match unsigned_value(s, u32::MAX as nat) {
            Some(v) => Some(v as u32),
            None => None,
        }
    }

    fn parse_text(s: &str) -> (r: Option<u32>) {
        match parse_unsigned(s, u32::MAX as u64) {
            Some(v) => Some(v as u32),
            None => None,
        }
    }
}

/// The number `s` denotes as a signed 64-bit integer: decimal digits, at
/// least one, after an optional sign.
pub open spec fn signed_value(s: Seq<char>) -> Option<int> {
    if s.len() > 0 && s[0] == '-' {
        let d = s.skip(1);
        if d.len() > 0 && all_digits(d) && digits_value(d) <= 0x8000_0000_0000_0000 {
            Some(-(digits_value(d) as int))
        } else {
            None
        }
    } else {
        match unsigned_value(s, i64::MAX as nat) {
            Some(v) => Some(v as int),
            None => None,
        }
    }
}

impl FromText for i64 {
    open spec fn from_text(s: Seq<char>) -> Option<i64> {
        match signed_value(s) {
            Some(v) => Some(v as i64),
            None => None,
        }
    }

    fn parse_text(s: &str) -> (r: Option<i64>) {
        let c = chars_of(s);
        if c.len() > 0 && c[0] == '-' {
            let d = string_of(c.as_slice(), 1, c.len());
            assert(d@ =~= s@.skip(1));
            if c.len() > 1 && c[1] == '+' {
                assert(!is_digit(d@[0]));
                return None;
            }
            match parse_unsigned(d.as_str(), 0x8000_0000_0000_0000) {
                Some(v) => Some((-(v as i128)) as i64),
                None => None,
            }
        } else {
            match parse_unsigned(s, i64::MAX as u64) {
                Some(v) => Some(v as i64),
                None => None,
            }
        }
    }
}

impl FromText for usize {
    open spec fn from_text(s: Seq<char>) -> Option<usize> {
        match unsigned_value(s, usize::MAX as nat) {
            Some(v) => Some(v as usize),
            None => None,
        }
    }

    fn parse_text(s: &str) -> (r: Option<usize>) {
        match parse_unsigned(s, usize::MAX as u64) {
            Some(v) => Some(v as usize),
            None => None,
        }
    }
}

pub open spec fn digit_char(d: nat) -> char {
    (48 + d) as char
}

/// The decimal digits of `n`, without leading zeros.
pub open spec fn decimal(n: nat) -> Seq<char>
    decreases n,
{
    if n < 10 {
        seq![digit_char(n)]
    } else {
        decimal(n / 10).push(digit_char(n % 10))
    }
}

fn digit(d: u8) -> (r: char)
    requires
        d < 10,
    ensures
        r == digit_char(d as nat),
{
    (48 + d) as char
}

/// `n.to_string()`.
pub fn decimal_of(n: u128) -> (r: String)
    ensures
        r@ == decimal(n as nat),
    decreases n,
{
    if n < 10 {
        let mut r = String::new();
        r.push(digit(n as u8));
        proof {
            assert(r@ =~= seq![digit_char(n as nat)]);
        }
        r
    } else {
        let mut r = decimal_of(n / 10);
        r.push(digit((n % 10) as u8));
        r
    }
}

/// Writing a number in decimal and reading it back gives the number.
pub proof fn decimal_reads_back(n: nat, max: nat)
    requires
        n <= max,
    ensures
        unsigned_value(decimal(n), max) == Some(n),
{
    decimal_digits(n);
}

proof fn decimal_digits(n: nat)
    ensures
        decimal(n).len() > 0,
        all_digits(decimal(n)),
        digits_value(decimal(n)) == n,
    decreases n,
{
    if n < 10 {
        let s = decimal(n);
        assert(s.drop_last() =~= seq![]);
        assert(digits_value(seq![]) == 0);
    } else {
        decimal_digits(n / 10);
        let s = decimal(n);
        assert(s.drop_last() =~= decimal(n / 10));
    }
}

// ----------------------------------------------------------------------------
// Real numbers
// ----------------------------------------------------------------------------

pub open spec fn digits() -> spec_fn(char) -> bool {
    |c: char| is_digit(c)
}

pub open spec fn signed(s: Seq<char>) -> bool {
    s.len() > 0 && (s[0] == '+' || s[0] == '-')
}

/// `s` without a leading sign.
pub open spec fn unsigned(s: Seq<char>) -> Seq<char> {
    if signed(s) {
        s.skip(1)
    } else {
        s
    }
}

pub open spec fn lower_ascii(c: char) -> char {
    if 'A' <= c && c <= 'Z' {
        (c as u32 + 32) as char
    } else {
        c
    }
}

/// `s` is `word`, which is in lower case, but for ASCII case.
pub open spec fn is_word(s: Seq<char>, word: Seq<char>) -> bool {
    s.map_values(|c: char| lower_ascii(c)) == word
}

/// Nothing, or an exponent: `e`, an optional sign, digits.
pub open spec fn is_exponent(s: Seq<char>) -> bool {
    s.len() == 0 || ((s[0] == 'e' || s[0] == 'E') && unsigned(s.skip(1)).len() > 0 && all_digits(unsigned(s.skip(1))))
}

/// Digits with at most one point and an optional exponent.
pub open spec fn is_decimal(s: Seq<char>) -> bool {
    let a = run(s, digits());
    let t = s.skip(a as int);
    if t.len() > 0 && t[0] == '.' {
        let u = t.skip(1);
        let b = run(u, digits());
        a + b > 0 && is_exponent(u.skip(b as int))
    } else {
        a > 0 && is_exponent(t)
    }
}

/// Whether `s` denotes a floating-point number: an optional sign, then a
/// decimal number, `inf`, `infinity` or `nan`.
pub open spec fn is_real(s: Seq<char>) -> bool {
    let t = unsigned(s);
    is_word(t, "inf"@) || is_word(t, "infinity"@) || is_word(t, "nan"@) || is_decimal(t)
}

fn digit_run(c: &[char], from: usize) -> (r: usize)
    requires
        from <= c.len(),
    ensures
        from <= r <= c.len(),
        r == from + run(c@.skip(from as int), digits()),
{
    let mut i: usize = from;
    while i < c.len() && '0' <= c[i] && c[i] <= '9'
        invariant
            from <= i <= c.len(),
            forall|k: int| from <= k < i ==> is_digit(#[trigger] c@[k]),
        decreases c.len() - i,
    {
        i += 1;
    }
    proof {
        let s = c@.skip(from as int);
        let n = (i - from) as nat;
        assert(forall|k: int| 0 <= k < n ==> #[trigger] s[k] == c@[from + k]);
        run_is(s, digits(), n);
    }
    i
}

fn word_at(c: &[char], from: usize, word: &str) -> (r: bool)
    requires
        from <= c.len(),
    ensures
        r == is_word(c@.skip(from as int), word@),
{
    let w = chars_of(word);
    let ghost low = c@.skip(from as int).map_values(|c: char| lower_ascii(c));
    if c.len() - from != w.len() {
        return false;
    }
    let mut i: usize = 0;
    while i < w.len()
        invariant
            i <= w.len(),
            w@ == word@,
            from <= c.len(),
            c.len() - from == w.len(),
            low == c@.skip(from as int).map_values(|c: char| lower_ascii(c)),
            low.take(i as int) == w@.take(i as int),
        decreases w.len() - i,
    {
        let x = c[from + i];
        let y = if 'A' <= x && x <= 'Z' {
            (x as u8 + 32) as char
        } else {
            x
        };
        proof {
            assert(low[i as int] == y);
            assert(low.take(i + 1) =~= low.take(i as int).push(y));
            assert(w@.take(i + 1) =~= w@.take(i as int).push(w@[i as int]));
        }
        if y != w[i] {
            return false;
        }
        i += 1;
    }
    proof {
        assert(low.take(i as int) =~= low);
        assert(w@.take(i as int) =~= w@);
    }
    true
}

fn exponent_at(c: &[char], from: usize) -> (r: bool)
    requires
        from <= c.len(),
    ensures
        r == is_exponent(c@.skip(from as int)),
{
    let ghost s = c@.skip(from as int);
    if from == c.len() {
        return true;
    }
    if c[from] != 'e' && c[from] != 'E' {
        return false;
    }
    let mut i: usize = from + 1;
    if i < c.len() && (c[i] == '+' || c[i] == '-') {
        i += 1;
    }
    let ghost u = unsigned(s.skip(1));
    proof {
        assert(s.skip(1) =~= c@.skip(from + 1));
        assert(u =~= c@.skip(i as int));
        run_bound(u, digits());
    }
    if i == c.len() {
        return false;
    }
    let e: usize = digit_run(c, i);
    proof {
        if e < c.len() {
            assert(!is_digit(u[e - i]));
        }
    }
    e == c.len()
}

/// Whether `s` parses as a floating-point number.
#[verifier::rlimit(40)]
pub fn denotes_real(s: &str) -> (r: bool)
    ensures
        r == is_real(s@),
{
    let c = chars_of(s);
    let from: usize = if c.len() > 0 && (c[0] == '+' || c[0] == '-') {
        1
    } else {
        0
    };
    let ghost t = unsigned(s@);
    proof {
        assert(t =~= c@.skip(from as int));
        run_bound(t, digits());
    }
    if word_at(&c, from, "inf") || word_at(&c, from, "infinity") || word_at(&c, from, "nan") {
        return true;
    }
    let a: usize = digit_run(&c, from);
    proof {
        assert(t.skip(a - from) =~= c@.skip(a as int));
    }
    if a < c.len() && c[a] == '.' {
        let b: usize = digit_run(&c, a + 1);
        proof {
            let u = c@.skip(a as int).skip(1);
            assert(u =~= c@.skip(a + 1));
            assert(u.skip(b - a - 1) =~= c@.skip(b as int));
        }
        (a > from || b > a + 1) && exponent_at(&c, b)
    } else {
        a > from && exponent_at(&c, a)
    }
}

// ----------------------------------------------------------------------------
// Message assembly
// ----------------------------------------------------------------------------

pub fn cat2(a: &str, b: &str) -> (r: String)
    ensures
        r@ == a@ + b@,
{
    a.to_owned().concat(b)
}

pub fn cat3(a: &str, b: &str, c: &str) -> (r: String)
    ensures
        r@ == a@ + b@ + c@,
{
    cat2(a, b).concat(c)
}

pub fn cat4(a: &str, b: &str, c: &str, d: &str) -> (r: String)
    ensures
        r@ == a@ + b@ + c@ + d@,
{
    cat3(a, b, c).concat(d)
}

pub fn cat5(a: &str, b: &str, c: &str, d: &str, e: &str) -> (r: String)
    ensures
        r@ == a@ + b@ + c@ + d@ + e@,
{
    cat4(a, b, c, d).concat(e)
}

pub fn cat7(a: &str, b: &str, c: &str, d: &str, e: &str, f: &str, g: &str) -> (r: String)
    ensures
        r@ == a@ + b@ + c@ + d@ + e@ + f@ + g@,
{
    cat5(a, b, c, d, e).concat(f).concat(g)
}

// ----------------------------------------------------------------------------
// Order and search
// ----------------------------------------------------------------------------

/// Whether `a` does not come after `b`, by character code.
pub open spec fn text_le(a: Seq<char>, b: Seq<char>) -> bool
    decreases a.len(),
{
    a.len() == 0 || (b.len() > 0 && (a[0] < b[0] || (a[0] == b[0] && text_le(a.skip(1), b.skip(1)))))
}

/// Any two texts are in one order or the other.
pub proof fn text_le_total(a: Seq<char>, b: Seq<char>)
    ensures
        text_le(a, b) || text_le(b, a),
    decreases a.len(),
{
    if a.len() > 0 && b.len() > 0 {
        text_le_total(a.skip(1), b.skip(1));
    }
}

pub proof fn text_le_transitive(a: Seq<char>, b: Seq<char>, c: Seq<char>)
    requires
        text_le(a, b),
        text_le(b, c),
    ensures
        text_le(a, c),
    decreases a.len(),
{
    if a.len() > 0 {
        if a[0] == b[0] && b[0] == c[0] {
            text_le_transitive(a.skip(1), b.skip(1), c.skip(1));
        }
    }
}

/// Two texts in both orders are one.
pub proof fn text_le_antisymmetric(a: Seq<char>, b: Seq<char>)
    requires
        text_le(a, b),
        text_le(b, a),
    ensures
        a == b,
    decreases a.len(),
{
    if a.len() > 0 {
        text_le_antisymmetric(a.skip(1), b.skip(1));
        assert(a =~= seq![a[0]] + a.skip(1));
        assert(b =~= seq![b[0]] + b.skip(1));
    } else {
        assert(b.len() == 0);
        assert(a =~= b);
    }
}

fn not_after(a: &str, b: &str) -> (r: bool)
    ensures
        r == text_le(a@, b@),
{
    let x = chars_of(a);
    let y = chars_of(b);
    let mut i: usize = 0;
    proof {
        assert(x@.skip(0) =~= x@);
        assert(y@.skip(0) =~= y@);
    }
    while i < x.len()
        invariant
            i <= x.len(),
            i <= y.len(),
            x@ == a@,
            y@ == b@,
            text_le(a@, b@) == text_le(x@.skip(i as int), y@.skip(i as int)),
        decreases x.len() - i,
    {
        let ghost (s, t) = (x@.skip(i as int), y@.skip(i as int));
        if i >= y.len() {
            return false;
        }
        if x[i] < y[i] {
            return true;
        }
        if y[i] < x[i] {
            return false;
        }
        proof {
            assert(s.skip(1) =~= x@.skip(i + 1));
            assert(t.skip(1) =~= y@.skip(i + 1));
        }
        i += 1;
    }
    true
}

pub open spec fn in_order(s: Seq<Seq<char>>) -> bool {
    forall|i: int, j: int| 0 <= i <= j < s.len() ==> text_le(#[trigger] s[i], #[trigger] s[j])
}

/// The texts in order.
pub fn sorted(v: &Vec<String>) -> (r: Vec<String>)
    ensures
        in_order(texts(r@)),
        texts(r@).to_multiset() == texts(v@).to_multiset(),
{
    let ghost all = texts(v@);
    let mut out: Vec<String> = Vec::new();
    let mut n: usize = 0;
    proof {
        assert(all.take(0) =~= texts(out@));
    }
    while n < v.len()
        invariant
            n <= v.len(),
            all == texts(v@),
            in_order(texts(out@)),
            texts(out@).to_multiset() == all.take(n as int).to_multiset(),
            out.len() == n,
        decreases v.len() - n,
    {
        let x = v[n].clone();
        let mut i: usize = 0;
        while i < out.len() && not_after(out[i].as_str(), x.as_str())
            invariant
                i <= out.len(),
                forall|j: int| 0 <= j < i ==> text_le(#[trigger] texts(out@)[j], x@),
            decreases out.len() - i,
        {
            i += 1;
        }
        let ghost before = texts(out@);
        out.insert(i, x);
        proof {
            let after = texts(out@);
            assert(after =~= before.insert(i as int, x@));
            assert(i < before.len() ==> text_le(x@, before[i as int])) by {
                if i < before.len() {
                    text_le_total(before[i as int], x@);
                }
            }
            assert forall|a: int, b: int| 0 <= a <= b < after.len() implies text_le(#[trigger] after[a], #[trigger] after[b]) by {
                if a == b {
                    text_le_total(after[a], after[a]);
                } else if b < i {
                    assert(after[a] == before[a] && after[b] == before[b]);
                } else if b == i {
                    assert(after[a] == before[a]);
                } else if a == i {
                    assert(after[b] == before[b - 1]);
                    assert(text_le(before[i as int], before[b - 1]));
                    text_le_transitive(x@, before[i as int], before[b - 1]);
                } else if a < i {
                    assert(after[a] == before[a] && after[b] == before[b - 1]);
                } else {
                    assert(after[a] == before[a - 1] && after[b] == before[b - 1]);
                }
            }
            assert(all.take(n + 1) =~= all.take(n as int).push(x@));
            all.take(n as int).to_multiset_ensures();
            insert_multiset(before, i as int, x@);
        }
        n += 1;
    }
    proof {
        assert(all.take(n as int) =~= all);
    }
    out
}

proof fn insert_multiset(s: Seq<Seq<char>>, i: int, x: Seq<char>)
    requires
        0 <= i <= s.len(),
    ensures
        s.insert(i, x).to_multiset() == s.to_multiset().insert(x),
{
    let (h, t) = (s.take(i), s.skip(i));
    assert(s =~= h + t);
    assert(s.insert(i, x) =~= (h + seq![x]) + t);
    vstd::seq_lib::lemma_multiset_commutative(h, t);
    vstd::seq_lib::lemma_multiset_commutative(h + seq![x], t);
    h.to_multiset_ensures();
    assert(h + seq![x] =~= h.push(x));
    assert(s.insert(i, x).to_multiset() =~= s.to_multiset().insert(x));
}

/// Where `p` first occurs in `s`.
pub open spec fn first_at(s: Seq<char>, p: Seq<char>) -> Option<nat>
    decreases s.len(),
{
    if starts_with(s, p) {
        Some(0)
    } else if s.len() == 0 {
        None
    } else {
        match first_at(s.skip(1), p) {
            Some(n) => Some(n + 1),
            None => None,
        }
    }
}

proof fn first_at_is(s: Seq<char>, p: Seq<char>, i: nat)
    requires
        i <= s.len(),
        starts_with(s.skip(i as int), p),
        forall|k: int| 0 <= k < i ==> !(#[trigger] starts_with(s.skip(k), p)),
    ensures
        first_at(s, p) == Some(i),
    decreases i,
{
    assert(s.skip(0) =~= s);
    if i > 0 {
        let t = s.skip(1);
        assert(!starts_with(s.skip(0), p));
        assert(t.skip(i - 1) =~= s.skip(i as int));
        assert forall|k: int| 0 <= k < i - 1 implies !(#[trigger] starts_with(t.skip(k), p)) by {
            assert(t.skip(k) =~= s.skip(k + 1));
        }
        first_at_is(t, p, (i - 1) as nat);
    }
}

proof fn first_at_none(s: Seq<char>, p: Seq<char>)
    requires
        !occurs(s, p),
    ensures
        first_at(s, p) is None,
    decreases s.len(),
{
    assert(s.skip(0) =~= s);
    if s.len() > 0 {
        let t = s.skip(1);
        if occurs(t, p) {
            let k = choose|k: int| 0 <= k <= t.len() && #[trigger] starts_with(t.skip(k), p);
            assert(t.skip(k) =~= s.skip(k + 1));
            assert(starts_with(s.skip(k + 1), p));
        }
        first_at_none(t, p);
    }
}

/// `s.find(p)`, in characters.
pub fn find(s: &str, p: &str) -> (r: Option<usize>)
    ensures
        r is Some == occurs(s@, p@),
        match (r, first_at(s@, p@)) {
            (Some(i), Some(n)) => i == n && i + p@.len() <= s@.len(),
            (None, None) => true,
            _ => false,
        },
{
    let c = chars_of(s);
    let q = chars_of(p);
    let mut i: usize = 0;
    while i <= c.len()
        invariant
            c@ == s@,
            q@ == p@,
            i <= c.len() + 1,
            forall|k: int| 0 <= k < i ==> !(#[trigger] starts_with(s@.skip(k), p@)),
        decreases c.len() + 1 - i,
    {
        if q.len() <= c.len() - i && matches_at(&c, i, &q) {
            proof {
                assert(starts_with(s@.skip(i as int), p@));
                first_at_is(s@, p@, i as nat);
            }
            return Some(i);
        }
        proof {
            let t = s@.skip(i as int);
            if starts_with(t, p@) {
                assert(t.take(p@.len() as int) =~= s@.subrange(i as int, i + p@.len()));
            }
        }
        if i == c.len() {
            proof {
                first_at_none(s@, p@);
            }
            return None;
        }
        i += 1;
    }
    proof {
        first_at_none(s@, p@);
    }
    None
}

/// `s.contains(p)`.
pub fn contains(s: &str, p: &str) -> (r: bool)
    ensures
        r == occurs(s@, p@),
{
    find(s, p).is_some()
}

fn matches_at(c: &[char], i: usize, q: &[char]) -> (r: bool)
    requires
        i <= c.len(),
        q.len() <= c.len() - i,
    ensures
        r == (c@.subrange(i as int, i + q.len()) == q@),
        r ==> starts_with(c@.skip(i as int), q@),
{
    let mut k: usize = 0;
    while k < q.len()
        invariant
            i <= c.len(),
            q.len() <= c.len() - i,
            k <= q.len(),
            forall|j: int| 0 <= j < k ==> c@[i + j] == #[trigger] q@[j],
        decreases q.len() - k,
    {
        if c[i + k] != q[k] {
            proof {
                assert(c@.subrange(i as int, i + q.len())[k as int] != q@[k as int]);
            }
            return false;
        }
        k += 1;
    }
    proof {
        assert(c@.subrange(i as int, i + q.len()) =~= q@);
        assert(c@.skip(i as int).take(q@.len() as int) =~= q@);
    }
    true
}

} // verus!
