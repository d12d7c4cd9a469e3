//! The SAM 3 bundle's manifest: compiled kernels, model constants, test
//! cases.

use crate::dict::Dict;
use crate::manifest::{self, joined, manifest_of, record_views, Manifest as Base, ManifestView as BaseView, Record, RecordView};
use crate::sam3::{faults, reads, Error};
use crate::text::{cat3, cat4, chars_of, same};
use crate::tokenizer::{hex_digit, hex_digits, hex_of, hex_value, is_scalar, scalar};
use vstd::prelude::*;

verus! {

/// The bundle format version this runtime reads.
pub const VERSION: u32 = 1;

/// One compiled GEMM: `C[M, N] = A[M, K] B[K, N]` (+ bias), A rows `lda`
/// apart (overlapping when `lda < K`), B pre-packed (`b_bytes`).
#[derive(Debug, Clone)]
pub struct GemmSpec {
    pub key: String,
    /// The xclbin (hardware context) this kernel runs on.
    pub ctx: String,
    pub insts: String,
    pub m: usize,
    pub k: usize,
    pub n: usize,
    pub lda: usize,
    pub tile_k: usize,
    pub tile_n: usize,
    pub ct_k: usize,
    pub bias: bool,
    pub b_bytes: usize,
}

#[verifier::ext_equal]
pub struct GemmView {
    pub key: Seq<char>,
    pub ctx: Seq<char>,
    pub insts: Seq<char>,
    pub m: usize,
    pub k: usize,
    pub n: usize,
    pub lda: usize,
    pub tile_k: usize,
    pub tile_n: usize,
    pub ct_k: usize,
    pub bias: bool,
    pub b_bytes: usize,
}

impl View for GemmSpec {
    type V = GemmView;

    open spec fn view(&self) -> GemmView {
        GemmView {
            key: self.key@,
            ctx: self.ctx@,
            insts: self.insts@,
            m: self.m,
            k: self.k,
            n: self.n,
            lda: self.lda,
            tile_k: self.tile_k,
            tile_n: self.tile_n,
            ct_k: self.ct_k,
            bias: self.bias,
            b_bytes: self.b_bytes,
        }
    }
}

/// One compiled non-causal attention: q/k/v/o are `elems` bf16 each, laid
/// out `[heads, seq, d]` or, `token_major`, `[seq, heads * d]`.
#[derive(Debug, Clone)]
pub struct MhaSpec {
    pub key: String,
    pub xclbin: String,
    pub insts: String,
    pub name: String,
    pub heads: usize,
    pub seq: usize,
    pub d: usize,
    pub token_major: bool,
    pub elems: usize,
}

#[verifier::ext_equal]
pub struct MhaView {
    pub key: Seq<char>,
    pub xclbin: Seq<char>,
    pub insts: Seq<char>,
    pub name: Seq<char>,
    pub heads: usize,
    pub seq: usize,
    pub d: usize,
    pub token_major: bool,
    pub elems: usize,
}

impl View for MhaSpec {
    type V = MhaView;

    open spec fn view(&self) -> MhaView {
        MhaView {
            key: self.key@,
            xclbin: self.xclbin@,
            insts: self.insts@,
            name: self.name@,
            heads: self.heads,
            seq: self.seq,
            d: self.d,
            token_major: self.token_major,
            elems: self.elems,
        }
    }
}

/// Any other compiled kernel, launched over buffers the runtime already
/// holds.
#[derive(Debug, Clone)]
pub struct OpSpec {
    pub key: String,
    pub xclbin: String,
    pub insts: String,
    pub name: String,
}

#[verifier::ext_equal]
pub struct OpView {
    pub key: Seq<char>,
    pub xclbin: Seq<char>,
    pub insts: Seq<char>,
    pub name: Seq<char>,
}

impl View for OpSpec {
    type V = OpView;

    open spec fn view(&self) -> OpView {
        OpView {
            key: self.key@,
            xclbin: self.xclbin@,
            insts: self.insts@,
            name: self.name@,
        }
    }
}

/// An end-to-end test case: an image, a prompt and the reference instances
/// (`case.<idx>.*` tensors).
#[derive(Debug, Clone)]
pub struct Case {
    pub idx: usize,
    pub image: String,
    pub prompt: String,
}

#[verifier::ext_equal]
pub struct CaseView {
    pub idx: usize,
    pub image: Seq<char>,
    pub prompt: Seq<char>,
}

impl View for Case {
    type V = CaseView;

    open spec fn view(&self) -> CaseView {
        CaseView {
            idx: self.idx,
            image: self.image@,
            prompt: self.prompt@,
        }
    }
}

// ---------------------------------------------------------------------------
// Reading the records.

/// The GEMM a `gemm` record defines; its context must be known.
pub open spec fn gemm_of(m: BaseView, r: RecordView) -> Result<GemmView, Seq<char>> {
    match (
        r.field(0),
        r.str("ctx"@),
        r.str("insts"@),
        r.get::<usize>("M"@),
        r.get::<usize>("K"@),
        r.get::<usize>("N"@),
        r.get::<usize>("lda"@),
        r.get::<usize>("tile_k"@),
        r.get::<usize>("tile_n"@),
        r.get::<usize>("ct_k"@),
        r.flag("bias"@),
        r.get::<usize>("b_bytes"@),
    ) {
        (Err(e), _, _, _, _, _, _, _, _, _, _, _) => Err(e),
        (_, Err(e), _, _, _, _, _, _, _, _, _, _) => Err(e),
        (_, _, Err(e), _, _, _, _, _, _, _, _, _) => Err(e),
        (_, _, _, Err(e), _, _, _, _, _, _, _, _) => Err(e),
        (_, _, _, _, Err(e), _, _, _, _, _, _, _) => Err(e),
        (_, _, _, _, _, Err(e), _, _, _, _, _, _) => Err(e),
        (_, _, _, _, _, _, Err(e), _, _, _, _, _) => Err(e),
        (_, _, _, _, _, _, _, Err(e), _, _, _, _) => Err(e),
        (_, _, _, _, _, _, _, _, Err(e), _, _, _) => Err(e),
        (_, _, _, _, _, _, _, _, _, Err(e), _, _) => Err(e),
        (_, _, _, _, _, _, _, _, _, _, Err(e), _) => Err(e),
        (_, _, _, _, _, _, _, _, _, _, _, Err(e)) => Err(e),
        (Ok(key), Ok(ctx), Ok(insts), Ok(mm), Ok(k), Ok(n), Ok(lda), Ok(tile_k), Ok(tile_n), Ok(ct_k), Ok(bias), Ok(b_bytes)) => if m.xclbin(ctx) is Err {
            Err(r.at("gemm "@ + key + " runs on unknown xclbin "@ + ctx))
        } else {
            Ok(
                GemmView {
                    key,
                    ctx,
                    insts: joined(m.dir, insts),
                    m: mm,
                    k,
                    n,
                    lda,
                    tile_k,
                    tile_n,
                    ct_k,
                    bias,
                    b_bytes,
                },
            )
        },
    }
}

/// The kernel name a record gives, or the default.
pub open spec fn name_of(r: RecordView) -> Seq<char> {
    match r.str("name"@) {
        Ok(n) => n,
        Err(_) => "MLIR_AIE"@,
    }
}

pub open spec fn mha_of(m: BaseView, r: RecordView) -> Result<MhaView, Seq<char>> {
    match (
        r.field(0),
        r.str("xclbin"@),
        r.str("insts"@),
        r.get::<usize>("heads"@),
        r.get::<usize>("seq"@),
        r.get::<usize>("d"@),
        r.flag("token_major"@),
        r.get::<usize>("elems"@),
    ) {
        (Err(e), _, _, _, _, _, _, _) => Err(e),
        (_, Err(e), _, _, _, _, _, _) => Err(e),
        (_, _, Err(e), _, _, _, _, _) => Err(e),
        (_, _, _, Err(e), _, _, _, _) => Err(e),
        (_, _, _, _, Err(e), _, _, _) => Err(e),
        (_, _, _, _, _, Err(e), _, _) => Err(e),
        (_, _, _, _, _, _, Err(e), _) => Err(e),
        (_, _, _, _, _, _, _, Err(e)) => Err(e),
        (Ok(key), Ok(xclbin), Ok(insts), Ok(heads), Ok(seq), Ok(d), Ok(token_major), Ok(elems)) => Ok(
            MhaView {
                key,
                xclbin: joined(m.dir, xclbin),
                insts: joined(m.dir, insts),
                name: name_of(r),
                heads,
                seq,
                d,
                token_major,
                elems,
            },
        ),
    }
}

pub open spec fn op_of(m: BaseView, r: RecordView) -> Result<OpView, Seq<char>> {
    match (
        r.field(0),
        r.str("xclbin"@),
        r.str("insts"@),
    ) {
        (Err(e), _, _) => Err(e),
        (_, Err(e), _) => Err(e),
        (_, _, Err(e)) => Err(e),
        (Ok(key), Ok(xclbin), Ok(insts)) => Ok(
            OpView { key, xclbin: joined(m.dir, xclbin), insts: joined(m.dir, insts), name: name_of(r) },
        ),
    }
}

/// The test case a `case` record defines; the prompt is everything after
/// the second field, and may not be empty.
pub open spec fn case_of(m: BaseView, r: RecordView) -> Result<CaseView, Seq<char>> {
    match (
        r.field(2),
        r.field_as::<usize>(0),
        r.field(1),
    ) {
        (Err(e), _, _) => Err(e),
        (_, Err(e), _) => Err(e),
        (_, _, Err(e)) => Err(e),
        (Ok(_p), Ok(idx), Ok(image)) => Ok(
            CaseView { idx, image: joined(m.dir, image), prompt: r.rest(2) },
        ),
    }
}

/// What the records read so far define.
#[verifier::ext_equal]
pub struct ManifestView {
    pub base: BaseView,
    pub gemms: Map<Seq<char>, GemmView>,
    pub mhas: Map<Seq<char>, MhaView>,
    pub ops: Map<Seq<char>, OpView>,
    pub ref_image: Option<Seq<char>>,
    pub ref_prompt: Option<Seq<char>>,
    pub tok_tests: Seq<(usize, Seq<char>)>,
    pub cases: Seq<CaseView>,
}

impl ManifestView {
    /// With one more record; a kernel named again replaces the first.
    pub open spec fn with(self, r: RecordView) -> Result<ManifestView, Seq<char>> {
        if r.tag == "gemm"@ {
            match gemm_of(self.base, r) {
                Err(e) => Err(e),
                Ok(g) => Ok(ManifestView { gemms: self.gemms.insert(g.key, g), ..self }),
            }
        } else if r.tag == "mha"@ {
            match mha_of(self.base, r) {
                Err(e) => Err(e),
                Ok(h) => Ok(ManifestView { mhas: self.mhas.insert(h.key, h), ..self }),
            }
        } else if r.tag == "op"@ {
            match op_of(self.base, r) {
                Err(e) => Err(e),
                Ok(o) => Ok(ManifestView { ops: self.ops.insert(o.key, o), ..self }),
            }
        } else if r.tag == "ref_image"@ {
            Ok(ManifestView { ref_image: Some(joined(self.base.dir, r.rest(0))), ..self })
        } else if r.tag == "ref_prompt"@ {
            Ok(ManifestView { ref_prompt: Some(r.rest(0)), ..self })
        } else if r.tag == "tok_test"@ {
            match r.field_as::<usize>(0) {
                Err(e) => Err(e),
                Ok(n) => Ok(ManifestView { tok_tests: self.tok_tests.push((n, unescaped(r.rest(1)))), ..self }),
            }
        } else if r.tag == "case"@ {
            match case_of(self.base, r) {
                Err(e) => Err(e),
                Ok(c) => Ok(ManifestView { cases: self.cases.push(c), ..self }),
            }
        } else {
            Ok(self)
        }
    }

    pub open spec fn gemm(self, k: Seq<char>) -> Result<GemmView, Seq<char>> {
        if self.gemms.contains_key(k) {
            Ok(self.gemms[k])
        } else {
            Err("kernel "@ + k + " missing from the manifest"@)
        }
    }
}

pub open spec fn empty_manifest(base: BaseView) -> ManifestView {
    ManifestView {
        base,
        gemms: Map::empty(),
        mhas: Map::empty(),
        ops: Map::empty(),
        ref_image: None,
        ref_prompt: None,
        tok_tests: seq![],
        cases: seq![],
    }
}

pub open spec fn manifest_after(base: BaseView, rs: Seq<RecordView>) -> Result<ManifestView, Seq<char>>
    decreases rs.len(),
{
    if rs.len() == 0 {
        Ok(empty_manifest(base))
    } else {
        match manifest_after(base, rs.drop_last()) {
            Err(e) => Err(e),
            Ok(m) => m.with(rs.last()),
        }
    }
}

/// The manifest a text, the contents of `<dir>/manifest.txt`, is.
pub open spec fn sam3_manifest_of(dir: Seq<char>, text: Seq<char>) -> Result<ManifestView, Seq<char>> {
    match manifest_of(dir, text, VERSION) {
        Err(e) => Err(e),
        Ok(base) => manifest_after(base, base.records),
    }
}

proof fn manifest_error(base: BaseView, rs: Seq<RecordView>, n: int)
    requires
        0 <= n <= rs.len(),
        manifest_after(base, rs.take(n)) is Err,
    ensures
        manifest_after(base, rs) == manifest_after(base, rs.take(n)),
    decreases rs.len() - n,
{
    if n < rs.len() {
        assert(rs.take(n + 1).drop_last() =~= rs.take(n));
        manifest_error(base, rs, n + 1);
    } else {
        assert(rs.take(n) =~= rs);
    }
}

proof fn manifest_base(base: BaseView, rs: Seq<RecordView>)
    ensures
        manifest_after(base, rs) matches Ok(m) ==> m.base == base,
    decreases rs.len(),
{
    if rs.len() > 0 {
        manifest_base(base, rs.drop_last());
    }
}

/// Every GEMM of a manifest that loads runs on a context the manifest
/// defines.
pub proof fn gemm_contexts_are_known(base: BaseView, rs: Seq<RecordView>, k: Seq<char>)
    ensures
        manifest_after(base, rs) matches Ok(m) ==> m.gemms.contains_key(k) ==> base.xclbin(m.gemms[k].ctx) is Ok,
    decreases rs.len(),
{
    if rs.len() > 0 {
        manifest_base(base, rs.drop_last());
        gemm_contexts_are_known(base, rs.drop_last(), k);
    }
}

// ---------------------------------------------------------------------------
// Escaped prompts.

/// The character `n` hexadecimal digits (as far as the text goes) stand
/// for; nothing if they stand for none.
pub open spec fn escaped_char(s: Seq<char>) -> Seq<char> {
    match hex_value(s) {
        Some(v) => if is_scalar(v as int) {
            seq![v as char]
        } else {
            seq![]
        },
        None => seq![],
    }
}

pub open spec fn hex_width(c: char) -> int {
    if c == 'x' {
        2
    } else if c == 'u' {
        4
    } else if c == 'U' {
        8
    } else {
        0
    }
}

/// What an escape's letter alone stands for.
pub open spec fn plain_escape(c: char) -> Seq<char> {
    if c == 't' {
        seq!['\t']
    } else if c == 'n' {
        seq!['\n']
    } else if c == 'r' {
        seq!['\r']
    } else if c == '\\' {
        seq!['\\']
    } else {
        seq!['\\', c]
    }
}

/// The escapes `\t \n \r \\ \xNN \uNNNN \UNNNNNNNN` undone; any other
/// backslash stands for itself.
pub open spec fn unescaped(s: Seq<char>) -> Seq<char>
    decreases s.len(),
{
    if s.len() == 0 {
        seq![]
    } else if s[0] != '\\' {
        seq![s[0]] + unescaped(s.skip(1))
    } else if s.len() == 1 {
        seq!['\\']
    } else if hex_width(s[1]) > 0 {
        let n = if hex_width(s[1]) <= s.len() - 2 {
            hex_width(s[1])
        } else {
            s.len() - 2
        };
        escaped_char(s.subrange(2, 2 + n)) + unescaped(s.skip(2 + n))
    } else {
        plain_escape(s[1]) + unescaped(s.skip(2))
    }
}

/// Undoes the escapes a prompt was written with.
pub fn unescape(s: &str) -> (r: String)
    ensures
        r@ == unescaped(s@),
{
    let c: Vec<char> = chars_of(s);
    let mut out = String::new();
    let mut i: usize = 0;
    proof {
        assert(c@.skip(0) =~= c@);
        assert(out@ + unescaped(c@) =~= unescaped(c@));
    }
    while i < c.len()
        invariant
            i <= c.len(),
            c@ == s@,
            out@ + unescaped(c@.skip(i as int)) == unescaped(c@),
        decreases c.len() - i,
    {
        let ghost t = c@.skip(i as int);
        let ghost before = out@;
        let left: usize = c.len() - i;
        if c[i] != '\\' {
            out.push(c[i]);
            proof {
                let rest = unescaped(t.skip(1));
                assert(t.skip(1) =~= c@.skip(i + 1));
                assert(before.push(t[0]) + rest =~= before + (seq![t[0]] + rest));
            }
            i += 1;
        } else if left == 1 {
            out.push('\\');
            proof {
                assert(c@.skip(i + 1) =~= seq![]);
                assert(before.push('\\') + seq![] =~= before + seq!['\\']);
            }
            i += 1;
        } else {
            let x: char = c[i + 1];
            let width: usize = if x == 'x' {
                2
            } else if x == 'u' {
                4
            } else if x == 'U' {
                8
            } else {
                0
            };
            if width > 0 {
                let n: usize = if width <= left - 2 {
                    width
                } else {
                    left - 2
                };
                let from: usize = i + 2;
                proof {
                    assert(t.subrange(2, 2 + n) =~= c@.subrange(from as int, from + n));
                    assert(t.skip(2 + n) =~= c@.skip(from + n));
                }
                let ghost rest = unescaped(c@.skip(from + n));
                let ghost h = c@.subrange(from as int, from + n);
                proof {
                    assert(t[1] == x);
                    assert(unescaped(t) == escaped_char(h) + rest);
                    assert(before + (escaped_char(h) + rest) =~= (before + escaped_char(h)) + rest);
                }
                match hex_of(&c, from, from + n) {
                    Some(v) => match scalar(v) {
                        Some(ch) => {
                            out.push(ch);
                            proof {
                                assert(out@ =~= before + escaped_char(h));
                            }
                        },
                        None => {
                            proof {
                                assert(out@ =~= before + escaped_char(h));
                            }
                        },
                    },
                    None => {
                        proof {
                            assert(out@ =~= before + escaped_char(h));
                        }
                    },
                }
                i = from + n;
            } else {
                if x == 't' {
                    out.push('\t');
                } else if x == 'n' {
                    out.push('\n');
                } else if x == 'r' {
                    out.push('\r');
                } else if x == '\\' {
                    out.push('\\');
                } else {
                    out.push('\\');
                    out.push(x);
                }
                proof {
                    let rest = unescaped(t.skip(2));
                    assert(t[1] == x);
                    assert(t.skip(2) =~= c@.skip(i + 2));
                    assert(out@ =~= before + plain_escape(x));
                    assert((before + plain_escape(x)) + rest =~= before + (plain_escape(x) + rest));
                }
                i += 2;
            }
        }
    }
    proof {
        assert(c@.skip(i as int) =~= seq![]);
        assert(out@ + seq![] =~= out@);
    }
    out
}

/// A text without backslashes is its own escape.
pub proof fn plain_text_unescapes_to_itself(s: Seq<char>)
    requires
        forall|i: int| 0 <= i < s.len() ==> #[trigger] s[i] != '\\',
    ensures
        unescaped(s) == s,
    decreases s.len(),
{
    if s.len() > 0 {
        let t = s.skip(1);
        assert forall|i: int| 0 <= i < t.len() implies #[trigger] t[i] != '\\' by {
            assert(t[i] == s[i + 1]);
        }
        assert(s[0] != '\\');
        plain_text_unescapes_to_itself(t);
        assert(seq![s[0]] + t =~= s);
    }
}

/// The hexadecimal digit for `d`.
pub open spec fn hex_char(d: nat) -> char {
    if d < 10 {
        (48 + d) as char
    } else {
        (87 + d) as char
    }
}

/// `v` in `n` hexadecimal digits.
pub open spec fn hex_text(v: nat, n: nat) -> Seq<char>
    decreases n,
{
    if n == 0 {
        seq![]
    } else {
        hex_text(v / 16, (n - 1) as nat).push(hex_char(v % 16))
    }
}

/// How a character of a prompt is written: printable ASCII as it is but for
/// the backslash, anything else escaped.
pub open spec fn escape_of(c: char) -> Seq<char> {
    let u = c as u32 as nat;
    if c == '\t' {
        seq!['\\', 't']
    } else if c == '\n' {
        seq!['\\', 'n']
    } else if c == '\r' {
        seq!['\\', 'r']
    } else if c == '\\' {
        seq!['\\', '\\']
    } else if 32 <= u < 127 {
        seq![c]
    } else if u < 0x100 {
        seq!['\\', 'x'] + hex_text(u, 2)
    } else if u < 0x1_0000 {
        seq!['\\', 'u'] + hex_text(u, 4)
    } else {
        seq!['\\', 'U'] + hex_text(u, 8)
    }
}

/// How a prompt is written.
pub open spec fn escaped(s: Seq<char>) -> Seq<char>
    decreases s.len(),
{
    if s.len() == 0 {
        seq![]
    } else {
        escape_of(s[0]) + escaped(s.skip(1))
    }
}

/// The numbers of `n` hexadecimal digits are below this.
spec fn hex_range(n: nat) -> nat
    decreases n,
{
    if n == 0 {
        1
    } else {
        16 * hex_range((n - 1) as nat)
    }
}

proof fn hex_text_reads(v: nat, n: nat)
    requires
        v < hex_range(n),
    ensures
        hex_text(v, n).len() == n,
        hex_digits(hex_text(v, n)) == Some(v),
        forall|i: int| 0 <= i < n ==> #[trigger] hex_text(v, n)[i] != '+',
    decreases n,
{
    if n > 0 {
        let (a, d) = (v / 16, v % 16);
        hex_text_reads(a, (n - 1) as nat);
        let s = hex_text(v, n);
        assert(s.drop_last() =~= hex_text(a, (n - 1) as nat));
        assert(s.last() == hex_char(d));
        assert(hex_digit(hex_char(d)) == Some(d));
        assert forall|i: int| 0 <= i < n implies #[trigger] s[i] != '+' by {
            if i < n - 1 {
                assert(s[i] == hex_text(a, (n - 1) as nat)[i]);
            }
        }
    }
}

/// An escape in hexadecimal is read back as its character.
proof fn hex_escape_reads(c: char, x: char, n: nat, rest: Seq<char>)
    requires
        n > 0,
        (c as u32 as nat) < hex_range(n),
        hex_width(x) == n,
    ensures
        unescaped(seq!['\\', x] + hex_text(c as u32 as nat, n) + rest) == seq![c] + unescaped(rest),
{
    let v = c as u32 as nat;
    let h = hex_text(v, n);
    hex_text_reads(v, n);
    let t = seq!['\\', x] + h + rest;
    assert(t[0] == '\\' && t[1] == x);
    assert(t.subrange(2, 2 + n as int) =~= h);
    assert(t.skip(2 + n as int) =~= rest);
    assert(h[0] != '+');
    assert(hex_value(h) == Some(v));
    assert(is_scalar(v as int));
    assert(escaped_char(h) =~= seq![c]);
}

/// Undoing the escapes gives back the prompt that was written with them,
/// whatever its characters.
pub proof fn unescaping_undoes_the_escape(s: Seq<char>)
    ensures
        unescaped(escaped(s)) == s,
    decreases s.len(),
{
    if s.len() > 0 {
        let (c, rest) = (s[0], escaped(s.skip(1)));
        let u = c as u32 as nat;
        unescaping_undoes_the_escape(s.skip(1));
        let t = escaped(s);
        assert(t == escape_of(c) + rest);
        assert(seq![c] + s.skip(1) =~= s);
        reveal_with_fuel(hex_range, 9);
        if c == '\t' || c == '\n' || c == '\r' || c == '\\' {
            assert(t.skip(2) =~= rest);
            assert(plain_escape(t[1]) =~= seq![c]);
        } else if 32 <= u < 127 {
            assert(t.skip(1) =~= rest);
            assert(t[0] == c);
        } else if u < 0x100 {
            hex_escape_reads(c, 'x', 2, rest);
        } else if u < 0x1_0000 {
            hex_escape_reads(c, 'u', 4, rest);
        } else {
            hex_escape_reads(c, 'U', 8, rest);
        }
    }
}

// ---------------------------------------------------------------------------
// The manifest.

#[derive(Debug)]
pub struct Manifest {
    /// The records every bundle shares (`version`, `param`, `xclbin`).
    pub base: Base,
    pub gemms: Dict<GemmSpec>,
    pub mhas: Dict<MhaSpec>,
    pub ops: Dict<OpSpec>,
    pub ref_image: Option<String>,
    pub ref_prompt: Option<String>,
    pub tok_tests: Vec<(usize, String)>,
    pub cases: Vec<Case>,
}

pub open spec fn opt_text(o: Option<String>) -> Option<Seq<char>> {
    match o {
        Some(s) => Some(s@),
        None => None,
    }
}

pub open spec fn test_views(s: Seq<(usize, String)>) -> Seq<(usize, Seq<char>)> {
    s.map_values(|t: (usize, String)| (t.0, t.1@))
}

pub open spec fn case_views(s: Seq<Case>) -> Seq<CaseView> {
    s.map_values(|c: Case| c@)
}

impl View for Manifest {
    type V = ManifestView;

    open spec fn view(&self) -> ManifestView {
        ManifestView {
            base: self.base@,
            gemms: self.gemms@,
            mhas: self.mhas@,
            ops: self.ops@,
            ref_image: opt_text(self.ref_image),
            ref_prompt: opt_text(self.ref_prompt),
            tok_tests: test_views(self.tok_tests@),
            cases: case_views(self.cases@),
        }
    }
}

fn lift(e: manifest::Error) -> (r: Error)
    ensures
        faults(r, e.shown()),
{
    Error::Bundle(e.message())
}

fn key_of(r: &Record) -> (res: Result<String, Error>)
    ensures
        reads(res, r@.field(0)),
{
    match r.field(0) {
        Ok(k) => Ok(k.to_owned()),
        Err(e) => Err(lift(e)),
    }
}

fn text_field(r: &Record, key: &str) -> (res: Result<String, Error>)
    ensures
        reads(res, r@.str(key@)),
{
    match r.str(key) {
        Ok(v) => Ok(v),
        Err(e) => Err(lift(e)),
    }
}

fn number(r: &Record, key: &str) -> (res: Result<usize, Error>)
    ensures
        reads(res, r@.get::<usize>(key@)),
{
    match r.get::<usize>(key) {
        Ok(v) => Ok(v),
        Err(e) => Err(lift(e)),
    }
}

fn flag(r: &Record, key: &str) -> (res: Result<bool, Error>)
    ensures
        reads(res, r@.flag(key@)),
{
    match r.flag(key) {
        Ok(v) => Ok(v),
        Err(e) => Err(lift(e)),
    }
}

fn kernel_name(r: &Record) -> (res: String)
    ensures
        res@ == name_of(r@),
{
    match r.str("name") {
        Ok(n) => n,
        Err(_) => "MLIR_AIE".to_string(),
    }
}

fn read_gemm(base: &Base, r: &Record) -> (res: Result<GemmSpec, Error>)
    ensures
        reads(res, gemm_of(base@, r@)),
{
    let key = key_of(r)?;
    let ctx = text_field(r, "ctx")?;
    let insts = text_field(r, "insts")?;
    let g = GemmSpec {
        key,
        ctx,
        insts: base.path(insts.as_str()),
        m: number(r, "M")?,
        k: number(r, "K")?,
        n: number(r, "N")?,
        lda: number(r, "lda")?,
        tile_k: number(r, "tile_k")?,
        tile_n: number(r, "tile_n")?,
        ct_k: number(r, "ct_k")?,
        bias: flag(r, "bias")?,
        b_bytes: number(r, "b_bytes")?,
    };
    match base.xclbin(g.ctx.as_str()) {
        Ok(_) => Ok(g),
        Err(_) => Err(
            lift(r.error(cat4("gemm ", g.key.as_str(), " runs on unknown xclbin ", g.ctx.as_str()).as_str())),
        ),
    }
}

fn read_mha(base: &Base, r: &Record) -> (res: Result<MhaSpec, Error>)
    ensures
        reads(res, mha_of(base@, r@)),
{
    let key = key_of(r)?;
    let xclbin = text_field(r, "xclbin")?;
    let insts = text_field(r, "insts")?;
    Ok(
        MhaSpec {
            key,
            xclbin: base.path(xclbin.as_str()),
            insts: base.path(insts.as_str()),
            name: kernel_name(r),
            heads: number(r, "heads")?,
            seq: number(r, "seq")?,
            d: number(r, "d")?,
            token_major: flag(r, "token_major")?,
            elems: number(r, "elems")?,
        },
    )
}

fn read_op(base: &Base, r: &Record) -> (res: Result<OpSpec, Error>)
    ensures
        reads(res, op_of(base@, r@)),
{
    let key = key_of(r)?;
    let xclbin = text_field(r, "xclbin")?;
    let insts = text_field(r, "insts")?;
    Ok(
        OpSpec {
            key,
            xclbin: base.path(xclbin.as_str()),
            insts: base.path(insts.as_str()),
            name: kernel_name(r),
        },
    )
}

fn read_case(base: &Base, r: &Record) -> (res: Result<Case, Error>)
    ensures
        reads(res, case_of(base@, r@)),
{
    match r.field(2) {
        Ok(_) => {},
        Err(e) => return Err(lift(e)),
    }
    let idx: usize = match r.field_as::<usize>(0) {
        Ok(n) => n,
        Err(e) => return Err(lift(e)),
    };
    match r.field(1) {
        Ok(image) => Ok(Case { idx, image: base.path(image), prompt: r.rest(2) }),
        Err(e) => Err(lift(e)),
    }
}

/// The records of a manifest, as read so far.
struct Reader {
    gemms: Dict<GemmSpec>,
    mhas: Dict<MhaSpec>,
    ops: Dict<OpSpec>,
    ref_image: Option<String>,
    ref_prompt: Option<String>,
    tok_tests: Vec<(usize, String)>,
    cases: Vec<Case>,
}

impl Reader {
    spec fn under(&self, base: BaseView) -> ManifestView {
        ManifestView {
            base,
            gemms: self.gemms@,
            mhas: self.mhas@,
            ops: self.ops@,
            ref_image: opt_text(self.ref_image),
            ref_prompt: opt_text(self.ref_prompt),
            tok_tests: test_views(self.tok_tests@),
            cases: case_views(self.cases@),
        }
    }

    fn apply(&mut self, base: &Base, r: &Record) -> (res: Result<(), Error>)
        ensures
            match (res, old(self).under(base@).with(r@)) {
                (Ok(_), Ok(m)) => final(self).under(base@) == m,
                (Err(e), Err(msg)) => faults(e, msg),
                _ => false,
            },
    {
        let tag = r.tag.as_str();
        if same(tag, "gemm") {
            let g = read_gemm(base, r)?;
            self.gemms.insert(g.key.clone(), g);
        } else if same(tag, "mha") {
            let h = read_mha(base, r)?;
            self.mhas.insert(h.key.clone(), h);
        } else if same(tag, "op") {
            let o = read_op(base, r)?;
            self.ops.insert(o.key.clone(), o);
        } else if same(tag, "ref_image") {
            self.ref_image = Some(base.path(r.rest(0).as_str()));
        } else if same(tag, "ref_prompt") {
            self.ref_prompt = Some(r.rest(0));
        } else if same(tag, "tok_test") {
            let n: usize = match r.field_as::<usize>(0) {
                Ok(n) => n,
                Err(e) => return Err(lift(e)),
            };
            let t = (n, unescape(r.rest(1).as_str()));
            proof {
                assert(test_views(self.tok_tests@.push(t)) =~= test_views(self.tok_tests@).push((n, t.1@)));
            }
            self.tok_tests.push(t);
        } else if same(tag, "case") {
            let c = read_case(base, r)?;
            proof {
                assert(case_views(self.cases@.push(c)) =~= case_views(self.cases@).push(c@));
            }
            self.cases.push(c);
        }
        Ok(())
    }
}

impl Manifest {
    /// The manifest that `text`, the contents of `<dir>/manifest.txt`, is.
    pub fn load(dir: &str, text: &str) -> (res: Result<Manifest, Error>)
        ensures
            reads(res, sam3_manifest_of(dir@, text@)),
    {
        let base = match Base::load(dir, text, VERSION) {
            Ok(b) => b,
            Err(e) => return Err(lift(e)),
        };
        let ghost all = base@.records;
        let ghost b = base@;
        let mut t = Reader {
            gemms: Dict::new(),
            mhas: Dict::new(),
            ops: Dict::new(),
            ref_image: None,
            ref_prompt: None,
            tok_tests: Vec::new(),
            cases: Vec::new(),
        };
        let mut i: usize = 0;
        proof {
            assert(all.take(0) =~= seq![]);
            assert(t.under(b) =~= empty_manifest(b));
        }
        let records = base.records();
        while i < records.len()
            invariant
                i <= records.len(),
                b == base@,
                record_views(records@) == all,
                sam3_manifest_of(dir@, text@) == manifest_after(b, all),
                manifest_after(b, all.take(i as int)) == Ok::<ManifestView, Seq<char>>(t.under(b)),
            decreases records.len() - i,
        {
            proof {
                assert(all.take(i + 1).drop_last() =~= all.take(i as int));
                assert(all.take(i + 1).last() == records@[i as int]@);
                if manifest_after(b, all.take(i + 1)) is Err {
                    manifest_error(b, all, i + 1);
                }
            }
            match t.apply(&base, &records[i]) {
                Ok(_) => {},
                Err(e) => return Err(e),
            }
            i += 1;
        }
        proof {
            assert(all.take(i as int) =~= all);
        }
        Ok(
            Manifest {
                base,
                gemms: t.gemms,
                mhas: t.mhas,
                ops: t.ops,
                ref_image: t.ref_image,
                ref_prompt: t.ref_prompt,
                tok_tests: t.tok_tests,
                cases: t.cases,
            },
        )
    }

    pub fn param(&self, k: &str) -> (r: Result<&str, Error>)
        ensures
            reads(r, self@.base.param(k@)),
    {
        match self.base.param(k) {
            Ok(v) => Ok(v),
            Err(e) => Err(lift(e)),
        }
    }

    pub fn usize(&self, k: &str) -> (r: Result<usize, Error>)
        ensures
            reads(r, self@.base.param_as::<usize>(k@)),
    {
        match self.base.param_as::<usize>(k) {
            Ok(v) => Ok(v),
            Err(e) => Err(lift(e)),
        }
    }

    /// A real-number param, as written.
    pub fn real_param(&self, k: &str) -> (r: Result<String, Error>)
        ensures
            reads(r, self@.base.real_param(k@)),
    {
        match self.base.real_param(k) {
            Ok(v) => Ok(v),
            Err(e) => Err(lift(e)),
        }
    }

    pub fn list(&self, k: &str) -> (r: Result<Vec<usize>, Error>)
        ensures
            match (r, self@.base.list::<usize>(k@)) {
                (Ok(v), Ok(s)) => v@ == s,
                (Err(e), Err(m)) => faults(e, m),
                _ => false,
            },
    {
        match self.base.list::<usize>(k) {
            Ok(v) => Ok(v),
            Err(e) => Err(lift(e)),
        }
    }

    pub fn xclbin(&self, k: &str) -> (r: Result<&manifest::Xclbin, Error>)
        ensures
            reads(r, self@.base.xclbin(k@)),
    {
        match self.base.xclbin(k) {
            Ok(v) => Ok(v),
            Err(e) => Err(lift(e)),
        }
    }

    pub fn gemm(&self, k: &str) -> (r: Result<&GemmSpec, Error>)
        ensures
            reads(r, self@.gemm(k@)),
    {
        match self.gemms.get(k) {
            Some(g) => Ok(g),
            None => Err(Error::Bundle(cat3("kernel ", k, " missing from the manifest"))),
        }
    }
}

} // verus!
