//! How a stage's rows are cut into kernel runs.
//!
//! A GEMM is compiled for `M` rows; a stage with more rows owns one A and
//! one C buffer of the padded height and runs the kernel once per `M`-row
//! chunk over views of them. The plans here say how large the buffers are
//! and which bytes each run sees.

use crate::arith::{mul2, mul3, round_up, rounded_up, rounded_up_is};
use crate::sam3::{faults, Error};
use crate::sam3_bundle::GemmSpec;
use crate::text::{cat2, cat5, decimal, decimal_of};
use vstd::prelude::*;

verus! {

/// Bytes of a bf16 element.
pub const BF16: usize = 2;

/// The bytes of A and C that one run sees.
#[derive(Debug, Clone, Copy)]
pub struct Chunk {
    pub a_off: usize,
    pub a_len: usize,
    pub c_off: usize,
    pub c_len: usize,
}

/// A stage's operands.
#[derive(Debug, Clone)]
pub struct Plan {
    pub rows: usize,
    pub n: usize,
    pub a_bytes: usize,
    pub c_bytes: usize,
    pub chunks: Vec<Chunk>,
    /// A is another GEMM's C: produced on the device, never written by the
    /// host.
    pub chained: bool,
}

/// Run `i` of a kernel of `m` rows of A, `lda` apart and reaching `ext`
/// elements, and `n` columns of C.
pub open spec fn chunk_at(i: int, m: nat, lda: nat, ext: nat, n: nat) -> Chunk {
    Chunk {
        a_off: (i * m * lda * 2) as usize,
        a_len: (ext * 2) as usize,
        c_off: (i * m * n * 2) as usize,
        c_len: (m * n * 2) as usize,
    }
}

pub open spec fn chunks_of(rows: nat, m: nat, lda: nat, ext: nat, n: nat) -> Seq<Chunk> {
    Seq::new((rows / m) as nat, |i: int| chunk_at(i, m, lda, ext, n))
}

/// Whether `p` is the plan with these sizes.
pub open spec fn is_plan(p: Plan, rows: nat, m: nat, lda: nat, ext: nat, n: nat, a_elems: nat, chained: bool) -> bool {
    &&& p.rows == rows
    &&& p.n == n
    &&& p.a_bytes == a_elems * 2
    &&& p.c_bytes == rows * n * 2
    &&& p.chunks@ == chunks_of(rows, m, lda, ext, n)
    &&& p.chained == chained
}

/// Whether the sizes of plain row-major operands fit.
pub open spec fn plain_fits(rows: nat, m: nat, k: nat, n: nat) -> bool {
    rows * k * 2 <= usize::MAX && rows * n * 2 <= usize::MAX
}

pub open spec fn overflows(key: Seq<char>) -> Seq<char> {
    key + ": sizes overflow"@
}

/// The runs of plain operands tile the buffers: each begins where the one
/// before ends, in A and in C, and the last ends with the buffer.
pub proof fn runs_tile_the_buffers(rows: nat, m: nat, k: nat, n: nat, i: int)
    requires
        m > 0,
        rows % m == 0,
        plain_fits(rows, m, k, n),
        0 <= i < rows / m,
    ensures
        ({
            let c = chunks_of(rows, m, k, m * k, n);
            &&& c[0].a_off == 0 && c[0].c_off == 0
            &&& i + 1 < rows / m ==> c[i + 1].a_off == c[i].a_off + c[i].a_len && c[i + 1].c_off == c[i].c_off
                + c[i].c_len
            &&& i + 1 == rows / m ==> c[i].a_off + c[i].a_len == rows * k * 2 && c[i].c_off + c[i].c_len == rows * n * 2
        }),
{
    let q = (rows / m) as int;
    vstd::arithmetic::div_mod::lemma_fundamental_div_mod(rows as int, m as int);
    run_offsets(rows, m, k, i);
    run_offsets(rows, m, n, i);
    if i + 1 < q {
        run_offsets(rows, m, k, i + 1);
        run_offsets(rows, m, n, i + 1);
    }
    assert(0 * m * k * 2 == 0) by (nonlinear_arith);
    assert(0 * m * n * 2 == 0) by (nonlinear_arith);
    assert((i + 1) * m * k * 2 == i * m * k * 2 + m * k * 2) by (nonlinear_arith);
    assert((i + 1) * m * n * 2 == i * m * n * 2 + m * n * 2) by (nonlinear_arith);
    assert(q * m == rows) by (nonlinear_arith)
        requires
            rows == m * q + rows % m,
            rows % m == 0,
    ;
}

/// Run `i` of a buffer of `rows` rows `k` wide: its offset and its end.
proof fn run_offsets(rows: nat, m: nat, k: nat, i: int)
    requires
        m > 0,
        0 <= i < rows / m,
        rows * k * 2 <= usize::MAX,
    ensures
        0 <= i * m * k * 2,
        i * m * k * 2 + m * k * 2 <= rows * k * 2,
        m * k * 2 <= rows * k * 2,
{
    vstd::arithmetic::div_mod::lemma_fundamental_div_mod(rows as int, m as int);
    let q = rows / m;
    assert((i + 1) * m <= rows) by (nonlinear_arith)
        requires
            i + 1 <= q,
            rows == m * q + rows % m,
            rows % m >= 0,
            m > 0,
    ;
    let a = (i + 1) * m;
    assert(a * k <= rows * k) by (nonlinear_arith)
        requires
            a <= rows,
            k >= 0,
    ;
    assert(a * k == i * m * k + m * k) by (nonlinear_arith)
        requires
            a == (i + 1) * m,
    ;
    assert(0 <= i * m * k) by (nonlinear_arith)
        requires
            i >= 0,
            m >= 0,
            k >= 0,
    ;
}

fn make_chunks(rows: usize, m: usize, lda: usize, ext: usize, n: usize) -> (r: Vec<Chunk>)
    requires
        m > 0,
        rows >= m ==> rows * lda * 2 <= usize::MAX && rows * n * 2 <= usize::MAX && ext * 2 <= usize::MAX,
    ensures
        r@ == chunks_of(rows as nat, m as nat, lda as nat, ext as nat, n as nat),
{
    let total: usize = rows / m;
    let mut out: Vec<Chunk> = Vec::new();
    let mut i: usize = 0;
    while i < total
        invariant
            m > 0,
            total == rows / m,
            rows >= m ==> rows * lda * 2 <= usize::MAX && rows * n * 2 <= usize::MAX && ext * 2 <= usize::MAX,
            i <= total,
            out@ =~= chunks_of(rows as nat, m as nat, lda as nat, ext as nat, n as nat).take(i as int),
        decreases total - i,
    {
        proof {
            assert(rows >= m) by {
                if rows < m {
                    vstd::arithmetic::div_mod::lemma_basic_div(rows as int, m as int);
                }
            }
            run_offsets(rows as nat, m as nat, lda as nat, i as int);
            run_offsets(rows as nat, m as nat, n as nat, i as int);
            vstd::arithmetic::div_mod::lemma_fundamental_div_mod(rows as int, m as int);
            assert(i * m <= rows) by (nonlinear_arith)
                requires
                    i <= total,
                    rows == m * total + (rows as int) % (m as int),
                    (rows as int) % (m as int) >= 0,
                    m > 0,
            ;
            assert(i * m * lda >= 0 && i * m * n >= 0 && m * n >= 0) by (nonlinear_arith)
                requires
                    i >= 0,
                    m >= 0,
                    lda >= 0,
                    n >= 0,
            ;
        }
        out.push(Chunk { a_off: i * m * lda * 2, a_len: ext * 2, c_off: i * m * n * 2, c_len: m * n * 2 });
        i += 1;
    }
    out
}

fn no_fit(key: &str) -> (r: Error)
    ensures
        faults(r, overflows(key@)),
{
    Error::Bundle(cat2(key, ": sizes overflow"))
}

/// The rows a stage is padded to.
pub open spec fn padded(rows: nat, m: nat) -> nat {
    rounded_up(rows as int, m as int) as nat
}

fn pad(rows: usize, m: usize) -> (r: Option<usize>)
    requires
        m > 0,
    ensures
        match r {
            Some(v) => v == padded(rows as nat, m as nat) && v % m == 0,
            None => padded(rows as nat, m as nat) > usize::MAX,
        },
{
    let rest: usize = rows % m;
    proof {
        rounded_up_is(rows as int, m as int);
        let r = rounded_up(rows as int, m as int);
        vstd::arithmetic::div_mod::lemma_fundamental_div_mod(rows as int, m as int);
        vstd::arithmetic::div_mod::lemma_fundamental_div_mod(r, m as int);
        let (q, z) = ((rows as int) / (m as int), r / (m as int));
        if rest == 0 {
            assert(r == rows) by (nonlinear_arith)
                requires
                    rows == m * q,
                    r == m * z,
                    rows <= r < rows + m,
                    m > 0,
            ;
        } else {
            assert(r == rows + (m - rest)) by (nonlinear_arith)
                requires
                    rows == m * q + rest,
                    r == m * z,
                    rows <= r < rows + m,
                    0 < rest < m,
            ;
        }
    }
    if rest == 0 || rows <= usize::MAX - (m - rest) {
        Some(round_up(rows, m))
    } else {
        None
    }
}

/// Operands of a GEMM for `rows` rows (plain row-major A, `lda == K`),
/// padded to whole runs.
pub fn io(g: &GemmSpec, rows: usize) -> (r: Result<Plan, Error>)
    requires
        g.m > 0,
        g.lda == g.k,
    ensures
        ({
            let (m, k, n) = (g.m as nat, g.k as nat, g.n as nat);
            let t = padded(rows as nat, m);
            match r {
                Ok(p) => t <= usize::MAX && plain_fits(t, m, k, n) && is_plan(p, t, m, k, m * k, n, t * k, false),
                Err(e) => !(t <= usize::MAX && plain_fits(t, m, k, n)) && faults(e, overflows(g.key@)),
            }
        }),
{
    match pad(rows, g.m) {
        None => Err(no_fit(g.key.as_str())),
        Some(t) => plain(g.key.as_str(), t, g.m, g.k, g.n, false),
    }
}

fn plain(key: &str, rows: usize, m: usize, k: usize, n: usize, chained: bool) -> (r: Result<Plan, Error>)
    requires
        m > 0,
    ensures
        match r {
            Ok(p) => plain_fits(rows as nat, m as nat, k as nat, n as nat) && is_plan(
                p,
                rows as nat,
                m as nat,
                k as nat,
                m as nat * k as nat,
                n as nat,
                rows as nat * k as nat,
                chained,
            ),
            Err(e) => !plain_fits(rows as nat, m as nat, k as nat, n as nat) && faults(e, overflows(key@)),
        },
{
    let a_bytes: usize = match mul3(rows, k, 2) {
        Some(b) => b,
        None => {
            return Err(no_fit(key));
        },
    };
    let c_bytes: usize = match mul3(rows, n, 2) {
        Some(b) => b,
        None => {
            return Err(no_fit(key));
        },
    };
    let ghost ext = m * k;
    if rows < m {
        // no run: the views' length is never used
        let chunks: Vec<Chunk> = Vec::new();
        proof {
            vstd::arithmetic::div_mod::lemma_basic_div(rows as int, m as int);
            assert(chunks@ =~= chunks_of(rows as nat, m as nat, k as nat, ext as nat, n as nat));
        }
        return Ok(Plan { rows, n, a_bytes, c_bytes, chunks, chained });
    }
    proof {
        assert(m * k * 2 <= rows * k * 2) by (nonlinear_arith)
            requires
                m <= rows,
                k >= 0,
        ;
        assert(m * k >= 0) by (nonlinear_arith)
            requires
                m >= 0,
                k >= 0,
        ;
    }
    let chunks: Vec<Chunk> = make_chunks(rows, m, k, m * k, n);
    Ok(Plan { rows, n, a_bytes, c_bytes, chunks, chained })
}

/// Operands of a GEMM whose A is `src`'s C, read in place.
pub fn io_chained(g: &GemmSpec, src: &Plan) -> (r: Result<Plan, Error>)
    requires
        g.m > 0,
        src.n == g.k,
    ensures
        ({
            let (m, k, n) = (g.m as nat, g.k as nat, g.n as nat);
            let t = src.rows as nat;
            match r {
                Ok(p) => plain_fits(t, m, k, n) && is_plan(p, t, m, k, m * k, n, t * k, true),
                Err(e) => !plain_fits(t, m, k, n) && faults(e, overflows(g.key@)),
            }
        }),
{
    plain(g.key.as_str(), src.rows, g.m, g.k, g.n, true)
}

/// The width of a pixel of an overlapping convolution (`K = (P + 2) D`,
/// `lda = P D`).
pub open spec fn conv_d(k: nat, lda: nat) -> nat {
    ((k - lda) / 2) as nat
}

/// The pixels of an output row of an overlapping convolution.
pub open spec fn conv_p(k: nat, lda: nat) -> nat {
    lda / conv_d(k, lda)
}

/// The output rows of an overlapping convolution over an `h x w` image with
/// two pixels of padding a row.
pub open spec fn conv_rows(h: nat, w: nat, p: nat, m: nat) -> nat {
    padded(((h * (w + 2) + p - 1) / p as int) as nat, m)
}

pub open spec fn conv_fits(rows: nat, m: nat, lda: nat, k: nat, n: nat) -> bool {
    let (d, p) = (conv_d(k, lda), conv_p(k, lda));
    &&& rows <= usize::MAX
    &&& (rows * p + 2) * d * 2 <= usize::MAX
    &&& rows * n * 2 <= usize::MAX
    &&& rows * lda * 2 <= usize::MAX
    &&& ((m - 1) * lda + k) * 2 <= usize::MAX
}

/// Operands of the overlapping-view 3x3 convolution for an `h x w` image: A
/// is `(rows * P + 2) x D`, each run's view reaching `(M - 1) * lda + K`
/// elements on.
pub fn conv_io(g: &GemmSpec, h: usize, w: usize) -> (r: Result<Plan, Error>)
    requires
        g.m > 0,
        g.k >= g.lda,
        conv_d(g.k as nat, g.lda as nat) > 0,
        conv_p(g.k as nat, g.lda as nat) > 0,
        h * (w + 2) <= usize::MAX,
    ensures
        ({
            let (m, k, n, lda) = (g.m as nat, g.k as nat, g.n as nat, g.lda as nat);
            let (d, p) = (conv_d(k, lda), conv_p(k, lda));
            let t = conv_rows(h as nat, w as nat, p, m);
            match r {
                Ok(x) => conv_fits(t, m, lda, k, n) && is_plan(
                    x,
                    t,
                    m,
                    lda,
                    ((m - 1) * lda + k) as nat,
                    n,
                    (t * p + 2) * d,
                    false,
                ),
                Err(e) => !conv_fits(t, m, lda, k, n) && faults(e, overflows(g.key@)),
            }
        }),
{
    let key = g.key.as_str();
    let d: usize = (g.k - g.lda) / 2;
    let p: usize = g.lda / d;
    if h == 0 {
        proof {
            assert(h * (w + 2) == 0) by (nonlinear_arith)
                requires
                    h == 0,
            ;
        }
    } else {
        proof {
            assert(w + 2 <= h * (w + 2)) by (nonlinear_arith)
                requires
                    h >= 1,
                    w >= 0,
            ;
        }
    }
    let pixels: usize = if h == 0 {
        0
    } else {
        h * (w + 2)
    };
    let whole: usize = pixels / p;
    proof {
        vstd::arithmetic::div_mod::lemma_fundamental_div_mod(pixels as int, p as int);
        let rest = (pixels as int) % (p as int);
        assert(rest > 0 ==> whole < pixels) by (nonlinear_arith)
            requires
                pixels == p * whole + rest,
                p >= 1,
                whole >= 0,
        ;
    }
    let groups: usize = if pixels % p == 0 {
        whole
    } else {
        whole + 1
    };
    proof {
        let (x, y) = (pixels as int, p as int);
        vstd::arithmetic::div_mod::lemma_fundamental_div_mod(x, y);
        let rest = x % y;
        if rest == 0 {
            assert(x + y - 1 == whole * y + (y - 1)) by (nonlinear_arith)
                requires
                    x == y * whole,
            ;
            vstd::arithmetic::div_mod::lemma_fundamental_div_mod_converse(x + y - 1, y, whole as int, y - 1);
        } else {
            assert(x + y - 1 == (whole + 1) * y + (rest - 1)) by (nonlinear_arith)
                requires
                    x == y * whole + rest,
            ;
            vstd::arithmetic::div_mod::lemma_fundamental_div_mod_converse(x + y - 1, y, whole + 1, rest - 1);
        }
    }
    let rows: usize = match pad(groups, g.m) {
        Some(t) => t,
        None => {
            return Err(no_fit(key));
        },
    };
    let ghost t = rows as nat;
    let c_bytes: usize = match mul3(rows, g.n, 2) {
        Some(b) => b,
        None => {
            return Err(no_fit(key));
        },
    };
    if mul3(rows, g.lda, 2).is_none() {
        return Err(no_fit(key));
    }
    proof {
        assert((t * p as nat + 2) * d >= t * p && (t * p + 2) * d >= 2) by (nonlinear_arith)
            requires
                d >= 1,
                t >= 0,
                p >= 0,
        ;
    }
    let a_elems: usize = match mul2(rows, p) {
        None => {
            return Err(no_fit(key));
        },
        Some(b) => if b > usize::MAX - 2 {
            return Err(no_fit(key));
        } else {
            match mul2(b + 2, d) {
                Some(x) => x,
                None => {
                    return Err(no_fit(key));
                },
            }
        },
    };
    let a_bytes: usize = match mul2(a_elems, 2) {
        Some(x) => x,
        None => {
            return Err(no_fit(key));
        },
    };
    let ext: usize = match mul2(g.m - 1, g.lda) {
        None => {
            return Err(no_fit(key));
        },
        Some(x) => if x > usize::MAX - g.k || x + g.k > usize::MAX / 2 {
            return Err(no_fit(key));
        } else {
            x + g.k
        },
    };
    let chunks: Vec<Chunk> = make_chunks(rows, g.m, g.lda, ext, g.n);
    Ok(Plan { rows, n: g.n, a_bytes, c_bytes, chunks, chained: false })
}

/// Every run of an overlapping convolution sees only its A buffer, and the
/// last one ends with it.
pub proof fn conv_runs_stay_inside(rows: nat, m: nat, d: nat, p: nat, n: nat, i: int)
    requires
        m > 0,
        d > 0,
        rows % m == 0,
        0 <= i < rows / m,
        conv_fits(rows, m, p * d, (p + 2) * d, n),
        conv_d((p + 2) * d, p * d) == d,
        conv_p((p + 2) * d, p * d) == p,
    ensures
        ({
            let ext = ((m - 1) * (p * d) + (p + 2) * d) as nat;
            let c = chunks_of(rows, m, p * d, ext, n)[i];
            &&& c.a_off + c.a_len <= (rows * p + 2) * d * 2
            &&& i + 1 == rows / m ==> c.a_off + c.a_len == (rows * p + 2) * d * 2
        }),
{
    let lda = p * d;
    let ext = (m - 1) * lda + (p + 2) * d;
    run_offsets(rows, m, lda, i);
    vstd::arithmetic::div_mod::lemma_fundamental_div_mod(rows as int, m as int);
    let q = rows / m;
    let a = (i + 1) * m;
    assert(a <= rows && (i + 1 == q ==> a == rows)) by (nonlinear_arith)
        requires
            a == (i + 1) * m,
            i + 1 <= q,
            rows == m * q + rows % m,
            rows % m == 0,
            m > 0,
    ;
    assert((p + 2) * d == lda + 2 * d) by (nonlinear_arith)
        requires
            lda == p * d,
    ;
    assert(i * m * lda * 2 + ext * 2 == a * lda * 2 + 4 * d) by (nonlinear_arith)
        requires
            ext == (m - 1) * lda + lda + 2 * d,
            a == (i + 1) * m,
    ;
    assert((rows * p + 2) * d * 2 == rows * lda * 2 + 4 * d) by (nonlinear_arith)
        requires
            lda == p * d,
    ;
    assert(a * lda <= rows * lda) by (nonlinear_arith)
        requires
            a <= rows,
            lda >= 0,
    ;
    assert(ext >= 0) by (nonlinear_arith)
        requires
            ext == (m - 1) * lda + lda + 2 * d,
            m >= 1,
            lda >= 0,
            d >= 0,
    ;
}

/// Operands for exactly `rows` rows, which must be whole runs.
pub fn io_exact(key: &str, m: usize, k: usize, n: usize, rows: usize) -> (r: Result<Plan, Error>)
    requires
        m > 0,
    ensures
        match r {
            Ok(p) => rows % m == 0 && plain_fits(rows as nat, m as nat, k as nat, n as nat) && is_plan(
                p,
                rows as nat,
                m as nat,
                k as nat,
                m as nat * k as nat,
                n as nat,
                rows as nat * k as nat,
                false,
            ),
            Err(e) => if rows % m != 0 {
                faults(e, partial(key@, rows as nat, m as nat))
            } else {
                !plain_fits(rows as nat, m as nat, k as nat, n as nat) && faults(e, overflows(key@))
            },
        },
{
    if rows % m != 0 {
        return Err(
            Error::Bundle(
                cat5(
                    key,
                    ": ",
                    decimal_of(rows as u128).as_str(),
                    " rows is not a multiple of M = ",
                    decimal_of(m as u128).as_str(),
                ),
            ),
        );
    }
    plain(key, rows, m, k, n, false)
}

pub open spec fn partial(key: Seq<char>, rows: nat, m: nat) -> Seq<char> {
    key + ": "@ + decimal(rows) + " rows is not a multiple of M = "@ + decimal(m)
}

/// Operands whose A is `src`'s C, read in place; the widths must agree and
/// the rows be whole runs.
pub fn io_exact_chained(key: &str, m: usize, k: usize, n: usize, src: &Plan) -> (r: Result<Plan, Error>)
    requires
        m > 0,
    ensures
        ({
            let rows = src.rows as nat;
            match r {
                Ok(p) => src.n == k && src.rows % m == 0 && plain_fits(rows, m as nat, k as nat, n as nat) && is_plan(
                    p,
                    rows,
                    m as nat,
                    k as nat,
                    m as nat * k as nat,
                    n as nat,
                    rows * k as nat,
                    true,
                ),
                Err(e) => if src.n != k {
                    faults(e, key@ + ": A width "@ + decimal(src.n as nat) + " != K "@ + decimal(k as nat))
                } else if src.rows % m != 0 {
                    faults(e, partial(key@, rows, m as nat))
                } else {
                    !plain_fits(rows, m as nat, k as nat, n as nat) && faults(e, overflows(key@))
                },
            }
        }),
{
    if src.n != k {
        return Err(
            Error::Bundle(
                cat5(key, ": A width ", decimal_of(src.n as u128).as_str(), " != K ", decimal_of(k as u128).as_str()),
            ),
        );
    }
    match io_exact(key, m, k, n, src.rows) {
        Ok(p) => Ok(Plan { chained: true, ..p }),
        Err(e) => Err(e),
    }
}

} // verus!
