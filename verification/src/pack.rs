//! The packing of a GEMM's B: a row-major `[K, N]` matrix in the order the
//! compute tiles read it, quantized to blocks of eight values along k that
//! share an exponent (nine bytes a block), optionally with a chunk of
//! per-column biases in front of each column block.

use crate::arith::{index_bound, index_parts};
use crate::bf16::{f32_to_bf16, narrow};
use crate::ieee::power;
use crate::sam3_bundle::GemmSpec;
use vstd::arithmetic::power2::{lemma_pow2_strictly_increases, pow2};
use vstd::prelude::*;

verus! {

/// The exponent field of a single-precision value.
pub open spec fn exponent(u: u32) -> int {
    (u as int) / 0x80_0000 % 0x100
}

/// Its significand with the hidden bit, signed.
pub open spec fn significand(u: u32) -> int {
    let man = (u as int) % 0x80_0000 + (if exponent(u) != 0 {
        0x80_0000int
    } else {
        0
    });
    if u >= 0x8000_0000 {
        -man
    } else {
        man
    }
}

/// The largest exponent of the first `n` values.
pub open spec fn top_exponent(v: Seq<u32>, n: nat) -> int
    decreases n,
{
    if n == 0 {
        0
    } else {
        let t = top_exponent(v, (n - 1) as nat);
        if exponent(v[n - 1]) > t {
            exponent(v[n - 1])
        } else {
            t
        }
    }
}

/// `x / unit`, rounded to the nearest integer, ties to even.
pub open spec fn rounded_even(x: int, unit: int) -> int {
    let (q, r) = (x / unit, x % unit);
    if 2 * r > unit || (2 * r == unit && q % 2 == 1) {
        q + 1
    } else {
        q
    }
}

/// A value's eight-bit mantissa under the shared exponent `top`: rounded to
/// nearest even and saturating; a value too small to matter is zero, or
/// minus one where it is negative.
pub open spec fn mantissa(u: u32, top: int) -> int {
    let shift = top - exponent(u);
    let v = if shift >= 32 {
        if u >= 0x8000_0000 {
            -1
        } else {
            0
        }
    } else {
        rounded_even(significand(u), pow2((17 + shift) as nat) as int)
    };
    if v < -128 {
        -128
    } else if v > 127 {
        127
    } else {
        v
    }
}

/// A signed byte's bits.
pub open spec fn byte_of(v: int) -> u8 {
    if v < 0 {
        (v + 256) as u8
    } else {
        v as u8
    }
}

/// Eight values as a block: the shared exponent, then their mantissas.
pub open spec fn block_of(v: Seq<u32>) -> Seq<u8> {
    let top = top_exponent(v, 8);
    seq![top as u8] + Seq::new(8, |i: int| byte_of(mantissa(v[i], top)))
}

fn exponent_of(u: u32) -> (r: u32)
    ensures
        r == exponent(u),
        r < 256,
{
    u / 0x80_0000 % 0x100
}

/// Rounds `x / unit`, `x` being `man` or, where `neg`, `-man`.
fn round_even(man: i64, neg: bool, unit: i64) -> (r: i64)
    requires
        0 <= man < 0x100_0000,
        0 < unit <= 0x1_0000_0000_0000,
    ensures
        r == rounded_even(
            if neg {
                -man
            } else {
                man as int
            },
            unit as int,
        ),
        -0x200_0000 < r < 0x200_0000,
{
    let x: i64 = if neg {
        -man
    } else {
        man
    };
    let q: i64 = if neg {
        -((man + (unit - 1)) / unit)
    } else {
        man / unit
    };
    proof {
        let u = unit as int;
        if neg {
            let n = man + (u - 1);
            let c = n / u;
            vstd::arithmetic::div_mod::lemma_fundamental_div_mod(n, u);
            let rem = -man + c * u;
            assert(0 <= rem < u) by (nonlinear_arith)
                requires
                    n == u * c + n % u,
                    0 <= n % u < u,
                    n == man + (u - 1),
                    rem == -man + c * u,
            ;
            assert(-man == (-c) * u + rem) by (nonlinear_arith)
                requires
                    rem == -man + c * u,
            ;
            vstd::arithmetic::div_mod::lemma_fundamental_div_mod_converse(-man, u, -c, rem);
            assert(0 <= c <= man) by (nonlinear_arith)
                requires
                    n == u * c + n % u,
                    0 <= n % u < u,
                    n == man + (u - 1),
                    u >= 1,
                    man >= 0,
            ;
        } else {
            vstd::arithmetic::div_mod::lemma_fundamental_div_mod(man as int, u);
            let c = (man as int) / u;
            assert(0 <= c <= man) by (nonlinear_arith)
                requires
                    man == u * c + (man as int) % u,
                    (man as int) % u >= 0,
                    u >= 1,
                    man >= 0,
            ;
        }
        vstd::arithmetic::div_mod::lemma_fundamental_div_mod(x as int, u);
        let rem = (x as int) % u;
        assert(x - q * u == rem) by (nonlinear_arith)
            requires
                x == u * q + rem,
        ;
        assert(-0x2_0000_0000_0000 < q * u < 0x2_0000_0000_0000) by (nonlinear_arith)
            requires
                x - q * u == rem,
                0 <= rem < u,
                u <= 0x1_0000_0000_0000,
                -0x100_0000 < x < 0x100_0000,
        ;
    }
    let rem: i64 = x - q * unit;
    let odd: bool = if q < 0 {
        (-q) % 2 == 1
    } else {
        q % 2 == 1
    };
    if 2 * rem > unit || (2 * rem == unit && odd) {
        q + 1
    } else {
        q
    }
}

fn mantissa_of(u: u32, top: u32) -> (r: u8)
    requires
        exponent(u) <= top < 256,
    ensures
        r == byte_of(mantissa(u, top as int)),
{
    let e: u32 = exponent_of(u);
    let shift: u32 = top - e;
    let neg: bool = u >= 0x8000_0000;
    let v: i64 = if shift >= 32 {
        if neg {
            -1
        } else {
            0
        }
    } else {
        let man: i64 = (u % 0x80_0000) as i64 + (if e != 0 {
            0x80_0000i64
        } else {
            0
        });
        let unit: u128 = power(17 + shift);
        proof {
            vstd::arithmetic::power2::lemma2_to64();
            vstd::arithmetic::power2::lemma_pow2_adds(32, 16);
            assert(pow2(48) == 0x1_0000_0000_0000);
            if 17 + shift < 48 {
                lemma_pow2_strictly_increases((17 + shift) as nat, 48);
            }
        }
        round_even(man, neg, unit as i64)
    };
    let c: i64 = if v < -128 {
        -128
    } else if v > 127 {
        127
    } else {
        v
    };
    if c < 0 {
        (c + 256) as u8
    } else {
        c as u8
    }
}

proof fn top_is_top(v: Seq<u32>, n: nat, i: int)
    requires
        0 <= i < n,
    ensures
        exponent(v[i]) <= top_exponent(v, n),
    decreases n,
{
    if i < n - 1 {
        top_is_top(v, (n - 1) as nat, i);
    }
}

/// Quantizes eight values to a block.
pub fn block(v: &Vec<u32>) -> (r: Vec<u8>)
    requires
        v.len() == 8,
    ensures
        r@ == block_of(v@),
{
    let mut top: u32 = 0;
    let mut i: usize = 0;
    while i < 8
        invariant
            v.len() == 8,
            i <= 8,
            top == top_exponent(v@, i as nat),
            top < 256,
        decreases 8 - i,
    {
        let e: u32 = exponent_of(v[i]);
        if e > top {
            top = e;
        }
        i += 1;
    }
    let mut out: Vec<u8> = Vec::new();
    out.push(top as u8);
    let mut k: usize = 0;
    while k < 8
        invariant
            v.len() == 8,
            k <= 8,
            top == top_exponent(v@, 8),
            top < 256,
            out@ =~= block_of(v@).take(1 + k as int),
        decreases 8 - k,
    {
        proof {
            top_is_top(v@, 8, k as int);
        }
        out.push(mantissa_of(v[k], top));
        k += 1;
    }
    proof {
        assert(block_of(v@).take(9) =~= block_of(v@));
    }
    out
}

/// Rounding leaves at most half a step of error, and an even result where
/// it is exactly half.
pub proof fn rounding_is_nearest(x: int, unit: int)
    requires
        unit > 0,
    ensures
        -unit <= 2 * (rounded_even(x, unit) * unit - x) <= unit,
        2 * (rounded_even(x, unit) * unit - x) == unit || 2 * (rounded_even(x, unit) * unit - x) == -unit
            ==> rounded_even(x, unit) % 2 == 0,
{
    let (q, r) = (x / unit, x % unit);
    vstd::arithmetic::div_mod::lemma_fundamental_div_mod(x, unit);
    assert(q * unit - x == -r) by (nonlinear_arith)
        requires
            x == unit * q + r,
    ;
    assert((q + 1) * unit - x == unit - r) by (nonlinear_arith)
        requires
            x == unit * q + r,
    ;
}

// ---------------------------------------------------------------------------
// The whole matrix.

/// How a GEMM's B is tiled.
pub struct Tiling {
    pub k: nat,
    pub n: nat,
    pub k_tile: nat,
    pub n_tile: nat,
    pub ct_k: nat,
}

impl Tiling {
    /// Every tile is whole.
    pub open spec fn wf(self) -> bool {
        &&& self.k_tile > 0 && self.n_tile > 0 && self.ct_k > 0
        &&& self.k % self.k_tile == 0
        &&& self.n % self.n_tile == 0
        &&& self.k_tile % self.ct_k == 0
        &&& self.ct_k % 8 == 0
        &&& self.n_tile % 8 == 0
    }

    /// Blocks of a column block.
    pub open spec fn blocks(self) -> nat {
        (self.k / self.k_tile) * (self.k_tile / self.ct_k) * (self.n_tile / 8) * (self.ct_k / 8) * 8
    }

    /// Bytes of the bias chunk in front of a column block.
    pub open spec fn chunk(self) -> nat {
        self.ct_k * self.n_tile / 8 * 9
    }

    /// The first row of block `j`: blocks run over the tile, the slice, the
    /// columns by eight, the rows by eight, and the eight columns.
    pub open spec fn block_row(self, j: int) -> int {
        let (a, t, s) = ((self.ct_k / 8) as int, (self.n_tile / 8) as int, (self.k_tile / self.ct_k) as int);
        (j / 8 / a / t / s) * self.k_tile + (j / 8 / a / t % s) * self.ct_k + (j / 8 % a) * 8
    }

    /// The column of block `j` inside its column block.
    pub open spec fn block_column(self, j: int) -> int {
        let (a, t) = ((self.ct_k / 8) as int, (self.n_tile / 8) as int);
        (j / 8 / a % t) * 8 + j % 8
    }
}

pub open spec fn tiling(g: GemmSpec) -> Tiling {
    Tiling {
        k: g.k as nat,
        n: g.n as nat,
        k_tile: g.tile_k as nat,
        n_tile: g.tile_n as nat,
        ct_k: g.ct_k as nat,
    }
}

/// The eight values of block `j` of column block `cb`.
pub open spec fn block_values(b: Seq<u32>, t: Tiling, cb: int, j: int) -> Seq<u32> {
    Seq::new(8, |s: int| b[(t.block_row(j) + s) * t.n + cb * t.n_tile + t.block_column(j)])
}

/// The first `n` blocks of a column block.
pub open spec fn packed_blocks(b: Seq<u32>, t: Tiling, cb: int, n: nat) -> Seq<u8>
    decreases n,
{
    if n == 0 {
        seq![]
    } else {
        packed_blocks(b, t, cb, (n - 1) as nat) + block_of(block_values(b, t, cb, n - 1))
    }
}

/// The bias chunk of a column block: a bf16 per column, then zeros.
pub open spec fn bias_chunk(bias: Seq<u32>, t: Tiling, cb: int) -> Seq<u8> {
    Seq::new(
        t.chunk(),
        |i: int|
            if i < 2 * t.n_tile {
                let h = narrow(bias[cb * t.n_tile + i / 2]);
                if i % 2 == 0 {
                    (h % 0x100) as u8
                } else {
                    (h / 0x100) as u8
                }
            } else {
                0
            },
    )
}

/// The first `n` column blocks.
pub open spec fn packed_columns(b: Seq<u32>, bias: Option<Seq<u32>>, t: Tiling, n: nat) -> Seq<u8>
    decreases n,
{
    if n == 0 {
        seq![]
    } else {
        let cb = n - 1;
        packed_columns(b, bias, t, cb as nat) + (match bias {
            Some(v) => bias_chunk(v, t, cb),
            None => seq![],
        }) + packed_blocks(b, t, cb, t.blocks())
    }
}

/// Block `j` reads rows and columns of the matrix.
proof fn block_bounds(t: Tiling, cb: int, j: int)
    requires
        t.wf(),
        0 <= j < t.blocks(),
        0 <= cb < t.n / t.n_tile,
    ensures
        0 <= t.block_row(j),
        t.block_row(j) + 8 <= t.k,
        0 <= t.block_column(j) < t.n_tile,
        0 <= cb * t.n_tile,
        cb * t.n_tile + t.n_tile <= t.n,
        0 <= j / 8 / ((t.ct_k / 8) as int) / ((t.n_tile / 8) as int),
        t.ct_k / 8 > 0 && t.n_tile / 8 > 0 && t.k_tile / t.ct_k > 0,
{
    let (kb, s, tt, a) = (
        (t.k / t.k_tile) as int,
        (t.k_tile / t.ct_k) as int,
        (t.n_tile / 8) as int,
        (t.ct_k / 8) as int,
    );
    vstd::arithmetic::div_mod::lemma_fundamental_div_mod(t.k as int, t.k_tile as int);
    vstd::arithmetic::div_mod::lemma_fundamental_div_mod(t.k_tile as int, t.ct_k as int);
    vstd::arithmetic::div_mod::lemma_fundamental_div_mod(t.n as int, t.n_tile as int);
    let (kt, ck) = (t.k_tile as int, t.ct_k as int);
    assert(s > 0) by (nonlinear_arith)
        requires
            kt == ck * s,
            kt > 0,
            ck > 0,
    ;
    index_parts(j, kb * s * tt * a, 8);
    index_parts(j / 8, kb * s * tt, a);
    index_parts(j / 8 / a, kb * s, tt);
    index_parts(j / 8 / a / tt, kb, s);
    let (x, y, z) = (j / 8 / a / tt / s, j / 8 / a / tt % s, j / 8 % a);
    index_bound(z, 7, a, 8);
    index_bound(y, z * 8 + 7, s, ck);
    index_bound(x, y * ck + z * 8 + 7, kb, kt);
    assert(s * ck == kt && kb * kt == t.k) by (nonlinear_arith)
        requires
            kt == ck * s,
            t.k == kt * kb,
    ;
    assert(0 <= x * kt && 0 <= y * ck) by (nonlinear_arith)
        requires
            x >= 0,
            y >= 0,
            kt >= 0,
            ck >= 0,
    ;
    index_bound(j / 8 / a % tt, j % 8, tt, 8);
    let nb = (t.n / t.n_tile) as int;
    let nt = t.n_tile as int;
    index_bound(cb, nt - 1, nb, nt);
    assert(nb * nt == t.n && 0 <= cb * nt) by (nonlinear_arith)
        requires
            t.n == nt * nb,
            cb >= 0,
            nt >= 0,
    ;
}

/// Whether the packed size fits the machine.
pub open spec fn pack_fits(t: Tiling) -> bool {
    &&& t.k * t.n <= usize::MAX
    &&& t.ct_k * t.n_tile / 8 * 9 <= usize::MAX
    &&& t.blocks() <= usize::MAX
    &&& t.ct_k * t.n_tile <= usize::MAX
}

fn push_block(b: &Vec<u32>, g: &GemmSpec, cb: usize, j: usize, out: &mut Vec<u8>)
    requires
        tiling(*g).wf(),
        b.len() == g.k * g.n,
        j < tiling(*g).blocks(),
        cb < g.n / g.tile_n,
    ensures
        final(out)@ == old(out)@ + block_of(block_values(b@, tiling(*g), cb as int, j as int)),
{
    let ghost t = tiling(*g);
    proof {
        block_bounds(t, cb as int, j as int);
    }
    let a: usize = g.ct_k / 8;
    let tt: usize = g.tile_n / 8;
    let s: usize = g.tile_k / g.ct_k;
    proof {
        let (x, y, z) = (
            (j / 8 / a / tt / s) as int,
            (j / 8 / a / tt % s) as int,
            (j / 8 % a) as int,
        );
        assert(0 <= x * g.tile_k && 0 <= y * g.ct_k) by (nonlinear_arith)
            requires
                x >= 0,
                y >= 0,
        ;
    }
    let row: usize = (j / 8 / a / tt / s) * g.tile_k + (j / 8 / a / tt % s) * g.ct_k + (j / 8 % a) * 8;
    let col: usize = cb * g.tile_n + (j / 8 / a % tt) * 8 + j % 8;
    let mut v: Vec<u32> = Vec::new();
    let mut i: usize = 0;
    while i < 8
        invariant
            t == tiling(*g),
            b.len() == g.k * g.n,
            row == t.block_row(j as int),
            col == cb * t.n_tile + t.block_column(j as int),
            row + 8 <= g.k,
            col < g.n,
            i <= 8,
            v@ =~= block_values(b@, t, cb as int, j as int).take(i as int),
        decreases 8 - i,
    {
        proof {
            index_bound(row + i, col as int, g.k as int, g.n as int);
            assert((row + i) * g.n >= 0) by (nonlinear_arith)
                requires
                    row + i >= 0,
            ;
        }
        v.push(b[(row + i) * g.n + col]);
        i += 1;
    }
    proof {
        assert(v@ =~= block_values(b@, t, cb as int, j as int));
    }
    let mut bytes: Vec<u8> = block(&v);
    out.append(&mut bytes);
}

fn push_bias(bias: &Vec<u32>, g: &GemmSpec, cb: usize, out: &mut Vec<u8>)
    requires
        tiling(*g).wf(),
        pack_fits(tiling(*g)),
        bias.len() >= g.n,
        cb < g.n / g.tile_n,
    ensures
        final(out)@ == old(out)@ + bias_chunk(bias@, tiling(*g), cb as int),
{
    let ghost t = tiling(*g);
    let ghost before = out@;
    let chunk: usize = g.ct_k * g.tile_n / 8 * 9;
    proof {
        vstd::arithmetic::div_mod::lemma_fundamental_div_mod(t.n as int, t.n_tile as int);
        let (nb, nt) = ((t.n / t.n_tile) as int, t.n_tile as int);
        index_bound(cb as int, nt - 1, nb, nt);
        assert(nb * nt == t.n && 0 <= cb * nt) by (nonlinear_arith)
            requires
                t.n == nt * nb,
                cb >= 0,
                nt >= 0,
        ;
    }
    let mut i: usize = 0;
    while i < chunk
        invariant
            t == tiling(*g),
            chunk == t.chunk(),
            bias.len() >= g.n,
            0 <= cb * t.n_tile,
            cb * t.n_tile + t.n_tile <= g.n,
            i <= chunk,
            out@ =~= before + bias_chunk(bias@, t, cb as int).take(i as int),
        decreases chunk - i,
    {
        if i / 2 < g.tile_n {
            let h: u16 = f32_to_bf16(bias[cb * g.tile_n + i / 2]);
            if i % 2 == 0 {
                out.push((h % 0x100) as u8);
            } else {
                out.push((h / 0x100) as u8);
            }
        } else {
            out.push(0);
        }
        i += 1;
    }
    proof {
        assert(bias_chunk(bias@, t, cb as int).take(i as int) =~= bias_chunk(bias@, t, cb as int));
    }
}

pub open spec fn opt_seq(o: Option<&Vec<u32>>) -> Option<Seq<u32>> {
    match o {
        Some(v) => Some(v@),
        None => None,
    }
}

/// Packs `b`, row-major `[K, N]`, for `g`'s tiling.
pub fn pack_b(g: &GemmSpec, b: &Vec<u32>, bias: Option<&Vec<u32>>) -> (r: Vec<u8>)
    requires
        tiling(*g).wf(),
        pack_fits(tiling(*g)),
        b.len() == g.k * g.n,
        bias matches Some(v) ==> v.len() >= g.n,
    ensures
        r@ == packed_columns(b@, opt_seq(bias), tiling(*g), (g.n / g.tile_n) as nat),
{
    let ghost t = tiling(*g);
    let n_blocks: usize = g.n / g.tile_n;
    let (kb, s, tt, a): (usize, usize, usize, usize) = (g.k / g.tile_k, g.tile_k / g.ct_k, g.tile_n / 8, g.ct_k / 8);
    proof {
        blocks_fit(t);
    }
    let per: usize = kb * s * tt * a * 8;
    let mut out: Vec<u8> = Vec::new();
    let mut cb: usize = 0;
    while cb < n_blocks
        invariant
            t == tiling(*g),
            t.wf(),
            pack_fits(t),
            b.len() == g.k * g.n,
            bias matches Some(v) ==> v.len() >= g.n,
            n_blocks == g.n / g.tile_n,
            per == t.blocks(),
            cb <= n_blocks,
            out@ == packed_columns(b@, opt_seq(bias), t, cb as nat),
        decreases n_blocks - cb,
    {
        let ghost start = out@;
        let ghost front = match opt_seq(bias) {
            Some(v) => bias_chunk(v, t, cb as int),
            None => seq![],
        };
        if let Some(v) = bias {
            push_bias(v, g, cb, &mut out);
        } else {
            proof {
                assert(start + Seq::<u8>::empty() =~= start);
            }
        }
        proof {
            assert(start + front + packed_blocks(b@, t, cb as int, 0) =~= start + front);
        }
        let mut j: usize = 0;
        while j < per
            invariant
                t == tiling(*g),
                t.wf(),
                b.len() == g.k * g.n,
                cb < n_blocks,
                n_blocks == g.n / g.tile_n,
                per == t.blocks(),
                j <= per,
                out@ == start + front + packed_blocks(b@, t, cb as int, j as nat),
            decreases per - j,
        {
            push_block(b, g, cb, j, &mut out);
            proof {
                let p = packed_blocks(b@, t, cb as int, j as nat);
                let q = block_of(block_values(b@, t, cb as int, j as int));
                assert((start + front + p) + q =~= start + front + (p + q));
            }
            j += 1;
        }
        cb += 1;
    }
    out
}

/// The partial products of the block count fit where it does.
proof fn blocks_fit(t: Tiling)
    requires
        t.wf(),
        pack_fits(t),
    ensures
        ({
            let (kb, s, tt, a) = (t.k / t.k_tile, t.k_tile / t.ct_k, t.n_tile / 8, t.ct_k / 8);
            &&& kb * s <= usize::MAX
            &&& kb * s * tt <= usize::MAX
            &&& kb * s * tt * a <= usize::MAX
        }),
{
    let (kb, s, tt, a) = (t.k / t.k_tile, t.k_tile / t.ct_k, t.n_tile / 8, t.ct_k / 8);
    vstd::arithmetic::div_mod::lemma_fundamental_div_mod(t.n_tile as int, 8);
    vstd::arithmetic::div_mod::lemma_fundamental_div_mod(t.ct_k as int, 8);
    assert(tt >= 1 && a >= 1);
    let x = kb * s;
    assert(x * tt >= x && x * tt * a >= x * tt && x * tt * a * 8 >= x * tt * a) by (nonlinear_arith)
        requires
            tt >= 1,
            a >= 1,
            x >= 0,
    ;
}

/// The packed matrix has nine bytes a block, after a chunk of biases for
/// each column block where there are any.
pub proof fn packed_size(b: Seq<u32>, bias: Option<Seq<u32>>, t: Tiling, n: nat)
    ensures
        packed_columns(b, bias, t, n).len() == n * ((if bias is Some {
            t.chunk()
        } else {
            0
        }) + 9 * t.blocks()),
    decreases n,
{
    let each = (if bias is Some {
        t.chunk()
    } else {
        0
    }) + 9 * t.blocks();
    if n == 0 {
        assert(0 * each == 0);
    } else {
        packed_size(b, bias, t, (n - 1) as nat);
        blocks_size(b, t, n - 1, t.blocks());
        assert(n * each == (n - 1) * each + each) by (nonlinear_arith);
    }
}

proof fn blocks_size(b: Seq<u32>, t: Tiling, cb: int, n: nat)
    ensures
        packed_blocks(b, t, cb, n).len() == 9 * n,
    decreases n,
{
    if n > 0 {
        blocks_size(b, t, cb, (n - 1) as nat);
    }
}

} // verus!
