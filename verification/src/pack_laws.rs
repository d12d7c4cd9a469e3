//! What a packed matrix holds: where every weight and bias stands, and how
//! near the packed value is.

use crate::arith::{index_bound, split_index};
use crate::bf16::narrow;
use crate::pack::{
    bias_chunk, block_of, block_values, byte_of, exponent, mantissa, packed_blocks, packed_columns, packed_size, rounded_even,
    rounding_is_nearest, significand, tiling, top_exponent, Tiling,
};
use crate::sam3_bundle::GemmSpec;
use vstd::arithmetic::power2::{lemma_pow2_pos, pow2};
use vstd::prelude::*;

verus! {

/// A single-precision value's bits are its sign, its exponent and, but for
/// the hidden bit of a normal value, its significand.
pub proof fn parts_make_the_value(u: u32)
    ensures
        0 <= exponent(u) < 256,
        ({
            let s = significand(u);
            let size = if s < 0 {
                -s
            } else {
                s
            };
            let hidden = if exponent(u) == 0 {
                0int
            } else {
                0x80_0000
            };
            &&& 0 <= size - hidden < 0x80_0000
            &&& u % 0x8000_0000 == exponent(u) * 0x80_0000 + (size - hidden)
            &&& s < 0 ==> u >= 0x8000_0000
            &&& s > 0 ==> u < 0x8000_0000
        }),
{
}

/// The exponent that a block shares is the largest of its values': none
/// exceeds it, and one has it.
pub proof fn the_shared_exponent_is_the_largest(v: Seq<u32>)
    requires
        v.len() == 8,
    ensures
        forall|i: int| 0 <= i < 8 ==> exponent(#[trigger] v[i]) <= block_of(v)[0],
        exists|i: int| 0 <= i < 8 && exponent(#[trigger] v[i]) == block_of(v)[0],
{
    top_is_largest(v, 8);
}

proof fn top_is_largest(v: Seq<u32>, n: nat)
    requires
        n <= v.len(),
    ensures
        0 <= top_exponent(v, n) < 256,
        forall|i: int| 0 <= i < n ==> exponent(#[trigger] v[i]) <= top_exponent(v, n),
        n > 0 ==> exists|i: int| 0 <= i < n && exponent(#[trigger] v[i]) == top_exponent(v, n),
    decreases n,
{
    if n > 0 {
        top_is_largest(v, (n - 1) as nat);
        assert(exponent(v[n - 1]) <= top_exponent(v, n));
        if exponent(v[n - 1]) > top_exponent(v, (n - 1) as nat) {
            assert(exponent(v[n - 1]) == top_exponent(v, n));
        } else if n == 1 {
            assert(exponent(v[0]) == top_exponent(v, n));
        } else {
            let i = choose|i: int| 0 <= i < n - 1 && exponent(#[trigger] v[i]) == top_exponent(v, (n - 1) as nat);
            assert(exponent(v[i]) == top_exponent(v, n));
        }
    }
}

/// Under a shared exponent a value has the eight-bit mantissa nearest to it,
/// the even one of two: a step of the mantissa is worth a two to the
/// seventeenth of the significand, twice as much for every exponent that the
/// value is below the shared one. What lies beyond the largest and the
/// smallest mantissa has that one.
pub proof fn mantissas_are_nearest(u: u32, top: int)
    requires
        exponent(u) <= top < exponent(u) + 32,
    ensures
        -128 <= mantissa(u, top) <= 127,
        ({
            let step = 0x2_0000 * pow2((top - exponent(u)) as nat);
            let off = 2 * (mantissa(u, top) * step - significand(u));
            &&& mantissa(u, top) > -128 ==> off <= step
            &&& mantissa(u, top) < 127 ==> off >= -step
            &&& -128 < mantissa(u, top) < 127 && (off == step || off == -step) ==> mantissa(u, top) % 2 == 0
        }),
{
    let shift = (top - exponent(u)) as nat;
    let step = pow2(17 + shift) as int;
    lemma_pow2_pos(17 + shift);
    vstd::arithmetic::power2::lemma_pow2_adds(17, shift);
    vstd::arithmetic::power2::lemma2_to64();
    assert(step == 0x2_0000 * pow2(shift));
    let x = significand(u);
    rounding_is_nearest(x, step);
    let q = rounded_even(x, step);
    if q > 127 {
        assert(127 * step - x <= q * step - x) by (nonlinear_arith)
            requires
                q > 127,
                step > 0,
        ;
    }
    if q < -128 {
        assert(-128 * step - x >= q * step - x) by (nonlinear_arith)
            requires
                q < -128,
                step > 0,
        ;
    }
}

/// A value more than thirty-one exponents below the shared one is as good as
/// zero: its mantissa is zero, or the one below where it is negative.
pub proof fn tiny_values_vanish(u: u32, top: int)
    requires
        exponent(u) + 32 <= top,
    ensures
        significand(u) > 0 ==> mantissa(u, top) == 0,
        significand(u) < 0 ==> mantissa(u, top) == -1,
{
}

/// A block's mantissas are bytes in two's complement, in the values' order.
pub proof fn blocks_hold_their_mantissas(v: Seq<u32>, s: int)
    requires
        v.len() == 8,
        0 <= s < 8,
    ensures
        block_of(v).len() == 9,
        block_of(v)[s + 1] as int == mantissa(v[s], block_of(v)[0] as int) % 256,
{
    top_is_largest(v, 8);
    let m = mantissa(v[s], top_exponent(v, 8));
    assert(-128 <= m <= 127);
    assert(block_of(v)[s + 1] == byte_of(m));
}

/// The bytes of one column block.
pub open spec fn per_column_block(biased: bool, t: Tiling) -> int {
    (if biased {
        t.chunk() as int
    } else {
        0
    }) + 9 * t.blocks()
}

/// Where a column block's first packed weight stands.
pub open spec fn first_block(biased: bool, t: Tiling, cb: int) -> int {
    cb * per_column_block(biased, t) + (if biased {
        t.chunk() as int
    } else {
        0
    })
}

proof fn column_block_at(b: Seq<u32>, bias: Option<Seq<u32>>, t: Tiling, n: nat, cb: int, i: int)
    requires
        0 <= cb < n,
        0 <= i < per_column_block(bias is Some, t),
    ensures
        0 <= cb * per_column_block(bias is Some, t) + i < packed_columns(b, bias, t, n).len(),
        packed_columns(b, bias, t, n)[cb * per_column_block(bias is Some, t) + i] == ((match bias {
            Some(v) => bias_chunk(v, t, cb),
            None => seq![],
        }) + packed_blocks(b, t, cb, t.blocks()))[i],
    decreases n,
{
    let each = per_column_block(bias is Some, t);
    packed_size(b, bias, t, n);
    packed_size(b, bias, t, (n - 1) as nat);
    assert(n * each == (n - 1) * each + each) by (nonlinear_arith);
    index_bound(cb, i, n as int, each);
    block_at(b, t, cb, t.blocks(), 0, 0);
    if cb < n - 1 {
        column_block_at(b, bias, t, (n - 1) as nat, cb, i);
    }
}

proof fn block_at(b: Seq<u32>, t: Tiling, cb: int, n: nat, j: int, i: int)
    ensures
        packed_blocks(b, t, cb, n).len() == 9 * n,
        0 <= j < n && 0 <= i < 9 ==> packed_blocks(b, t, cb, n)[9 * j + i] == block_of(block_values(b, t, cb, j))[i],
    decreases n,
{
    if n > 0 {
        block_at(b, t, cb, (n - 1) as nat, j, i);
    }
}

/// Every weight stands in its place: the packed matrix runs over column
/// blocks, and in each over the tiles of rows, their slices, the columns by
/// eight, the rows by eight and the eight columns, with nine bytes for every
/// eight rows. The byte of row `8 * kb + s` of a slice is the mantissa of the
/// weight in that row and column, under the exponent in front of it.
pub proof fn every_weight_is_in_its_place(
    b: Seq<u32>,
    bias: Option<Seq<u32>>,
    t: Tiling,
    cb: int,
    kt: int,
    sl: int,
    nb: int,
    kb: int,
    c8: int,
    s: int,
)
    requires
        t.wf(),
        0 <= cb < t.n / t.n_tile,
        0 <= kt < t.k / t.k_tile,
        0 <= sl < t.k_tile / t.ct_k,
        0 <= nb < t.n_tile / 8,
        0 <= kb < t.ct_k / 8,
        0 <= c8 < 8,
        0 <= s < 8,
    ensures
        ({
            let row = kt * t.k_tile + sl * t.ct_k + kb * 8 + s;
            let col = cb * t.n_tile + nb * 8 + c8;
            let j = ((((kt * (t.k_tile / t.ct_k) + sl) * (t.n_tile / 8) + nb) * (t.ct_k / 8)) + kb) * 8 + c8;
            let at = first_block(bias is Some, t, cb) + 9 * j;
            let packed = packed_columns(b, bias, t, t.n / t.n_tile);
            &&& packed[at + 1 + s] as int == mantissa(b[row * t.n + col], packed[at] as int) % 256
            &&& packed[at] >= exponent(b[row * t.n + col])
        }),
{
    let (a, tn, sn, kn) = ((t.ct_k / 8) as int, (t.n_tile / 8) as int, (t.k_tile / t.ct_k) as int, (t.k / t.k_tile) as int);
    let p1 = kt * sn + sl;
    let p2 = p1 * tn + nb;
    let p3 = p2 * a + kb;
    let j = p3 * 8 + c8;
    split_index(p3, c8, 8);
    split_index(p2, kb, a);
    split_index(p1, nb, tn);
    split_index(kt, sl, sn);
    assert(j / 8 == p3 && j / 8 / a == p2 && j / 8 / a / tn == p1);
    index_bound(kt, sl, kn, sn);
    index_bound(p1, nb, kn * sn, tn);
    index_bound(p2, kb, kn * sn * tn, a);
    index_bound(p3, c8, kn * sn * tn * a, 8);
    assert(t.blocks() == kn * sn * tn * a * 8);
    let n = t.n / t.n_tile;
    let v = block_values(b, t, cb, j);
    let chunk = if bias is Some {
        t.chunk() as int
    } else {
        0
    };
    column_block_at(b, bias, t, n, cb, chunk + 9 * j);
    column_block_at(b, bias, t, n, cb, chunk + 9 * j + 1 + s);
    block_at(b, t, cb, t.blocks(), j, 0);
    block_at(b, t, cb, t.blocks(), j, 1 + s);
    assert(9 * j + (1 + s) == 9 * j + 1 + s);
    blocks_hold_their_mantissas(v, s);
    the_shared_exponent_is_the_largest(v);
    let row = kt * t.k_tile + sl * t.ct_k + kb * 8 + s;
    let col = cb * t.n_tile + nb * 8 + c8;
    assert(t.block_row(j) + s == row);
    assert(t.block_column(j) == nb * 8 + c8);
    assert(v[s] == b[row * t.n + col]);
}

/// In front of every column block stands a bfloat16 bias for each of its
/// columns, the lower byte first, and zeros up to the first weight.
pub proof fn every_bias_is_in_its_place(b: Seq<u32>, bias: Seq<u32>, t: Tiling, cb: int, i: int)
    requires
        t.wf(),
        0 <= cb < t.n / t.n_tile,
        2 * t.n_tile <= t.chunk(),
    ensures
        ({
            let start = cb * per_column_block(true, t);
            let packed = packed_columns(b, Some(bias), t, t.n / t.n_tile);
            &&& 0 <= i < t.n_tile ==> packed[start + 2 * i] + 256 * packed[start + 2 * i + 1] == narrow(bias[cb * t.n_tile + i])
            &&& 2 * t.n_tile <= i < t.chunk() ==> packed[start + i] == 0
        }),
{
    let n = t.n / t.n_tile;
    if 0 <= i < t.n_tile {
        column_block_at(b, Some(bias), t, n, cb, 2 * i);
        column_block_at(b, Some(bias), t, n, cb, 2 * i + 1);
        let h = narrow(bias[cb * t.n_tile + i]);
        assert(2 * i / 2 == i && (2 * i + 1) / 2 == i);
        assert(h % 0x100 + 256 * (h / 0x100) == h);
    }
    if 2 * t.n_tile <= i < t.chunk() {
        column_block_at(b, Some(bias), t, n, cb, i);
    }
}

/// A GEMM is packed in the tiles that it says it reads.
pub proof fn a_gemm_is_tiled_as_it_says(g: GemmSpec)
    ensures
        tiling(g).k == g.k && tiling(g).n == g.n,
        tiling(g).k_tile == g.tile_k && tiling(g).n_tile == g.tile_n && tiling(g).ct_k == g.ct_k,
        tiling(g).wf() ==> tiling(g).blocks() * 8 * (tiling(g).n / tiling(g).n_tile) == g.k * g.n,
{
    let t = tiling(g);
    if t.wf() {
        let (kb, sl, nb, kk, cb) = (t.k / t.k_tile, t.k_tile / t.ct_k, t.n_tile / 8, t.ct_k / 8, t.n / t.n_tile);
        vstd::arithmetic::div_mod::lemma_fundamental_div_mod(t.k as int, t.k_tile as int);
        vstd::arithmetic::div_mod::lemma_fundamental_div_mod(t.k_tile as int, t.ct_k as int);
        vstd::arithmetic::div_mod::lemma_fundamental_div_mod(t.n as int, t.n_tile as int);
        let (k, n, kt, nt, ct) = (t.k, t.n, t.k_tile, t.n_tile, t.ct_k);
        assert(kb * sl * nb * kk * 8 * 8 * cb == k * n) by (nonlinear_arith)
            requires
                k == kt * kb,
                kt == ct * sl,
                n == nt * cb,
                nt == 8 * nb,
                ct == 8 * kk,
        ;
    }
}

} // verus!
