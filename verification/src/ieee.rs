//! Binary floating-point arithmetic on non-negative values, rounded to
//! nearest and ties to even, in integers.
//!
//! Candidate crops and resize targets are defined by what double (or
//! single) precision computes, roundings included. The values here are
//! exact: a number is `m * 2^e`, its significand `m` in `b .. 2b` where
//! `b` is a power of two (`DOUBLE`, `SINGLE`), or zero. The ranges the
//! callers reach are far inside both formats' exponents.

use vstd::arithmetic::power2::{
    lemma_pow2_adds, lemma_pow2_pos, lemma_pow2_strictly_increases, lemma_pow2_unfold, pow2,
};
use vstd::prelude::*;

verus! {

/// The least significand of double precision.
pub const DOUBLE: u64 = 0x10_0000_0000_0000;

/// The least significand of single precision.
pub const SINGLE: u64 = 0x80_0000;

/// `n / d`, rounded to the nearest integer, ties to even.
pub open spec fn half_even(n: nat, d: nat) -> nat {
    let q = n / d;
    let r = n % d;
    if 2 * r > d || (2 * r == d && q % 2 == 1) {
        q + 1
    } else {
        q
    }
}

/// The value `m * 2^e`.
pub struct Real {
    pub m: nat,
    pub e: int,
}

/// How far `n / d` is from the range `b .. 2b`.
pub open spec fn gap(b: nat, n: nat, d: nat) -> nat {
    if n < d * b {
        (d * b - n) as nat
    } else if n >= 2 * (d * b) {
        (n - 2 * (d * b) + 1) as nat
    } else {
        0
    }
}

/// The representable value nearest to `n / d * 2^e`, ties to even: scaled
/// so that the significand lies in `b .. 2b`, then rounded.
pub open spec fn rounded(b: nat, n: nat, d: nat, e: int) -> Real
    decreases gap(b, n, d),
    when b > 0 && n > 0 && d > 0
    via rounded_ends
{
    if n < d * b {
        rounded(b, 2 * n, d, e - 1)
    } else if n >= 2 * (d * b) {
        rounded(b, n, 2 * d, e + 1)
    } else {
        let q = half_even(n, d);
        if q == 2 * b {
            Real { m: b, e: e + 1 }
        } else {
            Real { m: q, e }
        }
    }
}

#[via_fn]
proof fn rounded_ends(b: nat, n: nat, d: nat, e: int) {
    doubled(b, d);
}

proof fn doubled(b: nat, d: nat)
    ensures
        (2 * d) * b == 2 * (d * b),
        b > 0 && d > 0 ==> d * b > 0,
{
    let t = d * b;
    assert((2 * d) * b == 2 * t) by (nonlinear_arith)
        requires
            t == d * b,
    ;
    if b > 0 && d > 0 {
        assert(t > 0) by (nonlinear_arith)
            requires
                t == d * b,
                d > 0,
                b > 0,
        ;
    }
}

pub open spec fn zero() -> Real {
    Real { m: 0, e: 0 }
}

/// The value of the integer `n`.
pub open spec fn of_int(b: nat, n: nat) -> Real {
    if n == 0 {
        zero()
    } else {
        rounded(b, n, 1, 0)
    }
}

pub open spec fn product(b: nat, x: Real, y: Real) -> Real {
    if x.m == 0 || y.m == 0 {
        zero()
    } else {
        rounded(b, x.m * y.m, 1, x.e + y.e)
    }
}

/// `x / y`, for `y` not zero.
pub open spec fn quotient(b: nat, x: Real, y: Real) -> Real {
    if x.m == 0 {
        zero()
    } else {
        rounded(b, x.m, y.m, x.e - y.e)
    }
}

/// `x * 2^k`, which is exact.
pub open spec fn scaled(x: Real, k: int) -> Real {
    if x.m == 0 {
        zero()
    } else {
        Real { m: x.m, e: x.e + k }
    }
}

/// The integer part.
pub open spec fn floor(x: Real) -> nat {
    if x.e >= 0 {
        x.m * pow2(x.e as nat)
    } else {
        x.m / pow2((-x.e) as nat)
    }
}

/// The nearest integer, ties to even.
pub open spec fn nearest_int(x: Real) -> nat {
    if x.e >= 0 {
        x.m * pow2(x.e as nat)
    } else {
        half_even(x.m, pow2((-x.e) as nat))
    }
}

/// `n / d`, rounded to the nearest integer, ties up.
pub open spec fn half_up(n: nat, d: nat) -> nat {
    if 2 * (n % d) >= d {
        n / d + 1
    } else {
        n / d
    }
}

/// The nearest integer, ties up.
pub open spec fn nearest_up(x: Real) -> nat {
    if x.e >= 0 {
        x.m * pow2(x.e as nat)
    } else {
        half_up(x.m, pow2((-x.e) as nat))
    }
}

/// Whether `x < y`.
pub open spec fn less(x: Real, y: Real) -> bool {
    if x.e >= y.e {
        x.m * pow2((x.e - y.e) as nat) < y.m
    } else {
        x.m < y.m * pow2((y.e - x.e) as nat)
    }
}

/// A computed value, executable.
#[derive(Debug, Clone, Copy)]
pub struct Num {
    pub m: u64,
    pub e: i64,
}

impl View for Num {
    type V = Real;

    open spec fn view(&self) -> Real {
        Real { m: self.m as nat, e: self.e as int }
    }
}

impl Num {
    /// Zero, or with a significand in `b .. 2b` and an exponent within
    /// `bound`.
    pub open spec fn wf(&self, b: nat, bound: int) -> bool {
        (self.m == 0 && self.e == 0) || (b <= self.m < 2 * b && -bound <= self.e <= bound)
    }
}

fn half_even_of(n: u128, d: u128) -> (r: u128)
    requires
        0 < d < 0x8000_0000_0000_0000_0000_0000_0000_0000,
        n < 0x8000_0000_0000_0000_0000_0000_0000_0000,
    ensures
        r == half_even(n as nat, d as nat),
{
    let q: u128 = n / d;
    let r: u128 = n % d;
    proof {
        assert(q <= n) by (nonlinear_arith)
            requires
                q == n / d,
                d >= 1,
        ;
    }
    if 2 * r > d || (2 * r == d && q % 2 == 1) {
        q + 1
    } else {
        q
    }
}

proof fn small_power(k: nat, n: nat)
    requires
        pow2(k) <= n,
        n < 0x1_0000_0000_0000_0000_0000_0000_0000_0000,
    ensures
        k < 128,
{
    if k >= 128 {
        if k > 128 {
            lemma_pow2_strictly_increases(128, k);
        }
        lemma_pow2_adds(64, 64);
        vstd::arithmetic::power2::lemma2_to64();
    }
}

/// `n / d * 2^e`, rounded.
fn round(b: u64, n0: u128, d0: u128, e0: i64) -> (r: Num)
    requires
        0 < b <= DOUBLE,
        0 < n0 < 0x1000_0000_0000_0000_0000_0000_0000_0000,
        0 < d0 < 0x1000_0000_0000_0000,
        -1_000_000 < e0 < 1_000_000,
    ensures
        r@ == rounded(b as nat, n0 as nat, d0 as nat, e0 as int),
        r.wf(b as nat, if e0 >= 0 { e0 + 130 } else { 130 - e0 }),
        r.m > 0,
{
    let bb: u128 = b as u128;
    let ghost bi = b as int;
    let mut n: u128 = n0;
    let mut d: u128 = d0;
    let mut e: i64 = e0;
    let ghost mut k: nat = 0;
    proof {
        lemma_pow2_pos(0);
        vstd::arithmetic::power2::lemma2_to64();
        assert(d * bi <= 0x1000_0000_0000_0000 * 0x10_0000_0000_0000) by (nonlinear_arith)
            requires
                0 < d < 0x1000_0000_0000_0000,
                0 < bi <= 0x10_0000_0000_0000,
        ;
    }
    while n < d * bb
        invariant
            0 < b <= DOUBLE,
            bb == b,
            bi == b,
            0 < n,
            0 < d < 0x1000_0000_0000_0000,
            d * bi <= 0x1000_0000_0000_0000 * 0x10_0000_0000_0000,
            n < 0x1000_0000_0000_0000_0000_0000_0000_0000,
            rounded(b as nat, n0 as nat, d0 as nat, e0 as int) == rounded(b as nat, n as nat, d as nat, e as int),
            -1_000_000 < e0 < 1_000_000,
            e == e0 - k,
            pow2(k) <= n,
            k <= 128,
            k > 0 ==> n < 2 * (d * bi),
        decreases gap(b as nat, n as nat, d as nat),
    {
        proof {
            lemma_pow2_unfold(k + 1);
            small_power(k, n as nat);
        }
        n = n * 2;
        e = e - 1;
        proof {
            k = k + 1;
        }
    }
    let ghost down = k;
    proof {
        k = 0;
        lemma_pow2_pos(0);
        assert(pow2(0) == 1);
        small_power(down, n as nat);
        assert(d * bi >= 1) by (nonlinear_arith)
            requires
                d >= 1,
                bi >= 1,
        ;
    }
    while n >= 2 * (d * bb)
        invariant
            0 < b <= DOUBLE,
            bb == b,
            bi == b,
            0 < n < 0x1000_0000_0000_0000_0000_0000_0000_0000,
            0 < d,
            d * bi <= n,
            rounded(b as nat, n0 as nat, d0 as nat, e0 as int) == rounded(b as nat, n as nat, d as nat, e as int),
            -1_000_000 < e0 < 1_000_000,
            down < 128,
            e == e0 - down + k,
            down > 0 ==> k == 0 && n < 2 * (d * bi),
            pow2(k) <= d,
            k <= 128,
        decreases n - d * bb,
    {
        proof {
            lemma_pow2_unfold(k + 1);
            assert(d <= n) by (nonlinear_arith)
                requires
                    d * bi <= n,
                    bi >= 1,
                    d > 0,
            ;
            small_power(k, d as nat);
            assert((2 * d) * bi == 2 * (d * bi)) by (nonlinear_arith);
            assert((2 * d) * b as nat == 2 * (d * b as nat)) by (nonlinear_arith);
            assert(d * bi > 0) by (nonlinear_arith)
                requires
                    d > 0,
                    bi > 0,
            ;
        }
        d = 2 * d;
        e = e + 1;
        proof {
            k = k + 1;
        }
    }
    proof {
        assert(d <= n) by (nonlinear_arith)
            requires
                d * bi <= n,
                bi >= 1,
                d > 0,
        ;
        small_power(k, d as nat);
    }
    let q: u128 = half_even_of(n, d);
    proof {
        assert(bi <= q <= 2 * bi) by {
            let fq = n as int / d as int;
            vstd::arithmetic::div_mod::lemma_fundamental_div_mod(n as int, d as int);
            assert(bi <= fq < 2 * bi) by (nonlinear_arith)
                requires
                    d * bi <= n < 2 * (d * bi),
                    d > 0,
                    n == d * fq + (n as int) % (d as int),
                    0 <= (n as int) % (d as int) < d,
            ;
        }
    }
    if q == 2 * bb {
        Num { m: b, e: e + 1 }
    } else {
        Num { m: q as u64, e }
    }
}

/// A rounded value has a significand in range.
pub proof fn rounded_in_range(b: nat, n: nat, d: nat, e: int)
    requires
        b > 0,
        n > 0,
        d > 0,
    ensures
        b <= rounded(b, n, d, e).m < 2 * b,
    decreases gap(b, n, d),
{
    doubled(b, d);
    if n < d * b {
        rounded_in_range(b, 2 * n, d, e - 1);
    } else if n >= 2 * (d * b) {
        rounded_in_range(b, n, 2 * d, e + 1);
    } else {
        vstd::arithmetic::div_mod::lemma_fundamental_div_mod(n as int, d as int);
        let q = n / d;
        assert(b <= q < 2 * b) by (nonlinear_arith)
            requires
                d * b <= n < 2 * (d * b),
                d > 0,
                n == d * q + n % d,
                0 <= n % d < d,
        ;
    }
}

/// Whether the value is at least the integer `k`.
pub open spec fn at_least(x: Real, k: nat) -> bool {
    if x.e >= 0 {
        x.m * pow2(x.e as nat) >= k
    } else {
        x.m >= k * pow2((-x.e) as nat)
    }
}

/// Whether the value is at most the integer `k`.
pub open spec fn at_most(x: Real, k: nat) -> bool {
    if x.e >= 0 {
        x.m * pow2(x.e as nat) <= k
    } else {
        x.m <= k * pow2((-x.e) as nat)
    }
}

/// Whether `n / d * 2^e` is at least `k`.
pub open spec fn ratio_at_least(n: nat, d: nat, e: int, k: nat) -> bool {
    if e >= 0 {
        n * pow2(e as nat) >= k * d
    } else {
        n >= (k * d) * pow2((-e) as nat)
    }
}

/// Whether `n / d * 2^e` is at most `k`.
pub open spec fn ratio_at_most(n: nat, d: nat, e: int, k: nat) -> bool {
    if e >= 0 {
        n * pow2(e as nat) <= k * d
    } else {
        n <= (k * d) * pow2((-e) as nat)
    }
}

proof fn times_one(n: nat)
    ensures
        pow2(0) == 1,
        n * pow2(0) == n,
{
    vstd::arithmetic::power2::lemma2_to64();
    let one = pow2(0);
    assert(n * one == n) by (nonlinear_arith)
        requires
            one == 1,
    ;
}

/// Scaling `n` up and the exponent down, or `d` up and the exponent up,
/// leaves the ratio.
proof fn ratio_scales(n: nat, d: nat, e: int, k: nat)
    ensures
        ratio_at_least(n, d, e, k) == ratio_at_least(2 * n, d, e - 1, k),
        ratio_at_most(n, d, e, k) == ratio_at_most(2 * n, d, e - 1, k),
        ratio_at_least(n, d, e, k) == ratio_at_least(n, 2 * d, e + 1, k),
        ratio_at_most(n, d, e, k) == ratio_at_most(n, 2 * d, e + 1, k),
{
    let kd = k * d;
    times_one(n);
    times_one(2 * n);
    times_one(kd);
    assert(k * (2 * d) == 2 * kd) by (nonlinear_arith)
        requires
            kd == k * d,
    ;
    if e >= 1 {
        lemma_pow2_unfold(e as nat);
        let p = pow2((e - 1) as nat);
        assert(n * (2 * p) == (2 * n) * p) by (nonlinear_arith);
    } else {
        lemma_pow2_unfold((1 - e) as nat);
        let p = pow2((-e) as nat);
        assert(kd * (2 * p) == 2 * (kd * p)) by (nonlinear_arith);
    }
    if e >= 0 {
        lemma_pow2_unfold((e + 1) as nat);
        let p = pow2(e as nat);
        assert(n * (2 * p) == 2 * (n * p)) by (nonlinear_arith);
    } else {
        lemma_pow2_unfold((-e) as nat);
        let p = pow2((-e - 1) as nat);
        assert((2 * kd) * p == kd * (2 * p)) by (nonlinear_arith);
        times_one(2 * kd);
    }
}

/// Rounding does not cross an integer of the significand's width.
pub proof fn rounded_bounds(b: nat, n: nat, d: nat, e: int, k: nat)
    requires
        b > 0,
        n > 0,
        d > 0,
        k <= b,
    ensures
        ratio_at_least(n, d, e, k) ==> at_least(rounded(b, n, d, e), k),
        ratio_at_most(n, d, e, k) ==> at_most(rounded(b, n, d, e), k),
    decreases gap(b, n, d),
{
    doubled(b, d);
    if n < d * b {
        ratio_scales(n, d, e, k);
        rounded_bounds(b, 2 * n, d, e - 1, k);
    } else if n >= 2 * (d * b) {
        ratio_scales(n, d, e, k);
        rounded_bounds(b, n, 2 * d, e + 1, k);
    } else {
        bounds_in_range(b, n, d, e, k);
    }
}

proof fn bounds_in_range(b: nat, n: nat, d: nat, e: int, k: nat)
    requires
        b > 0,
        d > 0,
        k <= b,
        d * b <= n < 2 * (d * b),
    ensures
        ratio_at_least(n, d, e, k) ==> at_least(rounded(b, n, d, e), k),
        ratio_at_most(n, d, e, k) ==> at_most(rounded(b, n, d, e), k),
{
    doubled(b, d);
    let q = n / d;
    let r = n % d;
    let m = half_even(n, d);
    vstd::arithmetic::div_mod::lemma_fundamental_div_mod(n as int, d as int);
    assert(b <= q < 2 * b) by (nonlinear_arith)
        requires
            d * b <= n < 2 * (d * b),
            d > 0,
            n == d * q + r,
            0 <= r < d,
    ;
    if e >= 0 {
        let p = pow2(e as nat);
        lemma_pow2_pos(e as nat);
        lemma_pow2_unfold((e + 1) as nat);
        assert(m * p >= k) by (nonlinear_arith)
            requires
                m >= b,
                b >= k,
                p >= 1,
        ;
        assert(b * (2 * p) == (2 * b) * p) by (nonlinear_arith);
        if n * p <= k * d {
            // only the bound itself is that small
            assert(n * p >= n) by (nonlinear_arith)
                requires
                    p >= 1,
            ;
            assert(n == d * b && k == b) by (nonlinear_arith)
                requires
                    n <= k * d,
                    k <= b,
                    d * b <= n,
                    d > 0,
            ;
            assert(p == 1) by (nonlinear_arith)
                requires
                    n * p <= k * d,
                    n == d * b,
                    k == b,
                    n > 0,
                    p >= 1,
            ;
            assert(d * b == b * d) by (nonlinear_arith);
            vstd::arithmetic::div_mod::lemma_fundamental_div_mod_converse(n as int, d as int, b as int, 0);
            assert(m == b);
            assert(b * 1 == b);
        }
    } else {
        let t = (-e) as nat;
        let p = pow2(t);
        lemma_pow2_pos(t);
        lemma_pow2_unfold(t);
        let j = k * p;
        assert((k * d) * p == j * d) by (nonlinear_arith)
            requires
                j == k * p,
        ;
        if n >= j * d {
            assert(q >= j) by (nonlinear_arith)
                requires
                    n >= j * d,
                    n == d * q + r,
                    0 <= r < d,
            ;
        }
        if n <= j * d {
            assert(q < j || (q == j && r == 0)) by (nonlinear_arith)
                requires
                    n <= j * d,
                    n == d * q + r,
                    0 <= r < d,
            ;
        }
        if m == 2 * b {
            let h = pow2((t - 1) as nat);
            assert(p == 2 * h);
            assert(k * (2 * h) == 2 * (k * h)) by (nonlinear_arith);
            vstd::arithmetic::power2::lemma2_to64();
            assert(b * 1 == b);
            assert(k * 1 == k);
        }
    }
}

/// Whether `r` is within a `2b`th of `n / d * 2^e`.
pub open spec fn close(b: nat, n: nat, d: nat, e: int, r: Real) -> bool {
    let s = r.e - e;
    if s >= 0 {
        near(b, n, (r.m * d) * pow2(s as nat))
    } else {
        near(b, n * pow2((-s) as nat), r.m * d)
    }
}

/// Whether `y` is within a `2b`th of `x`.
pub open spec fn near(b: nat, x: nat, y: nat) -> bool {
    (2 * b - 1) * x <= 2 * b * y <= (2 * b + 1) * x
}

proof fn near_scales(b: nat, x: nat, y: nat, k: nat)
    requires
        k > 0,
    ensures
        near(b, x, y) == near(b, x * k, y * k),
{
    let (lo, mid, hi) = ((2 * b - 1) * x, 2 * b * y, (2 * b + 1) * x);
    assert((2 * b - 1) * (x * k) == lo * k && 2 * b * (y * k) == mid * k && (2 * b + 1) * (x * k) == hi * k)
        by (nonlinear_arith)
        requires
            lo == (2 * b - 1) * x,
            mid == 2 * b * y,
            hi == (2 * b + 1) * x,
    ;
    assert((lo <= mid) == (lo * k <= mid * k) && (mid <= hi) == (mid * k <= hi * k)) by (nonlinear_arith)
        requires
            k > 0,
    ;
}

proof fn close_scales(b: nat, n: nat, d: nat, e: int, r: Real)
    ensures
        close(b, n, d, e, r) == close(b, 2 * n, d, e - 1, r),
        close(b, n, d, e, r) == close(b, n, 2 * d, e + 1, r),
{
    let s = r.e - e;
    let y = r.m * d;
    vstd::arithmetic::power2::lemma2_to64();
    assert(r.m * (2 * d) == 2 * y) by (nonlinear_arith)
        requires
            y == r.m * d,
    ;
    if s >= 0 {
        let p = pow2(s as nat);
        lemma_pow2_unfold((s + 1) as nat);
        near_scales(b, n, y * p, 2);
        assert(y * (2 * p) == (y * p) * 2) by (nonlinear_arith);
        assert(n * 2 == 2 * n);
        if s >= 1 {
            lemma_pow2_unfold(s as nat);
            let h = pow2((s - 1) as nat);
            assert((2 * y) * h == y * (2 * h)) by (nonlinear_arith);
        } else {
            assert(y * 1 == y);
        }
    } else {
        let t = (-s) as nat;
        let p = pow2(t);
        lemma_pow2_unfold(t);
        lemma_pow2_unfold(t + 1);
        let h = pow2((t - 1) as nat);
        assert((2 * n) * h == n * (2 * h)) by (nonlinear_arith);
        near_scales(b, n * p, y, 2);
        assert(n * (2 * p) == (n * p) * 2) by (nonlinear_arith);
        if t == 1 {
            assert(y * 1 == y);
            assert(n * 2 == 2 * n);
        }
    }
}

/// The error of a rounding is at most a `2b`th of the value.
pub proof fn rounded_close(b: nat, n: nat, d: nat, e: int)
    requires
        b > 0,
        n > 0,
        d > 0,
    ensures
        close(b, n, d, e, rounded(b, n, d, e)),
    decreases gap(b, n, d),
{
    doubled(b, d);
    let r = rounded(b, n, d, e);
    if n < d * b {
        rounded_close(b, 2 * n, d, e - 1);
        close_scales(b, n, d, e, r);
    } else if n >= 2 * (d * b) {
        rounded_close(b, n, 2 * d, e + 1);
        close_scales(b, n, d, e, r);
    } else {
        let q = n / d;
        let m = half_even(n, d);
        vstd::arithmetic::div_mod::lemma_fundamental_div_mod(n as int, d as int);
        let md = m * d;
        assert(n - md <= n % d && md - n <= d - n % d && (md == d * q || md == d * q + d)) by (nonlinear_arith)
            requires
                n == d * q + n % d,
                md == m * d,
                m == q || m == q + 1,
                0 <= n % d < d,
        ;
        assert(m * d == d * m) by (nonlinear_arith);
        assert(2 * (n - md) <= d && 2 * (md - n) <= d) by {
            if m == q {
                assert(md == d * q);
            } else {
                assert(m == q + 1);
                assert(d * (q + 1) == d * q + d) by (nonlinear_arith);
                assert(md == d * q + d);
            }
        }
        assert(near(b, n, md)) by (nonlinear_arith)
            requires
                2 * (n - md) <= d,
                2 * (md - n) <= d,
                d * b <= n,
                b > 0,
        ;
        vstd::arithmetic::power2::lemma2_to64();
        if m == 2 * b {
            assert((b * d) * 2 == md) by (nonlinear_arith)
                requires
                    md == m * d,
                    m == 2 * b,
            ;
        } else {
            assert(md * 1 == md);
        }
    }
}

/// An integer of the significand's width keeps its value.
pub proof fn of_int_exact(b: nat, n: nat)
    requires
        0 < n <= b,
    ensures
        of_int(b, n).m > 0,
        of_int(b, n).e <= 0,
        of_int(b, n).m == n * pow2((-of_int(b, n).e) as nat),
        at_most(of_int(b, n), n),
        at_least(of_int(b, n), n),
{
    rounded_in_range(b, n, 1, 0);
    times_one(n);
    exact_scaled(b, n, n, 0);
    times_one(of_int(b, n).m);
}

proof fn exact_scaled(b: nat, n0: nat, n: nat, k: nat)
    requires
        0 < n0 <= b,
        n == n0 * pow2(k),
        0 < n < 2 * b,
    ensures
        rounded(b, n, 1, -k).e <= 0,
        rounded(b, n, 1, -k).m == n0 * pow2((-rounded(b, n, 1, -k).e) as nat),
    decreases 2 * b - n,
{
    assert(1 * b == b);
    vstd::arithmetic::power2::lemma2_to64();
    if n < b {
        lemma_pow2_unfold(k + 1);
        let p = pow2(k);
        assert(n0 * (2 * p) == 2 * (n0 * p)) by (nonlinear_arith);
        exact_scaled(b, n0, 2 * n, k + 1);
    } else {
        assert(n / 1 == n && n % 1 == 0);
    }
}

/// A quotient by the integer `d` of a value that is at most `k` is too.
pub proof fn quotient_at_most(b: nat, x: Real, d: nat, k: nat)
    requires
        0 < d <= b,
        k <= b,
        b > 0,
        at_most(x, k),
    ensures
        at_most(quotient(b, x, of_int(b, d)), k),
{
    if x.m == 0 {
        assert(0 * pow2(0) == 0);
    } else {
        let y = of_int(b, d);
        of_int_exact(b, d);
        let t = (-y.e) as nat;
        let p = pow2(t);
        lemma_pow2_pos(t);
        let e = x.e - y.e;
        if x.e >= 0 {
            lemma_pow2_adds(x.e as nat, t);
            let g = pow2(x.e as nat);
            assert(x.m * (g * p) <= k * (d * p)) by (nonlinear_arith)
                requires
                    x.m * g <= k,
                    d >= 1,
                    p >= 0,
            ;
        } else if e >= 0 {
            let s = (-x.e) as nat;
            lemma_pow2_adds(s, e as nat);
            let (g, h) = (pow2(s), pow2(e as nat));
            assert(x.m * h <= k * (d * p)) by (nonlinear_arith)
                requires
                    x.m <= k * g,
                    p == g * h,
                    d >= 1,
                    h >= 0,
                    g >= 0,
                    k >= 0,
            ;
        } else {
            let s = (-x.e) as nat;
            lemma_pow2_adds(t, (-e) as nat);
            let (g, h) = (pow2(s), pow2((-e) as nat));
            assert(x.m <= (k * (d * p)) * h) by (nonlinear_arith)
                requires
                    x.m <= k * g,
                    g == p * h,
                    d >= 1,
                    h >= 0,
                    p >= 0,
                    k >= 0,
            ;
        }
        rounded_bounds(b, x.m, y.m, e, k);
    }
}

/// A quotient by `d` of a value that is at least `k * d` is at least `k`.
pub proof fn quotient_at_least(b: nat, x: Real, d: nat, k: nat)
    requires
        0 < d <= b,
        0 < k <= b,
        b > 0,
        at_least(x, k * d),
    ensures
        at_least(quotient(b, x, of_int(b, d)), k),
{
    let kd = k * d;
    assert(kd > 0) by (nonlinear_arith)
        requires
            kd == k * d,
            k > 0,
            d > 0,
    ;
    if x.m == 0 {
        if x.e >= 0 {
            assert(0 * pow2(x.e as nat) == 0);
        } else {
            lemma_pow2_pos((-x.e) as nat);
            let g = pow2((-x.e) as nat);
            assert(kd * g > 0) by (nonlinear_arith)
                requires
                    kd > 0,
                    g > 0,
            ;
        }
    } else {
        let y = of_int(b, d);
        of_int_exact(b, d);
        let t = (-y.e) as nat;
        let p = pow2(t);
        lemma_pow2_pos(t);
        let e = x.e - y.e;
        if x.e >= 0 {
            lemma_pow2_adds(x.e as nat, t);
            let g = pow2(x.e as nat);
            assert(x.m * (g * p) >= k * (d * p)) by (nonlinear_arith)
                requires
                    x.m * g >= k * d,
                    p >= 0,
            ;
        } else if e >= 0 {
            let s = (-x.e) as nat;
            lemma_pow2_adds(s, e as nat);
            let (g, h) = (pow2(s), pow2(e as nat));
            assert(x.m * h >= k * (d * p)) by (nonlinear_arith)
                requires
                    x.m >= (k * d) * g,
                    p == g * h,
                    h >= 0,
            ;
        } else {
            let s = (-x.e) as nat;
            lemma_pow2_adds(t, (-e) as nat);
            let (g, h) = (pow2(s), pow2((-e) as nat));
            assert(x.m >= (k * (d * p)) * h) by (nonlinear_arith)
                requires
                    x.m >= (k * d) * g,
                    g == p * h,
            ;
        }
        rounded_bounds(b, x.m, y.m, e, k);
    }
}

/// A quotient by `d` of a value that is at most `k * d` is at most `k`.
pub proof fn quotient_at_most_times(b: nat, x: Real, d: nat, k: nat)
    requires
        0 < d <= b,
        0 < k <= b,
        b > 0,
        at_most(x, k * d),
    ensures
        at_most(quotient(b, x, of_int(b, d)), k),
{
    if x.m == 0 {
        times_one(0);
    } else {
        let y = of_int(b, d);
        of_int_exact(b, d);
        let t = (-y.e) as nat;
        let p = pow2(t);
        lemma_pow2_pos(t);
        let e = x.e - y.e;
        if x.e >= 0 {
            lemma_pow2_adds(x.e as nat, t);
            let g = pow2(x.e as nat);
            assert(x.m * (g * p) <= k * (d * p)) by (nonlinear_arith)
                requires
                    x.m * g <= k * d,
                    p >= 0,
            ;
        } else if e >= 0 {
            let s = (-x.e) as nat;
            lemma_pow2_adds(s, e as nat);
            let (g, h) = (pow2(s), pow2(e as nat));
            assert(x.m * h <= k * (d * p)) by (nonlinear_arith)
                requires
                    x.m <= (k * d) * g,
                    p == g * h,
                    h >= 0,
            ;
        } else {
            let s = (-x.e) as nat;
            lemma_pow2_adds(t, (-e) as nat);
            let (g, h) = (pow2(s), pow2((-e) as nat));
            assert(x.m <= (k * (d * p)) * h) by (nonlinear_arith)
                requires
                    x.m <= (k * d) * g,
                    g == p * h,
            ;
        }
        rounded_bounds(b, x.m, y.m, e, k);
    }
}

/// The quotient of two integers, times the divisor, is within a `2b`th of
/// the dividend.
proof fn quotient_near(b: nat, n: nat, d: nat)
    requires
        0 < n <= b,
        0 < d <= b,
    ensures
        ({
            let x = quotient(b, of_int(b, n), of_int(b, d));
            &&& b <= x.m < 2 * b
            &&& x.e >= 0 ==> near(b, n, (x.m * d) * pow2(x.e as nat))
            &&& x.e < 0 ==> near(b, n * pow2((-x.e) as nat), x.m * d)
        }),
{
    let (s, t) = (of_int(b, n), of_int(b, d));
    of_int_exact(b, n);
    of_int_exact(b, d);
    let x = quotient(b, s, t);
    let (u, v) = ((-s.e) as nat, (-t.e) as nat);
    let (pu, pv) = (pow2(u), pow2(v));
    lemma_pow2_pos(u);
    lemma_pow2_pos(v);
    let e = s.e - t.e;
    assert(d * pv > 0) by (nonlinear_arith)
        requires
            d > 0,
            pv > 0,
    ;
    rounded_in_range(b, s.m, t.m, e);
    rounded_close(b, s.m, t.m, e);
    let k = x.e - e;
    let md = x.m * d;
    assert(x.m * (d * pv) == md * pv) by (nonlinear_arith)
        requires
            md == x.m * d,
    ;
    if x.e >= 0 {
        let g = pow2(x.e as nat);
        if k >= 0 {
            lemma_pow2_adds(v, k as nat);
            lemma_pow2_adds(x.e as nat, u);
            let h = pow2(k as nat);
            assert((md * pv) * h == (md * g) * pu) by (nonlinear_arith)
                requires
                    pv * h == g * pu,
            ;
            near_scales(b, n, md * g, pu);
        } else {
            let w = (v - x.e) as nat;
            lemma_pow2_adds(u, (-k) as nat);
            lemma_pow2_adds(x.e as nat, w);
            lemma_pow2_pos(w);
            let (h, q) = (pow2((-k) as nat), pow2(w));
            assert((n * pu) * h == n * q && md * pv == (md * g) * q) by (nonlinear_arith)
                requires
                    pu * h == q,
                    pv == g * q,
            ;
            near_scales(b, n, md * g, q);
        }
        assert(near(b, n, md * g));
    } else {
        let g = pow2((-x.e) as nat);
        lemma_pow2_pos((-x.e) as nat);
        if k >= 0 {
            let w = (u + x.e) as nat;
            lemma_pow2_adds(v, k as nat);
            lemma_pow2_adds((-x.e) as nat, w);
            lemma_pow2_pos(w);
            let (h, q) = (pow2(k as nat), pow2(w));
            assert((md * pv) * h == md * q && n * pu == (n * g) * q) by (nonlinear_arith)
                requires
                    pv * h == q,
                    pu == g * q,
            ;
            near_scales(b, n * g, md, q);
        } else {
            lemma_pow2_adds(u, (-k) as nat);
            lemma_pow2_adds((-x.e) as nat, v);
            let h = pow2((-k) as nat);
            assert((n * pu) * h == (n * g) * pv) by (nonlinear_arith)
                requires
                    pu * h == g * pv,
            ;
            near_scales(b, n * g, md, pv);
        }
        assert(near(b, n * g, md));
    }
}

/// The quotient of two integers, times the divisor, is the dividend again to
/// within one: `x.m * d * 2^(x.e)` is between `n - 1` and `n + 1`.
pub proof fn quotient_times_divisor(b: nat, n: nat, d: nat)
    requires
        0 < n <= b,
        0 < d <= b,
    ensures
        ({
            let x = quotient(b, of_int(b, n), of_int(b, d));
            &&& b <= x.m < 2 * b
            &&& at_least(Real { m: x.m * d, e: x.e }, (n - 1) as nat)
            &&& at_most(Real { m: x.m * d, e: x.e }, n + 1)
        }),
{
    let x = quotient(b, of_int(b, n), of_int(b, d));
    quotient_near(b, n, d);
    let md = x.m * d;
    if x.e >= 0 {
        within_one(b, n, 1, md * pow2(x.e as nat));
    } else {
        lemma_pow2_pos((-x.e) as nat);
        within_one(b, n, pow2((-x.e) as nat), md);
    }
}

/// The integer part of a quotient of integers of the significand's width is
/// their integer quotient.
pub proof fn quotient_floor(b: nat, n: nat, d: nat)
    requires
        n <= b,
        0 < d <= b,
    ensures
        floor(quotient(b, of_int(b, n), of_int(b, d))) == n / d,
{
    let x = quotient(b, of_int(b, n), of_int(b, d));
    let q = n / d;
    vstd::arithmetic::div_mod::lemma_fundamental_div_mod(n as int, d as int);
    if n == 0 {
        vstd::arithmetic::div_mod::lemma_div_of0(d as int);
        assert(0 * pow2(0) == 0);
    } else {
        quotient_near(b, n, d);
        of_int_exact(b, n);
        let y = of_int(b, n);
        let kd = q * d;
        assert(kd <= n && n < kd + d) by {
            vstd::arithmetic::mul::lemma_mul_is_commutative(q as int, d as int);
        }
        assert(q <= n) by (nonlinear_arith)
            requires
                q * d <= n,
                d > 0,
        ;
        if q > 0 {
            let p = pow2((-y.e) as nat);
            assert(y.m >= kd * p) by (nonlinear_arith)
                requires
                    y.m == n * p,
                    kd <= n,
            ;
            if y.e == 0 {
                vstd::arithmetic::power2::lemma2_to64();
                assert(y.m * 1 == y.m && kd * 1 == kd);
            }
            quotient_at_least(b, y, d, q);
            floor_at_least(x, q);
        }
        if floor(x) >= q + 1 {
            at_least_floor(x, q + 1);
            let md = x.m * d;
            assert((q + 1) * d == kd + d) by (nonlinear_arith)
                requires
                    kd == q * d,
            ;
            if x.e >= 0 {
                let g = pow2(x.e as nat);
                let z = md * g;
                assert(z >= (q + 1) * d) by (nonlinear_arith)
                    requires
                        z == (x.m * d) * g,
                        x.m * g >= q + 1,
                        d > 0,
                ;
                assert(false) by (nonlinear_arith)
                    requires
                        2 * b * z <= (2 * b + 1) * n,
                        z >= n + 1,
                        0 < n <= b,
                ;
            } else {
                let g = pow2((-x.e) as nat);
                lemma_pow2_pos((-x.e) as nat);
                assert(md >= ((q + 1) * d) * g) by (nonlinear_arith)
                    requires
                        md == x.m * d,
                        x.m >= (q + 1) * g,
                        d > 0,
                ;
                let k = (q + 1) * d;
                assert(md >= (n + 1) * g) by (nonlinear_arith)
                    requires
                        md >= k * g,
                        k >= n + 1,
                        g > 0,
                ;
                let ng = n * g;
                assert((n + 1) * g == ng + g) by (nonlinear_arith)
                    requires
                        ng == n * g,
                ;
                assert(ng <= b * g) by (nonlinear_arith)
                    requires
                        ng == n * g,
                        n <= b,
                ;
                assert(false) by (nonlinear_arith)
                    requires
                        2 * b * md <= (2 * b + 1) * ng,
                        md >= ng + g,
                        ng <= b * g,
                        g > 0,
                        b > 0,
                ;
            }
        }
    }
}

proof fn within_one(b: nat, n: nat, g: nat, y: nat)
    requires
        0 < n <= b,
        g > 0,
        near(b, n * g, y),
    ensures
        (n - 1) * g <= y <= (n + 1) * g,
{
    let x = n * g;
    assert(x <= b * g) by (nonlinear_arith)
        requires
            x == n * g,
            n <= b,
    ;
    assert((n - 1) * g == x - g && (n + 1) * g == x + g) by (nonlinear_arith)
        requires
            x == n * g,
    ;
    assert(x - g <= y <= x + g) by (nonlinear_arith)
        requires
            (2 * b - 1) * x <= 2 * b * y <= (2 * b + 1) * x,
            x <= b * g,
            b > 0,
            g > 0,
    ;
}

/// Doubling the numerator and lowering the exponent rounds to the same.
pub(crate) proof fn rounded_doubled(b: nat, n: nat, d: nat, e: int)
    requires
        b > 0,
        n > 0,
        d > 0,
    ensures
        rounded(b, 2 * n, d, e - 1) == rounded(b, n, d, e),
    decreases gap(b, n, d),
{
    doubled(b, d);
    if n < d * b {
    } else if n >= 2 * (d * b) {
        rounded_doubled(b, n, 2 * d, e + 1);
    } else {
        assert(rounded(b, 2 * n, d, e - 1) == rounded(b, 2 * n, 2 * d, e));
        assert(half_even(2 * n, 2 * d) == half_even(n, d)) by {
            let (q, r) = ((n / d) as int, (n % d) as int);
            vstd::arithmetic::div_mod::lemma_fundamental_div_mod(n as int, d as int);
            assert(2 * n == q * (2 * d) + 2 * r) by (nonlinear_arith)
                requires
                    n == d * q + r,
            ;
            vstd::arithmetic::div_mod::lemma_fundamental_div_mod_converse(2 * n as int, 2 * d as int, q, 2 * r);
        }
    }
}

/// So does scaling by any power of two.
pub proof fn rounded_shifted(b: nat, n: nat, e: int, k: nat)
    requires
        b > 0,
        n > 0,
    ensures
        n * pow2(k) > 0,
        rounded(b, n * pow2(k), 1, e - k) == rounded(b, n, 1, e),
    decreases k,
{
    if k == 0 {
        times_one(n);
    } else {
        rounded_shifted(b, n, e, (k - 1) as nat);
        lemma_pow2_unfold(k);
        let m = n * pow2((k - 1) as nat);
        assert(n * pow2(k) == 2 * m) by (nonlinear_arith)
            requires
                m == n * pow2((k - 1) as nat),
                pow2(k) == 2 * pow2((k - 1) as nat),
        ;
        rounded_doubled(b, m, 1, e - k + 1);
    }
}

/// A value is less than an integer of the significand's width where it does
/// not reach it.
pub proof fn less_than_int(b: nat, x: Real, k: nat)
    requires
        0 < k <= b,
    ensures
        less(x, of_int(b, k)) == !at_least(x, k),
{
    let y = of_int(b, k);
    of_int_exact(b, k);
    let v = (-y.e) as nat;
    let pv = pow2(v);
    lemma_pow2_pos(v);
    if x.e >= 0 {
        let g = pow2(x.e as nat);
        lemma_pow2_adds(x.e as nat, v);
        let a = x.m * g;
        assert(x.m * (g * pv) == a * pv) by (nonlinear_arith)
            requires
                a == x.m * g,
        ;
        assert((a * pv < k * pv) == (a < k)) by (nonlinear_arith)
            requires
                pv > 0,
        ;
    } else {
        let g = pow2((-x.e) as nat);
        lemma_pow2_pos((-x.e) as nat);
        if x.e >= y.e {
            let h = pow2((x.e - y.e) as nat);
            lemma_pow2_adds((-x.e) as nat, (x.e - y.e) as nat);
            lemma_pow2_pos((x.e - y.e) as nat);
            let kg = k * g;
            assert(k * pv == kg * h) by (nonlinear_arith)
                requires
                    kg == k * g,
                    pv == g * h,
            ;
            assert((x.m * h < kg * h) == (x.m < kg)) by (nonlinear_arith)
                requires
                    h > 0,
            ;
        } else {
            let h = pow2((y.e - x.e) as nat);
            lemma_pow2_adds(v, (y.e - x.e) as nat);
            assert((k * pv) * h == k * g) by (nonlinear_arith)
                requires
                    g == pv * h,
            ;
        }
    }
}

/// The product of two integers is their product, rounded once.
pub proof fn product_of_ints(b: nat, s: nat, t: nat)
    requires
        s <= b,
        t <= b,
        b > 0,
    ensures
        product(b, of_int(b, s), of_int(b, t)) == of_int(b, s * t),
{
    if s == 0 || t == 0 {
        assert(s * t == 0) by (nonlinear_arith)
            requires
                s == 0 || t == 0,
        ;
    } else {
        of_int_exact(b, s);
        of_int_exact(b, t);
        let (x, y) = (of_int(b, s), of_int(b, t));
        let (u, v) = ((-x.e) as nat, (-y.e) as nat);
        lemma_pow2_adds(u, v);
        assert(s * t > 0) by (nonlinear_arith)
            requires
                s > 0,
                t > 0,
        ;
        assert((s * pow2(u)) * (t * pow2(v)) == (s * t) * (pow2(u) * pow2(v))) by (nonlinear_arith);
        rounded_shifted(b, s * t, 0, u + v);
    }
}

/// Bounds on `v * x` bound the product of the integer `v` and `x`.
pub proof fn product_bounds_hold(b: nat, v: nat, x: Real, k: nat)
    requires
        0 < v <= b,
        x.m > 0,
        k <= b,
    ensures
        at_least(Real { m: x.m * v, e: x.e }, k) ==> at_least(product(b, of_int(b, v), x), k),
        at_most(Real { m: x.m * v, e: x.e }, k) ==> at_most(product(b, of_int(b, v), x), k),
        product(b, of_int(b, v), x).m > 0,
{
    let y = of_int(b, v);
    of_int_exact(b, v);
    let u = (-y.e) as nat;
    let p = pow2(u);
    lemma_pow2_pos(u);
    let mv = x.m * v;
    assert(y.m * x.m == mv * p) by (nonlinear_arith)
        requires
            y.m == v * p,
            mv == x.m * v,
    ;
    assert(mv * p > 0) by (nonlinear_arith)
        requires
            mv == x.m * v,
            x.m > 0,
            v > 0,
            p > 0,
    ;
    let e = y.e + x.e;
    let n = y.m * x.m;
    assert(k * 1 == k);
    if e >= 0 {
        lemma_pow2_adds(u, e as nat);
        let (g, h) = (pow2(x.e as nat), pow2(e as nat));
        assert((mv * p) * h == mv * g) by (nonlinear_arith)
            requires
                p * h == g,
        ;
    } else if x.e >= 0 {
        lemma_pow2_adds(x.e as nat, (-e) as nat);
        let (g, h) = (pow2(x.e as nat), pow2((-e) as nat));
        lemma_pow2_pos((-e) as nat);
        assert(mv * p == (mv * g) * h) by (nonlinear_arith)
            requires
                p == g * h,
        ;
        let a = mv * g;
        assert(a >= k ==> a * h >= k * h) by (nonlinear_arith)
            requires
                h > 0,
        ;
        assert(a <= k ==> a * h <= k * h) by (nonlinear_arith)
            requires
                h > 0,
        ;
    } else {
        lemma_pow2_adds(u, (-x.e) as nat);
        let (g, h) = (pow2((-x.e) as nat), pow2((-e) as nat));
        assert(k * h == (k * g) * p) by (nonlinear_arith)
            requires
                h == p * g,
        ;
        let a = k * g;
        assert(mv >= a ==> mv * p >= a * p) by (nonlinear_arith)
            requires
                p > 0,
        ;
        assert(mv <= a ==> mv * p <= a * p) by (nonlinear_arith)
            requires
                p > 0,
        ;
    }
    rounded_in_range(b, n, 1, e);
    rounded_bounds(b, n, 1, e, k);
}

/// A value within one of `32 t` is `t` tiles of 32, rounded.
pub proof fn nearest_tile(x: Real, t: nat)
    requires
        x.m > 0,
    ensures
        at_least(x, (32 * t - 1) as nat) && t > 0 ==> nearest_int(scaled(x, -5)) >= t,
        at_most(x, 32 * t + 1) ==> nearest_int(scaled(x, -5)) <= t,
{
    vstd::arithmetic::power2::lemma2_to64();
    let e = x.e - 5;
    if e >= 0 {
        lemma_pow2_adds(e as nat, 5);
        let (g, h) = (pow2(x.e as nat), pow2(e as nat));
        assert(x.m * g == (x.m * h) * 32) by (nonlinear_arith)
            requires
                g == h * 32,
        ;
    } else {
        let d = pow2((-e) as nat);
        lemma_pow2_pos((-e) as nat);
        let (m, q, r) = (x.m, x.m / d, x.m % d);
        vstd::arithmetic::div_mod::lemma_fundamental_div_mod(m as int, d as int);
        if x.e >= 0 {
            lemma_pow2_adds(x.e as nat, (-e) as nat);
            let g = pow2(x.e as nat);
            let (lo, hi) = (32 * t - 1, 32 * t + 1);
            assert((m * g >= lo ==> 32 * m >= lo * d) && (m * g <= hi ==> 32 * m <= hi * d)) by (nonlinear_arith)
                requires
                    g * d == 32,
                    d > 0,
            ;
        } else {
            lemma_pow2_adds((-x.e) as nat, 5);
            let g = pow2((-x.e) as nat);
            let (lo, hi) = (32 * t - 1, 32 * t + 1);
            assert((m >= lo * g ==> 32 * m >= lo * d) && (m <= hi * g ==> 32 * m <= hi * d)) by (nonlinear_arith)
                requires
                    d == g * 32,
            ;
        }
        if 32 * m >= (32 * t - 1) * d && t > 0 {
            assert(q >= t || (q == t - 1 && 2 * r > d)) by (nonlinear_arith)
                requires
                    32 * m >= (32 * t - 1) * d,
                    m == d * q + r,
                    0 <= r < d,
                    t > 0,
            ;
        }
        if 32 * m <= (32 * t + 1) * d {
            assert(q < t || (q == t && 2 * r < d)) by (nonlinear_arith)
                requires
                    32 * m <= (32 * t + 1) * d,
                    m == d * q + r,
                    0 <= r < d,
            ;
        }
    }
}

pub proof fn at_least_shrinks(x: Real, k: nat, j: nat)
    requires
        at_least(x, k),
        j <= k,
    ensures
        at_least(x, j),
{
    if x.e < 0 {
        let g = pow2((-x.e) as nat);
        assert(j * g <= k * g) by (nonlinear_arith)
            requires
                j <= k,
        ;
    }
}

pub proof fn at_most_grows(x: Real, k: nat, j: nat)
    requires
        at_most(x, k),
        k <= j,
    ensures
        at_most(x, j),
{
    if x.e < 0 {
        let p = pow2((-x.e) as nat);
        assert(k * p <= j * p) by (nonlinear_arith)
            requires
                k <= j,
        ;
    }
}

/// An integer bound above bounds the integer part.
pub proof fn at_most_floor(x: Real, k: nat)
    requires
        at_most(x, k),
    ensures
        floor(x) <= k,
{
    if x.e < 0 {
        let p = pow2((-x.e) as nat);
        lemma_pow2_pos((-x.e) as nat);
        vstd::arithmetic::div_mod::lemma_div_is_ordered(x.m as int, (k * p) as int, p as int);
        vstd::arithmetic::div_mod::lemma_div_by_multiple(k as int, p as int);
    }
}

/// An integer bound below bounds the integer part.
pub proof fn floor_at_least(x: Real, k: nat)
    requires
        at_least(x, k),
    ensures
        floor(x) >= k,
{
    if x.e < 0 {
        let p = pow2((-x.e) as nat);
        lemma_pow2_pos((-x.e) as nat);
        vstd::arithmetic::div_mod::lemma_div_is_ordered((k * p) as int, x.m as int, p as int);
        vstd::arithmetic::div_mod::lemma_div_by_multiple(k as int, p as int);
    }
}

/// A value whose integer part reaches `k` does.
pub proof fn at_least_floor(x: Real, k: nat)
    requires
        floor(x) >= k,
    ensures
        at_least(x, k),
{
    if x.e < 0 {
        let p = pow2((-x.e) as nat);
        lemma_pow2_pos((-x.e) as nat);
        vstd::arithmetic::div_mod::lemma_fundamental_div_mod(x.m as int, p as int);
        let q = x.m / p;
        assert(x.m >= k * p) by (nonlinear_arith)
            requires
                x.m == p * q + x.m % p,
                x.m % p >= 0,
                q >= k,
                p > 0,
        ;
    }
}

/// `2^k`.
pub fn power(k: u32) -> (r: u128)
    requires
        k <= 64,
    ensures
        r == pow2(k as nat),
        1 <= r <= 0x1_0000_0000_0000_0000,
{
    proof {
        vstd::arithmetic::power2::lemma2_to64();
    }
    let mut r: u128 = 1;
    let mut i: u32 = 0;
    while i < k
        invariant
            i <= k <= 64,
            r == pow2(i as nat),
            pow2(64) == 0x1_0000_0000_0000_0000,
        decreases k - i,
    {
        proof {
            lemma_pow2_unfold((i + 1) as nat);
            if i + 1 < 64 {
                lemma_pow2_strictly_increases((i + 1) as nat, 64);
            }
        }
        r = 2 * r;
        i += 1;
    }
    proof {
        lemma_pow2_pos(k as nat);
        if k < 64 {
            lemma_pow2_strictly_increases(k as nat, 64);
        }
    }
    r
}

proof fn power_large(k: nat)
    requires
        k >= 64,
    ensures
        pow2(k) >= 0x1_0000_0000_0000_0000,
{
    vstd::arithmetic::power2::lemma2_to64();
    if k > 64 {
        lemma_pow2_strictly_increases(64, k);
    }
}

/// The value of the integer `n`.
pub fn from_int(b: u64, n: u64) -> (r: Num)
    requires
        0 < b <= DOUBLE,
    ensures
        r@ == of_int(b as nat, n as nat),
        r.wf(b as nat, 130),
        n > 0 ==> r.m > 0,
{
    if n == 0 {
        Num { m: 0, e: 0 }
    } else {
        round(b, n as u128, 1, 0)
    }
}

/// The value of `n / 2^k`, for a small `k`.
pub fn from_half(b: u64, n: u64) -> (r: Num)
    requires
        0 < b <= DOUBLE,
        n > 0,
    ensures
        r@ == rounded(b as nat, n as nat, 2, 0),
        r.wf(b as nat, 130),
        r.m > 0,
{
    round(b, n as u128, 2, 0)
}

pub fn times(b: u64, x: Num, y: Num) -> (r: Num)
    requires
        0 < b <= DOUBLE,
        x.wf(b as nat, 100_000),
        y.wf(b as nat, 100_000),
    ensures
        r@ == product(b as nat, x@, y@),
        r.wf(
            b as nat,
            if x.e + y.e >= 0 {
                x.e + y.e + 130
            } else {
                130 - (x.e + y.e)
            },
        ),
        x.m > 0 && y.m > 0 ==> r.m > 0,
{
    if x.m == 0 || y.m == 0 {
        Num { m: 0, e: 0 }
    } else {
        proof {
            assert(0 < x.m * y.m < 0x1000_0000_0000_0000_0000_0000_0000_0000) by (nonlinear_arith)
                requires
                    0 < x.m < 0x20_0000_0000_0000,
                    0 < y.m < 0x20_0000_0000_0000,
            ;
        }
        round(b, x.m as u128 * y.m as u128, 1, x.e + y.e)
    }
}

pub fn over(b: u64, x: Num, y: Num) -> (r: Num)
    requires
        0 < b <= DOUBLE,
        x.wf(b as nat, 100_000),
        y.wf(b as nat, 100_000),
        y.m > 0,
    ensures
        r@ == quotient(b as nat, x@, y@),
        r.wf(
            b as nat,
            if x.e - y.e >= 0 {
                x.e - y.e + 130
            } else {
                130 - (x.e - y.e)
            },
        ),
        x.m > 0 ==> r.m > 0,
{
    if x.m == 0 {
        Num { m: 0, e: 0 }
    } else {
        round(b, x.m as u128, y.m as u128, x.e - y.e)
    }
}

/// `x * 2^k`.
pub fn scale(x: Num, k: i64) -> (r: Num)
    requires
        -100_000 <= x.e <= 100_000,
        -100 <= k <= 100,
    ensures
        r@ == scaled(x@, k as int),
        r.m == x.m,
        x.m > 0 ==> r.e == x.e + k,
        x.m == 0 ==> r.e == 0,
{
    if x.m == 0 {
        Num { m: 0, e: 0 }
    } else {
        Num { m: x.m, e: x.e + k }
    }
}

/// The integer part, at most `cap`.
pub fn to_floor(x: Num, cap: u64) -> (r: u64)
    requires
        -1_000_000 <= x.e <= 1_000_000,
    ensures
        r == (if floor(x@) <= cap {
            floor(x@)
        } else {
            cap as nat
        }),
{
    if x.m == 0 {
        proof {
            if x.e >= 0 {
                assert(0 * pow2(x.e as nat) == 0);
            } else {
                lemma_pow2_pos((-x.e) as nat);
                vstd::arithmetic::div_mod::lemma_div_of0(pow2((-x.e) as nat) as int);
            }
        }
        return 0;
    }
    if x.e >= 64 {
        proof {
            power_large(x.e as nat);
            let p = pow2(x.e as nat);
            assert(x.m * p >= p) by (nonlinear_arith)
                requires
                    x.m >= 1,
                    p >= 0,
            ;
        }
        return cap;
    }
    if x.e >= 0 {
        let p: u128 = power(x.e as u32);
        proof {
            assert(x.m * p <= 0xffff_ffff_ffff_ffff * 0x1_0000_0000_0000_0000) by (nonlinear_arith)
                requires
                    0 <= x.m <= 0xffff_ffff_ffff_ffff,
                    1 <= p <= 0x1_0000_0000_0000_0000,
            ;
        }
        let v: u128 = x.m as u128 * p;
        return if v <= cap as u128 {
            v as u64
        } else {
            cap
        };
    }
    if x.e <= -64 {
        proof {
            power_large((-x.e) as nat);
            vstd::arithmetic::div_mod::lemma_small_div_converse(x.m as int, pow2((-x.e) as nat) as int);
            vstd::arithmetic::div_mod::lemma_basic_div(x.m as int, pow2((-x.e) as nat) as int);
        }
        return 0;
    }
    let p: u128 = power((-x.e) as u32);
    let v: u128 = x.m as u128 / p;
    if v <= cap as u128 {
        v as u64
    } else {
        cap
    }
}

/// The nearest integer (ties to even), at most `cap`.
pub fn to_nearest(x: Num, cap: u64) -> (r: u64)
    requires
        -1_000_000 <= x.e <= 1_000_000,
        x.m < 0x8000_0000_0000_0000,
    ensures
        r == (if nearest_int(x@) <= cap {
            nearest_int(x@)
        } else {
            cap as nat
        }),
{
    if x.e >= 0 {
        return to_floor(x, cap);
    }
    if x.e <= -64 {
        proof {
            power_large((-x.e) as nat);
            let p = pow2((-x.e) as nat);
            vstd::arithmetic::div_mod::lemma_basic_div(x.m as int, p as int);
            vstd::arithmetic::div_mod::lemma_small_mod(x.m as nat, p);
        }
        return 0;
    }
    let p: u128 = power((-x.e) as u32);
    let v: u128 = half_even_of(x.m as u128, p);
    if v <= cap as u128 {
        v as u64
    } else {
        cap
    }
}

/// The nearest integer (ties up), at most `cap`.
pub fn to_nearest_up(x: Num, cap: u64) -> (r: u64)
    requires
        -1_000_000 <= x.e <= 1_000_000,
        x.m < 0x8000_0000_0000_0000,
    ensures
        r == (if nearest_up(x@) <= cap {
            nearest_up(x@)
        } else {
            cap as nat
        }),
{
    if x.e >= 0 {
        return to_floor(x, cap);
    }
    if x.e <= -64 {
        proof {
            power_large((-x.e) as nat);
            let p = pow2((-x.e) as nat);
            vstd::arithmetic::div_mod::lemma_basic_div(x.m as int, p as int);
            vstd::arithmetic::div_mod::lemma_small_mod(x.m as nat, p);
        }
        return 0;
    }
    let p: u128 = power((-x.e) as u32);
    let whole: u128 = x.m as u128 / p;
    proof {
        assert(whole <= x.m) by (nonlinear_arith)
            requires
                whole == x.m as u128 / p,
                p >= 1,
        ;
    }
    let v: u128 = if 2 * (x.m as u128 % p) >= p {
        whole + 1
    } else {
        whole
    };
    if v <= cap as u128 {
        v as u64
    } else {
        cap
    }
}

/// Whether `x < y`.
pub fn below(x: Num, y: Num) -> (r: bool)
    requires
        -1_000_000 <= x.e <= 1_000_000,
        -1_000_000 <= y.e <= 1_000_000,
    ensures
        r == less(x@, y@),
{
    if x.e >= y.e {
        let k: i64 = x.e - y.e;
        if x.m == 0 {
            proof {
                assert(0 * pow2(k as nat) == 0);
            }
            return 0 < y.m;
        }
        if k >= 64 {
            proof {
                power_large(k as nat);
                let p = pow2(k as nat);
                assert(x.m * p >= p) by (nonlinear_arith)
                    requires
                        x.m >= 1,
                        p >= 0,
                ;
            }
            return false;
        }
        let p: u128 = power(k as u32);
        proof {
            assert(x.m * p <= 0xffff_ffff_ffff_ffff * 0x1_0000_0000_0000_0000) by (nonlinear_arith)
                requires
                    0 <= x.m <= 0xffff_ffff_ffff_ffff,
                    1 <= p <= 0x1_0000_0000_0000_0000,
            ;
        }
        (x.m as u128 * p) < y.m as u128
    } else {
        let k: i64 = y.e - x.e;
        if y.m == 0 {
            proof {
                assert(0 * pow2(k as nat) == 0);
            }
            return false;
        }
        if k >= 64 {
            proof {
                power_large(k as nat);
                let p = pow2(k as nat);
                assert(y.m * p >= p) by (nonlinear_arith)
                    requires
                        y.m >= 1,
                        p >= 0,
                ;
            }
            return true;
        }
        let p: u128 = power(k as u32);
        proof {
            assert(y.m * p <= 0xffff_ffff_ffff_ffff * 0x1_0000_0000_0000_0000) by (nonlinear_arith)
                requires
                    0 <= y.m <= 0xffff_ffff_ffff_ffff,
                    1 <= p <= 0x1_0000_0000_0000_0000,
            ;
        }
        (x.m as u128) < y.m as u128 * p
    }
}

// ---------------------------------------------------------------------------
// Scaling by a ratio of integers.

/// A power of two moves to the exponent.
pub(crate) proof fn rounded_exponent(b: nat, n: nat, d: nat, e: int, k: int)
    requires
        b > 0,
        n > 0,
        d > 0,
    ensures
        rounded(b, n, d, e + k) == (Real { m: rounded(b, n, d, e).m, e: rounded(b, n, d, e).e + k }),
    decreases gap(b, n, d),
{
    doubled(b, d);
    if n < d * b {
        rounded_exponent(b, 2 * n, d, e - 1, k);
    } else if n >= 2 * (d * b) {
        rounded_exponent(b, n, 2 * d, e + 1, k);
    }
}

/// Doubling the divisor and raising the exponent rounds to the same.
proof fn rounded_halved(b: nat, n: nat, d: nat, e: int)
    requires
        b > 0,
        n > 0,
        d > 0,
    ensures
        rounded(b, n, 2 * d, e + 1) == rounded(b, n, d, e),
    decreases gap(b, n, d),
{
    doubled(b, d);
    if n >= 2 * (d * b) {
    } else if n < d * b {
        rounded_halved(b, 2 * n, d, e - 1);
        rounded_doubled(b, n, 2 * d, e + 1);
    } else {
        rounded_doubled(b, n, 2 * d, e + 1);
        rounded_doubled(b, n, d, e);
        assert(rounded(b, 2 * n, d, e - 1) == rounded(b, 2 * n, 2 * d, e));
    }
}

/// Half an odd or even number is the number, one lower in its exponent.
pub proof fn half_of_int(b: nat, n: nat)
    requires
        b > 0,
        n > 0,
    ensures
        rounded(b, n, 2, 0) == (Real { m: of_int(b, n).m, e: of_int(b, n).e - 1 }),
{
    rounded_halved(b, n, 1, -1);
    rounded_exponent(b, n, 1, 0, -1);
}

/// The integer part of half a value is half its integer part.
pub proof fn floor_of_half(x: Real)
    ensures
        floor(Real { m: x.m, e: x.e - 1 }) == floor(x) / 2,
{
    if x.e >= 1 {
        lemma_pow2_unfold(x.e as nat);
        let g = pow2((x.e - 1) as nat);
        let h = x.m * g;
        assert(x.m * (2 * g) == 2 * h) by (nonlinear_arith)
            requires
                h == x.m * g,
        ;
    } else if x.e == 0 {
        vstd::arithmetic::power2::lemma2_to64();
        assert(x.m * 1 == x.m);
    } else {
        let k = (-x.e) as nat;
        lemma_pow2_unfold(k + 1);
        lemma_pow2_pos(k);
        vstd::arithmetic::div_mod::lemma_div_denominator(x.m as int, pow2(k) as int, 2);
        vstd::arithmetic::mul::lemma_mul_is_commutative(pow2(k) as int, 2);
    }
}

/// `v / from * to`, rounded at every step, is no further from its value than
/// one more or less in `v` would be.
pub proof fn scaling_holds(b: nat, v: nat, from: nat, to: nat, lo: nat, hi: nat)
    requires
        0 < v <= b,
        0 < from <= b,
        0 < to <= b,
        lo * from <= (v - 1) * to,
        (v + 1) * to <= hi * from,
        hi <= b,
    ensures
        lo <= floor(product(b, quotient(b, of_int(b, v), of_int(b, from)), of_int(b, to))) <= hi,
{
    let x = quotient(b, of_int(b, v), of_int(b, from));
    let y = of_int(b, to);
    quotient_times_divisor(b, v, from);
    assert(product(b, x, y) == product(b, y, x)) by {
        vstd::arithmetic::mul::lemma_mul_is_commutative(x.m as int, y.m as int);
    }
    let p = product(b, y, x);
    assert(lo <= hi) by (nonlinear_arith)
        requires
            lo * from <= (v - 1) * to,
            (v + 1) * to <= hi * from,
            from > 0,
            to > 0,
    ;
    let z = Real { m: x.m * to, e: x.e };
    let (mf, mt) = (x.m * from, x.m * to);
    assert(mf * to == mt * from) by (nonlinear_arith)
        requires
            mf == x.m * from,
            mt == x.m * to,
    ;
    if x.e >= 0 {
        let g = pow2(x.e as nat);
        lemma_pow2_pos(x.e as nat);
        let (a, c) = (mf * g, mt * g);
        assert(a * to == c * from) by (nonlinear_arith)
            requires
                a == mf * g,
                c == mt * g,
                mf * to == mt * from,
        ;
        assert(c <= hi && c >= lo) by (nonlinear_arith)
            requires
                v - 1 <= a <= v + 1,
                a * to == c * from,
                lo * from <= (v - 1) * to,
                (v + 1) * to <= hi * from,
                from > 0,
                to > 0,
        ;
    } else {
        let g = pow2((-x.e) as nat);
        lemma_pow2_pos((-x.e) as nat);
        let (u, w) = ((v - 1) * g, (v + 1) * g);
        assert(u <= mf <= w);
        assert(mt * from <= (hi * g) * from) by (nonlinear_arith)
            requires
                mf * to == mt * from,
                mf <= (v + 1) * g,
                (v + 1) * to <= hi * from,
                g > 0,
                to > 0,
        ;
        assert((lo * g) * from <= mt * from) by (nonlinear_arith)
            requires
                mf * to == mt * from,
                (v - 1) * g <= mf,
                lo * from <= (v - 1) * to,
                g > 0,
                to > 0,
        ;
        assert(mt <= hi * g && lo * g <= mt) by (nonlinear_arith)
            requires
                mt * from <= (hi * g) * from,
                (lo * g) * from <= mt * from,
                from > 0,
        ;
    }
    product_bounds_hold(b, to, x, hi);
    product_bounds_hold(b, to, x, lo);
    at_most_floor(p, hi);
    floor_at_least(p, lo);
}

/// Bounds on a quotient of integers at a scale of `2^t` hold of the rounded
/// quotient.
pub proof fn quotient_bounds(b: nat, n: nat, d: nat, t: nat, k: nat)
    requires
        0 < n <= b,
        0 < d <= b,
        k <= b,
    ensures
        ({
            let x = quotient(b, of_int(b, n), of_int(b, d));
            let y = Real { m: x.m, e: x.e + t };
            &&& b <= x.m < 2 * b
            &&& n * pow2(t) <= k * d ==> at_most(y, k)
            &&& n * pow2(t) >= k * d ==> at_least(y, k)
        }),
{
    let (s, r) = (of_int(b, n), of_int(b, d));
    of_int_exact(b, n);
    of_int_exact(b, d);
    let (u, v) = ((-s.e) as nat, (-r.e) as nat);
    let (pu, pv, pt) = (pow2(u), pow2(v), pow2(t));
    lemma_pow2_pos(u);
    lemma_pow2_pos(v);
    lemma_pow2_pos(t);
    let e = s.e - r.e;
    assert(n * pu > 0 && d * pv > 0) by (nonlinear_arith)
        requires
            n > 0,
            d > 0,
            pu > 0,
            pv > 0,
    ;
    rounded_exponent(b, s.m, r.m, e, t as int);
    rounded_in_range(b, s.m, r.m, e);
    let f = e + t;
    if f >= 0 {
        let g = pow2(f as nat);
        lemma_pow2_adds(u, f as nat);
        lemma_pow2_adds(v, t);
        assert((n * pu) * g == (n * pt) * pv && k * (d * pv) == (k * d) * pv) by (nonlinear_arith)
            requires
                pu * g == pv * pt,
        ;
        let (a, c) = (n * pt, k * d);
        assert(a <= c ==> a * pv <= c * pv) by (nonlinear_arith)
            requires
                pv > 0,
        ;
        assert(a >= c ==> a * pv >= c * pv) by (nonlinear_arith)
            requires
                pv > 0,
        ;
    } else {
        let g = pow2((-f) as nat);
        lemma_pow2_pos((-f) as nat);
        lemma_pow2_adds(v, (-f) as nat);
        lemma_pow2_adds(v + ((-f) as nat), t);
        assert(pu == (pv * g) * pt);
        let (a, c, h) = (n * pt, k * d, pv * g);
        assert(n * pu == a * h && (k * (d * pv)) * g == c * h) by (nonlinear_arith)
            requires
                a == n * pt,
                c == k * d,
                h == pv * g,
                pu == (pv * g) * pt,
        ;
        assert(a <= c ==> a * h <= c * h) by (nonlinear_arith)
            requires
                h >= 0,
        ;
        assert(a >= c ==> a * h >= c * h) by (nonlinear_arith)
            requires
                h >= 0,
        ;
    }
    rounded_bounds(b, s.m, r.m, f, k);
}

} // verus!
