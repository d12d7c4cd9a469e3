//! Products and roundings that may leave the machine range.

use vstd::prelude::*;

verus! {

/// `a * b`, where it is a machine integer.
pub fn mul2(a: usize, b: usize) -> (r: Option<usize>)
    ensures
        match r {
            Some(v) => v == a * b,
            None => a * b > usize::MAX,
        },
{
    a.checked_mul(b)
}

/// `a * b * c`, where it is a machine integer.
pub fn mul3(a: usize, b: usize, c: usize) -> (r: Option<usize>)
    ensures
        match r {
            Some(v) => v == a * b * c,
            None => a * b * c > usize::MAX,
        },
{
    match mul2(a, b) {
        Some(ab) => mul2(ab, c),
        None => if c == 0 {
            proof {
                assert(a * b * c == 0) by (nonlinear_arith)
                    requires
                        c == 0,
                ;
            }
            Some(0)
        } else {
            proof {
                assert(a * b * c >= a * b) by (nonlinear_arith)
                    requires
                        c >= 1,
                        a >= 0,
                        b >= 0,
                ;
            }
            None
        },
    }
}

/// `(a + 2) * b`, where it is a machine integer.
pub fn plus2_mul(a: usize, b: usize) -> (r: Option<usize>)
    ensures
        match r {
            Some(v) => v == (a + 2) * b,
            None => (a + 2) * b > usize::MAX,
        },
{
    if b == 0 {
        proof {
            assert((a + 2) * b == 0) by (nonlinear_arith)
                requires
                    b == 0,
            ;
        }
        return Some(0);
    }
    match a.checked_add(2) {
        Some(s) => mul2(s, b),
        None => {
            proof {
                assert((a + 2) * b >= a + 2) by (nonlinear_arith)
                    requires
                        b >= 1,
                ;
            }
            None
        },
    }
}

/// The smallest multiple of `m` that is at least `x`.
pub open spec fn rounded_up(x: int, m: int) -> int {
    (x + m - 1) / m * m
}

/// `x` rounded up to a multiple of `m`.
pub fn round_up(x: usize, m: usize) -> (r: usize)
    requires
        m > 0,
        rounded_up(x as int, m as int) <= usize::MAX,
    ensures
        r == rounded_up(x as int, m as int),
        r >= x,
        r % m == 0,
        r - x < m,
{
    proof {
        rounded_up_is(x as int, m as int);
    }
    let q: usize = x / m;
    let rem: usize = x % m;
    proof {
        let mi = m as int;
        let xi = x as int;
        assert(xi == mi * q + rem) by {
            vstd::arithmetic::div_mod::lemma_fundamental_div_mod(xi, mi);
        }
        if rem == 0 {
            assert((xi + mi - 1) / mi == q) by {
                assert(xi + mi - 1 == q * mi + (mi - 1)) by (nonlinear_arith)
                    requires
                        xi == mi * q + rem,
                        rem == 0,
                ;
                vstd::arithmetic::div_mod::lemma_fundamental_div_mod_converse(xi + mi - 1, mi, q as int, mi - 1);
            }
            assert(q * mi == xi) by (nonlinear_arith)
                requires
                    xi == mi * q + rem,
                    rem == 0,
            ;
        } else {
            assert((xi + mi - 1) / mi == q + 1) by {
                assert(xi + mi - 1 == (q + 1) * mi + (rem - 1)) by (nonlinear_arith)
                    requires
                        xi == mi * q + rem,
                ;
                vstd::arithmetic::div_mod::lemma_fundamental_div_mod_converse(xi + mi - 1, mi, q + 1, rem - 1);
            }
            assert((q + 1) * mi == xi + mi - rem) by (nonlinear_arith)
                requires
                    xi == mi * q + rem,
            ;
        }
    }
    if rem == 0 {
        x
    } else {
        x + (m - rem)
    }
}

/// Rounding up gives a multiple that is at least the number, and less than
/// one step above it.
pub proof fn rounded_up_is(x: int, m: int)
    requires
        m > 0,
        x >= 0,
    ensures
        rounded_up(x, m) % m == 0,
        x <= rounded_up(x, m) < x + m,
{
    let q = (x + m - 1) / m;
    vstd::arithmetic::div_mod::lemma_fundamental_div_mod(x + m - 1, m);
    vstd::arithmetic::mul::lemma_mul_is_commutative(q, m);
    vstd::arithmetic::div_mod::lemma_mod_multiples_basic(q, m);
}

// ----------------------------------------------------------------------------
// Row-major indices
// ----------------------------------------------------------------------------

/// Row `a`, column `b` of rows `n` wide: the index splits back.
pub proof fn split_index(a: int, b: int, n: int)
    requires
        0 <= b < n,
    ensures
        (a * n + b) / n == a,
        (a * n + b) % n == b,
{
    vstd::arithmetic::div_mod::lemma_fundamental_div_mod_converse(a * n + b, n, a, b);
}

/// Row `a` of `m`, column `b` of `n`: the index is one of `m * n`.
pub proof fn index_bound(a: int, b: int, m: int, n: int)
    requires
        0 <= a < m,
        0 <= b < n,
    ensures
        0 <= a * n + b < m * n,
{
    assert(0 <= a * n + b < m * n) by (nonlinear_arith)
        requires
            0 <= a < m,
            0 <= b < n,
    ;
}

/// An index of `m * n` is row `i / n` of `m`, column `i % n` of `n`.
pub proof fn index_parts(i: int, m: int, n: int)
    requires
        0 <= i < m * n,
        0 < n,
    ensures
        0 <= i / n < m,
        0 <= i % n < n,
        i == (i / n) * n + i % n,
{
    vstd::arithmetic::div_mod::lemma_fundamental_div_mod(i, n);
    assert(0 <= i / n < m) by (nonlinear_arith)
        requires
            0 <= i < m * n,
            0 < n,
            i == n * (i / n) + i % n,
            0 <= i % n < n,
    ;
    vstd::arithmetic::mul::lemma_mul_is_commutative(n, i / n);
}

// ----------------------------------------------------------------------------
// Neighbours
// ----------------------------------------------------------------------------

/// The place after `i`, or `i` itself at the edge.
pub open spec fn far(i: int, n: int) -> int {
    if i + 1 < n {
        i + 1
    } else {
        i
    }
}

pub fn next_to(i: usize, n: usize) -> (r: usize)
    requires
        i < n,
    ensures
        r == far(i as int, n as int),
        r < n,
{
    if i + 1 < n {
        i + 1
    } else {
        i
    }
}

} // verus!
