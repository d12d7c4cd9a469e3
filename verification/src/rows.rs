//! How rows are split over host threads.

use crate::arith::mul2;
use vstd::prelude::*;

verus! {

/// One thread's rows: the first, and the elements.
#[derive(Debug, Clone, Copy)]
pub struct Piece {
    pub first_row: usize,
    pub start: usize,
    pub len: usize,
}

/// `a / b` rounded up.
pub open spec fn ceil_div(a: nat, b: nat) -> nat {
    ((a + b - 1) / b as int) as nat
}

/// `len` elements cut into pieces of `per` rows of `row` elements, the last
/// one maybe shorter.
pub open spec fn cut(len: nat, row: nat, per: nat) -> Seq<Piece> {
    let step = per * row;
    Seq::new(
        ceil_div(len, step),
        |i: int|
            Piece {
                first_row: (i * per) as usize,
                start: (i * step) as usize,
                len: (if (i + 1) * step <= len {
                    step as int
                } else {
                    len - i * step
                }) as usize,
            },
    )
}

/// All of it in one piece.
pub open spec fn whole(len: nat) -> Seq<Piece> {
    seq![Piece { first_row: 0, start: 0, len: len as usize }]
}

proof fn ceil_div_is(a: nat, b: nat)
    requires
        b > 0,
    ensures
        ceil_div(a, b) * b >= a,
        a > 0 ==> (ceil_div(a, b) - 1) * b < a,
        ceil_div(a, b) <= a,
        a > 0 ==> ceil_div(a, b) >= 1,
{
    let n = a + b - 1;
    let q = n / b as int;
    vstd::arithmetic::div_mod::lemma_fundamental_div_mod(n, b as int);
    assert(q * b >= a && (q - 1) * b < a && q >= 0) by (nonlinear_arith)
        requires
            n == b * q + n % (b as int),
            0 <= n % (b as int) < b,
            n == a + b - 1,
            a >= 0,
            b > 0,
    ;
    if a > 0 {
        assert(q >= 1 && q <= a) by (nonlinear_arith)
            requires
                q * b >= a,
                (q - 1) * b < a,
                a > 0,
                b >= 1,
        ;
    } else {
        assert(q == 0) by (nonlinear_arith)
            requires
                (q - 1) * b < 0 || q == 0,
                (q - 1) * b < a,
                a == 0,
                q >= 0,
                b >= 1,
        ;
    }
}

fn div_up(a: usize, b: usize) -> (r: usize)
    requires
        b > 0,
    ensures
        r == ceil_div(a as nat, b as nat),
        r <= a,
{
    let q: usize = a / b;
    let rest: usize = a % b;
    proof {
        ceil_div_is(a as nat, b as nat);
        vstd::arithmetic::div_mod::lemma_fundamental_div_mod(a as int, b as int);
        let c = ceil_div(a as nat, b as nat) as int;
        if rest == 0 {
            assert(c == q) by (nonlinear_arith)
                requires
                    a == b * q,
                    c * b >= a,
                    a > 0 ==> (c - 1) * b < a,
                    c <= a,
                    b > 0,
            ;
        } else {
            assert(c == q + 1) by (nonlinear_arith)
                requires
                    a == b * q + rest,
                    0 < rest < b,
                    c * b >= a,
                    (c - 1) * b < a,
            ;
        }
    }
    if rest == 0 {
        q
    } else {
        q + 1
    }
}

/// Cuts `len` elements into pieces of `per` rows.
fn cut_rows(len: usize, row: usize, per: usize) -> (r: Vec<Piece>)
    requires
        row > 0,
        per > 0,
    ensures
        r@ == cut(len as nat, row as nat, per as nat),
{
    let ghost (l, ro, p) = (len as nat, row as nat, per as nat);
    let ghost step = p * ro;
    let mut out: Vec<Piece> = Vec::new();
    proof {
        assert(step >= 1 && step >= p) by (nonlinear_arith)
            requires
                step == p * ro,
                p >= 1,
                ro >= 1,
        ;
        ceil_div_is(l, step);
    }
    match mul2(per, row) {
        None => {
            proof {
                let c = ceil_div(l, step) as int;
                assert(l > 0 ==> c == 1) by (nonlinear_arith)
                    requires
                        l > 0 ==> (c - 1) * step < l,
                        step > l,
                        l > 0 ==> c >= 1,
                ;
                assert(0 * p == 0 && 0 * step == 0 && 1 * step == step);
            }
            if len > 0 {
                out.push(Piece { first_row: 0, start: 0, len });
            }
            proof {
                assert(out@ =~= cut(l, ro, p));
            }
            out
        },
        Some(s) => {
            let n: usize = div_up(len, s);
            let mut i: usize = 0;
            let mut start: usize = 0;
            let mut first: usize = 0;
            while i < n
                invariant
                    l == len,
                    ro == row,
                    p == per,
                    step == p * ro,
                    s == step,
                    s >= 1,
                    step >= p,
                    n == ceil_div(l, step),
                    n * step >= l,
                    l > 0 ==> (n - 1) * step < l,
                    i <= n,
                    i < n ==> start == i * step && first == i * p,
                    out@ =~= cut(l, ro, p).take(i as int),
                decreases n - i,
            {
                proof {
                    assert(i * step <= (n - 1) * step) by (nonlinear_arith)
                        requires
                            i <= n - 1,
                            step >= 0,
                    ;
                    assert(l > 0) by {
                        if l == 0 {
                            ceil_div_is(l, step);
                        }
                    }
                    assert((i + 1) * step == i * step + step && (i + 1) * p == i * p + p) by (nonlinear_arith);
                    assert(i * p <= i * step) by (nonlinear_arith)
                        requires
                            p <= step,
                            i >= 0,
                    ;
                }
                let left: usize = len - start;
                out.push(
                    Piece {
                        first_row: first,
                        start,
                        len: if s <= left {
                            s
                        } else {
                            left
                        },
                    },
                );
                i += 1;
                if i < n {
                    proof {
                        assert(i * step <= (n - 1) * step && i * p <= i * step) by (nonlinear_arith)
                            requires
                                i <= n - 1,
                                step >= 0,
                                p <= step,
                                i >= 0,
                        ;
                    }
                    start += s;
                    first += per;
                }
            }
            proof {
                assert(cut(l, ro, p).take(i as int) =~= cut(l, ro, p));
            }
            out
        },
    }
}

/// The pieces tile the elements: each begins where the one before ends, the
/// last ends with them, and none is empty.
pub proof fn pieces_tile(len: nat, row: nat, per: nat, i: int)
    requires
        row > 0,
        per > 0,
        len <= usize::MAX,
        0 <= i < cut(len, row, per).len(),
    ensures
        ({
            let c = cut(len, row, per);
            &&& c[0].start == 0
            &&& c[i].len > 0
            &&& i + 1 < c.len() ==> c[i + 1].start == c[i].start + c[i].len
            &&& i + 1 == c.len() ==> c[i].start + c[i].len == len
        }),
{
    let step = per * row;
    assert(step >= 1) by (nonlinear_arith)
        requires
            step == per * row,
            per >= 1,
            row >= 1,
    ;
    ceil_div_is(len, step);
    let n = ceil_div(len, step) as int;
    assert(len > 0);
    assert(i * step <= (n - 1) * step && 0 <= i * step && (i + 1) * step == i * step + step) by (nonlinear_arith)
        requires
            0 <= i <= n - 1,
            step >= 1,
    ;
    if i + 1 < n {
        assert((i + 1) * step <= (n - 1) * step) by (nonlinear_arith)
            requires
                i + 1 <= n - 1,
                step >= 0,
        ;
    }
    assert(0 * step == 0);
}

/// Over up to `threads` threads: as even as whole rows allow, and one piece
/// where a thread would have them all.
pub open spec fn evenly(len: nat, row: nat, threads: nat) -> Seq<Piece> {
    let r = if row > 0 {
        row
    } else {
        1
    };
    let rows = len / r;
    let per = ceil_div(
        rows,
        if threads > 0 {
            threads
        } else {
            1
        },
    );
    if rows == 0 {
        seq![]
    } else if per >= rows {
        whole(len)
    } else {
        cut(len, r, per)
    }
}

/// Splits `len` elements, rows of `row`, over up to `threads` threads.
pub fn split_evenly(len: usize, row: usize, threads: usize) -> (r: Vec<Piece>)
    ensures
        r@ == evenly(len as nat, row as nat, threads as nat),
{
    let each: usize = if row > 0 {
        row
    } else {
        1
    };
    let rows: usize = len / each;
    let mut out: Vec<Piece> = Vec::new();
    if rows == 0 {
        return out;
    }
    let n: usize = if threads > 0 {
        threads
    } else {
        1
    };
    let per: usize = div_up(rows, n);
    proof {
        ceil_div_is(rows as nat, n as nat);
    }
    if per >= rows {
        out.push(Piece { first_row: 0, start: 0, len });
        return out;
    }
    cut_rows(len, each, per)
}

/// Over a pool of `threads`, a few pieces each so that uneven ones balance;
/// in one piece where there is one thread, one row, or the caller works
/// inline.
pub open spec fn balanced(len: nat, row: nat, threads: nat, inline: bool) -> Seq<Piece> {
    let r = if row > 0 {
        row
    } else {
        1
    };
    let rows = ceil_div(len, r);
    let tasks = if rows <= 4 * threads {
        rows
    } else {
        4 * threads
    };
    if rows == 0 {
        seq![]
    } else if threads <= 1 || rows < 2 || inline {
        whole(len)
    } else {
        cut(len, r, ceil_div(rows, tasks))
    }
}

/// Splits `len` elements, rows of `row` (the last may be short), over a
/// pool of `threads`.
pub fn split_balanced(len: usize, row: usize, threads: usize, inline: bool) -> (r: Vec<Piece>)
    ensures
        r@ == balanced(len as nat, row as nat, threads as nat, inline),
{
    let each: usize = if row > 0 {
        row
    } else {
        1
    };
    let rows: usize = div_up(len, each);
    let mut out: Vec<Piece> = Vec::new();
    if rows == 0 {
        return out;
    }
    if threads <= 1 || rows < 2 || inline {
        out.push(Piece { first_row: 0, start: 0, len });
        return out;
    }
    let tasks: usize = if rows as u128 <= 4 * (threads as u128) {
        rows
    } else {
        4 * threads
    };
    let per: usize = div_up(rows, tasks);
    proof {
        ceil_div_is(rows as nat, tasks as nat);
    }
    cut_rows(len, each, per)
}

/// The host threads to use: as set, or else the machine's up to sixteen,
/// four where it does not say.
pub open spec fn thread_count(set: usize, available: Option<usize>) -> usize {
    if set != 0 {
        set
    } else {
        match available {
            Some(n) => if n <= 16 {
                n
            } else {
                16
            },
            None => 4,
        }
    }
}

pub fn threads(set: usize, available: Option<usize>) -> (r: usize)
    ensures
        r == thread_count(set, available),
{
    if set != 0 {
        return set;
    }
    match available {
        Some(n) => if n <= 16 {
            n
        } else {
            16
        },
        None => 4,
    }
}

} // verus!
