//! Rearranging elements: every output is an input element at a stated
//! place.

use crate::bf16::{bf16_to_f32, f32_to_bf16, narrow, wide};
use vstd::prelude::*;

verus! {

/// The elements of `src` at the places `at` gives the first `n` indices.
pub open spec fn picked<T>(src: Seq<T>, n: nat, at: spec_fn(int) -> int) -> Seq<T> {
    Seq::new(n, |i: int| src[at(i)])
}

/// Collects the elements at the places `place` computes, which are those
/// of `at`.
pub(crate) fn pick<T: Copy, F: Fn(usize) -> usize>(src: &[T], n: usize, place: F, Ghost(at): Ghost<
    spec_fn(int) -> int,
>) -> (r: Vec<T>)
    requires
        forall|i: usize| i < n ==> #[trigger] call_requires(place, (i,)),
        forall|i: usize, j: usize|
            i < n && #[trigger] call_ensures(place, (i,), j) ==> j == at(i as int) && j < src.len(),
    ensures
        r@ == picked(src@, n as nat, at),
{
    let mut out: Vec<T> = Vec::new();
    let mut i: usize = 0;
    while i < n
        invariant
            forall|i: usize| i < n ==> #[trigger] call_requires(place, (i,)),
            forall|i: usize, j: usize|
                i < n && #[trigger] call_ensures(place, (i,), j) ==> j == at(i as int) && j < src.len(),
            i <= n,
            out@ =~= picked(src@, n as nat, at).take(i as int),
        decreases n - i,
    {
        let j: usize = place(i);
        out.push(src[j]);
        i += 1;
    }
    out
}

pub open spec fn widened(s: Seq<u16>) -> Seq<u32> {
    s.map_values(|x: u16| wide(x))
}

/// bf16 elements in single precision.
pub fn widen(s: &[u16]) -> (r: Vec<u32>)
    ensures
        r@ == widened(s@),
{
    let mut out: Vec<u32> = Vec::new();
    let mut i: usize = 0;
    while i < s.len()
        invariant
            i <= s.len(),
            out@ =~= widened(s@).take(i as int),
        decreases s.len() - i,
    {
        out.push(bf16_to_f32(s[i]));
        i += 1;
    }
    proof {
        assert(widened(s@).take(i as int) =~= widened(s@));
    }
    out
}

pub open spec fn narrowed(s: Seq<u32>) -> Seq<u16> {
    s.map_values(|x: u32| narrow(x))
}

/// Single-precision elements rounded to bf16.
pub fn narrow_all(s: &[u32]) -> (r: Vec<u16>)
    ensures
        r@ == narrowed(s@),
{
    let mut out: Vec<u16> = Vec::new();
    let mut i: usize = 0;
    while i < s.len()
        invariant
            i <= s.len(),
            out@ =~= narrowed(s@).take(i as int),
        decreases s.len() - i,
    {
        out.push(f32_to_bf16(s[i]));
        i += 1;
    }
    proof {
        assert(narrowed(s@).take(i as int) =~= narrowed(s@));
    }
    out
}

pub(crate) fn copy32(v: &Vec<u32>) -> (r: Vec<u32>)
    ensures
        r@ == v@,
{
    let mut r: Vec<u32> = Vec::new();
    let mut i: usize = 0;
    while i < v.len()
        invariant
            i <= v@.len(),
            r@ == v@.take(i as int),
        decreases v@.len() - i,
    {
        r.push(v[i]);
        i = i + 1;
        assert(v@.take(i as int).drop_last() =~= v@.take(i - 1));
    }
    assert(v@.take(v@.len() as int) =~= v@);
    r
}

/// Widening keeps every value, and narrowing again brings it back, but for
/// the payload of a NaN.
pub proof fn narrowing_undoes_widening(s: Seq<u16>, i: int)
    requires
        0 <= i < s.len(),
    ensures
        widened(s).len() == s.len(),
        narrowed(widened(s)).len() == s.len(),
        widened(s)[i] == s[i] * 0x1_0000,
        !crate::bf16::is_nan(widened(s)[i]) ==> narrowed(widened(s))[i] == s[i],
{
    if !crate::bf16::is_nan(widened(s)[i]) {
        crate::bf16::narrow_of_wide(s[i]);
    }
}

} // verus!
