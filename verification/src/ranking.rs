//! Ordering scores: the total order on single-precision bit patterns, the
//! best of a list, the rank of each, and the list from best to worst.

use vstd::prelude::*;

verus! {

/// Where a bit pattern stands in the total order: negative numbers by
/// falling magnitude, then positive ones by rising magnitude, NaNs outermost
/// on the side of their sign.
pub open spec fn place(bits: u32) -> int {
    if bits < 0x8000_0000 {
        bits as int
    } else {
        -1 - (bits - 0x8000_0000)
    }
}

fn place_of(bits: u32) -> (r: i64)
    ensures
        r == place(bits),
{
    if bits < 0x8000_0000 {
        bits as i64
    } else {
        -1 - (bits - 0x8000_0000) as i64
    }
}

/// The order is total on bit patterns: no two share a place.
pub proof fn places_differ(a: u32, b: u32)
    ensures
        place(a) == place(b) <==> a == b,
{
}

/// `i` is the last of the greatest.
pub open spec fn is_last_greatest(v: Seq<u32>, i: int) -> bool {
    &&& 0 <= i < v.len()
    &&& forall|j: int| 0 <= j < v.len() ==> place(#[trigger] v[j]) <= place(v[i])
    &&& forall|j: int| i < j < v.len() ==> place(#[trigger] v[j]) < place(v[i])
}

/// The last of the greatest values; the first index of an empty list.
pub fn argmax(v: &Vec<u32>) -> (r: usize)
    ensures
        if v.len() == 0 {
            r == 0
        } else {
            is_last_greatest(v@, r as int)
        },
{
    let mut best: usize = 0;
    let mut i: usize = 1;
    while i < v.len()
        invariant
            v.len() > 0 ==> best < i && best < v.len(),
            v.len() > 0 ==> 1 <= i <= v.len(),
            v.len() == 0 ==> best == 0,
            forall|j: int| 0 <= j < i && j < v.len() ==> place(#[trigger] v[j]) <= place(v[best as int]),
            forall|j: int| best < j < i && j < v.len() ==> place(#[trigger] v[j]) < place(v[best as int]),
        decreases v.len() - i,
    {
        if place_of(v[i]) >= place_of(v[best]) {
            best = i;
        }
        i += 1;
    }
    best
}

/// `i` comes before `j` in rising order, equal values as they stand.
pub open spec fn below(v: Seq<u32>, i: int, j: int) -> bool {
    place(v[i]) < place(v[j]) || place(v[i]) == place(v[j]) && i < j
}

/// How many of the first `n` come before `i`.
pub open spec fn rank(v: Seq<u32>, i: int, n: nat) -> nat
    decreases n,
{
    if n == 0 {
        0
    } else {
        rank(v, i, (n - 1) as nat) + (if below(v, n - 1, i) {
            1nat
        } else {
            0
        })
    }
}

proof fn rank_bound(v: Seq<u32>, i: int, n: nat)
    ensures
        rank(v, i, n) <= n,
        i < n && 0 <= i ==> rank(v, i, n) < n,
    decreases n,
{
    if n > 0 {
        rank_bound(v, i, (n - 1) as nat);
    }
}

fn rank_of(v: &Vec<u32>, i: usize) -> (r: usize)
    requires
        i < v.len(),
    ensures
        r == rank(v@, i as int, v.len() as nat),
{
    let mut n: usize = 0;
    let mut j: usize = 0;
    while j < v.len()
        invariant
            i < v.len(),
            j <= v.len(),
            n == rank(v@, i as int, j as nat),
            n <= j,
        decreases v.len() - j,
    {
        let (a, b): (i64, i64) = (place_of(v[j]), place_of(v[i]));
        if a < b || a == b && j < i {
            n += 1;
        }
        j += 1;
    }
    n
}

/// The rank of every value: how many come before it.
pub fn ranks(v: &Vec<u32>) -> (r: Vec<usize>)
    ensures
        r.len() == v.len(),
        forall|i: int| 0 <= i < v.len() ==> #[trigger] r[i] == rank(v@, i, v.len() as nat),
{
    let mut out: Vec<usize> = Vec::new();
    let mut i: usize = 0;
    while i < v.len()
        invariant
            i <= v.len(),
            out.len() == i,
            forall|k: int| 0 <= k < i ==> #[trigger] out[k] == rank(v@, k, v.len() as nat),
        decreases v.len() - i,
    {
        out.push(rank_of(v, i));
        i += 1;
    }
    out
}

proof fn rank_grows(v: Seq<u32>, i: int, j: int, n: nat)
    requires
        0 <= i < v.len(),
        0 <= j < v.len(),
        n <= v.len(),
        below(v, i, j),
    ensures
        rank(v, i, n) <= rank(v, j, n),
        i < n ==> rank(v, i, n) < rank(v, j, n),
    decreases n,
{
    if n > 0 {
        rank_grows(v, i, j, (n - 1) as nat);
        let k = n - 1;
        if below(v, k, i) {
            assert(below(v, k, j));
        }
    }
}

/// Ranks follow the order, so no two values share one, and each is below the
/// number of values.
pub proof fn ranks_follow_order(v: Seq<u32>, i: int, j: int)
    requires
        0 <= i < v.len(),
        0 <= j < v.len(),
        i != j,
    ensures
        rank(v, i, v.len()) < v.len(),
        rank(v, i, v.len()) != rank(v, j, v.len()),
        below(v, i, j) <==> rank(v, i, v.len()) < rank(v, j, v.len()),
{
    rank_bound(v, i, v.len());
    if below(v, i, j) {
        rank_grows(v, i, j, v.len());
    } else {
        rank_grows(v, j, i, v.len());
    }
}

/// `i` comes before `j` from best to worst, equal values as they stand.
pub open spec fn above(v: Seq<u32>, i: int, j: int) -> bool {
    place(v[i]) > place(v[j]) || place(v[i]) == place(v[j]) && i < j
}

/// `r` lists the first `n` indices from best to worst.
pub open spec fn is_descending(v: Seq<u32>, r: Seq<usize>, n: nat) -> bool {
    &&& r.len() == n
    &&& forall|a: int| 0 <= a < n ==> (#[trigger] r[a]) < n
    &&& forall|a: int, b: int| 0 <= a < b < n ==> above(v, #[trigger] r[a] as int, #[trigger] r[b] as int)
}

/// Every index is listed, once.
pub proof fn descending_lists_all(v: Seq<u32>, r: Seq<usize>, n: nat, i: usize)
    requires
        is_descending(v, r, n),
        n <= v.len(),
        i < n,
    ensures
        r.contains(i),
        r.no_duplicates(),
{
    assert(r.no_duplicates()) by {
        assert forall|a: int, b: int| 0 <= a < r.len() && 0 <= b < r.len() && a != b implies r[a] != r[b] by {
            if a < b {
                assert(above(v, r[a] as int, r[b] as int));
            } else {
                assert(above(v, r[b] as int, r[a] as int));
            }
        }
    }
    let ints = r.map_values(|x: usize| x as int);
    assert(ints.no_duplicates()) by {
        assert forall|a: int, b: int| 0 <= a < ints.len() && 0 <= b < ints.len() && a != b implies ints[a] != ints[b] by {
            assert(r[a] != r[b]);
        }
    }
    let all = vstd::set_lib::set_int_range(0, n as int);
    vstd::set_lib::lemma_int_range(0, n as int);
    ints.unique_seq_to_set();
    assert(ints.to_set().subset_of(all)) by {
        assert forall|x: int| ints.to_set().contains(x) implies all.contains(x) by {
            let a = choose|a: int| 0 <= a < ints.len() && ints[a] == x;
            assert(r[a] < n);
        }
    }
    vstd::set_lib::lemma_subset_equality(ints.to_set(), all);
    assert(ints.to_set().contains(i as int));
    let a = choose|a: int| 0 <= a < ints.len() && ints[a] == i as int;
    assert(r[a] == i);
}

/// The indices from the best value to the worst.
pub fn descending(v: &Vec<u32>) -> (r: Vec<usize>)
    ensures
        is_descending(v@, r@, v.len() as nat),
{
    let mut out: Vec<usize> = Vec::new();
    let mut i: usize = 0;
    while i < v.len()
        invariant
            i <= v.len(),
            is_descending(v@, out@, i as nat),
        decreases v.len() - i,
    {
        let mut k: usize = out.len();
        while k > 0 && place_of(v[out[k - 1]]) < place_of(v[i])
            invariant
                i < v.len(),
                k <= out.len(),
                is_descending(v@, out@, i as nat),
                forall|a: int| k <= a < i ==> place(v@[#[trigger] out@[a] as int]) < place(v@[i as int]),
            decreases k,
        {
            k -= 1;
        }
        let ghost was = out@;
        out.insert(k, i);
        proof {
            let new = out@;
            assert(new =~= was.insert(k as int, i));
            assert forall|a: int, b: int| 0 <= a < b < i + 1 implies above(v@, #[trigger] new[a] as int, #[trigger] new[b] as int) by {
                let x = if a < k {
                    a
                } else {
                    a - 1
                };
                let y = if b < k {
                    b
                } else {
                    b - 1
                };
                if a == k {
                    assert(new[b] == was[y]);
                } else if b == k {
                    assert(new[a] == was[x]);
                    if k > 0 && x < k - 1 {
                        assert(above(v@, was[x] as int, was[k - 1] as int));
                    }
                } else {
                    assert(new[a] == was[x] && new[b] == was[y]);
                    assert(above(v@, was[x] as int, was[y] as int));
                }
            }
            assert forall|a: int| 0 <= a < i + 1 implies (#[trigger] new[a]) < i + 1 by {
                if a < k {
                    assert(new[a] == was[a]);
                } else if a > k {
                    assert(new[a] == was[a - 1]);
                }
            }
        }
        i += 1;
    }
    out
}

/// The order is that of numbers: positive ones rise with their bits, negative
/// ones fall, and every negative one is below every positive one.
pub proof fn places_order_numbers(a: u32, b: u32)
    ensures
        a < 0x8000_0000 && b < 0x8000_0000 ==> (place(a) < place(b) <==> a < b),
        a >= 0x8000_0000 && b >= 0x8000_0000 ==> (place(a) < place(b) <==> a > b),
        a >= 0x8000_0000 && b < 0x8000_0000 ==> place(a) < place(b),
{
}

/// Nothing is greater than the greatest: of positive values none has higher
/// bits, and a negative one is only best of negative ones.
pub proof fn the_best_is_greatest(v: Seq<u32>, best: int, j: int)
    requires
        is_last_greatest(v, best),
        0 <= j < v.len(),
    ensures
        v[best] < 0x8000_0000 && v[j] < 0x8000_0000 ==> v[j] <= v[best],
        v[best] >= 0x8000_0000 ==> v[j] >= v[best],
        v[j] == v[best] ==> j <= best,
{
}

/// Ranks rise with values.
pub proof fn ranks_rise(v: Seq<u32>, i: int, j: int)
    requires
        0 <= i < v.len(),
        0 <= j < v.len(),
    ensures
        v[i] < v[j] < 0x8000_0000 ==> rank(v, i, v.len()) < rank(v, j, v.len()),
        0x8000_0000 <= v[i] && v[j] < 0x8000_0000 ==> rank(v, i, v.len()) < rank(v, j, v.len()),
        0x8000_0000 <= v[j] < v[i] ==> rank(v, i, v.len()) < rank(v, j, v.len()),
        v[i] == v[j] && i < j ==> rank(v, i, v.len()) < rank(v, j, v.len()),
{
    if i != j {
        ranks_follow_order(v, i, j);
    }
}

/// From best to worst values fall.
pub proof fn descending_falls(v: Seq<u32>, r: Seq<usize>, n: nat, a: int, b: int)
    requires
        is_descending(v, r, n),
        0 <= a < b < n,
    ensures
        v[r[a] as int] < 0x8000_0000 && v[r[b] as int] < 0x8000_0000 ==> v[r[a] as int] >= v[r[b] as int],
        v[r[a] as int] >= 0x8000_0000 ==> v[r[b] as int] >= v[r[a] as int],
        v[r[a] as int] == v[r[b] as int] ==> r[a] < r[b],
{
    assert(above(v, r[a] as int, r[b] as int));
}

} // verus!
