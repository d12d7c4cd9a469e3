//! What a crop's score is made of: the feature map sampled on a grid over the
//! box and on a grid over the rest of the map, both averaged two by two.
//!
//! Coordinates, interpolation and means in floating point come from the
//! caller, on bit patterns; which values meet and where the results go is
//! stated and proved here.

use crate::arith::{index_bound, index_parts};
use vstd::prelude::*;

verus! {

/// A place on the map: the row and the column before it, and how far beyond
/// them it lies.
pub type Place = (usize, usize, u64, u64);

/// Arithmetic in floating point, on bit patterns.
pub struct Aligner<I, O, L, M> {
    /// A grid point over the box, unless it lies outside the map.
    pub inside: I,
    /// A grid point over the map, unless it lies in the box.
    pub around: O,
    /// The value between four neighbours.
    pub between: L,
    /// The mean of four values.
    pub mean: M,
}

/// `f` gives the places of the points of an `n x n` grid.
pub open spec fn are_places<F: Fn(usize, usize) -> Option<Place>>(f: F, n: nat, places: Seq<Option<Place>>) -> bool {
    &&& places.len() == n * n
    &&& forall|i: int|
        0 <= i < places.len() ==> call_ensures(
            f,
            ((i / (n as int)) as usize, (i % (n as int)) as usize),
            #[trigger] places[i],
        )
}

/// `f` has a place for every point of an `n x n` grid, with its neighbours
/// inside an `h x w` map.
pub open spec fn places_inside<F: Fn(usize, usize) -> Option<Place>>(f: F, n: nat, h: nat, w: nat) -> bool {
    &&& forall|y: usize, x: usize| y < n && x < n ==> #[trigger] call_requires(f, (y, x))
    &&& forall|y: usize, x: usize, p: Option<Place>|
        y < n && x < n && #[trigger] call_ensures(f, (y, x), p) ==> on_map(p, h, w)
}

pub open spec fn on_map(p: Option<Place>, h: nat, w: nat) -> bool {
    p matches Some(q) ==> q.0 + 1 < h && q.1 + 1 < w
}

impl<
    I: Fn(usize, usize) -> Option<Place>,
    O: Fn(usize, usize) -> Option<Place>,
    L: Fn(u64, u64, u32, u32, u32, u32) -> u32,
    M: Fn(u32, u32, u32, u32) -> u32,
> Aligner<I, O, L, M> {
    pub open spec fn total(&self, n: nat, h: nat, w: nat) -> bool {
        &&& places_inside(self.inside, n, h, w)
        &&& places_inside(self.around, n, h, w)
        &&& forall|y: u64, x: u64, a: u32, b: u32, c: u32, d: u32| #[trigger] call_requires(self.between, (y, x, a, b, c, d))
        &&& forall|a: u32, b: u32, c: u32, d: u32| #[trigger] call_requires(self.mean, (a, b, c, d))
    }

    /// `v` is the sample at a place of the plane that starts at `first`; zero
    /// where there is none.
    pub open spec fn is_sample(&self, map: Seq<u32>, first: int, w: int, p: Option<Place>, v: u32) -> bool {
        match p {
            None => v == 0,
            Some(q) => {
                let i = first + q.0 * w + q.1;
                call_ensures(self.between, (q.2, q.3, map[i], map[i + 1], map[i + w], map[i + w + 1]), v)
            },
        }
    }

    pub open spec fn is_grid(&self, map: Seq<u32>, first: int, w: int, places: Seq<Option<Place>>, grid: Seq<u32>) -> bool {
        &&& grid.len() == places.len()
        &&& forall|i: int| 0 <= i < grid.len() ==> self.is_sample(map, first, w, places[i], #[trigger] grid[i])
    }

    /// `out` are the means of the squares of an `(s + 1) x (s + 1)` grid.
    pub open spec fn is_pooled(&self, grid: Seq<u32>, s: nat, out: Seq<u32>) -> bool {
        &&& out.len() == s * s
        &&& forall|j: int|
            0 <= j < out.len() ==> {
                let i = (j / (s as int)) * (s + 1) + j % (s as int);
                call_ensures(self.mean, (grid[i], grid[i + 1], grid[i + (s + 1)], grid[i + (s + 1) + 1]), #[trigger] out[j])
            }
    }

    /// Plane `k` of the features: of the box for the first `c`, of what is
    /// around it for the others.
    pub open spec fn is_plane(
        &self,
        map: Seq<u32>,
        c: nat,
        h: nat,
        w: nat,
        s: nat,
        inner: Seq<Option<Place>>,
        outer: Seq<Option<Place>>,
        k: int,
        grid: Seq<u32>,
        out: Seq<u32>,
    ) -> bool {
        &&& self.is_grid(
            map,
            (k % (c as int)) * (h * w),
            w as int,
            if k < c {
                inner
            } else {
                outer
            },
            grid,
        )
        &&& self.is_pooled(grid, s, out)
    }

    /// `out` are a box's features on a map of `c` planes of `h x w`.
    pub open spec fn are_features(
        &self,
        map: Seq<u32>,
        c: nat,
        h: nat,
        w: nat,
        s: nat,
        inner: Seq<Option<Place>>,
        outer: Seq<Option<Place>>,
        grids: Seq<Seq<u32>>,
        out: Seq<u32>,
    ) -> bool {
        &&& are_places(self.inside, s + 1, inner)
        &&& are_places(self.around, s + 1, outer)
        &&& grids.len() == 2 * c
        &&& out.len() == (2 * c) * (s * s)
        &&& forall|k: int|
            0 <= k < 2 * c ==> self.is_plane(
                map,
                c,
                h,
                w,
                s,
                inner,
                outer,
                k,
                #[trigger] grids[k],
                out.subrange(k * (s * s), (k + 1) * (s * s)),
            )
    }

    fn sample(&self, map: &Vec<u32>, first: usize, h: usize, w: usize, p: Option<Place>) -> (v: u32)
        requires
            forall|y: u64, x: u64, a: u32, b: u32, c: u32, d: u32| #[trigger]
                call_requires(self.between, (y, x, a, b, c, d)),
            on_map(p, h as nat, w as nat),
            first + h * w <= map.len(),
        ensures
            self.is_sample(map@, first as int, w as int, p, v),
    {
        match p {
            None => 0,
            Some(q) => {
                let (y, x): (usize, usize) = (q.0, q.1);
                proof {
                    index_bound(y as int + 1, x as int + 1, h as int, w as int);
                    assert((y + 1) * w == y * w + w && 0 <= y * w) by (nonlinear_arith)
                        requires
                            y >= 0,
                            w >= 0,
                    ;
                }
                let i: usize = first + y * w + x;
                (self.between)(q.2, q.3, map[i], map[i + 1], map[i + w], map[i + w + 1])
            },
        }
    }

    fn grid_of(&self, map: &Vec<u32>, first: usize, h: usize, w: usize, places: &Vec<Option<Place>>) -> (grid: Vec<u32>)
        requires
            forall|y: u64, x: u64, a: u32, b: u32, c: u32, d: u32| #[trigger]
                call_requires(self.between, (y, x, a, b, c, d)),
            forall|i: int| 0 <= i < places.len() ==> on_map(#[trigger] places[i], h as nat, w as nat),
            first + h * w <= map.len(),
        ensures
            self.is_grid(map@, first as int, w as int, places@, grid@),
    {
        let mut grid: Vec<u32> = Vec::new();
        let mut i: usize = 0;
        while i < places.len()
            invariant
                forall|y: u64, x: u64, a: u32, b: u32, c: u32, d: u32| #[trigger]
                    call_requires(self.between, (y, x, a, b, c, d)),
                forall|i: int| 0 <= i < places.len() ==> on_map(#[trigger] places[i], h as nat, w as nat),
                first + h * w <= map.len(),
                i <= places.len(),
                grid.len() == i,
                forall|j: int| 0 <= j < i ==> self.is_sample(map@, first as int, w as int, places[j], #[trigger] grid[j]),
            decreases places.len() - i,
        {
            let v: u32 = self.sample(map, first, h, w, places[i]);
            grid.push(v);
            i += 1;
        }
        grid
    }

    fn pooled(&self, grid: &Vec<u32>, s: usize) -> (out: Vec<u32>)
        requires
            forall|a: u32, b: u32, c: u32, d: u32| #[trigger] call_requires(self.mean, (a, b, c, d)),
            (s + 1) * (s + 1) == grid.len(),
            s < usize::MAX,
        ensures
            self.is_pooled(grid@, s as nat, out@),
    {
        let n: usize = s + 1;
        proof {
            assert(s * s <= n * n) by (nonlinear_arith)
                requires
                    0 <= s <= n,
            ;
        }
        let total: usize = s * s;
        let mut out: Vec<u32> = Vec::new();
        let mut j: usize = 0;
        while j < total
            invariant
                forall|a: u32, b: u32, c: u32, d: u32| #[trigger] call_requires(self.mean, (a, b, c, d)),
                n == s + 1,
                total == s * s,
                n * n == grid.len(),
                j <= total,
                out.len() == j,
                forall|k: int|
                    0 <= k < j ==> {
                        let i = (k / (s as int)) * (s + 1) + k % (s as int);
                        call_ensures(
                            self.mean,
                            (grid@[i], grid@[i + 1], grid@[i + (s + 1)], grid@[i + (s + 1) + 1]),
                            #[trigger] out@[k],
                        )
                    },
            decreases total - j,
        {
            proof {
                assert(s > 0) by (nonlinear_arith)
                    requires
                        j < s * s,
                ;
                index_parts(j as int, s as int, s as int);
                let (y, x) = (j as int / s as int, j as int % s as int);
                index_bound(y + 1, x + 1, n as int, n as int);
                assert((y + 1) * n == y * n + n && 0 <= y * n) by (nonlinear_arith)
                    requires
                        y >= 0,
                        n >= 0,
                ;
            }
            let i: usize = (j / s) * n + j % s;
            let v: u32 = (self.mean)(grid[i], grid[i + 1], grid[i + n], grid[i + n + 1]);
            out.push(v);
            j += 1;
        }
        out
    }
}

fn places_of<F: Fn(usize, usize) -> Option<Place>>(f: &F, n: usize, Ghost(h): Ghost<nat>, Ghost(w): Ghost<nat>) -> (places:
    Vec<Option<Place>>)
    requires
        places_inside(*f, n as nat, h, w),
        n * n <= usize::MAX,
    ensures
        are_places(*f, n as nat, places@),
        forall|i: int| 0 <= i < places.len() ==> on_map(#[trigger] places[i], h, w),
{
    let total: usize = n * n;
    let mut places: Vec<Option<Place>> = Vec::new();
    let mut i: usize = 0;
    while i < total
        invariant
            places_inside(*f, n as nat, h, w),
            total == n * n,
            i <= total,
            places.len() == i,
            forall|j: int|
                0 <= j < i ==> call_ensures(
                    *f,
                    ((j / (n as int)) as usize, (j % (n as int)) as usize),
                    #[trigger] places[j],
                ),
            forall|j: int| 0 <= j < i ==> on_map(#[trigger] places[j], h, w),
        decreases total - i,
    {
        proof {
            assert(n > 0) by (nonlinear_arith)
                requires
                    i < n * n,
            ;
            index_parts(i as int, n as int, n as int);
        }
        let p: Option<Place> = f(i / n, i % n);
        places.push(p);
        i += 1;
    }
    places
}

/// A box's features: `c` planes of `s x s` means over the box, then `c` over
/// what is around it.
#[verifier::rlimit(40)]
pub fn box_features<
    I: Fn(usize, usize) -> Option<Place>,
    O: Fn(usize, usize) -> Option<Place>,
    L: Fn(u64, u64, u32, u32, u32, u32) -> u32,
    M: Fn(u32, u32, u32, u32) -> u32,
>(map: &Vec<u32>, c: usize, h: usize, w: usize, s: usize, parts: &Aligner<I, O, L, M>) -> (out: Vec<u32>)
    requires
        s < usize::MAX,
        (s + 1) * (s + 1) <= usize::MAX,
        2 * c <= usize::MAX,
        map.len() == c * (h * w),
        parts.total((s + 1) as nat, h as nat, w as nat),
    ensures
        exists|inner: Seq<Option<Place>>, outer: Seq<Option<Place>>, grids: Seq<Seq<u32>>| #[trigger]
            parts.are_features(map@, c as nat, h as nat, w as nat, s as nat, inner, outer, grids, out@),
{
    let n: usize = s + 1;
    let inner: Vec<Option<Place>> = places_of(&parts.inside, n, Ghost(h as nat), Ghost(w as nat));
    let outer: Vec<Option<Place>> = places_of(&parts.around, n, Ghost(h as nat), Ghost(w as nat));
    let ghost ss = (s * s) as int;
    let ghost mut grids: Seq<Seq<u32>> = seq![];
    let mut out: Vec<u32> = Vec::new();
    let mut k: usize = 0;
    proof {
        assert(0 * ss == 0) by (nonlinear_arith);
    }
    while k < 2 * c
        invariant
            s < usize::MAX,
            n == s + 1,
            ss == s * s,
            2 * c <= usize::MAX,
            map.len() == c * (h * w),
            parts.total(n as nat, h as nat, w as nat),
            inner.len() == n * n,
            outer.len() == n * n,
            forall|i: int| 0 <= i < inner.len() ==> on_map(#[trigger] inner[i], h as nat, w as nat),
            forall|i: int| 0 <= i < outer.len() ==> on_map(#[trigger] outer[i], h as nat, w as nat),
            k <= 2 * c,
            grids.len() == k,
            out.len() == k * ss,
            forall|j: int|
                0 <= j < k ==> parts.is_plane(
                    map@,
                    c as nat,
                    h as nat,
                    w as nat,
                    s as nat,
                    inner@,
                    outer@,
                    j,
                    #[trigger] grids[j],
                    out@.subrange(j * ss, (j + 1) * ss),
                ),
        decreases 2 * c - k,
    {
        let ch: usize = if k < c {
            k
        } else {
            k - c
        };
        proof {
            assert(k % c == ch) by {
                vstd::arithmetic::div_mod::lemma_small_mod(ch as nat, c as nat);
                if k >= c {
                    vstd::arithmetic::div_mod::lemma_mod_add_multiples_vanish(ch as int, c as int);
                }
            }
            assert(ch * (h * w) + h * w <= c * (h * w) && 0 <= ch * (h * w) && 0 <= h * w) by (nonlinear_arith)
                requires
                    0 <= ch < c,
                    h >= 0,
                    w >= 0,
            ;
            assert(h * w <= c * (h * w)) by (nonlinear_arith)
                requires
                    c >= 1,
                    0 <= h * w,
            ;
        }
        let first: usize = ch * (h * w);
        let grid: Vec<u32> = if k < c {
            parts.grid_of(map, first, h, w, &inner)
        } else {
            parts.grid_of(map, first, h, w, &outer)
        };
        let mut plane: Vec<u32> = parts.pooled(&grid, s);
        let ghost was = out@;
        let ghost new = plane@;
        out.append(&mut plane);
        proof {
            assert(out@ =~= was + new);
            assert((k + 1) * ss == k * ss + ss) by (nonlinear_arith);
            let all = grids.push(grid@);
            assert forall|j: int| 0 <= j < k + 1 implies parts.is_plane(
                map@,
                c as nat,
                h as nat,
                w as nat,
                s as nat,
                inner@,
                outer@,
                j,
                #[trigger] all[j],
                out@.subrange(j * ss, (j + 1) * ss),
            ) by {
                assert(0 <= j * ss && (j + 1) * ss == j * ss + ss && (j + 1) * ss <= (k + 1) * ss) by (nonlinear_arith)
                    requires
                        0 <= j <= k,
                        ss >= 0,
                ;
                if j < k {
                    assert(grids[j] == all[j]);
                    assert((j + 1) * ss <= k * ss) by (nonlinear_arith)
                        requires
                            j + 1 <= k,
                            ss >= 0,
                    ;
                    assert(out@.subrange(j * ss, (j + 1) * ss) =~= was.subrange(j * ss, (j + 1) * ss));
                } else {
                    assert(out@.subrange(j * ss, (j + 1) * ss) =~= new);
                }
            }
            grids = all;
        }
        k += 1;
    }
    proof {
        assert(parts.are_features(map@, c as nat, h as nat, w as nat, s as nat, inner@, outer@, grids, out@));
    }
    out
}

} // verus!
