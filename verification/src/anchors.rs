//! Candidate crops `[x1, y1, x2, y2]` in the network input's pixels, with
//! double-precision arithmetic and truncating conversions.

use crate::bytes::{signed32, to_signed32};
use crate::ieee::{
    at_least_floor, at_most_floor, at_most_grows, below, floor_at_least, of_int_exact, quotient_at_least,
    quotient_at_most, floor, from_half, from_int, less, of_int, over, product, quotient, rounded, scale, scaled, times, to_floor,
    Num, Real, DOUBLE, SINGLE,
};
use vstd::arithmetic::power2::{lemma_pow2_pos, lemma_pow2_unfold, pow2};
use vstd::prelude::*;

verus! {

pub type Box4 = [i32; 4];

/// The corners of a box.
pub open spec fn corners(b: Box4) -> (i32, i32, i32, i32) {
    (b@[0], b@[1], b@[2], b@[3])
}

pub open spec fn all_corners(v: Seq<Box4>) -> Seq<(i32, i32, i32, i32)> {
    v.map_values(|b: Box4| corners(b))
}

pub open spec fn double() -> nat {
    DOUBLE as nat
}

/// `0.4999` in double precision.
pub open spec fn least_area() -> Real {
    Real { m: 9005397814890044, e: -54 }
}

/// `0.4` in double precision.
pub open spec fn least_cover() -> Real {
    Real { m: 7205759403792794, e: -54 }
}

pub open spec fn one_half() -> Real {
    Real { m: 0x10_0000_0000_0000, e: -53 }
}

pub open spec fn two() -> Real {
    Real { m: 0x10_0000_0000_0000, e: -51 }
}

pub open spec fn capped(n: nat, cap: nat) -> nat {
    if n <= cap {
        n
    } else {
        cap
    }
}

// ---------------------------------------------------------------------------
// The aspect-free grid.

/// The width of a grid cell.
pub open spec fn grid_step(len: nat, bins: nat) -> Real {
    quotient(double(), of_int(double(), len), of_int(double(), bins))
}

/// `bins / 3`, before truncation.
pub open spec fn third_of(bins: nat) -> Real {
    quotient(double(), of_int(double(), bins), of_int(double(), 3))
}

/// Upper-left corners lie in the cells below this.
pub open spec fn first_third(bins: nat) -> nat {
    capped(floor(third_of(bins)), usize::MAX as nat)
}

/// Lower-right corners lie in the cells from this on.
pub open spec fn last_third(bins: nat) -> nat {
    capped(floor(scaled(third_of(bins), 1)), usize::MAX as nat)
}

/// The pixel at the middle of cell `x`, truncated.
pub open spec fn cell_pixel(step: Real, x: nat) -> i32 {
    capped(floor(product(double(), step, rounded(double(), 2 * x + 1, 2, 0))), 0x7fff_ffff) as i32
}

/// Whether a crop `dx` by `dy` cells large covers enough and has an aspect
/// ratio strictly between a half and two.
pub open spec fn grid_keeps(im_w: nat, im_h: nat, bins: nat, dx: nat, dy: nat) -> bool {
    let area = quotient(double(), of_int(double(), dx * dy), of_int(double(), bins * bins));
    let aspect = quotient(
        double(),
        product(double(), of_int(double(), dy), grid_step(im_h, bins)),
        product(double(), of_int(double(), dx), grid_step(im_w, bins)),
    );
    less(least_area(), area) && less(one_half(), aspect) && less(aspect, two())
}

pub open spec fn grid_box(im_w: nat, im_h: nat, bins: nat, x1: nat, y1: nat, x2: nat, y2: nat) -> (
    i32,
    i32,
    i32,
    i32,
) {
    (
        cell_pixel(grid_step(im_w, bins), x1),
        cell_pixel(grid_step(im_h, bins), y1),
        cell_pixel(grid_step(im_w, bins), x2),
        cell_pixel(grid_step(im_h, bins), y2),
    )
}

/// The crops with the corners `x1`, `y1`, `x2` and a lower edge below `y2`.
pub open spec fn grid_y2(im_w: nat, im_h: nat, bins: nat, x1: nat, y1: nat, x2: nat, y2: nat) -> Seq<
    (i32, i32, i32, i32),
>
    decreases y2,
{
    if y2 <= last_third(bins) {
        Seq::empty()
    } else {
        let y = (y2 - 1) as nat;
        let before = grid_y2(im_w, im_h, bins, x1, y1, x2, y);
        if grid_keeps(im_w, im_h, bins, (x2 - x1) as nat, (y - y1) as nat) {
            before.push(grid_box(im_w, im_h, bins, x1, y1, x2, y))
        } else {
            before
        }
    }
}

/// Those with the upper-left corner `x1`, `y1` and a right edge below `x2`.
pub open spec fn grid_x2(im_w: nat, im_h: nat, bins: nat, x1: nat, y1: nat, x2: nat) -> Seq<(i32, i32, i32, i32)>
    decreases x2,
{
    if x2 <= last_third(bins) {
        Seq::empty()
    } else {
        let x = (x2 - 1) as nat;
        grid_x2(im_w, im_h, bins, x1, y1, x) + grid_y2(im_w, im_h, bins, x1, y1, x, bins)
    }
}

/// Those with the left edge `x1` and an upper edge below `y1`.
pub open spec fn grid_y1(im_w: nat, im_h: nat, bins: nat, x1: nat, y1: nat) -> Seq<(i32, i32, i32, i32)>
    decreases y1,
{
    if y1 == 0 {
        Seq::empty()
    } else {
        let y = (y1 - 1) as nat;
        grid_y1(im_w, im_h, bins, x1, y) + grid_x2(im_w, im_h, bins, x1, y, bins)
    }
}

/// Those with a left edge below `x1`.
pub open spec fn grid_x1(im_w: nat, im_h: nat, bins: nat, x1: nat) -> Seq<(i32, i32, i32, i32)>
    decreases x1,
{
    if x1 == 0 {
        Seq::empty()
    } else {
        let x = (x1 - 1) as nat;
        grid_x1(im_w, im_h, bins, x) + grid_y1(im_w, im_h, bins, x, first_third(bins))
    }
}

/// Every crop of the grid, left edges outermost, then upper, right and
/// lower edges. An empty image has none.
pub open spec fn grid(im_w: nat, im_h: nat, bins: nat) -> Seq<(i32, i32, i32, i32)> {
    if im_w == 0 || im_h == 0 || bins == 0 {
        Seq::empty()
    } else {
        grid_x1(im_w, im_h, bins, first_third(bins))
    }
}

/// The thirds are in order: an upper-left corner lies strictly above and
/// to the left of every lower-right one.
pub proof fn thirds_in_order(bins: nat)
    ensures
        first_third(bins) <= last_third(bins),
{
    let x = third_of(bins);
    let y = scaled(x, 1);
    if x.m == 0 {
        if x.e >= 0 {
            assert(0 * pow2(x.e as nat) == 0);
        } else {
            lemma_pow2_pos((-x.e) as nat);
            vstd::arithmetic::div_mod::lemma_div_of0(pow2((-x.e) as nat) as int);
        }
    } else if x.e >= 0 {
        lemma_pow2_unfold((x.e + 1) as nat);
        let p = pow2(x.e as nat);
        assert(x.m * (2 * p) >= x.m * p) by (nonlinear_arith);
    } else if x.e == -1 {
        vstd::arithmetic::power2::lemma2_to64();
        assert(x.m * 1 == x.m);
    } else {
        let k = (-x.e) as nat;
        lemma_pow2_unfold(k);
        let p = pow2((k - 1) as nat);
        lemma_pow2_pos((k - 1) as nat);
        vstd::arithmetic::div_mod::lemma_div_is_ordered_by_denominator(x.m as int, p as int, (2 * p) as int);
    }
}

fn grid_cell(step: Num, x: usize) -> (r: i32)
    requires
        step.wf(double(), 1000),
        x < 0x1_0000_0000,
    ensures
        r == cell_pixel(step@, x as nat),
{
    let mid = from_half(DOUBLE, 2 * (x as u64) + 1);
    to_floor(times(DOUBLE, step, mid), 0x7fff_ffff) as i32
}

/// The grid's constants, computed once.
struct Grid {
    im_w: usize,
    im_h: usize,
    bins: usize,
    step_w: Num,
    step_h: Num,
    cells: Num,
    first: usize,
    last: usize,
}

impl Grid {
    spec fn wf(&self) -> bool {
        &&& self.step_w.wf(double(), 1000)
        &&& self.step_h.wf(double(), 1000)
        &&& self.step_w.m > 0
        &&& self.cells.wf(double(), 130)
        &&& self.cells.m > 0
        &&& self.step_w@ == grid_step(self.im_w as nat, self.bins as nat)
        &&& self.step_h@ == grid_step(self.im_h as nat, self.bins as nat)
        &&& self.cells@ == of_int(double(), (self.bins * self.bins) as nat)
        &&& self.bins < 0x1_0000_0000
        &&& self.first == first_third(self.bins as nat)
        &&& self.last == last_third(self.bins as nat)
        &&& self.first <= self.last
    }

    fn keeps(&self, dx: usize, dy: usize) -> (r: bool)
        requires
            self.wf(),
            0 < dx <= self.bins,
            dy <= self.bins,
        ensures
            r == grid_keeps(self.im_w as nat, self.im_h as nat, self.bins as nat, dx as nat, dy as nat),
    {
        proof {
            assert(dx * dy <= 0xffff_ffff * 0xffff_ffff) by (nonlinear_arith)
                requires
                    dx <= 0xffff_ffff,
                    dy <= 0xffff_ffff,
            ;
        }
        let covered: u64 = dx as u64 * dy as u64;
        let area = over(DOUBLE, from_int(DOUBLE, covered), self.cells);
        let tall = times(DOUBLE, from_int(DOUBLE, dy as u64), self.step_h);
        let wide = times(DOUBLE, from_int(DOUBLE, dx as u64), self.step_w);
        let aspect = over(DOUBLE, tall, wide);
        below(Num { m: 9005397814890044, e: -54 }, area) && below(Num { m: 0x10_0000_0000_0000, e: -53 }, aspect)
            && below(aspect, Num { m: 0x10_0000_0000_0000, e: -51 })
    }

    fn from_corner_and_right(&self, x1: usize, y1: usize, x2: usize, out: &mut Vec<Box4>)
        requires
            self.wf(),
            x1 < self.first,
            y1 < self.first,
            self.last <= x2 < self.bins,
        ensures
            all_corners(final(out)@) == all_corners(old(out)@) + grid_y2(
                self.im_w as nat,
                self.im_h as nat,
                self.bins as nat,
                x1 as nat,
                y1 as nat,
                x2 as nat,
                self.bins as nat,
            ),
    {
        let ghost base = all_corners(out@);
        let ghost (w, h, n) = (self.im_w as nat, self.im_h as nat, self.bins as nat);
        let mut y2: usize = self.last;
        while y2 < self.bins
            invariant
                self.wf(),
                x1 < self.first,
                y1 < self.first,
                self.last <= x2 < self.bins,
                self.last <= y2 <= self.bins,
                w == self.im_w,
                h == self.im_h,
                n == self.bins,
                all_corners(out@) == base + grid_y2(w, h, n, x1 as nat, y1 as nat, x2 as nat, y2 as nat),
            decreases self.bins - y2,
        {
            let ghost before = out@;
            if self.keeps(x2 - x1, y2 - y1) {
                let b: Box4 = [
                    grid_cell(self.step_w, x1),
                    grid_cell(self.step_h, y1),
                    grid_cell(self.step_w, x2),
                    grid_cell(self.step_h, y2),
                ];
                out.push(b);
                proof {
                    all_corners_push(before, b);
                }
            }
            proof {
                let col = grid_y2(w, h, n, x1 as nat, y1 as nat, x2 as nat, y2 as nat);
                let item = grid_box(w, h, n, x1 as nat, y1 as nat, x2 as nat, y2 as nat);
                assert((base + col).push(item) =~= base + col.push(item));
            }
            y2 += 1;
        }
    }

    fn from_corner(&self, x1: usize, y1: usize, out: &mut Vec<Box4>)
        requires
            self.wf(),
            x1 < self.first,
            y1 < self.first,
            self.last <= self.bins,
        ensures
            all_corners(final(out)@) == all_corners(old(out)@) + grid_x2(
                self.im_w as nat,
                self.im_h as nat,
                self.bins as nat,
                x1 as nat,
                y1 as nat,
                self.bins as nat,
            ),
    {
        let ghost base = all_corners(out@);
        let ghost (w, h, n) = (self.im_w as nat, self.im_h as nat, self.bins as nat);
        let mut x2: usize = self.last;
        while x2 < self.bins
            invariant
                self.wf(),
                x1 < self.first,
                y1 < self.first,
                self.last <= x2 <= self.bins,
                w == self.im_w,
                h == self.im_h,
                n == self.bins,
                all_corners(out@) == base + grid_x2(w, h, n, x1 as nat, y1 as nat, x2 as nat),
            decreases self.bins - x2,
        {
            self.from_corner_and_right(x1, y1, x2, out);
            proof {
                let a = grid_x2(w, h, n, x1 as nat, y1 as nat, x2 as nat);
                let b = grid_y2(w, h, n, x1 as nat, y1 as nat, x2 as nat, n);
                assert((base + a) + b =~= base + (a + b));
            }
            x2 += 1;
        }
    }

    fn from_left(&self, x1: usize, out: &mut Vec<Box4>)
        requires
            self.wf(),
            x1 < self.first,
            self.last <= self.bins,
        ensures
            all_corners(final(out)@) == all_corners(old(out)@) + grid_y1(
                self.im_w as nat,
                self.im_h as nat,
                self.bins as nat,
                x1 as nat,
                self.first as nat,
            ),
    {
        let ghost base = all_corners(out@);
        let ghost (w, h, n) = (self.im_w as nat, self.im_h as nat, self.bins as nat);
        let mut y1: usize = 0;
        while y1 < self.first
            invariant
                self.wf(),
                x1 < self.first,
                y1 <= self.first,
                self.last <= self.bins,
                w == self.im_w,
                h == self.im_h,
                n == self.bins,
                all_corners(out@) == base + grid_y1(w, h, n, x1 as nat, y1 as nat),
            decreases self.first - y1,
        {
            self.from_corner(x1, y1, out);
            proof {
                let a = grid_y1(w, h, n, x1 as nat, y1 as nat);
                let b = grid_x2(w, h, n, x1 as nat, y1 as nat, n);
                assert((base + a) + b =~= base + (a + b));
            }
            y1 += 1;
        }
    }
}

proof fn all_corners_push(v: Seq<Box4>, b: Box4)
    ensures
        all_corners(v.push(b)) == all_corners(v).push(corners(b)),
{
    assert(all_corners(v.push(b)) =~= all_corners(v).push(corners(b)));
}

/// The aspect-ratio-free grid: corners on a `bins x bins` grid (x1, y1 in
/// the first third, x2, y2 in the last), covering at least half the image,
/// aspect ratio within (1/2, 2).
pub fn generate_anchors(im_w: usize, im_h: usize, bins: usize) -> (r: Vec<Box4>)
    requires
        bins * bins <= usize::MAX,
    ensures
        all_corners(r@) == grid(im_w as nat, im_h as nat, bins as nat),
{
    let mut out: Vec<Box4> = Vec::new();
    proof {
        assert(all_corners(out@) =~= Seq::empty());
    }
    if im_w == 0 || im_h == 0 || bins == 0 {
        return out;
    }
    proof {
        assert(bins < 0x1_0000_0000) by (nonlinear_arith)
            requires
                bins * bins <= 0xffff_ffff_ffff_ffff,
        ;
        thirds_in_order(bins as nat);
        assert(bins * bins > 0) by (nonlinear_arith)
            requires
                bins > 0,
        ;
    }
    let n = from_int(DOUBLE, bins as u64);
    let third = over(DOUBLE, n, from_int(DOUBLE, 3));
    let grid_of = Grid {
        im_w,
        im_h,
        bins,
        step_w: over(DOUBLE, from_int(DOUBLE, im_w as u64), n),
        step_h: over(DOUBLE, from_int(DOUBLE, im_h as u64), n),
        cells: from_int(DOUBLE, (bins * bins) as u64),
        first: to_floor(third, usize::MAX as u64) as usize,
        last: to_floor(scale(third, 1), usize::MAX as u64) as usize,
    };
    let ghost (w, h, b) = (im_w as nat, im_h as nat, bins as nat);
    if grid_of.last > bins {
        // no right edge: nothing qualifies
        proof {
            no_right_edge(w, h, b, first_third(b));
        }
        return out;
    }
    let mut x1: usize = 0;
    while x1 < grid_of.first
        invariant
            grid_of.wf(),
            grid_of.last <= bins,
            x1 <= grid_of.first,
            w == grid_of.im_w,
            h == grid_of.im_h,
            b == grid_of.bins,
            bins == grid_of.bins,
            all_corners(out@) == grid_x1(w, h, b, x1 as nat),
        decreases grid_of.first - x1,
    {
        grid_of.from_left(x1, &mut out);
        x1 += 1;
    }
    out
}

proof fn no_right_edge(im_w: nat, im_h: nat, bins: nat, x1: nat)
    requires
        last_third(bins) > bins,
    ensures
        grid_x1(im_w, im_h, bins, x1) == Seq::<(i32, i32, i32, i32)>::empty(),
    decreases x1,
{
    if x1 > 0 {
        no_right_edge(im_w, im_h, bins, (x1 - 1) as nat);
        no_right_edge_below(im_w, im_h, bins, (x1 - 1) as nat, first_third(bins));
    }
}

proof fn no_right_edge_below(im_w: nat, im_h: nat, bins: nat, x1: nat, y1: nat)
    requires
        last_third(bins) > bins,
    ensures
        grid_y1(im_w, im_h, bins, x1, y1) == Seq::<(i32, i32, i32, i32)>::empty(),
    decreases y1,
{
    if y1 > 0 {
        no_right_edge_below(im_w, im_h, bins, x1, (y1 - 1) as nat);
    }
}

// ---------------------------------------------------------------------------
// Crops of one aspect ratio.

/// How many steps of `step` fit in `len`.
pub open spec fn steps_in(len: nat, step: nat) -> nat {
    capped(floor(quotient(double(), of_int(double(), len), of_int(double(), step))), usize::MAX as nat)
}

/// The same, in units of `bins` steps.
pub open spec fn steps_over(len: nat, step: nat, bins: nat) -> nat {
    capped(
        floor(
            quotient(
                double(),
                quotient(double(), of_int(double(), len), of_int(double(), step)),
                of_int(double(), bins),
            ),
        ),
        usize::MAX as nat,
    )
}

pub open spec fn least(a: nat, b: nat) -> nat {
    if a <= b {
        a
    } else {
        b
    }
}

pub open spec fn most(a: nat, b: nat) -> nat {
    if a >= b {
        a
    } else {
        b
    }
}

/// A size ladder: crop `i` is `w_step * i` by `h_step * i` pixels.
pub struct Ladder {
    pub w_step: nat,
    pub h_step: nat,
    pub max_step: nat,
}

pub open spec fn plain_ladder(im_w: nat, im_h: nat, w_step: nat, h_step: nat) -> Ladder {
    Ladder { w_step, h_step, max_step: least(steps_in(im_w, w_step), steps_in(im_h, h_step)) }
}

/// The factor that coarsens a ladder of too many steps.
pub open spec fn coarsening(im_w: nat, im_h: nat, aspect: (nat, nat), bins: nat) -> nat {
    most(steps_over(im_w, aspect.0, bins), steps_over(im_h, aspect.1, bins))
}

/// The ladder of an aspect ratio, coarsened when it has more than `bins`
/// steps.
pub open spec fn ladder(im_w: nat, im_h: nat, aspect: (nat, nat), bins: nat) -> Ladder {
    let fine = plain_ladder(im_w, im_h, aspect.0, aspect.1);
    if fine.max_step > bins {
        let s = coarsening(im_w, im_h, aspect, bins);
        plain_ladder(im_w, im_h, aspect.0 * s, aspect.1 * s)
    } else {
        fine
    }
}

/// Whether the coarsened steps are positive and fit a `usize`.
pub open spec fn ladder_fits(im_w: nat, im_h: nat, aspect: (nat, nat), bins: nat) -> bool {
    plain_ladder(im_w, im_h, aspect.0, aspect.1).max_step > bins ==> {
        let s = coarsening(im_w, im_h, aspect, bins);
        bins > 0 && s > 0 && aspect.0 * s <= usize::MAX && aspect.1 * s <= usize::MAX
    }
}

/// The smallest size on the ladder: one below half the largest.
pub open spec fn min_step(max_step: nat) -> nat {
    if max_step < 2 {
        0
    } else {
        ((max_step - 2) / 2) as nat
    }
}

/// How many multiples of `step` lie below `len`.
pub open spec fn multiples(len: nat, step: nat) -> nat {
    ((len + step - 1) / step as int) as nat
}

/// The low 32 bits as a signed integer.
pub open spec fn low32(n: int) -> i32 {
    signed32(n % 0x1_0000_0000) as i32
}

pub open spec fn placed(x: nat, y: nat, w: nat, h: nat) -> (i32, i32, i32, i32) {
    (low32(x as int), low32(y as int), low32(x + w - 1), low32(y + h - 1))
}

/// A `w` by `h` crop at the left edge `x`, at the first `n` heights.
pub open spec fn placed_down(l: Ladder, x: nat, w: nat, h: nat, n: nat) -> Seq<(i32, i32, i32, i32)> {
    Seq::new(n, |k: int| placed(x, (k * l.h_step) as nat, w, h))
}

/// At the first `n` left edges, and all heights.
pub open spec fn placed_across(im_h: nat, l: Ladder, w: nat, h: nat, n: nat) -> Seq<(i32, i32, i32, i32)>
    decreases n,
{
    if n == 0 {
        Seq::empty()
    } else {
        placed_across(im_h, l, w, h, (n - 1) as nat) + placed_down(
            l,
            ((n - 1) * l.w_step) as nat,
            w,
            h,
            multiples((im_h - h) as nat, l.h_step),
        )
    }
}

/// Whether crop `w` by `h` is smaller than the image and covers over 40%
/// of it.
pub open spec fn covers(im_w: nat, im_h: nat, w: nat, h: nat) -> bool {
    h < im_h && w < im_w && less(
        product(double(), least_cover(), of_int(double(), im_w * im_h)),
        of_int(double(), w * h),
    )
}

/// The crops of the sizes below `i`.
pub open spec fn crops_below(im_w: nat, im_h: nat, l: Ladder, i: nat) -> Seq<(i32, i32, i32, i32)>
    decreases i,
{
    if i <= min_step(l.max_step) {
        Seq::empty()
    } else {
        let before = crops_below(im_w, im_h, l, (i - 1) as nat);
        let w = (l.w_step * (i - 1)) as nat;
        let h = (l.h_step * (i - 1)) as nat;
        if covers(im_w, im_h, w, h) {
            before + placed_across(im_h, l, w, h, multiples((im_w - w) as nat, l.w_step))
        } else {
            before
        }
    }
}

/// Sizes up to `2^32` and ratios up to `2^16` always fit.
pub open spec fn ordinary(im_w: nat, im_h: nat, aspect: (nat, nat), bins: nat) -> bool {
    &&& im_w <= 0x1_0000_0000
    &&& im_h <= 0x1_0000_0000
    &&& aspect.0 <= 0x1_0000
    &&& aspect.1 <= 0x1_0000
    &&& 0 < bins <= 0x1_0000_0000
    &&& usize::MAX >= 0xffff_ffff_ffff_ffff
}

proof fn over_at_most(len: nat, step: nat, bins: nat)
    requires
        len <= 0x1_0000_0000,
        0 < step <= 0x1_0000,
        0 < bins <= 0x1_0000_0000,
    ensures
        steps_over(len, step, bins) <= 0x1_0000_0000,
{
    let k = 0x1_0000_0000;
    let q = quotient(double(), of_int(double(), len), of_int(double(), step));
    if len > 0 {
        of_int_exact(double(), len);
        of_int_exact(double(), step);
        of_int_exact(double(), bins);
        quotient_at_most(double(), of_int(double(), len), step, len);
        at_most_grows(q, len, k);
        quotient_at_most(double(), q, bins, k);
        at_most_floor(quotient(double(), q, of_int(double(), bins)), k);
    } else {
        assert(0 * pow2(0) == 0);
    }
}

proof fn over_at_least(len: nat, step: nat, bins: nat)
    requires
        len <= 0x1_0000_0000,
        0 < step <= 0x1_0000,
        0 < bins <= 0x1_0000_0000,
        steps_in(len, step) > bins,
    ensures
        steps_over(len, step, bins) >= 1,
{
    let q = quotient(double(), of_int(double(), len), of_int(double(), step));
    if len == 0 {
        assert(0 * pow2(0) == 0);
    } else {
        of_int_exact(double(), len);
        of_int_exact(double(), step);
        of_int_exact(double(), bins);
        at_least_floor(q, bins);
        quotient_at_least(double(), q, bins, 1);
        floor_at_least(quotient(double(), q, of_int(double(), bins)), 1);
    }
}

/// Ordinary sizes have a ladder whose steps fit.
pub proof fn ordinary_fits(im_w: nat, im_h: nat, aspect: (nat, nat), bins: nat)
    requires
        ordinary(im_w, im_h, aspect, bins),
        aspect.0 >= 1,
        aspect.1 >= 1,
    ensures
        ladder_fits(im_w, im_h, aspect, bins),
{
    if plain_ladder(im_w, im_h, aspect.0, aspect.1).max_step > bins {
        over_at_least(im_w, aspect.0, bins);
        over_at_most(im_w, aspect.0, bins);
        over_at_most(im_h, aspect.1, bins);
        let s = coarsening(im_w, im_h, aspect, bins);
        assert(aspect.0 * s <= 0x1_0000 * 0x1_0000_0000) by (nonlinear_arith)
            requires
                aspect.0 <= 0x1_0000,
                s <= 0x1_0000_0000,
        ;
        assert(aspect.1 * s <= 0x1_0000 * 0x1_0000_0000) by (nonlinear_arith)
            requires
                aspect.1 <= 0x1_0000,
                s <= 0x1_0000_0000,
        ;
    }
}

fn to_low32(n: u128) -> (r: i32)
    ensures
        r == low32(n as int),
{
    to_signed32((n % 0x1_0000_0000) as u32)
}

fn count_steps(len: usize, step: usize) -> (r: usize)
    requires
        step > 0,
    ensures
        r == steps_in(len as nat, step as nat),
{
    to_floor(over(DOUBLE, from_int(DOUBLE, len as u64), from_int(DOUBLE, step as u64)), usize::MAX as u64) as usize
}

fn count_steps_over(len: usize, step: usize, bins: usize) -> (r: usize)
    requires
        step > 0,
        bins > 0,
    ensures
        r == steps_over(len as nat, step as nat, bins as nat),
{
    let steps = over(DOUBLE, from_int(DOUBLE, len as u64), from_int(DOUBLE, step as u64));
    to_floor(over(DOUBLE, steps, from_int(DOUBLE, bins as u64)), usize::MAX as u64) as usize
}

/// The multiples below `len` end where a multiple reaches it.
proof fn multiples_end(len: nat, step: nat, k: nat)
    requires
        step > 0,
        k > 0 ==> (k - 1) * step < len,
        k * step >= len,
    ensures
        k == multiples(len, step),
{
    if k == 0 {
        assert(len == 0);
        vstd::arithmetic::div_mod::lemma_basic_div((step - 1) as int, step as int);
    } else {
        assert((len + step - 1) / step as int == k) by {
            let n = len + step - 1;
            assert(k * step <= n < (k + 1) * step) by (nonlinear_arith)
                requires
                    (k - 1) * step < len,
                    k * step >= len,
                    n == len + step - 1,
            ;
            assert(n == k * step + (n - k * step));
            vstd::arithmetic::div_mod::lemma_fundamental_div_mod_converse(
                n as int,
                step as int,
                k as int,
                (n - k * step) as int,
            );
        }
    }
}

fn place_down(im_h: usize, h_step: usize, x: u128, w: u128, h: u128, out: &mut Vec<Box4>, Ghost(l): Ghost<Ladder>)
    requires
        h < im_h,
        h_step > 0,
        l.h_step == h_step,
        x + w >= 1,
        x < 0x1_0000_0000_0000_0000,
        w < 0x1_0000_0000_0000_0000,
        h >= 1,
    ensures
        all_corners(final(out)@) == all_corners(old(out)@) + placed_down(
            l,
            x as nat,
            w as nat,
            h as nat,
            multiples((im_h - h) as nat, l.h_step),
        ),
{
    let ghost base = all_corners(out@);
    let len: u128 = im_h as u128 - h;
    let step: u128 = h_step as u128;
    let mut y: u128 = 0;
    let ghost mut k: nat = 0;
    while y < len
        invariant
            h_step > 0,
            step == h_step,
            l.h_step == h_step,
            len <= 0xffff_ffff_ffff_ffff,
            y < 0x2_0000_0000_0000_0000,
            y == k * step,
            k > 0 ==> (k - 1) * step < len,
            x + w >= 1,
            x < 0x1_0000_0000_0000_0000,
            w < 0x1_0000_0000_0000_0000,
            1 <= h <= 0xffff_ffff_ffff_ffff,
            all_corners(out@) == base + placed_down(l, x as nat, w as nat, h as nat, k),
        decreases 0x2_0000_0000_0000_0000 - y,
    {
        let ghost before = out@;
        let b: Box4 = [to_low32(x), to_low32(y), to_low32(x + w - 1), to_low32(y + h - 1)];
        out.push(b);
        proof {
            all_corners_push(before, b);
            assert(all_corners(out@) =~= base + placed_down(l, x as nat, w as nat, h as nat, k + 1));
            assert((k + 1) * step == k * step + step) by (nonlinear_arith);
            k = k + 1;
        }
        y += step;
    }
    proof {
        multiples_end(len as nat, step as nat, k);
    }
}

fn place_across(im_w: usize, im_h: usize, w_step: usize, h_step: usize, w: u128, h: u128, out: &mut Vec<Box4>, Ghost(l): Ghost<Ladder>)
    requires
        1 <= h < im_h,
        1 <= w < im_w,
        h_step > 0,
        w_step > 0,
        l.h_step == h_step,
        l.w_step == w_step,
    ensures
        all_corners(final(out)@) == all_corners(old(out)@) + placed_across(
            im_h as nat,
            l,
            w as nat,
            h as nat,
            multiples((im_w - w) as nat, l.w_step),
        ),
{
    let ghost base = all_corners(out@);
    let len: u128 = im_w as u128 - w;
    let step: u128 = w_step as u128;
    let mut x: u128 = 0;
    let ghost mut k: nat = 0;
    while x < len
        invariant
            1 <= h < im_h,
            1 <= w < im_w,
            h_step > 0,
            w_step > 0,
            step == w_step,
            l.h_step == h_step,
            l.w_step == w_step,
            len == im_w - w,
            x < 0x2_0000_0000_0000_0000,
            x == k * step,
            k > 0 ==> (k - 1) * step < len,
            all_corners(out@) == base + placed_across(im_h as nat, l, w as nat, h as nat, k),
        decreases 0x2_0000_0000_0000_0000 - x,
    {
        place_down(im_h, h_step, x, w, h, out, Ghost(l));
        proof {
            let a = placed_across(im_h as nat, l, w as nat, h as nat, k);
            let b = placed_down(l, x as nat, w as nat, h as nat, multiples((im_h - h) as nat, l.h_step));
            assert((base + a) + b =~= base + (a + b));
            assert((k + 1) * step == k * step + step) by (nonlinear_arith);
            k = k + 1;
        }
        x += step;
    }
    proof {
        multiples_end(len as nat, step as nat, k);
    }
}

/// Every crop of aspect ratio `w:h` (both >= 1) on a step grid, from about
/// half the image to the whole, covering over 40% of it; `bins` caps the
/// number of scales.
pub fn generate_anchors_aspect_ratio_specific(im_w: usize, im_h: usize, aspect: (usize, usize), bins: usize) -> (r: Vec<
    Box4,
>)
    requires
        aspect.0 >= 1,
        aspect.1 >= 1,
        im_w * im_h <= usize::MAX,
        ordinary(im_w as nat, im_h as nat, (aspect.0 as nat, aspect.1 as nat), bins as nat) || ladder_fits(
            im_w as nat,
            im_h as nat,
            (aspect.0 as nat, aspect.1 as nat),
            bins as nat,
        ),
    ensures
        all_corners(r@) == crops_of(im_w as nat, im_h as nat, (aspect.0 as nat, aspect.1 as nat), bins as nat),
{
    proof {
        let a = (aspect.0 as nat, aspect.1 as nat);
        if ordinary(im_w as nat, im_h as nat, a, bins as nat) {
            ordinary_fits(im_w as nat, im_h as nat, a, bins as nat);
        }
    }
    let mut w_step: usize = aspect.0;
    let mut h_step: usize = aspect.1;
    let (mut in_w, mut in_h): (usize, usize) = (count_steps(im_w, w_step), count_steps(im_h, h_step));
    let mut max_step: usize = if in_w <= in_h {
        in_w
    } else {
        in_h
    };
    if max_step > bins {
        let over_w: usize = count_steps_over(im_w, w_step, bins);
        let over_h: usize = count_steps_over(im_h, h_step, bins);
        let factor: usize = if over_w >= over_h {
            over_w
        } else {
            over_h
        };
        proof {
            assert(aspect.0 * factor > 0) by (nonlinear_arith)
                requires
                    aspect.0 > 0,
                    factor > 0,
            ;
            assert(aspect.1 * factor > 0) by (nonlinear_arith)
                requires
                    aspect.1 > 0,
                    factor > 0,
            ;
        }
        h_step = h_step * factor;
        w_step = w_step * factor;
        in_w = count_steps(im_w, w_step);
        in_h = count_steps(im_h, h_step);
        max_step = if in_w <= in_h {
            in_w
        } else {
            in_h
        };
    }
    let ghost l = ladder(im_w as nat, im_h as nat, (aspect.0 as nat, aspect.1 as nat), bins as nat);
    assert(l == (Ladder { w_step: w_step as nat, h_step: h_step as nat, max_step: max_step as nat }));
    let cover = times(
        DOUBLE,
        Num { m: 7205759403792794, e: -54 },
        from_int(DOUBLE, (im_w * im_h) as u64),
    );
    let mut i: usize = if max_step < 2 {
        0
    } else {
        (max_step - 2) / 2
    };
    let mut out: Vec<Box4> = Vec::new();
    proof {
        assert(all_corners(out@) =~= crops_below(im_w as nat, im_h as nat, l, i as nat));
    }
    while i < max_step
        invariant
            w_step > 0,
            h_step > 0,
            l == (Ladder { w_step: w_step as nat, h_step: h_step as nat, max_step: max_step as nat }),
            min_step(max_step as nat) <= i <= max_step,
            im_w * im_h <= usize::MAX,
            cover@ == product(double(), least_cover(), of_int(double(), (im_w * im_h) as nat)),
            cover.wf(double(), 1000),
            all_corners(out@) == crops_below(im_w as nat, im_h as nat, l, i as nat),
        decreases max_step - i,
    {
        proof {
            assert(0 <= h_step * i <= 0xffff_ffff_ffff_ffff * 0xffff_ffff_ffff_ffff) by (nonlinear_arith)
                requires
                    0 <= h_step <= 0xffff_ffff_ffff_ffff,
                    0 <= i <= 0xffff_ffff_ffff_ffff,
            ;
            assert(0 <= w_step * i <= 0xffff_ffff_ffff_ffff * 0xffff_ffff_ffff_ffff) by (nonlinear_arith)
                requires
                    0 <= w_step <= 0xffff_ffff_ffff_ffff,
                    0 <= i <= 0xffff_ffff_ffff_ffff,
            ;
        }
        let out_h: u128 = h_step as u128 * i as u128;
        let out_w: u128 = w_step as u128 * i as u128;
        if out_h < im_h as u128 && out_w < im_w as u128 {
            proof {
                assert(0 <= out_w * out_h <= im_w * im_h) by (nonlinear_arith)
                    requires
                        0 <= out_h <= im_h,
                        0 <= out_w <= im_w,
                ;
            }
            let large = from_int(DOUBLE, (out_w * out_h) as u64);
            if below(cover, large) {
                proof {
                    assert(i >= 1) by {
                        if i == 0 {
                            assert(h_step * i == 0 && w_step * i == 0) by (nonlinear_arith)
                                requires
                                    i == 0,
                            ;
                            assert(out_w * out_h == 0);
                            nothing_below_zero(cover@);
                        }
                    }
                    assert(w_step * i >= 1 && h_step * i >= 1) by (nonlinear_arith)
                        requires
                            w_step >= 1,
                            h_step >= 1,
                            i >= 1,
                    ;
                }
                place_across(im_w, im_h, w_step, h_step, out_w, out_h, &mut out, Ghost(l));
            }
        }
        i += 1;
    }
    out
}

pub(crate) proof fn nothing_below_zero(x: Real)
    ensures
        !less(x, crate::ieee::zero()),
{
    if x.e >= 0 {
        assert(x.m * pow2(x.e as nat) >= 0) by (nonlinear_arith);
    } else {
        assert(0 * pow2((-x.e) as nat) == 0);
    }
}

/// The crops of one aspect ratio.
pub open spec fn crops_of(im_w: nat, im_h: nat, aspect: (nat, nat), bins: nat) -> Seq<(i32, i32, i32, i32)> {
    let l = ladder(im_w, im_h, aspect, bins);
    crops_below(im_w, im_h, l, l.max_step)
}

/// Whether the demonstration's ladders fit.
pub open spec fn demo_fits(w: nat, h: nat) -> bool {
    ||| ordinary(w, h, (1, 1), 30)
    ||| ladder_fits(w, h, (1, 1), 30) && ladder_fits(w, h, (4, 3), 20) && ladder_fits(w, h, (16, 9), 15)
}

/// The anchor sets the demonstration scores: aspect-free, 1:1, 4:3, 16:9.
pub fn demo_sets(w: usize, h: usize) -> (r: Vec<(&'static str, Vec<Box4>)>)
    requires
        w * h <= usize::MAX,
        demo_fits(w as nat, h as nat),
    ensures
        r.len() == 4,
        r[0].0@ == "best"@ && all_corners(r[0].1@) == grid(w as nat, h as nat, 12),
        r[1].0@ == "1:1"@ && all_corners(r[1].1@) == crops_of(w as nat, h as nat, (1, 1), 30),
        r[2].0@ == "4:3"@ && all_corners(r[2].1@) == crops_of(w as nat, h as nat, (4, 3), 20),
        r[3].0@ == "16:9"@ && all_corners(r[3].1@) == crops_of(w as nat, h as nat, (16, 9), 15),
{
    let mut out: Vec<(&'static str, Vec<Box4>)> = Vec::new();
    out.push(("best", generate_anchors(w, h, 12)));
    out.push(("1:1", generate_anchors_aspect_ratio_specific(w, h, (1, 1), 30)));
    out.push(("4:3", generate_anchors_aspect_ratio_specific(w, h, (4, 3), 20)));
    out.push(("16:9", generate_anchors_aspect_ratio_specific(w, h, (16, 9), 15)));
    out
}

// ---------------------------------------------------------------------------
// Mapping a crop back to the source image.

pub open spec fn single() -> nat {
    SINGLE as nat
}

pub open spec fn magnitude(v: int) -> nat {
    if v < 0 {
        (-v) as nat
    } else {
        v as nat
    }
}

/// `v / from * to` in single precision, truncated and saturating. Division
/// by an empty side gives an infinity (or, of nothing, no number, which
/// converts to zero).
pub open spec fn rescaled(v: int, from: nat, to: nat) -> int {
    if from == 0 {
        if v == 0 || to == 0 {
            0
        } else if v > 0 {
            0x7fff_ffff
        } else {
            -0x8000_0000
        }
    } else {
        let x = product(
            single(),
            quotient(single(), of_int(single(), magnitude(v)), of_int(single(), from)),
            of_int(single(), to),
        );
        if v >= 0 {
            capped(floor(x), 0x7fff_ffff) as int
        } else {
            -capped(floor(x), 0x8000_0000)
        }
    }
}

fn rescale(v: i32, from: usize, to: usize) -> (r: i32)
    ensures
        r == rescaled(v as int, from as nat, to as nat),
{
    if from == 0 {
        if v == 0 || to == 0 {
            0
        } else if v > 0 {
            0x7fff_ffff
        } else {
            -0x8000_0000
        }
    } else {
        let size: u64 = if v < 0 {
            (-(v as i64)) as u64
        } else {
            v as u64
        };
        let x = times(
            SINGLE,
            over(SINGLE, from_int(SINGLE, size), from_int(SINGLE, from as u64)),
            from_int(SINGLE, to as u64),
        );
        if v >= 0 {
            to_floor(x, 0x7fff_ffff) as i32
        } else {
            (-(to_floor(x, 0x8000_0000) as i64)) as i32
        }
    }
}

/// The sides of a box in the network input's pixels (`in_w x in_h`) in the
/// source image's.
pub open spec fn rescaled_box(b: Seq<i32>, in_w: nat, in_h: nat, src_w: nat, src_h: nat) -> Seq<i32> {
    seq![
        rescaled(b[0] as int, in_w, src_w) as i32,
        rescaled(b[1] as int, in_h, src_h) as i32,
        rescaled(b[2] as int, in_w, src_w) as i32,
        rescaled(b[3] as int, in_h, src_h) as i32,
    ]
}

/// A box in the network input's pixels (`in_w x in_h`) mapped to the
/// source image's, in single precision, truncated.
pub fn rescale_box(b: Box4, in_w: usize, in_h: usize, src_w: usize, src_h: usize) -> (r: Box4)
    ensures
        r@ == rescaled_box(b@, in_w as nat, in_h as nat, src_w as nat, src_h as nat),
{
    [rescale(b[0], in_w, src_w), rescale(b[1], in_h, src_h), rescale(b[2], in_w, src_w), rescale(b[3], in_h, src_h)]
}

/// `v` cut off below zero and above `limit`.
pub open spec fn within(v: int, limit: int) -> int {
    if v < 0 {
        0
    } else if v > limit {
        limit
    } else {
        v
    }
}

/// The part of a box inside an image: its left and top sides cut off at
/// zero, its right and bottom sides at the image's; what is left of its
/// width and height.
pub open spec fn window_of(b: Seq<i32>, w: u32, h: u32) -> (u32, u32, u32, u32) {
    let (x, y) = (within(b[0] as int, i32::MAX as int), within(b[1] as int, i32::MAX as int));
    let (x2, y2) = (within(b[2] as int, w as int), within(b[3] as int, h as int));
    (x as u32, y as u32, within(x2 - x, x2) as u32, within(y2 - y, y2) as u32)
}

fn cut(v: i32, limit: u32) -> (r: u32)
    ensures
        r == within(v as int, limit as int),
{
    if v < 0 {
        0
    } else if v as u32 > limit {
        limit
    } else {
        v as u32
    }
}

fn left_of(a: u32, b: u32) -> (r: u32)
    ensures
        r == within(a - b, a as int),
{
    if a < b {
        0
    } else {
        a - b
    }
}

/// Where to cut a `w x h` image for a box: left, top, width and height.
pub fn crop_window(b: Box4, w: u32, h: u32) -> (r: (u32, u32, u32, u32))
    ensures
        r == window_of(b@, w, h),
{
    let (x, y): (u32, u32) = (cut(b[0], 0x7fff_ffff), cut(b[1], 0x7fff_ffff));
    let (x2, y2): (u32, u32) = (cut(b[2], w), cut(b[3], h));
    (x, y, left_of(x2, x), left_of(y2, y))
}

/// A window with anything in it lies inside the image.
pub proof fn windows_lie_inside(b: Seq<i32>, w: u32, h: u32)
    ensures
        window_of(b, w, h).2 > 0 ==> window_of(b, w, h).0 + window_of(b, w, h).2 <= w,
        window_of(b, w, h).3 > 0 ==> window_of(b, w, h).1 + window_of(b, w, h).3 <= h,
{
}

} // verus!
