//! The GAIC backbone around its device convolutions: input checks, the
//! geometry of every layer, the A operands and the epilogues.
//!
//! Single-precision sums come from the caller, on bit patterns; which
//! elements meet and how they are rounded is stated and proved here.

use crate::arith::{index_bound, index_parts, mul2, mul3, plus2_mul, rounded_up, rounded_up_is, split_index};
use crate::bf16::{bf16_to_f32, f32_to_bf16, larger, larger_of, narrow, wide};
use crate::gaic_bundle::{chain_fault, conv_fault, kernel_in, says, Bundle, ConvSpec, ConvView, Error, KernelView};
use crate::text::{cat2, cat4, cat5, decimal, decimal_of, same};
use vstd::prelude::*;

verus! {

// ---------------------------------------------------------------------------
// The input.

/// `e` is the input error with the message `m`.
pub open spec fn refuses(e: Error, m: Seq<char>) -> bool {
    e matches Error::Input(s) && s@ == m
}

/// What is wrong with `len` values as a `3 x h x w` input.
pub open spec fn input_fault(w: nat, h: nat, len: nat) -> Option<Seq<char>> {
    if w % 32 != 0 || h % 32 != 0 || w < 64 || h < 64 {
        Some(decimal(w) + "x"@ + decimal(h) + ": both sides must be multiples of 32, at least 64"@)
    } else if len != 3 * w * h {
        Some(decimal(len) + " values for a 3x"@ + decimal(h) + "x"@ + decimal(w) + " input"@)
    } else {
        None
    }
}

/// Checks an input: both sides multiples of 32 and at least 64, and a value
/// for every channel and pixel.
pub fn check_input(w: usize, h: usize, len: usize) -> (r: Result<(), Error>)
    ensures
        match (r, input_fault(w as nat, h as nat, len as nat)) {
            (Ok(_), None) => true,
            (Err(e), Some(m)) => refuses(e, m),
            _ => false,
        },
{
    let ws = decimal_of(w as u128);
    let hs = decimal_of(h as u128);
    if w % 32 != 0 || h % 32 != 0 || w < 64 || h < 64 {
        return Err(
            Error::Input(
                cat4(ws.as_str(), "x", hs.as_str(), ": both sides must be multiples of 32, at least 64"),
            ),
        );
    }
    let fits: bool = match mul3(3, w, h) {
        Some(n) => n == len,
        None => false,
    };
    if !fits {
        return Err(
            Error::Input(
                cat2(
                    cat5(decimal_of(len as u128).as_str(), " values for a 3x", hs.as_str(), "x", ws.as_str()).as_str(),
                    " input",
                ),
            ),
        );
    }
    Ok(())
}

// ---------------------------------------------------------------------------
// The layers' geometry.

/// What a conv layer's geometry depends on.
#[derive(Debug, Clone, Copy)]
pub struct Layer {
    pub c: usize,
    pub oc: usize,
    pub pool_before: bool,
    pub m_chunk: usize,
    pub p: usize,
    pub window: bool,
    pub d: usize,
    /// The GEMM's K (the window layer's is padded past P x 9C).
    pub k: usize,
    pub a_elems: usize,
    pub c_elems: usize,
}

impl Layer {
    /// A dispatch computes something.
    pub open spec fn wf(&self) -> bool {
        self.m_chunk > 0 && self.p > 0
    }

    /// The operands are those of the layer's layout.
    pub open spec fn laid_out(&self) -> bool {
        &&& self.wf()
        &&& self.c_elems == self.m_chunk * self.p * self.oc
        &&& self.window ==> self.a_elems == self.m_chunk * self.k && self.p * 9 * self.c <= self.k
        &&& !self.window ==> self.a_elems == (self.m_chunk * self.p + 2) * self.d && 3 * self.c <= self.d
    }

    /// Output pixels computed for an `h x w` input: `h x (w + 2)`, padded
    /// to whole dispatches.
    pub open spec fn pixels(&self, h: nat, w: nat) -> nat {
        rounded_up((h * (w + 2)) as int, (self.m_chunk * self.p) as int) as nat
    }

    /// Elements of the A source.
    pub open spec fn a_source(&self, h: nat, w: nat) -> nat {
        if self.window {
            self.pixels(h, w) / (self.p as nat) * self.k as nat
        } else {
            (self.pixels(h, w) + 2) * self.d as nat
        }
    }

    /// Elements of the output.
    pub open spec fn c_source(&self, h: nat, w: nat) -> nat {
        self.pixels(h, w) * self.oc as nat
    }

    /// A elements from one dispatch to the next.
    pub open spec fn a_step(&self) -> nat {
        if self.window {
            (self.m_chunk * self.k) as nat
        } else {
            (self.m_chunk * self.p * self.d) as nat
        }
    }

    /// Whether the sizes for an `h x w` input fit the machine.
    pub open spec fn fits(&self, h: nat, w: nat) -> bool {
        &&& self.m_chunk * self.p <= usize::MAX
        &&& h * (w + 2) <= usize::MAX
        &&& self.pixels(h, w) <= usize::MAX
        &&& self.a_source(h, w) <= usize::MAX
        &&& self.c_source(h, w) <= usize::MAX
    }
}

/// A side of the `n`th layer's input: halved by every pool before it.
pub open spec fn side(layers: Seq<Layer>, s: nat, n: nat) -> nat
    decreases n,
{
    if n == 0 {
        s
    } else {
        let b = side(layers, s, (n - 1) as nat);
        if layers[n - 1].pool_before {
            b / 2
        } else {
            b
        }
    }
}

/// The elements one dispatch reads and writes.
#[derive(Debug, Clone, Copy)]
pub struct Dispatch {
    pub a_off: usize,
    pub c_off: usize,
}

#[derive(Debug, Clone)]
pub struct LayerPlan {
    /// The conv's input (and output) size, after any pool before it.
    pub h: usize,
    pub w: usize,
    pub pixels: usize,
    pub dispatches: Vec<Dispatch>,
}

/// Per input size: the shared operands' sizes and every layer's dispatches.
#[derive(Debug, Clone)]
pub struct Plan {
    pub w: usize,
    pub h: usize,
    pub y_elems: usize,
    pub c_elems: usize,
    pub layers: Vec<LayerPlan>,
}

pub open spec fn dispatches_of(l: Layer, h: nat, w: nat) -> Seq<Dispatch> {
    let chunk = (l.m_chunk * l.p) as nat;
    Seq::new(
        (l.pixels(h, w) / chunk) as nat,
        |i: int| Dispatch { a_off: (i * l.a_step()) as usize, c_off: (i * chunk * l.oc) as usize },
    )
}

/// Whether `p` is layer `l`'s plan for an `h x w` input.
pub open spec fn is_layer_plan(p: LayerPlan, l: Layer, h: nat, w: nat) -> bool {
    &&& p.h == h
    &&& p.w == w
    &&& p.pixels == l.pixels(h, w)
    &&& p.dispatches@ == dispatches_of(l, h, w)
}

/// The largest A source among the first `n` layers.
pub open spec fn largest_a(layers: Seq<Layer>, h: nat, w: nat, n: nat) -> nat
    decreases n,
{
    if n == 0 {
        0
    } else {
        let b = largest_a(layers, h, w, (n - 1) as nat);
        let x = layers[n - 1].a_source(side(layers, h, n), side(layers, w, n));
        if x > b {
            x
        } else {
            b
        }
    }
}

/// The largest output among the first `n` layers.
pub open spec fn largest_c(layers: Seq<Layer>, h: nat, w: nat, n: nat) -> nat
    decreases n,
{
    if n == 0 {
        0
    } else {
        let b = largest_c(layers, h, w, (n - 1) as nat);
        let x = layers[n - 1].c_source(side(layers, h, n), side(layers, w, n));
        if x > b {
            x
        } else {
            b
        }
    }
}

pub open spec fn all_fit(layers: Seq<Layer>, h: nat, w: nat) -> bool {
    forall|i: int|
        0 <= i < layers.len() ==> (#[trigger] layers[i]).fits(
            side(layers, h, (i + 1) as nat),
            side(layers, w, (i + 1) as nat),
        )
}

pub open spec fn is_plan(p: Plan, layers: Seq<Layer>, w: nat, h: nat) -> bool {
    &&& p.w == w
    &&& p.h == h
    &&& p.y_elems == largest_a(layers, h, w, layers.len())
    &&& p.c_elems == largest_c(layers, h, w, layers.len())
    &&& p.layers.len() == layers.len()
    &&& forall|i: int|
        0 <= i < layers.len() ==> is_layer_plan(
            #[trigger] p.layers[i],
            layers[i],
            side(layers, h, (i + 1) as nat),
            side(layers, w, (i + 1) as nat),
        )
}

/// The dispatches of the first `n` layers of a plan.
pub open spec fn dispatch_total(layers: Seq<LayerPlan>, n: nat) -> nat
    decreases n,
{
    if n == 0 {
        0
    } else {
        dispatch_total(layers, (n - 1) as nat) + layers[n - 1].dispatches@.len()
    }
}

/// The chunks of pixels of the first `n` layers of a network, for an
/// `h x w` input.
pub open spec fn chunks_of(layers: Seq<Layer>, h: nat, w: nat, n: nat) -> nat
    decreases n,
{
    if n == 0 {
        0
    } else {
        let l = layers[n - 1];
        chunks_of(layers, h, w, (n - 1) as nat) + l.pixels(side(layers, h, n), side(layers, w, n)) / (l.m_chunk
            * l.p) as nat
    }
}

proof fn dispatches_are_chunks(p: Plan, layers: Seq<Layer>, w: nat, h: nat, n: nat)
    requires
        is_plan(p, layers, w, h),
        forall|i: int| 0 <= i < layers.len() ==> (#[trigger] layers[i]).wf(),
        n <= layers.len(),
    ensures
        dispatch_total(p.layers@, n) == chunks_of(layers, h, w, n),
    decreases n,
{
    if n > 0 {
        dispatches_are_chunks(p, layers, w, h, (n - 1) as nat);
        let (l, a, b) = (layers[n - 1], side(layers, h, n), side(layers, w, n));
        assert(is_layer_plan(p.layers[n - 1], l, a, b));
        assert(p.layers@[n - 1].dispatches@ == dispatches_of(l, a, b));
        assert(l.wf());
        assert(l.m_chunk * l.p > 0) by (nonlinear_arith)
            requires
                l.m_chunk > 0,
                l.p > 0,
        ;
        vstd::arithmetic::div_mod::lemma_div_pos_is_pos(l.pixels(a, b) as int, l.m_chunk * l.p);
        assert(dispatches_of(l, a, b).len() == l.pixels(a, b) / ((l.m_chunk * l.p) as nat));
    }
}

/// A plan dispatches once for every chunk of every layer's pixels.
pub proof fn a_plan_dispatches_every_chunk(p: Plan, layers: Seq<Layer>, w: nat, h: nat)
    requires
        is_plan(p, layers, w, h),
        forall|i: int| 0 <= i < layers.len() ==> (#[trigger] layers[i]).wf(),
    ensures
        dispatch_total(p.layers@, p.layers@.len()) == chunks_of(layers, h, w, layers.len()),
{
    dispatches_are_chunks(p, layers, w, h, layers.len());
}

impl Plan {
    /// The dispatches of one forward.
    pub fn dispatches(&self) -> (r: u128)
        ensures
            r == dispatch_total(self.layers@, self.layers@.len()),
    {
        let mut t: u128 = 0;
        let mut i: usize = 0;
        while i < self.layers.len()
            invariant
                i <= self.layers@.len(),
                t == dispatch_total(self.layers@, i as nat),
                t <= i * 0xffff_ffff_ffff_ffff,
            decreases self.layers@.len() - i,
        {
            let n: usize = self.layers[i].dispatches.len();
            t = t + n as u128;
            i += 1;
        }
        t
    }
}

/// The multiple of `m` from `x` up, unless it leaves the machine.
fn round_up_fits(x: usize, m: usize) -> (r: Option<usize>)
    requires
        m > 0,
    ensures
        match r {
            Some(v) => v == rounded_up(x as int, m as int) && v % m == 0,
            None => rounded_up(x as int, m as int) > usize::MAX,
        },
{
    let rest: usize = x % m;
    proof {
        rounded_up_is(x as int, m as int);
        let r = rounded_up(x as int, m as int);
        vstd::arithmetic::div_mod::lemma_fundamental_div_mod(x as int, m as int);
        vstd::arithmetic::div_mod::lemma_fundamental_div_mod(r, m as int);
        let (q, z) = ((x as int) / (m as int), r / (m as int));
        if rest == 0 {
            assert(r == x) by (nonlinear_arith)
                requires
                    x == m * q,
                    r == m * z,
                    x <= r < x + m,
                    m > 0,
            ;
        } else {
            assert(r == x + (m - rest)) by (nonlinear_arith)
                requires
                    x == m * q + rest,
                    r == m * z,
                    x <= r < x + m,
                    0 < rest < m,
            ;
        }
    }
    if rest == 0 {
        Some(x)
    } else if x <= usize::MAX - (m - rest) {
        Some(x + (m - rest))
    } else {
        None
    }
}

/// A layer's pixels, A elements and output elements, if they fit.
fn layer_sizes(l: &Layer, h: usize, w: usize) -> (r: Option<(usize, usize, usize)>)
    requires
        l.wf(),
    ensures
        match r {
            Some((pixels, a, c)) => {
                &&& l.fits(h as nat, w as nat)
                &&& pixels == l.pixels(h as nat, w as nat)
                &&& a == l.a_source(h as nat, w as nat)
                &&& c == l.c_source(h as nat, w as nat)
            },
            None => !l.fits(h as nat, w as nat),
        },
{
    let chunk: usize = match mul2(l.m_chunk, l.p) {
        Some(x) => x,
        None => {
            return None;
        },
    };
    proof {
        assert(l.m_chunk * l.p > 0) by (nonlinear_arith)
            requires
                l.m_chunk > 0,
                l.p > 0,
        ;
        assert((w + 2) * h == h * (w + 2)) by (nonlinear_arith);
    }
    let grid: usize = match plus2_mul(w, h) {
        Some(x) => x,
        None => {
            return None;
        },
    };
    let pixels: usize = match round_up_fits(grid, chunk) {
        Some(x) => x,
        None => {
            return None;
        },
    };
    let a: usize = match (if l.window {
        mul2(pixels / l.p, l.k)
    } else {
        plus2_mul(pixels, l.d)
    }) {
        Some(x) => x,
        None => {
            return None;
        },
    };
    let c: usize = match mul2(pixels, l.oc) {
        Some(x) => x,
        None => {
            return None;
        },
    };
    Some((pixels, a, c))
}

/// Dispatch `i` of a layer: its offsets stay below the sources' lengths.
proof fn dispatch_bounds(l: Layer, h: nat, w: nat, i: int)
    requires
        l.wf(),
        l.fits(h, w),
        0 <= i < l.pixels(h, w) / ((l.m_chunk * l.p) as nat),
    ensures
        0 <= i * l.a_step() <= l.a_source(h, w),
        0 <= i * (l.m_chunk * l.p) * l.oc <= l.c_source(h, w),
        i * l.a_step() + l.a_step() <= l.a_source(h, w),
        i * (l.m_chunk * l.p) * l.oc + l.m_chunk * l.p * l.oc <= l.c_source(h, w),
        !l.window ==> i * l.a_step() + (l.m_chunk * l.p + 2) * l.d <= l.a_source(h, w),
{
    let chunk = l.m_chunk * l.p;
    let (mc, p) = (l.m_chunk as int, l.p as int);
    let px = l.pixels(h, w) as int;
    assert(chunk > 0) by (nonlinear_arith)
        requires
            chunk == l.m_chunk * l.p,
            l.m_chunk > 0,
            l.p > 0,
    ;
    assert(h * (w + 2) >= 0) by (nonlinear_arith);
    rounded_up_is((h * (w + 2)) as int, chunk);
    vstd::arithmetic::div_mod::lemma_fundamental_div_mod(px, chunk);
    let q = px / chunk;
    assert((i + 1) * chunk <= px) by (nonlinear_arith)
        requires
            i + 1 <= q,
            px == chunk * q + px % chunk,
            px % chunk >= 0,
            chunk > 0,
    ;
    let e = (i + 1) * chunk;
    let oc = l.oc as int;
    assert(e * oc <= px * oc) by (nonlinear_arith)
        requires
            e <= px,
            oc >= 0,
    ;
    assert(e * oc == i * chunk * oc + chunk * oc) by (nonlinear_arith)
        requires
            e == (i + 1) * chunk,
    ;
    assert(0 <= i * chunk * oc && 0 <= chunk * oc) by (nonlinear_arith)
        requires
            i >= 0,
            chunk >= 0,
            oc >= 0,
    ;
    if l.window {
        let k = l.k as int;
        let rows = px / p;
        assert((i + 1) * mc <= rows) by {
            assert((i + 1) * mc * p <= px) by (nonlinear_arith)
                requires
                    (i + 1) * chunk <= px,
                    chunk == mc * p,
            ;
            vstd::arithmetic::div_mod::lemma_fundamental_div_mod(px, p);
            let z = (i + 1) * mc;
            assert(z <= rows) by (nonlinear_arith)
                requires
                    z * p <= px,
                    px == p * rows + px % p,
                    px % p < p,
                    p > 0,
            ;
        }
        let z = (i + 1) * mc;
        assert(z * k <= rows * k) by (nonlinear_arith)
            requires
                z <= rows,
                k >= 0,
        ;
        assert(z * k == i * (mc * k) + mc * k) by (nonlinear_arith)
            requires
                z == (i + 1) * mc,
        ;
        assert(0 <= i * (mc * k) && 0 <= mc * k) by (nonlinear_arith)
            requires
                i >= 0,
                mc >= 0,
                k >= 0,
        ;
    } else {
        let d = l.d as int;
        assert(e * d <= px * d && (px + 2) * d == px * d + 2 * d) by (nonlinear_arith)
            requires
                e <= px,
                d >= 0,
        ;
        assert(e * d == i * (chunk * d) + chunk * d) by (nonlinear_arith)
            requires
                e == (i + 1) * chunk,
        ;
        assert((chunk + 2) * d == chunk * d + 2 * d) by (nonlinear_arith);
        assert(0 <= i * (chunk * d) && 0 <= chunk * d) by (nonlinear_arith)
            requires
                i >= 0,
                chunk >= 0,
                d >= 0,
        ;
    }
}

/// Every dispatch of a layer laid out as its kernel reads and writes inside
/// the shared operands.
pub proof fn dispatches_stay_inside(l: Layer, h: nat, w: nat, i: int)
    requires
        l.laid_out(),
        l.fits(h, w),
        0 <= i < dispatches_of(l, h, w).len(),
    ensures
        dispatches_of(l, h, w)[i].a_off + l.a_elems <= l.a_source(h, w),
        dispatches_of(l, h, w)[i].c_off + l.c_elems <= l.c_source(h, w),
{
    let chunk = l.m_chunk * l.p;
    assert(chunk > 0) by (nonlinear_arith)
        requires
            chunk == l.m_chunk * l.p,
            l.m_chunk > 0,
            l.p > 0,
    ;
    vstd::arithmetic::div_mod::lemma_div_pos_is_pos(l.pixels(h, w) as int, chunk);
    dispatch_bounds(l, h, w, i);
}

fn layer_dispatches(l: &Layer, h: usize, w: usize, pixels: usize) -> (r: Vec<Dispatch>)
    requires
        l.wf(),
        l.fits(h as nat, w as nat),
        pixels == l.pixels(h as nat, w as nat),
    ensures
        r@ == dispatches_of(*l, h as nat, w as nat),
{
    let chunk: usize = l.m_chunk * l.p;
    proof {
        assert(l.m_chunk * l.p > 0) by (nonlinear_arith)
            requires
                l.m_chunk > 0,
                l.p > 0,
        ;
    }
    let n: usize = pixels / chunk;
    let mut out: Vec<Dispatch> = Vec::new();
    let mut i: usize = 0;
    while i < n
        invariant
            l.wf(),
            l.fits(h as nat, w as nat),
            chunk == l.m_chunk * l.p,
            chunk > 0,
            n == l.pixels(h as nat, w as nat) / (chunk as nat),
            i <= n,
            out@ =~= dispatches_of(*l, h as nat, w as nat).take(i as int),
        decreases n - i,
    {
        proof {
            dispatch_bounds(*l, h as nat, w as nat, i as int);
            let (mc, k, d, p, oc) = (l.m_chunk as int, l.k as int, l.d as int, l.p as int, l.oc as int);
            assert(i * chunk >= 0) by (nonlinear_arith)
                requires
                    i >= 0,
                    chunk >= 0,
            ;
            assert(mc * p * d >= 0 && mc * k >= 0) by (nonlinear_arith)
                requires
                    mc >= 0,
                    p >= 0,
                    d >= 0,
                    k >= 0,
            ;
            rounded_up_is((h as int) * (w + 2), chunk as int);
            vstd::arithmetic::div_mod::lemma_fundamental_div_mod(
                l.pixels(h as nat, w as nat) as int,
                chunk as int,
            );
            let px = l.pixels(h as nat, w as nat) as int;
            assert(i * chunk <= px) by (nonlinear_arith)
                requires
                    i < n,
                    px == chunk * n + px % (chunk as int),
                    px % (chunk as int) >= 0,
                    chunk > 0,
            ;
        }
        let step: usize = if l.window {
            l.m_chunk * l.k
        } else {
            chunk * l.d
        };
        out.push(Dispatch { a_off: i * step, c_off: i * chunk * l.oc });
        i += 1;
    }
    out
}

/// The plan of a `w x h` input.
pub fn plan_for(layers: &Vec<Layer>, w: usize, h: usize) -> (r: Result<Plan, Error>)
    requires
        forall|i: int| 0 <= i < layers.len() ==> (#[trigger] layers[i]).wf(),
    ensures
        match r {
            Ok(p) => all_fit(layers@, h as nat, w as nat) && is_plan(p, layers@, w as nat, h as nat),
            Err(e) => !all_fit(layers@, h as nat, w as nat) && says(e, "sizes overflow"@),
        },
{
    let (mut hh, mut ww): (usize, usize) = (h, w);
    let (mut y_max, mut c_max): (usize, usize) = (0, 0);
    let mut plans: Vec<LayerPlan> = Vec::new();
    let mut i: usize = 0;
    while i < layers.len()
        invariant
            forall|i: int| 0 <= i < layers.len() ==> (#[trigger] layers[i]).wf(),
            i <= layers.len(),
            hh == side(layers@, h as nat, i as nat),
            ww == side(layers@, w as nat, i as nat),
            y_max == largest_a(layers@, h as nat, w as nat, i as nat),
            c_max == largest_c(layers@, h as nat, w as nat, i as nat),
            plans.len() == i,
            forall|j: int|
                0 <= j < i ==> (#[trigger] layers[j]).fits(
                    side(layers@, h as nat, (j + 1) as nat),
                    side(layers@, w as nat, (j + 1) as nat),
                ),
            forall|j: int|
                0 <= j < i ==> is_layer_plan(
                    #[trigger] plans[j],
                    layers[j],
                    side(layers@, h as nat, (j + 1) as nat),
                    side(layers@, w as nat, (j + 1) as nat),
                ),
        decreases layers.len() - i,
    {
        let l: Layer = layers[i];
        assert(layers[i as int].wf());
        if l.pool_before {
            hh = hh / 2;
            ww = ww / 2;
        }
        match layer_sizes(&l, hh, ww) {
            None => {
                return Err(Error::Bundle("sizes overflow".to_string()));
            },
            Some((pixels, a, c)) => {
                if a > y_max {
                    y_max = a;
                }
                if c > c_max {
                    c_max = c;
                }
                let dispatches: Vec<Dispatch> = layer_dispatches(&l, hh, ww, pixels);
                plans.push(LayerPlan { h: hh, w: ww, pixels, dispatches });
            },
        }
        i += 1;
    }
    Ok(Plan { w, h, y_elems: y_max, c_elems: c_max, layers: plans })
}

// ---------------------------------------------------------------------------
// The A operand.

/// Channel `ch` of pixel (`y`, `x`) of the zero-bordered input: one pixel
/// of border on every side.
pub open spec fn bordered(act: Seq<u16>, h: int, w: int, c: int, y: int, x: int, ch: int) -> u16 {
    if 1 <= y <= h && 1 <= x <= w {
        act[((y - 1) * w + (x - 1)) * c + ch]
    } else {
        0
    }
}

/// Element `e` of `Y[q] = [X[q] | X[q + Wp] | X[q + 2 Wp]]`, X being the
/// bordered input with rows of `Wp = w + 2` pixels; zero past the image.
pub open spec fn y_at(act: Seq<u16>, h: int, w: int, c: int, q: int, e: int) -> u16 {
    if q < h * (w + 2) {
        bordered(act, h, w, c, q / (w + 2) + e / c, q % (w + 2), e % c)
    } else {
        0
    }
}

/// The A source: the rows of Y, `d` wide, or (window) `p` whole windows
/// `[Y[q] | Y[q + 1] | Y[q + 2]]` a row, `k` wide.
pub open spec fn a_source_of(act: Seq<u16>, l: Layer, h: nat, w: nat) -> Seq<u16> {
    let (hi, wi, c) = (h as int, w as int, l.c as int);
    if l.window {
        let row = l.k as int;
        Seq::new(
            l.a_source(h, w),
            |i: int|
                {
                    let (m, j) = (i / row, i % row);
                    if j < l.p * 9 * c {
                        y_at(act, hi, wi, c, m * l.p + j / (9 * c) + j % (9 * c) / (3 * c), j % (3 * c))
                    } else {
                        0
                    }
                },
        )
    } else {
        let row = l.d as int;
        Seq::new(
            l.a_source(h, w),
            |i: int|
                {
                    let (m, j) = (i / row, i % row);
                    if j < 3 * c {
                        y_at(act, hi, wi, c, m, j)
                    } else {
                        0
                    }
                },
        )
    }
}

/// The A source is an im2col: what the GEMM multiplies with tap (`dy`, `dx`)
/// for output pixel (`r`, `x`) is the bordered input at (`r + dy`, `x + dx`).
pub proof fn taps_are_neighbours(act: Seq<u16>, h: int, w: int, c: int, r: int, x: int, dy: int, dx: int, ch: int)
    requires
        0 <= r < h,
        0 <= x < w,
        0 <= dy < 3,
        0 <= dx < 3,
        0 <= ch < c,
    ensures
        y_at(act, h, w, c, r * (w + 2) + x + dx, dy * c + ch) == bordered(act, h, w, c, r + dy, x + dx, ch),
{
    split_index(r, x + dx, w + 2);
    split_index(dy, ch, c);
    index_bound(r, x + dx, h, w + 2);
}

fn bordered_of(act: &Vec<u16>, h: usize, w: usize, c: usize, y: usize, x: usize, ch: usize) -> (r: u16)
    requires
        act.len() == h * w * c,
        ch < c,
    ensures
        r == bordered(act@, h as int, w as int, c as int, y as int, x as int, ch as int),
{
    if 1 <= y && y <= h && 1 <= x && x <= w {
        proof {
            let at = (y - 1) * w + (x - 1);
            index_bound(y - 1, x - 1, h as int, w as int);
            index_bound(at, ch as int, h * w, c as int);
            assert(0 <= (y - 1) * w <= at) by (nonlinear_arith)
                requires
                    y >= 1,
                    x >= 1,
                    w >= 0,
                    at == (y - 1) * w + (x - 1),
            ;
            assert(at <= at * c) by (nonlinear_arith)
                requires
                    c >= 1,
                    at >= 0,
            ;
        }
        act[((y - 1) * w + (x - 1)) * c + ch]
    } else {
        0
    }
}

pub(crate) fn y_of(act: &Vec<u16>, h: usize, w: usize, c: usize, q: usize, e: usize) -> (r: u16)
    requires
        act.len() == h * w * c,
        h * (w + 2) <= usize::MAX,
        c > 0,
        e < 3 * c,
    ensures
        r == y_at(act@, h as int, w as int, c as int, q as int, e as int),
{
    if h == 0 {
        proof {
            assert(h * (w + 2) == 0) by (nonlinear_arith)
                requires
                    h == 0,
            ;
        }
        return 0;
    }
    proof {
        assert(w + 2 <= h * (w + 2)) by (nonlinear_arith)
            requires
                h >= 1,
                w >= 0,
        ;
    }
    let wp: usize = w + 2;
    if q < h * wp {
        proof {
            index_parts(q as int, h as int, wp as int);
            let dy = (e as int) / (c as int);
            vstd::arithmetic::div_mod::lemma_fundamental_div_mod(e as int, c as int);
            assert(dy < 3) by (nonlinear_arith)
                requires
                    e < 3 * c,
                    e == c * dy + (e as int) % (c as int),
                    (e as int) % (c as int) >= 0,
                    c > 0,
            ;
        }
        let r: usize = q / wp;
        let dy: usize = e / c;
        if r >= h || dy > h - r {
            // below the last row of the image
            return 0;
        }
        bordered_of(act, h, w, c, r + dy, q % wp, e % c)
    } else {
        0
    }
}

/// Layer `l`'s A source for its input activation `act` (`[h][w][C]`).
pub fn build_a(act: &Vec<u16>, l: &Layer, h: usize, w: usize) -> (r: Vec<u16>)
    requires
        l.laid_out(),
        l.fits(h as nat, w as nat),
        l.c > 0,
        act.len() == h * w * l.c,
        l.pixels(h as nat, w as nat) + 3 <= usize::MAX,
    ensures
        r@ == a_source_of(act@, *l, h as nat, w as nat),
{
    let (pixels, total, _): (usize, usize, usize) = match layer_sizes(l, h, w) {
        Some(s) => s,
        None => (0, 0, 0),
    };
    let c: usize = l.c;
    let ghost (hn, wn) = (h as nat, w as nat);
    let mut out: Vec<u16> = Vec::new();
    let mut i: usize = 0;
    while i < total
        invariant
            l.laid_out(),
            l.fits(hn, wn),
            c == l.c,
            c > 0,
            act.len() == h * w * c,
            hn == h,
            wn == w,
            total == l.a_source(hn, wn),
            pixels == l.pixels(hn, wn),
            pixels + 3 <= usize::MAX,
            i <= total,
            out@ =~= a_source_of(act@, *l, hn, wn).take(i as int),
        decreases total - i,
    {
        if l.window {
            let row: usize = l.k;
            let ghost rows = pixels as nat / (l.p as nat);
            proof {
                assert(l.p * 9 * c >= 9 * c && l.p * 9 * c >= l.p * 9) by (nonlinear_arith)
                    requires
                        l.p >= 1,
                        c >= 1,
                ;
                index_parts(i as int, rows as int, row as int);
            }
            let m: usize = i / row;
            let j: usize = i % row;
            let span: usize = l.p * 9 * c;
            if j < span {
                proof {
                    let p = l.p as int;
                    let q = (j as int) / (9 * c as int);
                    vstd::arithmetic::div_mod::lemma_fundamental_div_mod(j as int, 9 * c as int);
                    assert(0 <= q < p) by (nonlinear_arith)
                        requires
                            0 <= j < p * 9 * c,
                            j == (9 * c) * q + (j as int) % (9 * c as int),
                            0 <= (j as int) % (9 * c as int) < 9 * c,
                            c > 0,
                    ;
                    let rest = (j as int) % (9 * c as int);
                    let dx = rest / (3 * c as int);
                    vstd::arithmetic::div_mod::lemma_fundamental_div_mod(rest, 3 * c as int);
                    assert(0 <= dx < 3) by (nonlinear_arith)
                        requires
                            0 <= rest < 9 * c,
                            rest == (3 * c) * dx + rest % (3 * c as int),
                            0 <= rest % (3 * c as int) < 3 * c,
                            c > 0,
                    ;
                    vstd::arithmetic::div_mod::lemma_fundamental_div_mod(pixels as int, p);
                    assert(m * p + p <= pixels && m * p >= 0) by (nonlinear_arith)
                        requires
                            0 <= m < rows,
                            pixels == p * rows + (pixels as int) % p,
                            (pixels as int) % p >= 0,
                            p > 0,
                    ;
                    assert(l.p * 9 >= 9 && 9 * c <= span) by (nonlinear_arith)
                        requires
                            l.p >= 1,
                            span == l.p * 9 * c,
                            c >= 1,
                    ;
                    assert(l.p * 9 <= span) by (nonlinear_arith)
                        requires
                            span == l.p * 9 * c,
                            c >= 1,
                    ;
                }
                let q: usize = m * l.p + j / (9 * c) + j % (9 * c) / (3 * c);
                out.push(y_of(act, h, w, c, q, j % (3 * c)));
            } else {
                out.push(0);
            }
        } else {
            let row: usize = l.d;
            proof {
                index_parts(i as int, pixels + 2, row as int);
            }
            let m: usize = i / row;
            let j: usize = i % row;
            if j < 3 * c {
                out.push(y_of(act, h, w, c, m, j));
            } else {
                out.push(0);
            }
        }
        i += 1;
    }
    out
}

// ---------------------------------------------------------------------------
// Activations.

/// The stem's input: single-precision planes `[3][h][w]` as bf16
/// `[h][w][3]`.
pub open spec fn stem_of(chw: Seq<u32>, w: nat, h: nat) -> Seq<u16> {
    Seq::new((h * w) * 3, |i: int| narrow(chw[(i % 3) * (h * w) + i / 3]))
}

pub fn stem_input(chw: &Vec<u32>, w: usize, h: usize) -> (r: Vec<u16>)
    requires
        chw.len() == 3 * w * h,
    ensures
        r@ == stem_of(chw@, w as nat, h as nat),
{
    let total: usize = chw.len();
    let mut out: Vec<u16> = Vec::new();
    let ghost px = h * w;
    proof {
        assert(3 * w * h == (h * w) * 3) by (nonlinear_arith);
        assert(w * h == h * w) by (nonlinear_arith);
    }
    let plane: usize = total / 3;
    let mut i: usize = 0;
    while i < total
        invariant
            total == chw.len(),
            total == px * 3,
            px == h * w,
            plane == px,
            i <= total,
            out@ =~= stem_of(chw@, w as nat, h as nat).take(i as int),
        decreases total - i,
    {
        proof {
            index_parts(i as int, px, 3);
            index_bound((i % 3) as int, (i / 3) as int, 3, px);
            assert((i % 3) * plane >= 0) by (nonlinear_arith);
        }
        out.push(f32_to_bf16(chw[(i % 3) * plane + i / 3]));
        i += 1;
    }
    out
}

/// Channel `o` of output pixel (`y`, `x`) of a GEMM over rows of `w + 2`
/// pixels.
pub open spec fn out_at(out: Seq<u16>, w: int, oc: int, y: int, x: int, o: int) -> u32 {
    wide(out[(y * (w + 2) + x) * oc + o])
}

/// The largest of a 2 x 2 square.
pub open spec fn pooled(out: Seq<u16>, w: int, oc: int, y: int, x: int, o: int) -> u32 {
    larger(
        larger(
            larger(out_at(out, w, oc, 2 * y, 2 * x, o), out_at(out, w, oc, 2 * y, 2 * x + 1, o)),
            out_at(out, w, oc, 2 * y + 1, 2 * x, o),
        ),
        out_at(out, w, oc, 2 * y + 1, 2 * x + 1, o),
    )
}

/// What the bias is added to.
pub open spec fn fed(out: Seq<u16>, w: int, oc: int, pool: bool, y: int, x: int, o: int) -> u32 {
    if pool {
        pooled(out, w, oc, y, x, o)
    } else {
        out_at(out, w, oc, y, x, o)
    }
}

/// `r` is the positive part of a sum of `a` and `b`.
pub open spec fn relu_sum<A: Fn(u32, u32) -> u32>(plus: A, a: u32, b: u32, r: u32) -> bool {
    exists|s: u32| call_ensures(plus, (a, b), s) && r == #[trigger] larger(s, 0)
}

/// `r` is that, rounded to bf16.
pub open spec fn relu_sum16<A: Fn(u32, u32) -> u32>(plus: A, a: u32, b: u32, r: u16) -> bool {
    exists|s: u32| call_ensures(plus, (a, b), s) && r == narrow(#[trigger] larger(s, 0))
}

pub open spec fn halved(n: nat, pool: bool) -> nat {
    if pool {
        n / 2
    } else {
        n
    }
}

/// `act` is the next conv's input `[h][w][OC]` (halved when pooled) made of
/// a GEMM's output.
pub open spec fn is_epilogue<A: Fn(u32, u32) -> u32>(
    act: Seq<u16>,
    out: Seq<u16>,
    h: nat,
    w: nat,
    oc: nat,
    bias: Seq<u32>,
    pool: bool,
    plus: A,
) -> bool {
    let (ho, wo) = (halved(h, pool), halved(w, pool));
    &&& act.len() == ho * wo * oc
    &&& forall|i: int|
        0 <= i < act.len() ==> relu_sum16(
            plus,
            fed(out, w as int, oc as int, pool, i / (oc as int) / (wo as int), i / (oc as int) % (wo as int), i % (oc as int)),
            bias[i % (oc as int)],
            #[trigger] act[i],
        )
}

/// `f` is a feature map `[h][w][OC]`, in single precision, made of a GEMM's
/// output.
pub open spec fn is_feature<A: Fn(u32, u32) -> u32>(
    f: Seq<u32>,
    out: Seq<u16>,
    h: nat,
    w: nat,
    oc: nat,
    bias: Seq<u32>,
    plus: A,
) -> bool {
    &&& f.len() == h * w * oc
    &&& forall|i: int|
        0 <= i < f.len() ==> relu_sum(
            plus,
            out_at(out, w as int, oc as int, i / (oc as int) / (w as int), i / (oc as int) % (w as int), i % (oc as int)),
            bias[i % (oc as int)],
            #[trigger] f[i],
        )
}

fn out_of(out: &Vec<u16>, h: usize, w: usize, oc: usize, y: usize, x: usize, o: usize) -> (r: u32)
    requires
        out.len() >= h * (w + 2) * oc,
        y < h,
        x < w,
        o < oc,
    ensures
        r == out_at(out@, w as int, oc as int, y as int, x as int, o as int),
{
    proof {
        let at = y * (w + 2) + x;
        index_bound(y as int, x as int, h as int, w + 2);
        index_bound(at, o as int, h * (w + 2), oc as int);
        assert(y * (w + 2) >= 0) by (nonlinear_arith)
            requires
                y >= 0,
                w >= 0,
        ;
        assert(at <= at * oc) by (nonlinear_arith)
            requires
                oc >= 1,
                at >= 0,
        ;
        assert(w + 2 <= h * (w + 2)) by (nonlinear_arith)
            requires
                h >= 1,
                w >= 0,
        ;
        assert(h * (w + 2) <= h * (w + 2) * oc) by (nonlinear_arith)
            requires
                oc >= 1,
                h >= 0,
                w >= 0,
        ;
    }
    bf16_to_f32(out[(y * (w + 2) + x) * oc + o])
}

/// The elements of the halved map are no more than the GEMM's.
proof fn halved_fits(h: nat, w: nat, oc: nat, pool: bool)
    ensures
        halved(h, pool) <= h,
        halved(w, pool) <= w,
        halved(h, pool) * halved(w, pool) * oc <= h * (w + 2) * oc,
        halved(h, pool) * halved(w, pool) <= h * (w + 2),
{
    let (ho, wo) = (halved(h, pool), halved(w, pool));
    assert(ho * wo <= h * (w + 2)) by (nonlinear_arith)
        requires
            ho <= h,
            wo <= w,
    ;
    let (a, b) = (ho * wo, h * (w + 2));
    assert(a * oc <= b * oc) by (nonlinear_arith)
        requires
            a <= b,
    ;
}

/// The next conv's input from a GEMM's output: `relu(out + bias)` in bf16,
/// 2 x 2 max-pooled first when `pool`.
pub fn epilogue_bf16<A: Fn(u32, u32) -> u32>(
    out: &Vec<u16>,
    h: usize,
    w: usize,
    oc: usize,
    bias: &Vec<u32>,
    pool: bool,
    plus: &A,
) -> (r: Vec<u16>)
    requires
        out.len() >= h * (w + 2) * oc,
        bias.len() == oc,
        forall|a: u32, b: u32| call_requires(*plus, (a, b)),
    ensures
        is_epilogue(r@, out@, h as nat, w as nat, oc as nat, bias@, pool, *plus),
{
    let (ho, wo): (usize, usize) = if pool {
        (h / 2, w / 2)
    } else {
        (h, w)
    };
    let ghost (hn, wn, ocn) = (h as nat, w as nat, oc as nat);
    let mut act: Vec<u16> = Vec::new();
    proof {
        halved_fits(hn, wn, ocn, pool);
    }
    if oc == 0 {
        proof {
            assert(ho * wo * oc == 0) by (nonlinear_arith)
                requires
                    oc == 0,
            ;
        }
        return act;
    }
    proof {
        assert(ho * wo <= ho * wo * oc && ho * wo >= 0) by (nonlinear_arith)
            requires
                oc >= 1,
                ho >= 0,
                wo >= 0,
        ;
    }
    let total: usize = ho * wo * oc;
    let mut i: usize = 0;
    while i < total
        invariant
            out.len() >= h * (w + 2) * oc,
            bias.len() == oc,
            oc > 0,
            forall|a: u32, b: u32| call_requires(*plus, (a, b)),
            hn == h,
            wn == w,
            ocn == oc,
            ho == halved(hn, pool),
            wo == halved(wn, pool),
            total == ho * wo * oc,
            i <= total,
            act.len() == i,
            forall|j: int|
                0 <= j < i ==> relu_sum16(
                    *plus,
                    fed(
                        out@,
                        w as int,
                        oc as int,
                        pool,
                        j / (oc as int) / (wo as int),
                        j / (oc as int) % (wo as int),
                        j % (oc as int),
                    ),
                    bias@[j % (oc as int)],
                    #[trigger] act[j],
                ),
        decreases total - i,
    {
        proof {
            index_parts(i as int, ho * wo, oc as int);
            assert(wo > 0) by {
                if wo == 0 {
                    assert(ho * wo * oc == 0) by (nonlinear_arith)
                        requires
                            wo == 0,
                    ;
                }
            }
            index_parts((i / oc) as int, ho as int, wo as int);
        }
        let o: usize = i % oc;
        let y: usize = i / oc / wo;
        let x: usize = i / oc % wo;
        let m: u32 = if pool {
            let a: u32 = larger_of(
                out_of(out, h, w, oc, 2 * y, 2 * x, o),
                out_of(out, h, w, oc, 2 * y, 2 * x + 1, o),
            );
            let b: u32 = larger_of(a, out_of(out, h, w, oc, 2 * y + 1, 2 * x, o));
            larger_of(b, out_of(out, h, w, oc, 2 * y + 1, 2 * x + 1, o))
        } else {
            out_of(out, h, w, oc, y, x, o)
        };
        let s: u32 = plus(m, bias[o]);
        let v: u16 = f32_to_bf16(larger_of(s, 0));
        assert(relu_sum16(*plus, m, bias@[o as int], v)) by {
            assert(v == narrow(larger(s, 0)));
        }
        act.push(v);
        i += 1;
    }
    act
}

/// As [`epilogue_bf16`] without the pool, kept in single precision.
pub fn epilogue_f32<A: Fn(u32, u32) -> u32>(
    out: &Vec<u16>,
    h: usize,
    w: usize,
    oc: usize,
    bias: &Vec<u32>,
    plus: &A,
) -> (r: Vec<u32>)
    requires
        out.len() >= h * (w + 2) * oc,
        bias.len() == oc,
        forall|a: u32, b: u32| call_requires(*plus, (a, b)),
    ensures
        is_feature(r@, out@, h as nat, w as nat, oc as nat, bias@, *plus),
{
    let mut f: Vec<u32> = Vec::new();
    proof {
        halved_fits(h as nat, w as nat, oc as nat, false);
    }
    if oc == 0 {
        proof {
            assert(h * w * oc == 0) by (nonlinear_arith)
                requires
                    oc == 0,
            ;
        }
        return f;
    }
    proof {
        assert(h * w <= h * w * oc && h * w >= 0) by (nonlinear_arith)
            requires
                oc >= 1,
                h >= 0,
                w >= 0,
        ;
    }
    let total: usize = h * w * oc;
    let mut i: usize = 0;
    while i < total
        invariant
            out.len() >= h * (w + 2) * oc,
            bias.len() == oc,
            oc > 0,
            forall|a: u32, b: u32| call_requires(*plus, (a, b)),
            total == h * w * oc,
            i <= total,
            f.len() == i,
            forall|j: int|
                0 <= j < i ==> relu_sum(
                    *plus,
                    out_at(
                        out@,
                        w as int,
                        oc as int,
                        j / (oc as int) / (w as int),
                        j / (oc as int) % (w as int),
                        j % (oc as int),
                    ),
                    bias@[j % (oc as int)],
                    #[trigger] f[j],
                ),
        decreases total - i,
    {
        proof {
            index_parts(i as int, h * w, oc as int);
            assert(w > 0) by {
                if w == 0 {
                    assert(h * w * oc == 0) by (nonlinear_arith)
                        requires
                            w == 0,
                    ;
                }
            }
            index_parts((i / oc) as int, h as int, w as int);
        }
        let o: usize = i % oc;
        let m: u32 = out_of(out, h, w, oc, i / oc / w, i / oc % w, o);
        let s: u32 = plus(m, bias[o]);
        let v: u32 = larger_of(s, 0);
        assert(relu_sum(*plus, m, bias@[o as int], v)) by {
            assert(v == larger(s, 0));
        }
        f.push(v);
        i += 1;
    }
    f
}

/// The 2 x 2 maximum of a feature map `[h][w][c]`.
pub open spec fn maxpooled(f: Seq<u32>, h: nat, w: nat, c: nat) -> Seq<u32> {
    let wo = (w / 2) as int;
    let at = |y: int, x: int, o: int| f[(y * w + x) * c + o];
    Seq::new(
        (h / 2) * (w / 2) * c,
        |i: int|
            {
                let (y, x, o) = (i / (c as int) / wo, i / (c as int) % wo, i % (c as int));
                larger(
                    larger(larger(at(2 * y, 2 * x, o), at(2 * y, 2 * x + 1, o)), at(2 * y + 1, 2 * x, o)),
                    at(2 * y + 1, 2 * x + 1, o),
                )
            },
    )
}

fn map_at(f: &Vec<u32>, h: usize, w: usize, c: usize, y: usize, x: usize, o: usize) -> (r: u32)
    requires
        f.len() == h * w * c,
        y < h,
        x < w,
        o < c,
    ensures
        r == f@[(y * w + x) * c + o],
{
    proof {
        let at = y * w + x;
        index_bound(y as int, x as int, h as int, w as int);
        index_bound(at, o as int, h * w, c as int);
        assert(y * w >= 0) by (nonlinear_arith)
            requires
                y >= 0,
                w >= 0,
        ;
        assert(at <= at * c) by (nonlinear_arith)
            requires
                c >= 1,
                at >= 0,
        ;
    }
    f[(y * w + x) * c + o]
}

pub fn maxpool_f32(f: &Vec<u32>, h: usize, w: usize, c: usize) -> (r: Vec<u32>)
    requires
        f.len() == h * w * c,
    ensures
        r@ == maxpooled(f@, h as nat, w as nat, c as nat),
{
    let (ho, wo): (usize, usize) = (h / 2, w / 2);
    let mut out: Vec<u32> = Vec::new();
    if c == 0 {
        proof {
            assert(ho * wo * c == 0) by (nonlinear_arith)
                requires
                    c == 0,
            ;
            assert(out@ =~= maxpooled(f@, h as nat, w as nat, c as nat));
        }
        return out;
    }
    proof {
        assert(ho * wo <= h * w && ho * wo >= 0) by (nonlinear_arith)
            requires
                0 <= ho <= h,
                0 <= wo <= w,
        ;
        let (a, b) = (ho * wo, h * w);
        assert(a * c <= b * c && b <= b * c) by (nonlinear_arith)
            requires
                a <= b,
                b >= 0,
                c >= 1,
        ;
    }
    let total: usize = ho * wo * c;
    let mut i: usize = 0;
    while i < total
        invariant
            f.len() == h * w * c,
            c > 0,
            ho == h / 2,
            wo == w / 2,
            total == ho * wo * c,
            i <= total,
            out@ =~= maxpooled(f@, h as nat, w as nat, c as nat).take(i as int),
        decreases total - i,
    {
        proof {
            index_parts(i as int, ho * wo, c as int);
            assert(wo > 0) by {
                if wo == 0 {
                    assert(ho * wo * c == 0) by (nonlinear_arith)
                        requires
                            wo == 0,
                    ;
                }
            }
            index_parts((i / c) as int, ho as int, wo as int);
        }
        let o: usize = i % c;
        let y: usize = i / c / wo;
        let x: usize = i / c % wo;
        let a: u32 = larger_of(map_at(f, h, w, c, 2 * y, 2 * x, o), map_at(f, h, w, c, 2 * y, 2 * x + 1, o));
        let b: u32 = larger_of(a, map_at(f, h, w, c, 2 * y + 1, 2 * x, o));
        out.push(larger_of(b, map_at(f, h, w, c, 2 * y + 1, 2 * x + 1, o)));
        i += 1;
    }
    out
}

// ---------------------------------------------------------------------------
// The backbone.

/// What the backbone is made of: the layers, their biases, and the two
/// whose outputs are feature maps.
pub struct Backbone {
    pub layers: Vec<Layer>,
    pub biases: Vec<Vec<u32>>,
    pub f3: usize,
    pub f4: usize,
}

impl Backbone {
    /// The layers chain, from three channels on, and are laid out as their
    /// kernels; biases have a value per output channel.
    pub open spec fn wf(&self) -> bool {
        &&& self.biases.len() == self.layers.len()
        &&& self.f3 < self.layers.len()
        &&& self.f4 < self.layers.len()
        &&& self.layers[0].c == 3 && !self.layers[0].pool_before
        &&& forall|i: int|
            0 <= i < self.layers.len() ==> {
                &&& (#[trigger] self.layers[i]).laid_out()
                &&& self.layers[i].c > 0
                &&& self.biases[i].len() == self.layers[i].oc
                &&& i > 0 ==> self.layers[i].c == self.layers[i - 1].oc
            }
    }

    pub open spec fn h_at(&self, h: nat, i: int) -> nat {
        side(self.layers@, h, (i + 1) as nat)
    }

    pub open spec fn pools_after(&self, i: int) -> bool {
        i + 1 < self.layers.len() && self.layers[i + 1].pool_before
    }

    /// Whether every size of a `w x h` input fits the machine.
    pub open spec fn fits(&self, w: nat, h: nat) -> bool {
        &&& all_fit(self.layers@, h, w)
        &&& forall|i: int|
            0 <= i < self.layers.len() ==> (#[trigger] self.layers[i]).pixels(self.h_at(h, i), self.h_at(w, i)) + 3
                <= usize::MAX
    }
}

/// What passed through the first layers: their inputs, the A operands made
/// of them, and what the device answered.
pub struct Passed {
    pub acts: Seq<Vec<u16>>,
    pub ins: Seq<Vec<u16>>,
    pub outs: Seq<Vec<u16>>,
}

/// Layer `i` of a run: its A operand is that of its input, the device
/// answered it, and its input is the one the layer before makes.
pub open spec fn passes<A: Fn(u32, u32) -> u32, D: Fn(usize, &Vec<u16>) -> Result<Vec<u16>, String>>(
    b: Backbone,
    w: nat,
    h: nat,
    chw: Seq<u32>,
    plus: A,
    dev: D,
    t: Passed,
    i: int,
) -> bool {
    let l = b.layers[i];
    &&& t.ins[i]@ == a_source_of(t.acts[i]@, l, b.h_at(h, i), b.h_at(w, i))
    &&& call_ensures(dev, (i as usize, &t.ins[i]), Ok(t.outs[i]))
    &&& i == 0 ==> t.acts[0]@ == stem_of(chw, w, h)
    &&& i > 0 ==> is_epilogue(
        t.acts[i]@,
        t.outs[i - 1]@,
        b.h_at(h, i - 1),
        b.h_at(w, i - 1),
        b.layers[i - 1].oc as nat,
        b.biases[i - 1]@,
        b.pools_after(i - 1),
        plus,
    )
}

/// `t` is what passed through the first `n` layers.
pub open spec fn passed<A: Fn(u32, u32) -> u32, D: Fn(usize, &Vec<u16>) -> Result<Vec<u16>, String>>(
    b: Backbone,
    w: nat,
    h: nat,
    chw: Seq<u32>,
    plus: A,
    dev: D,
    t: Passed,
    n: int,
) -> bool {
    &&& t.acts.len() == n && t.ins.len() == n && t.outs.len() == n
    &&& forall|i: int| 0 <= i < n ==> #[trigger] passes(b, w, h, chw, plus, dev, t, i)
}

/// The feature map of layer `i`.
pub open spec fn feature_at<A: Fn(u32, u32) -> u32>(b: Backbone, w: nat, h: nat, plus: A, t: Passed, i: int, f: Seq<u32>) -> bool {
    is_feature(f, t.outs[i]@, b.h_at(h, i), b.h_at(w, i), b.layers[i].oc as nat, b.biases[i]@, plus)
}

/// `f3` and `f4` are the feature maps of a run through all layers.
pub open spec fn features_to<A: Fn(u32, u32) -> u32, D: Fn(usize, &Vec<u16>) -> Result<Vec<u16>, String>>(
    b: Backbone,
    w: nat,
    h: nat,
    chw: Seq<u32>,
    plus: A,
    dev: D,
    f3: Seq<u32>,
    f4: Seq<u32>,
) -> bool {
    exists|t: Passed| #[trigger]
        passed(b, w, h, chw, plus, dev, t, b.layers.len() as int) && feature_at(b, w, h, plus, t, b.f3 as int, f3) && (
        if b.f4 == b.f3 {
            f4.len() == 0
        } else {
            feature_at(b, w, h, plus, t, b.f4 as int, f4)
        })
}

/// The device refused a layer, for which it said `m`, after those before it
/// passed.
pub open spec fn features_fail<A: Fn(u32, u32) -> u32, D: Fn(usize, &Vec<u16>) -> Result<Vec<u16>, String>>(
    b: Backbone,
    w: nat,
    h: nat,
    chw: Seq<u32>,
    plus: A,
    dev: D,
    m: Seq<char>,
) -> bool {
    exists|t: Passed, a: Vec<u16>, s: String| #[trigger]
        passed(b, w, h, chw, plus, dev, t, t.acts.len() as int) && t.acts.len() < b.layers.len() && #[trigger] call_ensures(
            dev,
            (t.acts.len() as usize, &a),
            Err::<Vec<u16>, String>(s),
        ) && s@ == m
}

/// The device takes every layer's operand, and answers with as many
/// elements as the layer computes.
pub open spec fn answers<D: Fn(usize, &Vec<u16>) -> Result<Vec<u16>, String>>(b: Backbone, w: nat, h: nat, dev: D) -> bool {
    &&& forall|i: usize, a: &Vec<u16>| i < b.layers.len() ==> call_requires(dev, (i, a))
    &&& forall|i: usize, a: &Vec<u16>, r: Vec<u16>|
        i < b.layers.len() && #[trigger] call_ensures(dev, (i, a), Ok::<Vec<u16>, String>(r)) ==> r.len()
            >= b.layers[i as int].c_source(b.h_at(h, i as int), b.h_at(w, i as int))
}

proof fn grid_within_pixels(l: Layer, h: nat, w: nat)
    requires
        l.wf(),
    ensures
        h * (w + 2) <= l.pixels(h, w),
        h * (w + 2) * l.oc <= l.c_source(h, w),
{
    let chunk = l.m_chunk * l.p;
    assert(chunk > 0) by (nonlinear_arith)
        requires
            chunk == l.m_chunk * l.p,
            l.m_chunk > 0,
            l.p > 0,
    ;
    let g = h * (w + 2);
    assert(g >= 0) by (nonlinear_arith)
        requires
            g == h * (w + 2),
    ;
    rounded_up_is(g as int, chunk);
    let (px, oc) = (l.pixels(h, w), l.oc as nat);
    assert(g * oc <= px * oc) by (nonlinear_arith)
        requires
            g <= px,
    ;
}

proof fn longer_run<A: Fn(u32, u32) -> u32, D: Fn(usize, &Vec<u16>) -> Result<Vec<u16>, String>>(
    b: Backbone,
    w: nat,
    h: nat,
    chw: Seq<u32>,
    plus: A,
    dev: D,
    t: Passed,
    u: Passed,
    n: int,
)
    requires
        n >= 0,
        passed(b, w, h, chw, plus, dev, t, n),
        u.acts.len() == n + 1 && u.ins.len() == n + 1 && u.outs.len() == n + 1,
        forall|i: int| 0 <= i < n ==> #[trigger] u.acts[i] == t.acts[i] && u.ins[i] == t.ins[i] && u.outs[i] == t.outs[i],
        passes(b, w, h, chw, plus, dev, u, n),
    ensures
        passed(b, w, h, chw, plus, dev, u, n + 1),
{
    assert forall|i: int| 0 <= i < n + 1 implies #[trigger] passes(b, w, h, chw, plus, dev, u, i) by {
        if i < n {
            assert(passes(b, w, h, chw, plus, dev, t, i));
            assert(u.acts[i] == t.acts[i]);
            if i > 0 {
                assert(u.acts[i - 1] == t.acts[i - 1]);
            }
        }
    }
}

proof fn refused<A: Fn(u32, u32) -> u32, D: Fn(usize, &Vec<u16>) -> Result<Vec<u16>, String>>(
    b: Backbone,
    w: nat,
    h: nat,
    chw: Seq<u32>,
    plus: A,
    dev: D,
    t: Passed,
    i: usize,
    a: Vec<u16>,
    m: String,
)
    requires
        i < b.layers.len(),
        passed(b, w, h, chw, plus, dev, t, i as int),
        call_ensures(dev, (i, &a), Err::<Vec<u16>, String>(m)),
    ensures
        features_fail(b, w, h, chw, plus, dev, m@),
{
    assert(t.acts.len() as usize == i);
    assert(call_ensures(dev, (t.acts.len() as usize, &a), Err::<Vec<u16>, String>(m)));
}

/// The next layer's input has its layer's size.
proof fn next_sizes(b: Backbone, w: nat, h: nat, i: int)
    requires
        b.wf(),
        0 <= i,
        i + 1 < b.layers.len(),
    ensures
        b.h_at(h, i + 1) == halved(b.h_at(h, i), b.pools_after(i)),
        b.h_at(w, i + 1) == halved(b.h_at(w, i), b.pools_after(i)),
        b.layers[i + 1].c == b.layers[i].oc,
        b.layers[i + 1].laid_out(),
{
    assert(b.layers[i + 1].laid_out());
}

/// Runs the backbone for a `3 x h x w` input: every layer's A operand goes
/// to the device, whose answer makes the next layer's input; the outputs of
/// the two feature layers are kept in single precision.
#[verifier::rlimit(80)]
#[verifier::spinoff_prover]
pub fn run_backbone<A: Fn(u32, u32) -> u32, D: Fn(usize, &Vec<u16>) -> Result<Vec<u16>, String>>(
    b: &Backbone,
    chw: &Vec<u32>,
    w: usize,
    h: usize,
    plus: &A,
    dev: &D,
) -> (r: Result<(Vec<u32>, Vec<u32>), Error>)
    requires
        b.wf(),
        b.fits(w as nat, h as nat),
        chw.len() == 3 * w * h,
        forall|x: u32, y: u32| call_requires(*plus, (x, y)),
        answers(*b, w as nat, h as nat, *dev),
    ensures
        match r {
            Ok((f3, f4)) => features_to(*b, w as nat, h as nat, chw@, *plus, *dev, f3@, f4@),
            Err(e) => e matches Error::Npu(m) && features_fail(*b, w as nat, h as nat, chw@, *plus, *dev, m@),
        },
{
    let ghost (wn, hn) = (w as nat, h as nat);
    let n: usize = b.layers.len();
    let mut act: Vec<u16> = stem_input(chw, w, h);
    let mut f3: Vec<u32> = Vec::new();
    let mut f4: Vec<u32> = Vec::new();
    let (mut hh, mut ww): (usize, usize) = (h, w);
    let ghost mut t = Passed { acts: seq![], ins: seq![], outs: seq![] };
    proof {
        assert(3 * w * h == (h * w) * 3) by (nonlinear_arith);
        assert(b.layers[0].laid_out());
        assert(side(b.layers@, hn, 0) == hn && side(b.layers@, wn, 0) == wn);
    }
    let mut i: usize = 0;
    while i < n
        invariant
            b.wf(),
            b.fits(wn, hn),
            wn == w,
            hn == h,
            forall|x: u32, y: u32| call_requires(*plus, (x, y)),
            answers(*b, wn, hn, *dev),
            n == b.layers.len(),
            i <= n,
            passed(*b, wn, hn, chw@, *plus, *dev, t, i as int),
            i < n ==> hh == b.h_at(hn, i as int) && ww == b.h_at(wn, i as int),
            i < n ==> act.len() == hh * ww * b.layers[i as int].c,
            i == 0 ==> act@ == stem_of(chw@, wn, hn),
            0 < i < n ==> is_epilogue(
                act@,
                t.outs[i - 1]@,
                b.h_at(hn, i - 1),
                b.h_at(wn, i - 1),
                b.layers[i - 1].oc as nat,
                b.biases[i - 1]@,
                b.pools_after(i - 1),
                *plus,
            ),
            i > b.f3 ==> feature_at(*b, wn, hn, *plus, t, b.f3 as int, f3@),
            i > b.f4 && b.f4 != b.f3 ==> feature_at(*b, wn, hn, *plus, t, b.f4 as int, f4@),
            b.f4 == b.f3 ==> f4.len() == 0,
        decreases n - i,
    {
        let l: Layer = b.layers[i];
        assert(b.layers[i as int].laid_out());
        assert(l.fits(hh as nat, ww as nat));
        let a: Vec<u16> = build_a(&act, &l, hh, ww);
        let out: Vec<u16> = match dev(i, &a) {
            Ok(o) => o,
            Err(m) => {
                proof {
                    refused(*b, wn, hn, chw@, *plus, *dev, t, i, a, m);
                }
                return Err(Error::Npu(m));
            },
        };
        let ghost u = Passed { acts: t.acts.push(act), ins: t.ins.push(a), outs: t.outs.push(out) };
        proof {
            assert(passes(*b, wn, hn, chw@, *plus, *dev, u, i as int));
            longer_run(*b, wn, hn, chw@, *plus, *dev, t, u, i as int);
            grid_within_pixels(l, hh as nat, ww as nat);
        }
        if i == b.f3 {
            f3 = epilogue_f32(&out, hh, ww, l.oc, &b.biases[i], plus);
        } else if i == b.f4 {
            f4 = epilogue_f32(&out, hh, ww, l.oc, &b.biases[i], plus);
        }
        if i + 1 < n {
            let pool: bool = b.layers[i + 1].pool_before;
            act = epilogue_bf16(&out, hh, ww, l.oc, &b.biases[i], pool, plus);
            proof {
                next_sizes(*b, wn, hn, i as int);
            }
            if pool {
                hh = hh / 2;
                ww = ww / 2;
            }
        }
        proof {
            t = u;
        }
        i += 1;
    }
    Ok((f3, f4))
}

// ---------------------------------------------------------------------------
// From a bundle.

pub open spec fn layer_of(c: ConvView, k: KernelView) -> Layer {
    Layer {
        c: c.c,
        oc: c.oc,
        pool_before: c.pool_before,
        m_chunk: c.m_chunk,
        p: c.p,
        window: c.window,
        d: c.d,
        k: k.k,
        a_elems: k.a_elems,
        c_elems: k.c_elems,
    }
}

/// The layers of a list of convs, each with its kernel.
pub open spec fn layers_in(ks: Seq<KernelView>, cs: Seq<ConvView>) -> Result<Seq<Layer>, Seq<char>>
    decreases cs.len(),
{
    if cs.len() == 0 {
        Ok(seq![])
    } else {
        match layers_in(ks, cs.drop_last()) {
            Err(m) => Err(m),
            Ok(s) => match kernel_in(ks, cs.last().kernel) {
                Err(m) => Err(m),
                Ok(k) => Ok(s.push(layer_of(cs.last(), k))),
            },
        }
    }
}

proof fn layers_error(ks: Seq<KernelView>, cs: Seq<ConvView>, n: int)
    requires
        0 <= n <= cs.len(),
        layers_in(ks, cs.take(n)) is Err,
    ensures
        layers_in(ks, cs) == layers_in(ks, cs.take(n)),
    decreases cs.len() - n,
{
    if n < cs.len() {
        assert(cs.take(n + 1).drop_last() =~= cs.take(n));
        layers_error(ks, cs, n + 1);
    } else {
        assert(cs.take(n) =~= cs);
    }
}

/// The layers of a bundle.
pub fn layers_of(b: &Bundle) -> (r: Result<Vec<Layer>, Error>)
    ensures
        match (r, layers_in(b@.kernels, b@.convs)) {
            (Ok(v), Ok(s)) => v@ == s,
            (Err(e), Err(m)) => says(e, m),
            _ => false,
        },
{
    let ghost cs = b@.convs;
    let mut out: Vec<Layer> = Vec::new();
    let mut i: usize = 0;
    proof {
        assert(cs.take(0) =~= seq![]);
    }
    while i < b.convs.len()
        invariant
            i <= b.convs.len(),
            cs == b@.convs,
            layers_in(b@.kernels, cs.take(i as int)) == Ok::<Seq<Layer>, Seq<char>>(out@),
        decreases b.convs.len() - i,
    {
        let c = &b.convs[i];
        proof {
            assert(cs.take(i + 1).drop_last() =~= cs.take(i as int));
            assert(cs.take(i + 1).last() == c@);
            if layers_in(b@.kernels, cs.take(i + 1)) is Err {
                layers_error(b@.kernels, cs, i + 1);
            }
        }
        let k = match b.kernel(c.kernel.as_str()) {
            Ok(k) => k,
            Err(e) => {
                return Err(e);
            },
        };
        out.push(
            Layer {
                c: c.c,
                oc: c.oc,
                pool_before: c.pool_before,
                m_chunk: c.m_chunk,
                p: c.p,
                window: c.window,
                d: c.d,
                k: k.k,
                a_elems: k.a_elems,
                c_elems: k.c_elems,
            },
        );
        i += 1;
    }
    proof {
        assert(cs.take(i as int) =~= cs);
    }
    Ok(out)
}

/// The conv named `name`.
pub fn conv_index(convs: &Vec<ConvSpec>, name: &str) -> (r: Option<usize>)
    ensures
        match r {
            Some(i) => i < convs.len() && convs[i as int].name@ == name@ && forall|j: int|
                0 <= j < i ==> (#[trigger] convs[j]).name@ != name@,
            None => forall|j: int| 0 <= j < convs.len() ==> (#[trigger] convs[j]).name@ != name@,
        },
{
    let mut i: usize = 0;
    while i < convs.len()
        invariant
            i <= convs.len(),
            forall|j: int| 0 <= j < i ==> (#[trigger] convs[j]).name@ != name@,
        decreases convs.len() - i,
    {
        if same(convs[i].name.as_str(), name) {
            return Some(i);
        }
        i += 1;
    }
    None
}

/// A list of convs without a fault has a kernel for each, of its layout,
/// and the channels chain.
pub proof fn sound_convs_chain(ks: Seq<KernelView>, cs: Seq<ConvView>, c_in: usize, i: int)
    requires
        chain_fault(ks, cs, c_in) is None,
        0 <= i < cs.len(),
        cs[i].m_chunk > 0,
        cs[i].p > 0,
    ensures
        kernel_in(ks, cs[i].kernel) matches Ok(k) && layer_of(cs[i], k).laid_out(),
        cs[i].c == (if i == 0 {
            c_in
        } else {
            cs[i - 1].oc
        }),
    decreases cs.len(),
{
    let k0 = kernel_in(ks, cs[0].kernel);
    assert(k0 is Ok);
    assert(conv_fault(cs[0], k0->Ok_0, c_in) is None);
    if i > 0 {
        let t = cs.skip(1);
        assert(t[i - 1] == cs[i]);
        sound_convs_chain(ks, t, cs[0].oc, i - 1);
        if i > 1 {
            assert(t[i - 2] == cs[i - 1]);
        }
    }
}

} // verus!
