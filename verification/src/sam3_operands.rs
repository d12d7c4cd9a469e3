//! The operands of every stage's kernels: which kernels run over how many
//! rows, which read another's output in place, and how large that makes
//! their buffers.

use crate::io_plan::{
    conv_d, conv_fits, conv_io, conv_p, conv_rows, io, io_chained, is_plan, overflows, padded, plain_fits, Plan,
};
use crate::sam3::{faults, Error};
use crate::sam3_bundle::{GemmSpec, GemmView, Manifest, ManifestView};
use crate::sam3_config::Config;
use vstd::prelude::*;

verus! {

/// What a stage wants of a kernel.
#[derive(Debug, Clone, Copy)]
pub enum Want {
    /// `rows` rows that the host writes.
    Plain { key: &'static str, rows: usize },
    /// The output of an operand before this one, in place.
    Chained { key: &'static str, from: usize },
    /// A square image with a border.
    Conv { side: usize },
}

pub enum WantView {
    Plain { key: Seq<char>, rows: nat },
    Chained { key: Seq<char>, from: nat },
    Conv { side: nat },
}

impl View for Want {
    type V = WantView;

    open spec fn view(&self) -> WantView {
        match self {
            Want::Plain { key, rows } => WantView::Plain { key: key@, rows: *rows as nat },
            Want::Chained { key, from } => WantView::Chained { key: key@, from: *from as nat },
            Want::Conv { side } => WantView::Conv { side: *side as nat },
        }
    }
}

impl WantView {
    /// The kernel's name.
    pub open spec fn key(self) -> Seq<char> {
        match self {
            WantView::Plain { key, .. } => key,
            WantView::Chained { key, .. } => key,
            WantView::Conv { .. } => "conv"@,
        }
    }

    /// The kernel's shape admits it: it computes something, and reads rows as
    /// wide as they come.
    pub open spec fn admits(self, g: GemmView, before: Seq<Plan>) -> bool {
        &&& g.m > 0
        &&& match self {
            WantView::Plain { .. } => g.lda == g.k,
            WantView::Chained { from, .. } => from < before.len() && before[from as int].n == g.k,
            WantView::Conv { side } => {
                &&& g.k >= g.lda
                &&& conv_d(g.k as nat, g.lda as nat) > 0
                &&& conv_p(g.k as nat, g.lda as nat) > 0
                &&& side * (side + 2) <= usize::MAX
            },
        }
    }

    /// Whether its buffers fit the machine.
    pub open spec fn fits(self, g: GemmView, before: Seq<Plan>) -> bool {
        let (m, k, n, lda) = (g.m as nat, g.k as nat, g.n as nat, g.lda as nat);
        match self {
            WantView::Plain { rows, .. } => padded(rows, m) <= usize::MAX && plain_fits(padded(rows, m), m, k, n),
            WantView::Chained { from, .. } => plain_fits(before[from as int].rows as nat, m, k, n),
            WantView::Conv { side } => conv_fits(conv_rows(side, side, conv_p(k, lda), m), m, lda, k, n),
        }
    }

    /// `p` is its plan.
    pub open spec fn is_planned(self, g: GemmView, before: Seq<Plan>, p: Plan) -> bool {
        let (m, k, n, lda) = (g.m as nat, g.k as nat, g.n as nat, g.lda as nat);
        match self {
            WantView::Plain { rows, .. } => is_plan(p, padded(rows, m), m, k, m * k, n, padded(rows, m) * k, false),
            WantView::Chained { from, .. } => {
                let t = before[from as int].rows as nat;
                is_plan(p, t, m, k, m * k, n, t * k, true)
            },
            WantView::Conv { side } => {
                let (d, w) = (conv_d(k, lda), conv_p(k, lda));
                let t = conv_rows(side, side, w, m);
                is_plan(p, t, m, lda, ((m - 1) * lda + k) as nat, n, (t * w + 2) * d, false)
            },
        }
    }

    /// `p` is its plan with the manifest's kernel.
    pub open spec fn is_met(self, m: ManifestView, before: Seq<Plan>, p: Plan) -> bool {
        m.gemm(self.key()) matches Ok(g) && self.fits(g, before) && self.is_planned(g, before, p)
    }

    /// `e` says why it has no plan: the kernel is missing, or its buffers do
    /// not fit.
    pub open spec fn is_refused(self, m: ManifestView, before: Seq<Plan>, e: Error) -> bool {
        match m.gemm(self.key()) {
            Ok(g) => !self.fits(g, before) && faults(e, overflows(g.key)),
            Err(s) => faults(e, s),
        }
    }
}

pub open spec fn want_views(v: Seq<Want>) -> Seq<WantView> {
    v.map_values(|w: Want| w@)
}

/// What the stages want, for a grid `g` and masks of side `s`.
pub open spec fn wants_of(g: nat, s: nat) -> Seq<WantView> {
    let t = g * g;
    seq![
        WantView::Plain { key: "v_fc1"@, rows: t },
        WantView::Chained { key: "v_fc2"@, from: 0 },
        WantView::Plain { key: "d_fc1"@, rows: t },
        WantView::Chained { key: "d_fc2"@, from: 2 },
        WantView::Conv { side: g },
        WantView::Conv { side: 2 * g },
        WantView::Conv { side: 4 * g },
        WantView::Plain { key: "v_embed"@, rows: t },
        WantView::Plain { key: "v_qkv"@, rows: t },
        WantView::Plain { key: "v_o"@, rows: t },
        WantView::Plain { key: "n_in"@, rows: t },
        WantView::Plain { key: "n_up"@, rows: 4 * t },
        WantView::Plain { key: "d_qkv"@, rows: t },
        WantView::Plain { key: "d_o"@, rows: t },
        WantView::Plain { key: "d_s"@, rows: t },
        WantView::Plain { key: "d_c"@, rows: t },
        WantView::Plain { key: "dec_kv"@, rows: t },
        WantView::Plain { key: "m_head"@, rows: s * s },
    ]
}

/// What the stages want of their kernels.
pub fn wants(c: &Config) -> (r: Vec<Want>)
    requires
        4 * (c.grid * c.grid) <= usize::MAX,
        4 * c.grid <= usize::MAX,
        c.mask_size * c.mask_size <= usize::MAX,
    ensures
        want_views(r@) == wants_of(c.grid as nat, c.mask_size as nat),
{
    let (g, s): (usize, usize) = (c.grid, c.mask_size);
    let t: usize = g * g;
    let mut r: Vec<Want> = Vec::new();
    r.push(Want::Plain { key: "v_fc1", rows: t });
    r.push(Want::Chained { key: "v_fc2", from: 0 });
    r.push(Want::Plain { key: "d_fc1", rows: t });
    r.push(Want::Chained { key: "d_fc2", from: 2 });
    r.push(Want::Conv { side: g });
    r.push(Want::Conv { side: 2 * g });
    r.push(Want::Conv { side: 4 * g });
    r.push(Want::Plain { key: "v_embed", rows: t });
    r.push(Want::Plain { key: "v_qkv", rows: t });
    r.push(Want::Plain { key: "v_o", rows: t });
    r.push(Want::Plain { key: "n_in", rows: t });
    r.push(Want::Plain { key: "n_up", rows: 4 * t });
    r.push(Want::Plain { key: "d_qkv", rows: t });
    r.push(Want::Plain { key: "d_o", rows: t });
    r.push(Want::Plain { key: "d_s", rows: t });
    r.push(Want::Plain { key: "d_c", rows: t });
    r.push(Want::Plain { key: "dec_kv", rows: t });
    r.push(Want::Plain { key: "m_head", rows: s * s });
    proof {
        assert(want_views(r@) =~= wants_of(g as nat, s as nat));
    }
    r
}

/// The kernel of want `i`, where the manifest has it, computes something and
/// reads rows as wide as they come.
pub open spec fn is_shaped(m: ManifestView, w: Seq<WantView>, i: int) -> bool {
    m.gemm(w[i].key()) matches Ok(g) ==> {
        &&& g.m > 0
        &&& match w[i] {
            WantView::Plain { .. } => g.lda == g.k,
            WantView::Chained { from, .. } => {
                &&& from < i
                &&& m.gemm(w[from as int].key()) matches Ok(f) ==> f.n == g.k
            },
            WantView::Conv { side } => {
                &&& g.k >= g.lda
                &&& conv_d(g.k as nat, g.lda as nat) > 0
                &&& conv_p(g.k as nat, g.lda as nat) > 0
                &&& side * (side + 2) <= usize::MAX
            },
        }
    }
}

/// All kernels admit what is wanted of them.
pub open spec fn admissible(m: ManifestView, w: Seq<WantView>) -> bool {
    forall|i: int| 0 <= i < w.len() ==> #[trigger] is_shaped(m, w, i)
}

fn key_of(w: &Want) -> (r: &'static str)
    ensures
        r@ == w@.key(),
{
    match *w {
        Want::Plain { key, .. } => key,
        Want::Chained { key, .. } => key,
        Want::Conv { .. } => "conv",
    }
}

fn shaped(m: &Manifest, w: &Vec<Want>, i: usize) -> (r: bool)
    requires
        i < w.len(),
    ensures
        r == is_shaped(m@, want_views(w@), i as int),
{
    proof {
        assert(want_views(w@)[i as int] == w@[i as int]@);
    }
    let g: &GemmSpec = match m.gemm(key_of(&w[i])) {
        Ok(g) => g,
        Err(_) => {
            return true;
        },
    };
    if g.m == 0 {
        return false;
    }
    match w[i] {
        Want::Plain { .. } => g.lda == g.k,
        Want::Chained { from, .. } => {
            if from >= i {
                return false;
            }
            proof {
                assert(want_views(w@)[from as int] == w@[from as int]@);
            }
            match m.gemm(key_of(&w[from])) {
                Ok(f) => f.n == g.k,
                Err(_) => true,
            }
        },
        Want::Conv { side } => {
            if g.k < g.lda {
                return false;
            }
            let d: usize = (g.k - g.lda) / 2;
            if d == 0 || g.lda / d == 0 || side > usize::MAX - 2 {
                proof {
                    if side > usize::MAX - 2 {
                        assert(side * (side + 2) > usize::MAX) by (nonlinear_arith)
                            requires
                                side > usize::MAX - 2,
                                usize::MAX >= 4,
                        ;
                    }
                }
                return false;
            }
            side.checked_mul(side + 2).is_some()
        },
    }
}

/// Whether all kernels admit what is wanted of them.
pub fn admits_all(m: &Manifest, w: &Vec<Want>) -> (r: bool)
    ensures
        r == admissible(m@, want_views(w@)),
{
    let mut i: usize = 0;
    while i < w.len()
        invariant
            i <= w.len(),
            forall|j: int| 0 <= j < i ==> #[trigger] is_shaped(m@, want_views(w@), j),
        decreases w.len() - i,
    {
        if !shaped(m, w, i) {
            return false;
        }
        i += 1;
    }
    true
}

/// `plans` are the plans of the first `n` wants.
pub open spec fn all_met(m: ManifestView, w: Seq<WantView>, plans: Seq<Plan>, n: int) -> bool {
    &&& plans.len() == n
    &&& forall|j: int| 0 <= j < n ==> w[j].is_met(m, plans.take(j), #[trigger] plans[j])
}

fn plan(m: &Manifest, w: &Want, before: &Vec<Plan>) -> (r: Result<Plan, Error>)
    requires
        m@.gemms.contains_key(w@.key()) ==> w@.admits(m@.gemms[w@.key()], before@),
    ensures
        match r {
            Ok(p) => w@.is_met(m@, before@, p),
            Err(e) => w@.is_refused(m@, before@, e),
        },
{
    let g: &GemmSpec = match m.gemm(key_of(w)) {
        Ok(g) => g,
        Err(e) => {
            return Err(e);
        },
    };
    match *w {
        Want::Plain { rows, .. } => io(g, rows),
        Want::Chained { from, .. } => io_chained(g, &before[from]),
        Want::Conv { side } => conv_io(g, side, side),
    }
}

/// Plans all operands; the first that cannot be planned is the error.
pub fn operands(m: &Manifest, w: &Vec<Want>) -> (r: Result<Vec<Plan>, Error>)
    requires
        admissible(m@, want_views(w@)),
    ensures
        match r {
            Ok(p) => all_met(m@, want_views(w@), p@, w.len() as int),
            Err(e) => exists|before: Seq<Plan>|
                before.len() < w.len() && #[trigger] all_met(m@, want_views(w@), before, before.len() as int)
                    && want_views(w@)[before.len() as int].is_refused(m@, before, e),
        },
{
    let mut plans: Vec<Plan> = Vec::new();
    let mut i: usize = 0;
    while i < w.len()
        invariant
            admissible(m@, want_views(w@)),
            i <= w.len(),
            all_met(m@, want_views(w@), plans@, i as int),
        decreases w.len() - i,
    {
        proof {
            assert(want_views(w@)[i as int] == w@[i as int]@);
            assert(is_shaped(m@, want_views(w@), i as int));
            if let WantView::Chained { from, .. } = w@[i as int]@ {
                if m@.gemms.contains_key(w@[i as int]@.key()) {
                    assert(want_views(w@)[from as int].is_met(m@, plans@.take(from as int), plans@[from as int]));
                }
            }
        }
        let p: Plan = match plan(m, &w[i], &plans) {
            Ok(p) => p,
            Err(e) => {
                return Err(e);
            },
        };
        let ghost was = plans@;
        plans.push(p);
        proof {
            assert forall|j: int| 0 <= j < i + 1 implies want_views(w@)[j].is_met(
                m@,
                plans@.take(j),
                #[trigger] plans@[j],
            ) by {
                assert(plans@.take(j) =~= was.take(j));
                if j < i {
                    assert(want_views(w@)[j].is_met(m@, was.take(j), was[j]));
                } else {
                    assert(was.take(j) =~= was);
                }
            }
        }
        i += 1;
    }
    Ok(plans)
}

/// A chained operand reads as many rows as the one before it wrote, and
/// exactly its bytes.
pub proof fn chained_reads_what_was_written(m: ManifestView, w: Seq<WantView>, plans: Seq<Plan>, i: int)
    requires
        admissible(m, w),
        all_met(m, w, plans, w.len() as int),
        0 <= i < w.len(),
        w[i] is Chained,
    ensures
        ({
            let from = w[i]->from as int;
            &&& 0 <= from < i
            &&& plans[i].rows == plans[from].rows
            &&& plans[i].a_bytes == plans[from].c_bytes
        }),
{
    let from = w[i]->from as int;
    assert(w[i].is_met(m, plans.take(i), plans[i]));
    assert(is_shaped(m, w, i));
    assert(w[from].is_met(m, plans.take(from), plans[from]));
    assert(plans.take(i)[from] == plans[from]);
}

} // verus!
