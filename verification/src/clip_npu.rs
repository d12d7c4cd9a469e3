//! CLIP's device side: the kernels to load, the buffers of a transformer
//! tower and its launches.

use crate::arith::mul3;
use crate::dict::Dict;
use crate::direct::Span;
use crate::io_plan::{io_exact, io_exact_chained, is_plan, overflows, partial, plain_fits, Plan, BF16};
use crate::manifest::{joined, record_views, Manifest, ManifestView, Record, RecordView};
use crate::paths::{equal_paths, same_path};
use crate::sam3::{faults, Error};
use crate::sam3_config::{all_layer_weights, push_layers};
use crate::text::{cat2, cat3, cat5, decimal, decimal_of, same, texts, texts_push};
use vstd::prelude::*;

verus! {

// ----------------------------------------------------------------------------
// Kernels
// ----------------------------------------------------------------------------

/// One compiled GEMM: `C[M, N] = A[M, K] B[K, N]` (+ bias), B pre-packed
/// (`b_bytes`).
#[derive(Debug)]
pub struct GemmSpec {
    pub key: String,
    pub m: usize,
    pub k: usize,
    pub n: usize,
    pub b_bytes: usize,
}

pub struct GemmView {
    pub key: Seq<char>,
    pub m: usize,
    pub k: usize,
    pub n: usize,
    pub b_bytes: usize,
}

impl View for GemmSpec {
    type V = GemmView;

    open spec fn view(&self) -> GemmView {
        GemmView { key: self.key@, m: self.m, k: self.k, n: self.n, b_bytes: self.b_bytes }
    }
}

/// A kernel to load: where its xclbin and instructions are, its name in
/// the xclbin, and the work of one run.
#[derive(Debug)]
pub struct Load {
    pub key: String,
    pub xclbin: String,
    pub insts: String,
    pub name: String,
    pub ops: u64,
}

pub struct LoadView {
    pub key: Seq<char>,
    pub xclbin: Seq<char>,
    pub insts: Seq<char>,
    pub name: Seq<char>,
    pub ops: int,
}

impl View for Load {
    type V = LoadView;

    open spec fn view(&self) -> LoadView {
        LoadView {
            key: self.key@,
            xclbin: self.xclbin@,
            insts: self.insts@,
            name: self.name@,
            ops: self.ops as int,
        }
    }
}

pub open spec fn load_views(v: Seq<Load>) -> Seq<LoadView> {
    v.map_values(|l: Load| l@)
}

/// The kernels of a bundle, in file order, its GEMMs, and the distinct
/// xclbins (hardware contexts) they stand in, told apart as paths.
#[derive(Debug)]
pub struct Kernels {
    pub loads: Vec<Load>,
    pub gemms: Dict<GemmSpec>,
    pub contexts: Vec<String>,
}

#[verifier::ext_equal]
pub struct KernelsView {
    pub loads: Seq<LoadView>,
    pub gemms: Map<Seq<char>, GemmView>,
    pub contexts: Seq<Seq<char>>,
}

impl View for Kernels {
    type V = KernelsView;

    open spec fn view(&self) -> KernelsView {
        KernelsView { loads: load_views(self.loads@), gemms: self.gemms@, contexts: texts(self.contexts@) }
    }
}

pub open spec fn gemm_of(r: RecordView) -> Result<GemmView, Seq<char>> {
    match (r.field(0), r.get::<usize>("M"@), r.get::<usize>("K"@), r.get::<usize>("N"@), r.get::<usize>("b_bytes"@)) {
        (Err(e), _, _, _, _) => Err(e),
        (_, Err(e), _, _, _) => Err(e),
        (_, _, Err(e), _, _) => Err(e),
        (_, _, _, Err(e), _) => Err(e),
        (_, _, _, _, Err(e)) => Err(e),
        (Ok(key), Ok(m), Ok(k), Ok(n), Ok(b_bytes)) => Ok(GemmView { key, m, k, n, b_bytes }),
    }
}

/// How a GEMM is loaded: from the context it names, its work two operations
/// per multiply-add.
pub open spec fn gemm_load(m: ManifestView, r: RecordView, g: GemmView) -> Result<LoadView, Seq<char>> {
    match r.str("ctx"@) {
        Err(e) => Err(e),
        Ok(ctx) => match m.xclbin(ctx) {
            Err(e) => Err(e),
            Ok(x) => if 2 * (g.m * g.k * g.n) > usize::MAX {
                Err(overflows(g.key))
            } else {
                match r.str("insts"@) {
                    Err(e) => Err(e),
                    Ok(insts) => Ok(
                        LoadView {
                            key: g.key,
                            xclbin: x.path,
                            insts: joined(m.dir, insts),
                            name: x.kernel,
                            ops: 2 * (g.m * g.k * g.n),
                        },
                    ),
                }
            },
        },
    }
}

pub open spec fn op_load(m: ManifestView, r: RecordView) -> Result<LoadView, Seq<char>> {
    match (r.field(0), r.str("xclbin"@), r.str("insts"@), r.str("name"@)) {
        (Err(e), _, _, _) => Err(e),
        (_, Err(e), _, _) => Err(e),
        (_, _, Err(e), _) => Err(e),
        (_, _, _, Err(e)) => Err(e),
        (Ok(key), Ok(xclbin), Ok(insts), Ok(name)) => Ok(
            LoadView { key, xclbin: joined(m.dir, xclbin), insts: joined(m.dir, insts), name, ops: 0 },
        ),
    }
}

/// Whether path `x` is among `paths`.
pub open spec fn lists(paths: Seq<Seq<char>>, x: Seq<char>) -> bool {
    exists|i: int| 0 <= i < paths.len() && same_path(#[trigger] paths[i], x)
}

impl KernelsView {
    pub open spec fn empty() -> KernelsView {
        KernelsView { loads: Seq::empty(), gemms: Map::empty(), contexts: Seq::empty() }
    }

    pub open spec fn with_load(self, l: LoadView) -> KernelsView {
        KernelsView {
            loads: self.loads.push(l),
            gemms: self.gemms,
            contexts: if lists(self.contexts, l.xclbin) {
                self.contexts
            } else {
                self.contexts.push(l.xclbin)
            },
        }
    }

    /// With what the record `r` says; only GEMMs and operators say anything.
    pub open spec fn with(self, m: ManifestView, r: RecordView) -> Result<KernelsView, Seq<char>> {
        if r.tag == "gemm"@ {
            match gemm_of(r) {
                Err(e) => Err(e),
                Ok(g) => match gemm_load(m, r, g) {
                    Err(e) => Err(e),
                    Ok(l) => Ok(KernelsView { gemms: self.gemms.insert(g.key, g), ..self }.with_load(l)),
                },
            }
        } else if r.tag == "op"@ {
            match op_load(m, r) {
                Err(e) => Err(e),
                Ok(l) => Ok(self.with_load(l)),
            }
        } else {
            Ok(self)
        }
    }
}

/// The kernels the records `rs` of manifest `m` name.
pub open spec fn kernels_of(m: ManifestView, rs: Seq<RecordView>) -> Result<KernelsView, Seq<char>>
    decreases rs.len(),
{
    if rs.len() == 0 {
        Ok(KernelsView::empty())
    } else {
        match kernels_of(m, rs.drop_last()) {
            Err(e) => Err(e),
            Ok(k) => k.with(m, rs.last()),
        }
    }
}

proof fn kernels_error(m: ManifestView, rs: Seq<RecordView>, n: int)
    requires
        0 <= n <= rs.len(),
        kernels_of(m, rs.take(n)) is Err,
    ensures
        kernels_of(m, rs) == kernels_of(m, rs.take(n)),
    decreases rs.len() - n,
{
    if n < rs.len() {
        assert(rs.take(n + 1).drop_last() =~= rs.take(n));
        kernels_error(m, rs, n + 1);
    } else {
        assert(rs.take(n) =~= rs);
    }
}

fn bundle<T>(r: Result<T, crate::manifest::Error>) -> (o: Result<T, Error>)
    ensures
        match (r, o) {
            (Ok(a), Ok(b)) => a == b,
            (Err(e), Err(f)) => faults(f, e.shown()),
            _ => false,
        },
{
    match r {
        Ok(v) => Ok(v),
        Err(e) => Err(Error::Bundle(e.message())),
    }
}

fn read_gemm(r: &Record) -> (o: Result<GemmSpec, Error>)
    ensures
        crate::sam3::reads(o, gemm_of(r@)),
{
    let key = bundle(r.field(0))?.to_string();
    let m: usize = bundle(r.get::<usize>("M"))?;
    let k: usize = bundle(r.get::<usize>("K"))?;
    let n: usize = bundle(r.get::<usize>("N"))?;
    let b_bytes: usize = bundle(r.get::<usize>("b_bytes"))?;
    Ok(GemmSpec { key, m, k, n, b_bytes })
}

fn work(g: &GemmSpec) -> (o: Option<usize>)
    ensures
        match o {
            Some(v) => v == 2 * (g.m * g.k * g.n),
            None => 2 * (g.m * g.k * g.n) > usize::MAX,
        },
{
    match mul3(g.m, g.k, g.n) {
        None => {
            proof {
                assert(g.m * g.k * g.n >= 0) by (nonlinear_arith)
                    requires
                        g.m >= 0,
                        g.k >= 0,
                        g.n >= 0,
                ;
            }
            None
        },
        Some(v) => if v <= usize::MAX / 2 {
            Some(2 * v)
        } else {
            None
        },
    }
}

fn read_gemm_load(m: &Manifest, r: &Record, g: &GemmSpec) -> (o: Result<Load, Error>)
    ensures
        crate::sam3::reads(o, gemm_load(m@, r@, g@)),
{
    let ctx = bundle(r.str("ctx"))?;
    let x = bundle(m.xclbin(ctx.as_str()))?;
    let ops: usize = match work(g) {
        Some(v) => v,
        None => {
            return Err(Error::Bundle(cat2(g.key.as_str(), ": sizes overflow")));
        },
    };
    let insts = bundle(r.str("insts"))?;
    Ok(
        Load {
            key: g.key.clone(),
            xclbin: x.path.clone(),
            insts: m.path(insts.as_str()),
            name: x.kernel.clone(),
            ops: ops as u64,
        },
    )
}

fn read_op_load(m: &Manifest, r: &Record) -> (o: Result<Load, Error>)
    ensures
        crate::sam3::reads(o, op_load(m@, r@)),
{
    let key = bundle(r.field(0))?.to_string();
    let xclbin = bundle(r.str("xclbin"))?;
    let insts = bundle(r.str("insts"))?;
    let name = bundle(r.str("name"))?;
    Ok(Load { key, xclbin: m.path(xclbin.as_str()), insts: m.path(insts.as_str()), name, ops: 0 })
}

fn listed(v: &Vec<String>, x: &str) -> (r: bool)
    ensures
        r == lists(texts(v@), x@),
{
    let mut i: usize = 0;
    while i < v.len()
        invariant
            i <= v.len(),
            forall|k: int| 0 <= k < i ==> !same_path(#[trigger] texts(v@)[k], x@),
        decreases v.len() - i,
    {
        if equal_paths(v[i].as_str(), x) {
            proof {
                assert(same_path(texts(v@)[i as int], x@));
            }
            return true;
        }
        i = i + 1;
    }
    proof {
        assert(texts(v@).len() == v@.len());
    }
    false
}

impl Kernels {
    fn add_load(&mut self, l: Load)
        ensures
            final(self)@ == old(self)@.with_load(l@),
    {
        if !listed(&self.contexts, l.xclbin.as_str()) {
            let x = l.xclbin.clone();
            proof {
                texts_push(self.contexts@, x);
            }
            self.contexts.push(x);
        }
        let ghost before = self.loads@;
        self.loads.push(l);
        proof {
            assert(load_views(self.loads@) =~= load_views(before).push(l@));
        }
    }

    /// Every `gemm` and `op` of the manifest.
    pub fn read(m: &Manifest) -> (o: Result<Kernels, Error>)
        ensures
            crate::sam3::reads(o, kernels_of(m@, m@.records)),
    {
        let mut k = Kernels { loads: Vec::new(), gemms: Dict::new(), contexts: Vec::new() };
        let records = m.records();
        let ghost all = record_views(records@);
        proof {
            assert(load_views(k.loads@) =~= Seq::empty());
            assert(texts(k.contexts@) =~= Seq::empty());
            assert(all.take(0) =~= Seq::empty());
        }
        let mut i: usize = 0;
        while i < records.len()
            invariant
                i <= records.len(),
                all == record_views(records@),
                all == m@.records,
                kernels_of(m@, all.take(i as int)) == Ok::<KernelsView, Seq<char>>(k@),
            decreases records.len() - i,
        {
            let r = &records[i];
            proof {
                assert(all.take(i + 1).drop_last() =~= all.take(i as int));
                assert(all.take(i + 1).last() == r@);
                if kernels_of(m@, all.take(i + 1)) is Err {
                    kernels_error(m@, all, i + 1);
                }
            }
            if same(r.tag.as_str(), "gemm") {
                let g = read_gemm(r)?;
                let l = read_gemm_load(m, r, &g)?;
                let key = g.key.clone();
                k.gemms.insert(key, g);
                k.add_load(l);
            } else if same(r.tag.as_str(), "op") {
                let l = read_op_load(m, r)?;
                k.add_load(l);
            }
            i = i + 1;
        }
        proof {
            assert(all.take(all.len() as int) =~= all);
        }
        Ok(k)
    }

    /// Hardware contexts the bundle holds.
    pub fn contexts(&self) -> (r: usize)
        ensures
            r == self@.contexts.len(),
    {
        proof {
            assert(self@.contexts.len() == self.contexts@.len());
        }
        self.contexts.len()
    }

    pub fn spec(&self, key: &str) -> (r: Result<&GemmSpec, Error>)
        ensures
            match r {
                Ok(g) => self@.gemms.contains_key(key@) && g@ == self@.gemms[key@],
                Err(e) => !self@.gemms.contains_key(key@) && faults(e, no_gemm(key@)),
            },
    {
        match self.gemms.get(key) {
            Some(g) => Ok(g),
            None => Err(Error::Bundle(cat3("no GEMM ", key, " in the bundle"))),
        }
    }

    /// The kernel loaded last under `key`.
    pub fn kernel(&self, key: &str) -> (r: Result<usize, Error>)
        ensures
            match r {
                Ok(i) => i < self@.loads.len() && self@.loads[i as int].key == key@ && forall|j: int|
                    i < j < self@.loads.len() ==> self@.loads[j].key != key@,
                Err(e) => faults(e, "no kernel "@ + key@ + " in the bundle"@) && forall|j: int|
                    0 <= j < self@.loads.len() ==> self@.loads[j].key != key@,
            },
    {
        let mut i: usize = self.loads.len();
        while i > 0
            invariant
                i <= self.loads.len(),
                forall|j: int| i <= j < self@.loads.len() ==> self@.loads[j].key != key@,
            decreases i,
        {
            i = i - 1;
            assert(self@.loads[i as int] == self.loads@[i as int]@);
            if same(self.loads[i].key.as_str(), key) {
                return Ok(i);
            }
        }
        Err(Error::Bundle(cat3("no kernel ", key, " in the bundle")))
    }
}

pub open spec fn no_gemm(key: Seq<char>) -> Seq<char> {
    "no GEMM "@ + key + " in the bundle"@
}

/// No context is counted twice, and every kernel's is counted.
pub proof fn contexts_are_distinct(m: ManifestView, rs: Seq<RecordView>)
    ensures
        kernels_of(m, rs) matches Ok(k) ==> all_differ(k.contexts) && (forall|i: int|
            0 <= i < k.loads.len() ==> lists(k.contexts, #[trigger] k.loads[i].xclbin)),
    decreases rs.len(),
{
    if rs.len() > 0 {
        contexts_are_distinct(m, rs.drop_last());
        if kernels_of(m, rs.drop_last()) is Ok && kernels_of(m, rs) is Ok {
            let b = kernels_of(m, rs.drop_last())->Ok_0;
            let r = rs.last();
            if r.tag == "gemm"@ {
                let g = gemm_of(r)->Ok_0;
                let l = gemm_load(m, r, g)->Ok_0;
                one_more_load(KernelsView { gemms: b.gemms.insert(g.key, g), ..b }, l);
            } else if r.tag == "op"@ {
                one_more_load(b, op_load(m, r)->Ok_0);
            }
        }
    }
}

/// No two of `paths` are one.
pub open spec fn all_differ(paths: Seq<Seq<char>>) -> bool {
    forall|i: int, j: int| 0 <= i < j < paths.len() ==> !same_path(#[trigger] paths[i], #[trigger] paths[j])
}

proof fn one_more_load(k: KernelsView, l: LoadView)
    requires
        all_differ(k.contexts),
        forall|i: int| 0 <= i < k.loads.len() ==> lists(k.contexts, #[trigger] k.loads[i].xclbin),
    ensures
        all_differ(k.with_load(l).contexts),
        forall|i: int|
            0 <= i < k.with_load(l).loads.len() ==> lists(
                k.with_load(l).contexts,
                #[trigger] k.with_load(l).loads[i].xclbin,
            ),
{
    let n = k.with_load(l);
    assert forall|x: Seq<char>| lists(k.contexts, x) implies lists(n.contexts, x) by {
        let j = choose|j: int| 0 <= j < k.contexts.len() && same_path(#[trigger] k.contexts[j], x);
        assert(n.contexts[j] == k.contexts[j]);
    }
    assert(lists(n.contexts, l.xclbin)) by {
        if !lists(k.contexts, l.xclbin) {
            assert(n.contexts[k.contexts.len() as int] == l.xclbin);
        }
    }
    assert forall|i: int| 0 <= i < n.loads.len() implies lists(n.contexts, #[trigger] n.loads[i].xclbin) by {
        if i < k.loads.len() {
            assert(n.loads[i] == k.loads[i]);
        }
    }
}

// ----------------------------------------------------------------------------
// A tower's buffers
// ----------------------------------------------------------------------------

/// The rows one attention launch covers.
#[derive(Debug, Clone, Copy, PartialEq, Eq)]
pub struct Rows {
    pub first: usize,
    pub count: usize,
}

/// The bytes of the qkv output and of the o input that an attention launch
/// sees; q, k and v are columns of the same rows.
#[derive(Debug, Clone, Copy, PartialEq, Eq)]
pub struct Views {
    pub qkv: Span,
    pub o: Span,
}

/// A tower's operands: qkv, o, fc1, fc2 (whose A is fc1's C), and the views
/// of each attention launch.
#[derive(Debug)]
pub struct Operands {
    pub qkv: Plan,
    pub o: Plan,
    pub fc1: Plan,
    pub fc2: Plan,
    pub attention: Vec<Views>,
}

/// The name of a tower's kernel.
pub open spec fn kernel_name(p: Seq<char>, n: Seq<char>) -> Seq<char> {
    p + "_"@ + n
}

pub fn kernel_key(p: &str, n: &str) -> (r: String)
    ensures
        r@ == kernel_name(p@, n@),
{
    cat3(p, "_", n)
}

/// Why GEMM `key` cannot run over `rows` rows.
pub open spec fn exact_fault(k: KernelsView, key: Seq<char>, rows: nat) -> Option<Seq<char>> {
    if !k.gemms.contains_key(key) {
        Some(no_gemm(key))
    } else {
        let g = k.gemms[key];
        if rows % (g.m as nat) != 0 {
            Some(partial(key, rows, g.m as nat))
        } else if !plain_fits(rows, g.m as nat, g.k as nat, g.n as nat) {
            Some(overflows(key))
        } else {
            None
        }
    }
}

/// Why GEMM `key` cannot read the output of one `width` wide.
pub open spec fn chained_fault(k: KernelsView, key: Seq<char>, width: nat, rows: nat) -> Option<Seq<char>> {
    if !k.gemms.contains_key(key) {
        Some(no_gemm(key))
    } else if width != k.gemms[key].k {
        Some(key + ": A width "@ + decimal(width) + " != K "@ + decimal(k.gemms[key].k as nat))
    } else {
        exact_fault(k, key, rows)
    }
}

/// Why a GEMM is not of `kk` by `n`.
pub open spec fn shape_fault(g: GemmView, key: Seq<char>, kk: nat, n: nat) -> Option<Seq<char>> {
    if g.k == kk && g.n == n {
        None
    } else {
        Some(
            key + ": K x N = "@ + decimal(g.k as nat) + " x "@ + decimal(g.n as nat) + ", expected "@ + decimal(kk)
                + " x "@ + decimal(n),
        )
    }
}

/// Why the attention launches do not fit in `rows` rows.
pub open spec fn attention_fault(p: Seq<char>, a: Seq<Rows>, rows: nat) -> Option<Seq<char>>
    decreases a.len(),
{
    if a.len() == 0 {
        None
    } else {
        match attention_fault(p, a.drop_last(), rows) {
            Some(m) => Some(m),
            None => if a.last().first + a.last().count > rows {
                Some(
                    p + ": an MHA dispatch reaches row "@ + decimal((a.last().first + a.last().count) as nat) + " of "@
                        + decimal(rows),
                )
            } else {
                None
            },
        }
    }
}

pub open spec fn or_else(a: Option<Seq<char>>, b: Option<Seq<char>>) -> Option<Seq<char>> {
    if a is Some {
        a
    } else {
        b
    }
}

/// Why a tower cannot be set up: the first of its operands, widths and
/// attention launches that does not fit.
pub open spec fn tower_fault(k: KernelsView, p: Seq<char>, dim: nat, rows: nat, a: Seq<Rows>) -> Option<Seq<char>> {
    let (qkv, o, fc1, fc2) = (
        kernel_name(p, "qkv"@),
        kernel_name(p, "o"@),
        kernel_name(p, "fc1"@),
        kernel_name(p, "fc2"@),
    );
    let n1 = k.gemms[fc1].n as nat;
    or_else(
        exact_fault(k, qkv, rows),
        or_else(
            exact_fault(k, o, rows),
            or_else(
                exact_fault(k, fc1, rows),
                or_else(
                    chained_fault(k, fc2, n1, rows),
                    or_else(
                        shape_fault(k.gemms[qkv], qkv, dim, 3 * dim),
                        or_else(
                            shape_fault(k.gemms[o], o, dim, dim),
                            or_else(
                                shape_fault(k.gemms[fc1], fc1, dim, n1),
                                or_else(shape_fault(k.gemms[fc2], fc2, n1, dim), attention_fault(p, a, rows)),
                            ),
                        ),
                    ),
                ),
            ),
        ),
    )
}

pub open spec fn views_of(a: Rows, dim: nat) -> Views {
    Views {
        qkv: Span { offset: (a.first * (3 * dim) * 2) as usize, bytes: (a.count * (3 * dim) * 2) as usize },
        o: Span { offset: (a.first * dim * 2) as usize, bytes: (a.count * dim * 2) as usize },
    }
}

/// Whether `p` is the plan of GEMM `g` over exactly `rows` rows.
pub open spec fn exact_plan(p: Plan, g: GemmView, rows: nat, chained: bool) -> bool {
    let (m, k, n) = (g.m as nat, g.k as nat, g.n as nat);
    plain_fits(rows, m, k, n) && is_plan(p, rows, m, k, m * k, n, rows * k, chained)
}

fn operands_of(k: &Kernels, key: &str, rows: usize) -> (r: Result<Plan, Error>)
    requires
        k@.gemms.contains_key(key@) ==> k@.gemms[key@].m > 0,
    ensures
        match r {
            Ok(p) => exact_fault(k@, key@, rows as nat) is None && exact_plan(p, k@.gemms[key@], rows as nat, false),
            Err(e) => exact_fault(k@, key@, rows as nat) is Some && faults(
                e,
                exact_fault(k@, key@, rows as nat)->Some_0,
            ),
        },
{
    let g = k.spec(key)?;
    io_exact(key, g.m, g.k, g.n, rows)
}

fn check_shape(g: &GemmSpec, key: &str, kk: usize, n: u128) -> (r: Result<(), Error>)
    ensures
        match r {
            Ok(_) => shape_fault(g@, key@, kk as nat, n as nat) is None,
            Err(e) => shape_fault(g@, key@, kk as nat, n as nat) is Some && faults(
                e,
                shape_fault(g@, key@, kk as nat, n as nat)->Some_0,
            ),
        },
{
    if g.k == kk && g.n as u128 == n {
        Ok(())
    } else {
        let a = decimal_of(g.k as u128);
        let b = decimal_of(g.n as u128);
        let c = decimal_of(kk as u128);
        let d = decimal_of(n);
        let head = cat5(key, ": K x N = ", a.as_str(), " x ", b.as_str());
        Err(Error::Bundle(cat5(head.as_str(), ", expected ", c.as_str(), " x ", d.as_str())))
    }
}

proof fn attention_error(p: Seq<char>, a: Seq<Rows>, rows: nat, n: int)
    requires
        0 <= n <= a.len(),
        attention_fault(p, a.take(n), rows) is Some,
    ensures
        attention_fault(p, a, rows) == attention_fault(p, a.take(n), rows),
    decreases a.len() - n,
{
    if n < a.len() {
        assert(a.take(n + 1).drop_last() =~= a.take(n));
        attention_error(p, a, rows, n + 1);
    } else {
        assert(a.take(n) =~= a);
    }
}

/// Rows `first..first + count` of `rows`, `width` wide, in bf16: inside.
proof fn view_fits(first: nat, count: nat, rows: nat, width: nat)
    requires
        first + count <= rows,
        rows * width * 2 <= usize::MAX,
    ensures
        first * width * 2 + count * width * 2 <= rows * width * 2,
        0 <= first * width,
        0 <= count * width,
        first * width <= usize::MAX,
        count * width <= usize::MAX,
{
    assert(first * width * 2 + count * width * 2 == (first + count) * width * 2) by (nonlinear_arith);
    assert((first + count) * width <= rows * width) by (nonlinear_arith)
        requires
            first + count <= rows,
            width >= 0,
    ;
    assert(0 <= first * width && 0 <= count * width) by (nonlinear_arith)
        requires
            first >= 0,
            count >= 0,
            width >= 0,
    ;
}

fn attention_views(p: &str, a: &Vec<Rows>, dim: usize, rows: usize) -> (r: Result<Vec<Views>, Error>)
    requires
        rows * (3 * dim) * 2 <= usize::MAX,
        3 * dim <= usize::MAX,
    ensures
        match r {
            Ok(v) => attention_fault(p@, a@, rows as nat) is None && v@ == a@.map_values(
                |x: Rows| views_of(x, dim as nat),
            ),
            Err(e) => attention_fault(p@, a@, rows as nat) is Some && faults(
                e,
                attention_fault(p@, a@, rows as nat)->Some_0,
            ),
        },
{
    let mut out: Vec<Views> = Vec::new();
    let mut i: usize = 0;
    proof {
        assert(a@.take(0) =~= Seq::empty());
        assert(rows * dim * 2 <= rows * (3 * dim) * 2) by (nonlinear_arith)
            requires
                rows >= 0,
                dim >= 0,
        ;
    }
    while i < a.len()
        invariant
            i <= a.len(),
            rows * (3 * dim) * 2 <= usize::MAX,
            rows * dim * 2 <= usize::MAX,
            3 * dim <= usize::MAX,
            attention_fault(p@, a@.take(i as int), rows as nat) is None,
            out.len() == i,
            forall|j: int| 0 <= j < i ==> out@[j] == views_of(#[trigger] a@[j], dim as nat),
        decreases a.len() - i,
    {
        let x = a[i];
        proof {
            assert(a@.take(i + 1).drop_last() =~= a@.take(i as int));
            assert(a@.take(i + 1).last() == x);
            if attention_fault(p@, a@.take(i + 1), rows as nat) is Some {
                attention_error(p@, a@, rows as nat, i + 1);
            }
        }
        let end: u128 = x.first as u128 + x.count as u128;
        if end > rows as u128 {
            let reached = decimal_of(end);
            let total = decimal_of(rows as u128);
            return Err(
                Error::Bundle(cat5(p, ": an MHA dispatch reaches row ", reached.as_str(), " of ", total.as_str())),
            );
        }
        proof {
            view_fits(x.first as nat, x.count as nat, rows as nat, (3 * dim) as nat);
            view_fits(x.first as nat, x.count as nat, rows as nat, dim as nat);
        }
        let wide: usize = 3 * dim;
        out.push(
            Views {
                qkv: Span { offset: x.first * wide * BF16, bytes: x.count * wide * BF16 },
                o: Span { offset: x.first * dim * BF16, bytes: x.count * dim * BF16 },
            },
        );
        i = i + 1;
    }
    proof {
        assert(a@.take(a@.len() as int) =~= a@);
        assert(out@ =~= a@.map_values(|x: Rows| views_of(x, dim as nat)));
    }
    Ok(out)
}

/// The operands of tower `p` (`v` or `t`), `dim` wide over `rows` rows, whose
/// attention runs once over each of `attention`.
pub fn operands(k: &Kernels, p: &str, dim: usize, rows: usize, attention: &Vec<Rows>) -> (r: Result<Operands, Error>)
    requires
        forall|key: Seq<char>| #[trigger] k@.gemms.contains_key(key) ==> k@.gemms[key].m > 0,
    ensures
        ({
            let (n, fault) = (rows as nat, tower_fault(k@, p@, dim as nat, rows as nat, attention@));
            let g = k@.gemms;
            match r {
                Ok(t) => {
                    &&& fault is None
                    &&& exact_plan(t.qkv, g[kernel_name(p@, "qkv"@)], n, false)
                    &&& exact_plan(t.o, g[kernel_name(p@, "o"@)], n, false)
                    &&& exact_plan(t.fc1, g[kernel_name(p@, "fc1"@)], n, false)
                    &&& exact_plan(t.fc2, g[kernel_name(p@, "fc2"@)], n, true)
                    &&& t.attention@ == attention@.map_values(|x: Rows| views_of(x, dim as nat))
                },
                Err(e) => fault is Some && faults(e, fault->Some_0),
            }
        }),
{
    let k_qkv = kernel_key(p, "qkv");
    let k_o = kernel_key(p, "o");
    let k_fc1 = kernel_key(p, "fc1");
    let k_fc2 = kernel_key(p, "fc2");
    let qkv = operands_of(k, k_qkv.as_str(), rows)?;
    let o = operands_of(k, k_o.as_str(), rows)?;
    let fc1 = operands_of(k, k_fc1.as_str(), rows)?;
    let g_fc2 = k.spec(k_fc2.as_str())?;
    let fc2 = io_exact_chained(k_fc2.as_str(), g_fc2.m, g_fc2.k, g_fc2.n, &fc1)?;
    let g_qkv = k.spec(k_qkv.as_str())?;
    let g_o = k.spec(k_o.as_str())?;
    let g_fc1 = k.spec(k_fc1.as_str())?;
    check_shape(g_qkv, k_qkv.as_str(), dim, 3 * (dim as u128))?;
    check_shape(g_o, k_o.as_str(), dim, dim as u128)?;
    check_shape(g_fc1, k_fc1.as_str(), dim, g_fc1.n as u128)?;
    check_shape(g_fc2, k_fc2.as_str(), g_fc1.n, dim as u128)?;
    let attention = attention_views(p, attention, dim, rows)?;
    Ok(Operands { qkv, o, fc1, fc2, attention })
}

/// The rows of the vision tower's attention: one launch an image, over its
/// tokens padded (masked) to the kernel's rows, which run into the next
/// image's; that image's launch, issued after, rewrites them.
pub open spec fn image_rows(batch: nat, stride: nat, count: usize) -> Seq<Rows> {
    Seq::new(batch, |i: int| Rows { first: (i * stride) as usize, count })
}

pub fn vision_rows(batch: usize, stride: usize, count: usize) -> (r: Vec<Rows>)
    requires
        batch * stride <= usize::MAX,
    ensures
        r@ == image_rows(batch as nat, stride as nat, count),
{
    let mut out: Vec<Rows> = Vec::new();
    let mut i: usize = 0;
    while i < batch
        invariant
            i <= batch,
            batch * stride <= usize::MAX,
            out@ =~= image_rows(batch as nat, stride as nat, count).take(i as int),
        decreases batch - i,
    {
        proof {
            assert(i * stride <= batch * stride) by (nonlinear_arith)
                requires
                    i <= batch,
                    stride >= 0,
            ;
            assert(0 <= i * stride) by (nonlinear_arith)
                requires
                    i >= 0,
                    stride >= 0,
            ;
        }
        out.push(Rows { first: i * stride, count });
        i = i + 1;
    }
    proof {
        assert(image_rows(batch as nat, stride as nat, count).take(batch as int) =~= image_rows(
            batch as nat,
            stride as nat,
            count,
        ));
    }
    out
}

/// The names of a tower's packed weights, layer by layer.
pub fn tower_weights(p: &str, layers: usize) -> (r: Vec<String>)
    ensures
        texts(r@) == all_layer_weights(p@ + "."@, layers as nat),
{
    let stage = cat2(p, ".");
    let mut out: Vec<String> = Vec::new();
    proof {
        assert(texts(out@) =~= Seq::empty());
        assert(Seq::<Seq<char>>::empty() + all_layer_weights(p@ + "."@, layers as nat) =~= all_layer_weights(
            p@ + "."@,
            layers as nat,
        ));
    }
    push_layers(&mut out, stage.as_str(), layers);
    out
}

// ----------------------------------------------------------------------------
// A tower's launches
// ----------------------------------------------------------------------------

/// A buffer of a tower: the two that the residual stream alternates
/// between, and the operands' ends.
#[derive(Debug, Clone, Copy, PartialEq, Eq, Structural)]
pub enum Slot {
    ResA,
    ResB,
    QkvA,
    OC,
    Fc1A,
    Fc2C,
}

/// The GEMMs of a layer, numbered as its weights are.
#[derive(Debug, Clone, Copy, PartialEq, Eq, Structural)]
pub enum Gemm {
    Qkv,
    O,
    Fc1,
    Fc2,
}

/// One launch of a layer.
#[derive(Debug, Clone, Copy, PartialEq, Eq, Structural)]
pub enum Launch {
    Gemm(Gemm),
    /// Attention over the views of this number.
    Attention(usize),
    /// `to = from + add`, and its LayerNorm into `next`.
    AddNorm { from: Slot, add: Slot, to: Slot, next: Slot },
}

/// qkv, attention, o, residual add and LayerNorm, the MLP, residual add and
/// LayerNorm: each reads what the one before it wrote.
pub open spec fn layer_launches(attention: nat) -> Seq<Launch> {
    seq![Launch::Gemm(Gemm::Qkv)] + Seq::new(attention, |i: int| Launch::Attention(i as usize)) + seq![
        Launch::Gemm(Gemm::O),
        Launch::AddNorm { from: Slot::ResA, add: Slot::OC, to: Slot::ResB, next: Slot::Fc1A },
        Launch::Gemm(Gemm::Fc1),
        Launch::Gemm(Gemm::Fc2),
        Launch::AddNorm { from: Slot::ResB, add: Slot::Fc2C, to: Slot::ResA, next: Slot::QkvA },
    ]
}

/// The launches of one layer, whose attention runs `attention` times.
pub fn launches(attention: usize) -> (r: Vec<Launch>)
    ensures
        r@ == layer_launches(attention as nat),
{
    let mut out: Vec<Launch> = Vec::new();
    out.push(Launch::Gemm(Gemm::Qkv));
    let ghost middle = Seq::new(attention as nat, |i: int| Launch::Attention(i as usize));
    let mut i: usize = 0;
    while i < attention
        invariant
            i <= attention,
            middle == Seq::new(attention as nat, |i: int| Launch::Attention(i as usize)),
            out@ =~= seq![Launch::Gemm(Gemm::Qkv)] + middle.take(i as int),
        decreases attention - i,
    {
        out.push(Launch::Attention(i));
        i = i + 1;
    }
    out.push(Launch::Gemm(Gemm::O));
    out.push(Launch::AddNorm { from: Slot::ResA, add: Slot::OC, to: Slot::ResB, next: Slot::Fc1A });
    out.push(Launch::Gemm(Gemm::Fc1));
    out.push(Launch::Gemm(Gemm::Fc2));
    out.push(Launch::AddNorm { from: Slot::ResB, add: Slot::Fc2C, to: Slot::ResA, next: Slot::QkvA });
    proof {
        assert(middle.take(attention as int) =~= middle);
        assert(out@ =~= layer_launches(attention as nat));
    }
    out
}

/// A layer leaves the residual stream where it found it and the next
/// layer's input ready: layers can follow one another.
pub proof fn layers_chain(attention: nat)
    ensures
        ({
            let l = layer_launches(attention);
            &&& l.len() == attention + 6
            &&& l[0] == Launch::Gemm(Gemm::Qkv)
            &&& l.last() == Launch::AddNorm { from: Slot::ResB, add: Slot::Fc2C, to: Slot::ResA, next: Slot::QkvA }
            &&& forall|i: int| 0 <= i < attention ==> #[trigger] l[i + 1] == Launch::Attention(i as usize)
        }),
{
}

} // verus!
