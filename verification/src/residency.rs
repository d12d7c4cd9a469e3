//! Which kernels are resident on the device.
//!
//! Kernels that name the same xclbin share its hardware context, and the
//! device grants only so many contexts. The resident ones are kept least
//! recently used first; a kernel whose context is not resident is loaded on
//! first use, evicting others while there is no room. The caller performs
//! the loads and reports how each ended.

use crate::dict::Dict;
use crate::sam3::{faults, reads, Error};
use crate::manifest::ManifestView as BaseView;
use crate::sam3_bundle::{GemmView, Manifest, MhaView, OpView};
use crate::text::{cat2, cat4, contains, in_order, occurs, same, sorted, texts, texts_push};
use vstd::prelude::*;

verus! {

/// Where a kernel comes from: xclbin (its hardware context), instruction
/// stream, kernel name, operations per run.
#[derive(Debug, Clone)]
pub struct Source {
    pub ctx: String,
    pub xclbin: String,
    pub insts: String,
    pub name: String,
    pub ops: u64,
}

#[verifier::ext_equal]
pub struct SourceView {
    pub ctx: Seq<char>,
    pub xclbin: Seq<char>,
    pub insts: Seq<char>,
    pub name: Seq<char>,
    pub ops: u64,
}

impl View for Source {
    type V = SourceView;

    open spec fn view(&self) -> SourceView {
        SourceView {
            ctx: self.ctx@,
            xclbin: self.xclbin@,
            insts: self.insts@,
            name: self.name@,
            ops: self.ops,
        }
    }
}

pub open spec fn overflows(key: Seq<char>) -> Seq<char> {
    key + ": sizes overflow"@
}

/// The sources of GEMMs: two operations for each of `M * K * N` products.
pub open spec fn gemm_sources(m: BaseView, ps: Seq<(Seq<char>, GemmView)>) -> Result<Map<Seq<char>, SourceView>, Seq<char>>
    decreases ps.len(),
{
    if ps.len() == 0 {
        Ok(Map::empty())
    } else {
        match gemm_sources(m, ps.drop_last()) {
            Err(e) => Err(e),
            Ok(before) => {
                let g = ps.last().1;
                match m.xclbin(g.ctx) {
                    Err(e) => Err(e),
                    Ok(x) => if 2 * (g.m * g.k * g.n) > u64::MAX {
                        Err(overflows(g.key))
                    } else {
                        Ok(
                            before.insert(
                                g.key,
                                SourceView {
                                    ctx: g.ctx,
                                    xclbin: x.path,
                                    insts: g.insts,
                                    name: x.kernel,
                                    ops: (2 * (g.m * g.k * g.n)) as u64,
                                },
                            ),
                        )
                    },
                }
            },
        }
    }
}

/// With the sources of other kernels, each its own context.
pub open spec fn op_sources(start: Map<Seq<char>, SourceView>, ps: Seq<(Seq<char>, OpView)>) -> Map<Seq<char>, SourceView>
    decreases ps.len(),
{
    if ps.len() == 0 {
        start
    } else {
        let o = ps.last().1;
        op_sources(start, ps.drop_last()).insert(
            o.key,
            SourceView { ctx: o.key, xclbin: o.xclbin, insts: o.insts, name: o.name, ops: 0 },
        )
    }
}

/// With the sources of attentions, each its own context: four operations
/// for each of `heads * seq * seq * d` products.
pub open spec fn mha_sources(start: Map<Seq<char>, SourceView>, ps: Seq<(Seq<char>, MhaView)>) -> Result<
    Map<Seq<char>, SourceView>,
    Seq<char>,
>
    decreases ps.len(),
{
    if ps.len() == 0 {
        Ok(start)
    } else {
        match mha_sources(start, ps.drop_last()) {
            Err(e) => Err(e),
            Ok(before) => {
                let h = ps.last().1;
                if 4 * (h.heads * h.seq * h.seq * h.d) > u64::MAX {
                    Err(overflows(h.key))
                } else {
                    Ok(
                        before.insert(
                            h.key,
                            SourceView {
                                ctx: h.key,
                                xclbin: h.xclbin,
                                insts: h.insts,
                                name: h.name,
                                ops: (4 * (h.heads * h.seq * h.seq * h.d)) as u64,
                            },
                        ),
                    )
                }
            },
        }
    }
}

/// Where every kernel of a manifest comes from; of kernels of one name, an
/// attention comes before another kernel, and that before a GEMM.
pub open spec fn all_sources(m: Manifest) -> Result<Map<Seq<char>, SourceView>, Seq<char>> {
    match gemm_sources(m@.base, m.gemms.pairs()) {
        Err(e) => Err(e),
        Ok(g) => mha_sources(op_sources(g, m.ops.pairs()), m.mhas.pairs()),
    }
}

proof fn gemm_sources_error(m: BaseView, ps: Seq<(Seq<char>, GemmView)>, n: int)
    requires
        0 <= n <= ps.len(),
        gemm_sources(m, ps.take(n)) is Err,
    ensures
        gemm_sources(m, ps) == gemm_sources(m, ps.take(n)),
    decreases ps.len() - n,
{
    if n < ps.len() {
        assert(ps.take(n + 1).drop_last() =~= ps.take(n));
        gemm_sources_error(m, ps, n + 1);
    } else {
        assert(ps.take(n) =~= ps);
    }
}

proof fn mha_sources_error(start: Map<Seq<char>, SourceView>, ps: Seq<(Seq<char>, MhaView)>, n: int)
    requires
        0 <= n <= ps.len(),
        mha_sources(start, ps.take(n)) is Err,
    ensures
        mha_sources(start, ps) == mha_sources(start, ps.take(n)),
    decreases ps.len() - n,
{
    if n < ps.len() {
        assert(ps.take(n + 1).drop_last() =~= ps.take(n));
        mha_sources_error(start, ps, n + 1);
    } else {
        assert(ps.take(n) =~= ps);
    }
}

/// `factor * (a * b * c)` operations.
fn operations3(factor: u64, a: usize, b: usize, c: usize) -> (r: Option<u64>)
    requires
        factor > 0,
    ensures
        match r {
            Some(v) => v == factor * (a * b * c),
            None => factor * (a * b * c) > u64::MAX,
        },
{
    match mul3_64(a as u64, b as u64, c as u64) {
        None => {
            proof {
                let p = a * b * c;
                assert(factor * p >= p) by (nonlinear_arith)
                    requires
                        factor >= 1,
                        p >= 0,
                ;
            }
            None
        },
        Some(p) => factor.checked_mul(p),
    }
}

fn mul3_64(a: u64, b: u64, c: u64) -> (r: Option<u64>)
    ensures
        match r {
            Some(v) => v == a * b * c,
            None => a * b * c > u64::MAX,
        },
{
    match a.checked_mul(b) {
        Some(ab) => ab.checked_mul(c),
        None => if c == 0 {
            proof {
                assert(a * b * c == 0) by (nonlinear_arith)
                    requires
                        c == 0,
                ;
            }
            Some(0)
        } else {
            proof {
                assert(a * b * c >= a * b) by (nonlinear_arith)
                    requires
                        c >= 1,
                        a >= 0,
                        b >= 0,
                ;
            }
            None
        },
    }
}

fn operations4(factor: u64, a: usize, b: usize, c: usize, d: usize) -> (r: Option<u64>)
    requires
        factor > 0,
    ensures
        match r {
            Some(v) => v == factor * (a * b * c * d),
            None => factor * (a * b * c * d) > u64::MAX,
        },
{
    let ghost abc = a * b * c;
    if d == 0 {
        proof {
            assert(abc * d == 0) by (nonlinear_arith)
                requires
                    d == 0,
            ;
        }
        return Some(0);
    }
    match mul3_64(a as u64, b as u64, c as u64) {
        None => {
            proof {
                assert(factor * (abc * d) >= abc) by (nonlinear_arith)
                    requires
                        factor >= 1,
                        d >= 1,
                        abc >= 0,
                ;
            }
            None
        },
        Some(p) => match p.checked_mul(d as u64) {
            Some(q) => factor.checked_mul(q),
            None => {
                proof {
                    let q = abc * d;
                    assert(factor * q >= q) by (nonlinear_arith)
                        requires
                            factor >= 1,
                            q >= 0,
                    ;
                }
                None
            },
        },
    }
}

fn sizes_overflow(key: &str) -> (r: Error)
    ensures
        faults(r, overflows(key@)),
{
    Error::Bundle(cat2(key, ": sizes overflow"))
}

fn add_gemms(m: &Manifest, sources: &mut Dict<Source>) -> (r: Result<(), Error>)
    requires
        old(sources)@ == Map::<Seq<char>, SourceView>::empty(),
    ensures
        match (r, gemm_sources(m@.base, m.gemms.pairs())) {
            (Ok(_), Ok(s)) => final(sources)@ == s,
            (Err(e), Err(x)) => faults(e, x),
            _ => false,
        },
{
    let ghost all = m.gemms.pairs();
    let n: usize = m.gemms.len();
    let mut i: usize = 0;
    while i < n
        invariant
            i <= n,
            n == all.len(),
            all == m.gemms.pairs(),
            gemm_sources(m@.base, all.take(i as int)) == Ok::<Map<Seq<char>, SourceView>, Seq<char>>(sources@),
        decreases n - i,
    {
        let g = m.gemms.value(i);
        proof {
            assert(all.take(i + 1).drop_last() =~= all.take(i as int));
            assert(all.take(i + 1).last() == all[i as int]);
            if gemm_sources(m@.base, all.take(i + 1)) is Err {
                gemm_sources_error(m@.base, all, i + 1);
            }
        }
        let x = m.xclbin(g.ctx.as_str())?;
        match operations3(2, g.m, g.k, g.n) {
            None => {
                return Err(sizes_overflow(g.key.as_str()));
            },
            Some(ops) => {
                let s = Source {
                    ctx: g.ctx.clone(),
                    xclbin: x.path.clone(),
                    insts: g.insts.clone(),
                    name: x.kernel.clone(),
                    ops,
                };
                sources.insert(g.key.clone(), s);
            },
        }
        i += 1;
    }
    proof {
        assert(all.take(i as int) =~= all);
    }
    Ok(())
}

fn add_ops(m: &Manifest, sources: &mut Dict<Source>)
    ensures
        final(sources)@ == op_sources(old(sources)@, m.ops.pairs()),
{
    let ghost start = sources@;
    let ghost all = m.ops.pairs();
    let n: usize = m.ops.len();
    let mut i: usize = 0;
    while i < n
        invariant
            i <= n,
            n == all.len(),
            all == m.ops.pairs(),
            sources@ == op_sources(start, all.take(i as int)),
        decreases n - i,
    {
        let o = m.ops.value(i);
        proof {
            assert(all.take(i + 1).drop_last() =~= all.take(i as int));
            assert(all.take(i + 1).last() == all[i as int]);
        }
        let s = Source {
            ctx: o.key.clone(),
            xclbin: o.xclbin.clone(),
            insts: o.insts.clone(),
            name: o.name.clone(),
            ops: 0,
        };
        sources.insert(o.key.clone(), s);
        i += 1;
    }
    proof {
        assert(all.take(i as int) =~= all);
    }
}

fn add_mhas(m: &Manifest, sources: &mut Dict<Source>) -> (r: Result<(), Error>)
    ensures
        match (r, mha_sources(old(sources)@, m.mhas.pairs())) {
            (Ok(_), Ok(s)) => final(sources)@ == s,
            (Err(e), Err(x)) => faults(e, x),
            _ => false,
        },
{
    let ghost start = sources@;
    let ghost all = m.mhas.pairs();
    let n: usize = m.mhas.len();
    let mut i: usize = 0;
    while i < n
        invariant
            i <= n,
            n == all.len(),
            all == m.mhas.pairs(),
            start == old(sources)@,
            mha_sources(start, all.take(i as int)) == Ok::<Map<Seq<char>, SourceView>, Seq<char>>(sources@),
        decreases n - i,
    {
        let h = m.mhas.value(i);
        proof {
            assert(all.take(i + 1).drop_last() =~= all.take(i as int));
            assert(all.take(i + 1).last() == all[i as int]);
            if mha_sources(start, all.take(i + 1)) is Err {
                mha_sources_error(start, all, i + 1);
            }
        }
        match operations4(4, h.heads, h.seq, h.seq, h.d) {
            None => {
                return Err(sizes_overflow(h.key.as_str()));
            },
            Some(ops) => {
                let s = Source {
                    ctx: h.key.clone(),
                    xclbin: h.xclbin.clone(),
                    insts: h.insts.clone(),
                    name: h.name.clone(),
                    ops,
                };
                sources.insert(h.key.clone(), s);
            },
        }
        i += 1;
    }
    proof {
        assert(all.take(i as int) =~= all);
    }
    Ok(())
}

/// Where every kernel of the manifest comes from.
pub fn sources(m: &Manifest) -> (r: Result<Dict<Source>, Error>)
    ensures
        reads(r, all_sources(*m)),
{
    let mut s: Dict<Source> = Dict::new();
    add_gemms(m, &mut s)?;
    add_ops(m, &mut s);
    add_mhas(m, &mut s)?;
    Ok(s)
}

/// The order kernels are loaded in at startup: by name.
pub fn load_order(sources: &Dict<Source>) -> (r: Vec<String>)
    ensures
        in_order(texts(r@)),
        texts(r@).to_multiset() == sources.pairs().map_values(|p: (Seq<char>, SourceView)| p.0).to_multiset(),
{
    let keys: Vec<String> = sources.keys();
    sorted(&keys)
}

/// The device's answer when every hardware context is taken.
pub open spec fn says_full(message: Seq<char>) -> bool {
    occurs(message, "CREATE_HWCTX"@)
}

pub fn is_full(message: &str) -> (r: bool)
    ensures
        r == says_full(message@),
{
    contains(message, "CREATE_HWCTX")
}

/// What is resident.
#[verifier::ext_equal]
pub struct ResidencyView {
    pub sources: Map<Seq<char>, SourceView>,
    /// Loaded kernels.
    pub loaded: Set<Seq<char>>,
    /// Resident contexts, least recently used first.
    pub lru: Seq<Seq<char>>,
    pub loads: u64,
    pub evictions: u64,
    pub cap: usize,
}

pub open spec fn counted(n: u64) -> u64 {
    if n < u64::MAX {
        (n + 1) as u64
    } else {
        n
    }
}

/// The first context that is not `keep`.
pub open spec fn first_other(lru: Seq<Seq<char>>, keep: Seq<char>) -> Option<int> {
    if lru.len() > 0 && lru[0] != keep {
        Some(0)
    } else if lru.len() > 1 {
        Some(1)
    } else {
        None
    }
}

impl ResidencyView {
    /// No context is listed twice, loaded kernels are known and their
    /// contexts resident, and no more contexts are resident than the cap
    /// allows.
    pub open spec fn wf(self) -> bool {
        &&& self.cap > 0
        &&& self.lru.no_duplicates()
        &&& self.lru.len() <= self.cap
        &&& forall|k: Seq<char>|
            #[trigger] self.loaded.contains(k) ==> self.sources.contains_key(k) && self.lru.contains(
                self.sources[k].ctx,
            )
    }

    pub open spec fn ctx(self, key: Seq<char>) -> Seq<char> {
        self.sources[key].ctx
    }

    /// Whether loading `key` needs no eviction to stay within the cap.
    pub open spec fn has_room(self, key: Seq<char>) -> bool {
        self.lru.contains(self.ctx(key)) || self.lru.len() < self.cap
    }

    /// Without the least recently used context other than `keep`, and its
    /// kernels.
    pub open spec fn evicted(self, keep: Seq<char>) -> ResidencyView {
        match first_other(self.lru, keep) {
            None => self,
            Some(i) => {
                let victim = self.lru[i];
                ResidencyView {
                    loaded: self.loaded.filter(|k: Seq<char>| self.sources[k].ctx != victim),
                    lru: self.lru.remove(i),
                    evictions: counted(self.evictions),
                    ..self
                }
            },
        }
    }

    /// With room made for `key` under the cap.
    pub open spec fn made_room(self, key: Seq<char>) -> ResidencyView
        decreases self.lru.len(),
    {
        if self.has_room(key) || first_other(self.lru, self.ctx(key)) is None {
            self
        } else {
            self.evicted(self.ctx(key)).made_room(key)
        }
    }

    /// With `key` loaded, its context resident.
    pub open spec fn with(self, key: Seq<char>) -> ResidencyView {
        let ctx = self.ctx(key);
        if self.lru.contains(ctx) {
            ResidencyView { loaded: self.loaded.insert(key), ..self }
        } else {
            ResidencyView {
                loaded: self.loaded.insert(key),
                lru: self.lru.push(ctx),
                loads: counted(self.loads),
                ..self
            }
        }
    }

    /// With the context of `key` used last.
    pub open spec fn touched(self, key: Seq<char>) -> ResidencyView {
        let ctx = self.ctx(key);
        if self.lru.contains(ctx) {
            ResidencyView { lru: self.lru.remove(self.lru.index_of(ctx)).push(ctx), ..self }
        } else {
            self
        }
    }
}

/// Evicting keeps the state in order, and `keep` resident.
pub proof fn evicting_keeps_order(s: ResidencyView, keep: Seq<char>)
    requires
        s.wf(),
    ensures
        s.evicted(keep).wf(),
        s.lru.contains(keep) ==> s.evicted(keep).lru.contains(keep),
        first_other(s.lru, keep) is Some ==> s.evicted(keep).lru.len() == s.lru.len() - 1,
{
    if let Some(i) = first_other(s.lru, keep) {
        let t = s.evicted(keep);
        let victim = s.lru[i];
        removed(s.lru, i);
        assert forall|k: Seq<char>| #[trigger] t.loaded.contains(k) implies t.sources.contains_key(k) && t.lru.contains(
            t.sources[k].ctx,
        ) by {
            assert(s.loaded.contains(k));
            let c = s.sources[k].ctx;
            assert(c != victim);
            assert(t.lru.contains(c));
        }
        if s.lru.contains(keep) {
            assert(victim != keep) by {
                if i == 1 {
                    assert(s.lru[0] == keep);
                    assert(s.lru[0] != s.lru[1]);
                }
            }
            assert(t.lru.contains(keep));
        }
    }
}

proof fn removed(s: Seq<Seq<char>>, i: int)
    requires
        0 <= i < s.len(),
        s.no_duplicates(),
    ensures
        s.remove(i).no_duplicates(),
        forall|c: Seq<char>| #[trigger] s.remove(i).contains(c) <==> s.contains(c) && c != s[i],
{
    let t = s.remove(i);
    assert forall|c: Seq<char>| #[trigger] t.contains(c) <==> s.contains(c) && c != s[i] by {
        if t.contains(c) {
            let j = t.index_of(c);
            if j < i {
                assert(s[j] == c);
            } else {
                assert(s[j + 1] == c);
            }
        }
        if s.contains(c) && c != s[i] {
            let j = s.index_of(c);
            if j < i {
                assert(t[j] == c);
            } else {
                assert(t[j - 1] == c);
            }
        }
    }
}

/// Loading a kernel for which there is room keeps the state in order.
pub proof fn loading_keeps_order(s: ResidencyView, key: Seq<char>)
    requires
        s.wf(),
        s.sources.contains_key(key),
        s.has_room(key),
    ensures
        s.with(key).wf(),
        s.with(key).loaded.contains(key),
        s.with(key).lru.contains(s.ctx(key)),
{
    let t = s.with(key);
    let ctx = s.ctx(key);
    assert forall|c: Seq<char>| s.lru.contains(c) implies t.lru.contains(c) by {
        if !s.lru.contains(ctx) {
            let j = s.lru.index_of(c);
            assert(t.lru[j] == c);
        }
    }
    if !s.lru.contains(ctx) {
        assert(t.lru[s.lru.len() as int] == ctx);
    }
}

/// Making room ends with room, keeps the state in order, and never evicts
/// the kernel's own context.
pub proof fn making_room_makes_room(s: ResidencyView, key: Seq<char>)
    requires
        s.wf(),
    ensures
        s.made_room(key).wf(),
        s.made_room(key).has_room(key),
        s.made_room(key).sources == s.sources,
        s.made_room(key).cap == s.cap,
        s.lru.contains(s.ctx(key)) ==> s.made_room(key) == s,
    decreases s.lru.len(),
{
    if !s.has_room(key) {
        // the list is not empty and does not hold the context
        assert(s.lru[0] != s.ctx(key)) by {
            if s.lru[0] == s.ctx(key) {
                assert(s.lru.contains(s.ctx(key)));
            }
        }
        evicting_keeps_order(s, s.ctx(key));
        making_room_makes_room(s.evicted(s.ctx(key)), key);
    }
}

/// Touching keeps the state in order, and what is resident.
pub proof fn touching_keeps_order(s: ResidencyView, key: Seq<char>)
    requires
        s.wf(),
    ensures
        s.touched(key).wf(),
        s.touched(key).loaded == s.loaded,
        forall|c: Seq<char>| #[trigger] s.touched(key).lru.contains(c) <==> s.lru.contains(c),
        s.lru.contains(s.ctx(key)) ==> s.touched(key).lru.last() == s.ctx(key),
{
    let ctx = s.ctx(key);
    if s.lru.contains(ctx) {
        let i = s.lru.index_of(ctx);
        let t = s.touched(key);
        removed(s.lru, i);
        let r = s.lru.remove(i);
        assert forall|c: Seq<char>| #[trigger] t.lru.contains(c) <==> s.lru.contains(c) by {
            if t.lru.contains(c) {
                let j = t.lru.index_of(c);
                if j < r.len() {
                    assert(r[j] == c);
                    assert(r.contains(c));
                }
            }
            if s.lru.contains(c) {
                if c == ctx {
                    assert(t.lru[r.len() as int] == c);
                } else {
                    assert(r.contains(c));
                    let j = r.index_of(c);
                    assert(t.lru[j] == c);
                }
            }
        }
        assert(t.lru.no_duplicates()) by {
            assert(!r.contains(ctx));
        }
    }
}

/// Contexts created less contexts evicted are the resident ones, whatever
/// was loaded and evicted, as long as the counters do not saturate.
pub proof fn contexts_add_up(s: ResidencyView, key: Seq<char>, keep: Seq<char>)
    requires
        s.wf(),
        s.loads == s.evictions + s.lru.len(),
        s.loads < u64::MAX,
    ensures
        s.with(key).loads == s.with(key).evictions + s.with(key).lru.len(),
        s.evicted(keep).loads == s.evicted(keep).evictions + s.evicted(keep).lru.len(),
        s.touched(key).loads == s.touched(key).evictions + s.touched(key).lru.len(),
{
    if let Some(i) = first_other(s.lru, keep) {
        assert(s.lru.remove(i).len() == s.lru.len() - 1);
    }
    if s.lru.contains(s.ctx(key)) {
        let i = s.lru.index_of(s.ctx(key));
        assert(s.lru.remove(i).len() == s.lru.len() - 1);
    }
}

#[derive(Debug)]
pub struct Residency {
    pub sources: Dict<Source>,
    pub loaded: Vec<String>,
    pub lru: Vec<String>,
    /// Contexts created, and evicted to make room.
    pub loads: u64,
    pub evictions: u64,
    /// At most this many resident contexts.
    pub cap: usize,
}

impl View for Residency {
    type V = ResidencyView;

    open spec fn view(&self) -> ResidencyView {
        ResidencyView {
            sources: self.sources@,
            loaded: texts(self.loaded@).to_set(),
            lru: texts(self.lru@),
            loads: self.loads,
            evictions: self.evictions,
            cap: self.cap,
        }
    }
}

fn position(v: &Vec<String>, x: &str) -> (r: Option<usize>)
    ensures
        match r {
            Some(i) => i < v.len() && texts(v@)[i as int] == x@ && texts(v@).contains(x@) && (
            texts(v@).no_duplicates() ==> texts(v@).index_of(x@) == i),
            None => !texts(v@).contains(x@),
        },
{
    let mut i: usize = 0;
    while i < v.len()
        invariant
            i <= v.len(),
            forall|j: int| 0 <= j < i ==> #[trigger] texts(v@)[j] != x@,
        decreases v.len() - i,
    {
        if same(v[i].as_str(), x) {
            proof {
                assert(texts(v@)[i as int] == x@);
            }
            return Some(i);
        }
        i += 1;
    }
    None
}

/// The counter, one up, until it saturates.
fn count(n: u64) -> (r: u64)
    ensures
        r == counted(n),
{
    if n < u64::MAX {
        n + 1
    } else {
        n
    }
}

impl Residency {
    /// Nothing resident yet.
    pub fn new(sources: Dict<Source>, cap: usize) -> (r: Self)
        requires
            cap > 0,
        ensures
            r@.wf(),
            r@ == (ResidencyView {
                sources: sources@,
                loaded: Set::empty(),
                lru: seq![],
                loads: 0,
                evictions: 0,
                cap,
            }),
    {
        let r = Residency { sources, loaded: Vec::new(), lru: Vec::new(), loads: 0, evictions: 0, cap };
        proof {
            assert(texts(r.lru@) =~= seq![]);
            assert(texts(r.loaded@).to_set() =~= Set::empty());
        }
        r
    }

    fn source(&self, key: &str) -> (r: Result<&Source, Error>)
        ensures
            match r {
                Ok(s) => self@.sources.contains_key(key@) && s@ == self@.sources[key@],
                Err(e) => !self@.sources.contains_key(key@) && faults(e, "no kernel "@ + key@),
            },
    {
        match self.sources.get(key) {
            Some(s) => Ok(s),
            None => Err(Error::Bundle(cat2("no kernel ", key))),
        }
    }

    /// Whether kernel `key` is loaded.
    pub fn is_loaded(&self, key: &str) -> (r: bool)
        ensures
            r == self@.loaded.contains(key@),
    {
        match position(&self.loaded, key) {
            Some(_) => true,
            None => false,
        }
    }

    /// Contexts created and evicted so far.
    pub fn contexts(&self) -> (r: (u64, u64))
        ensures
            r == (self@.loads, self@.evictions),
    {
        (self.loads, self.evictions)
    }

    /// Whether kernel `key` can be loaded without evicting: at startup,
    /// loading stops at the first that cannot.
    pub fn has_room(&self, key: &str) -> (r: Result<bool, Error>)
        ensures
            match r {
                Ok(b) => self@.sources.contains_key(key@) && b == self@.has_room(key@),
                Err(e) => !self@.sources.contains_key(key@) && faults(e, "no kernel "@ + key@),
            },
    {
        let s = self.source(key)?;
        Ok(position(&self.lru, s.ctx.as_str()).is_some() || self.lru.len() < self.cap)
    }

    /// Drops the least recently used context other than `keep` (and its
    /// kernels); false if there is none.
    pub fn evict_lru(&mut self, keep: &str) -> (r: bool)
        requires
            old(self)@.wf(),
        ensures
            final(self)@ == old(self)@.evicted(keep@),
            r == (first_other(old(self)@.lru, keep@) is Some),
            final(self)@.wf(),
    {
        proof {
            evicting_keeps_order(self@, keep@);
        }
        let ghost was = self@;
        let at: usize = if self.lru.len() > 0 && !same(self.lru[0].as_str(), keep) {
            0
        } else if self.lru.len() > 1 {
            1
        } else {
            return false;
        };
        let victim: String = self.lru.remove(at);
        let ghost old_loaded = self.loaded@;
        let mut kept: Vec<String> = Vec::new();
        let mut i: usize = 0;
        while i < self.loaded.len()
            invariant
                i <= self.loaded.len(),
                self.loaded@ == old_loaded,
                self.sources@ == was.sources,
                was.wf(),
                was.loaded == texts(old_loaded).to_set(),
                forall|k: Seq<char>| #[trigger]
                    texts(kept@).contains(k) <==> texts(old_loaded).take(i as int).contains(k) && was.sources[k].ctx
                        != victim@,
            decreases self.loaded.len() - i,
        {
            let key = self.loaded[i].clone();
            let ghost before = texts(kept@);
            let ghost kept_before = kept@;
            let ghost all = texts(old_loaded);
            proof {
                assert(all[i as int] == key@);
                assert(was.loaded.contains(key@));
            }
            let stays: bool = match self.sources.get(key.as_str()) {
                Some(s) => !same(s.ctx.as_str(), victim.as_str()),
                None => false,
            };
            if stays {
                kept.push(key);
            }
            proof {
                assert(all.take(i + 1) =~= all.take(i as int).push(key@));
                assert forall|k: Seq<char>| #[trigger]
                    texts(kept@).contains(k) <==> all.take(i + 1).contains(k) && was.sources[k].ctx != victim@ by {
                    push_contains(all.take(i as int), key@, k);
                    if stays {
                        assert(kept@.drop_last() =~= kept_before);
                        texts_push_contains(before, kept@, key, k);
                    }
                }
            }
            i += 1;
        }
        self.loaded = kept;
        self.evictions = count(self.evictions);
        proof {
            assert(texts(old_loaded).take(i as int) =~= texts(old_loaded));
            assert(texts(self.lru@) =~= was.lru.remove(at as int));
            assert(self@.loaded =~= was.evicted(keep@).loaded);
            assert(self@ =~= was.evicted(keep@));
        }
        true
    }

    /// Asks for kernel `key`: whether it is resident (and now used last).
    /// If not, room has been made under the cap, and it is to be loaded.
    pub fn request(&mut self, key: &str) -> (r: Result<bool, Error>)
        requires
            old(self)@.wf(),
        ensures
            match r {
                Err(e) => !old(self)@.sources.contains_key(key@) && faults(e, "no kernel "@ + key@) && final(self)@
                    == old(self)@,
                Ok(resident) => {
                    &&& old(self)@.sources.contains_key(key@)
                    &&& resident == old(self)@.loaded.contains(key@)
                    &&& resident ==> final(self)@ == old(self)@.touched(key@)
                    &&& !resident ==> final(self)@ == old(self)@.made_room(key@) && final(self)@.has_room(key@)
                },
            },
            final(self)@.wf(),
    {
        let ctx: String = match self.source(key) {
            Ok(s) => s.ctx.clone(),
            Err(e) => {
                return Err(e);
            },
        };
        if self.is_loaded(key) {
            self.touch(ctx.as_str(), Ghost(key@));
            return Ok(true);
        }
        let ghost start = self@;
        proof {
            making_room_makes_room(self@, key@);
        }
        loop
            invariant
                self@.wf(),
                self@.made_room(key@) == start.made_room(key@),
                start.sources.contains_key(key@),
                self@.sources == start.sources,
                start.sources[key@].ctx == ctx@,
                start.made_room(key@).has_room(key@),
                start.made_room(key@).wf(),
            ensures
                self@ == start.made_room(key@),
            decreases self.lru.len(),
        {
            let resident: bool = position(&self.lru, ctx.as_str()).is_some();
            if resident || self.lru.len() < self.cap {
                break;
            }
            let ghost before = self@;
            proof {
                evicting_keeps_order(self@, ctx@);
            }
            if !self.evict_lru(ctx.as_str()) {
                break;
            }
        }
        Ok(false)
    }

    /// Moves `ctx`, the context of `key`, to the end of the list.
    fn touch(&mut self, ctx: &str, Ghost(key): Ghost<Seq<char>>)
        requires
            old(self)@.wf(),
            old(self)@.ctx(key) == ctx@,
        ensures
            final(self)@ == old(self)@.touched(key),
            final(self)@.wf(),
    {
        proof {
            touching_keeps_order(self@, key);
        }
        let ghost was = self@;
        if let Some(i) = position(&self.lru, ctx) {
            let c = self.lru.remove(i);
            self.lru.push(c);
            proof {
                assert(texts(self.lru@) =~= was.lru.remove(i as int).push(ctx@));
            }
        }
    }

    /// Records that kernel `key` was loaded at startup: a context that is
    /// resident already keeps its place in the order of use.
    pub fn preloaded(&mut self, key: &str)
        requires
            old(self)@.wf(),
            old(self)@.sources.contains_key(key@),
            old(self)@.has_room(key@),
        ensures
            final(self)@ == old(self)@.with(key@),
            final(self)@.wf(),
    {
        proof {
            loading_keeps_order(self@, key@);
        }
        let ghost was = self@;
        let ctx: String = match self.sources.get(key) {
            Some(s) => s.ctx.clone(),
            None => {
                return ;
            },
        };
        let ghost names = texts(self.loaded@);
        let name: String = key.to_owned();
        self.loaded.push(name);
        proof {
            texts_push(self.loaded@.drop_last(), name);
            assert(self.loaded@.drop_last().push(name) =~= self.loaded@);
            assert forall|k: Seq<char>| texts(self.loaded@).to_set().contains(k) <==> was.loaded.insert(
                key@,
            ).contains(k) by {
                push_contains(names, key@, k);
                assert(texts(self.loaded@) =~= names.push(key@));
            }
            assert(texts(self.loaded@).to_set() =~= was.loaded.insert(key@));
        }
        if position(&self.lru, ctx.as_str()).is_none() {
            let c = ctx.clone();
            proof {
                texts_push(self.lru@, c);
            }
            self.lru.push(c);
            self.loads = count(self.loads);
        }
        proof {
            assert(self@ =~= was.with(key@));
        }
    }

    /// Records that kernel `key` was loaded because it was asked for: its
    /// context is now the one used last.
    pub fn loaded(&mut self, key: &str)
        requires
            old(self)@.wf(),
            old(self)@.sources.contains_key(key@),
            old(self)@.has_room(key@),
        ensures
            final(self)@ == old(self)@.with(key@).touched(key@),
            final(self)@.wf(),
    {
        self.preloaded(key);
        let ctx: String = match self.sources.get(key) {
            Some(s) => s.ctx.clone(),
            None => {
                return ;
            },
        };
        self.touch(ctx.as_str(), Ghost(key@));
    }

    /// Records that the device had no room for kernel `key`, for which it
    /// said `e`: evicts another context, after which the load is to be
    /// tried again, or gives up when there is none.
    pub fn full(&mut self, key: &str, e: &str) -> (r: Result<(), Error>)
        requires
            old(self)@.wf(),
            old(self)@.sources.contains_key(key@),
            old(self)@.has_room(key@),
        ensures
            final(self)@ == old(self)@.evicted(old(self)@.ctx(key@)),
            final(self)@.wf(),
            final(self)@.has_room(key@),
            match r {
                Ok(_) => first_other(old(self)@.lru, old(self)@.ctx(key@)) is Some && final(self)@.lru.len()
                    < old(self)@.lru.len(),
                Err(x) => first_other(old(self)@.lru, old(self)@.ctx(key@)) is None && unavailable(x, key@, e@),
            },
    {
        proof {
            evicting_keeps_order(self@, self@.ctx(key@));
        }
        let ctx: String = match self.sources.get(key) {
            Some(s) => s.ctx.clone(),
            None => key.to_owned(),
        };
        if self.evict_lru(ctx.as_str()) {
            Ok(())
        } else {
            Err(Error::Npu(cat4(key, ": no hardware context available", ": ", e)))
        }
    }

    /// The error for a load of kernel `key` that failed otherwise.
    pub fn failed(key: &str, e: &str) -> (r: Error)
        ensures
            r matches Error::Npu(m) && m@ == "loading "@ + key@ + ": "@ + e@,
    {
        Error::Npu(cat4("loading ", key, ": ", e))
    }
}

pub open spec fn unavailable(x: Error, key: Seq<char>, e: Seq<char>) -> bool {
    x matches Error::Npu(m) && m@ == key + ": no hardware context available"@ + ": "@ + e
}

proof fn push_contains(s: Seq<Seq<char>>, x: Seq<char>, k: Seq<char>)
    ensures
        s.push(x).contains(k) <==> s.contains(k) || k == x,
{
    let t = s.push(x);
    if s.contains(k) {
        assert(t[s.index_of(k)] == k);
    }
    if k == x {
        assert(t[s.len() as int] == k);
    }
    if t.contains(k) && k != x {
        let j = t.index_of(k);
        assert(s[j] == k);
    }
}

proof fn texts_push_contains(before: Seq<Seq<char>>, v: Seq<String>, x: String, k: Seq<char>)
    requires
        v.len() > 0,
        v.last() == x,
        before == texts(v.drop_last()),
    ensures
        texts(v).contains(k) <==> before.contains(k) || k == x@,
{
    assert(v.drop_last().push(x) =~= v);
    texts_push(v.drop_last(), x);
    push_contains(before, x@, k);
}

} // verus!
