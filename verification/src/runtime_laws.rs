//! What keeping contexts resident, timing stages, sharing out rows and reading
//! a device image are for.

use crate::axlf::{partition_of, section, SECTIONS_OFF, SECTION_HEADER_SIZE};
use crate::bytes::{le16, le32, le64};
use crate::direct::{declared, reported};
use crate::gaic_manifest::floats_of;
use crate::ieee::{floor, half_up, nearest_up, of_int, quotient, quotient_floor, DOUBLE};
use crate::manifest::ManifestView as BaseView;
use crate::residency::{first_other, gemm_sources, mha_sources, op_sources, ResidencyView, SourceView};
use crate::rows::{balanced, ceil_div, cut, evenly, thread_count};
use crate::sam3_bundle::{GemmView, MhaView, OpView};
use crate::store::{dims_of, dtype_named, plain_entry_of, plain_index_of, EntryView};
use crate::sys::HwctxEntry;
use crate::text::{first_at, pieces, starts_with, words, FromText};
use crate::timing::{all_of, host_stages, kernel_stages, total_of};
use vstd::prelude::*;

verus! {

/// `a` comes before `b` in the list.
pub open spec fn ahead(lru: Seq<Seq<char>>, a: Seq<char>, b: Seq<char>) -> bool {
    exists|i: int, j: int| 0 <= i < j < lru.len() && #[trigger] lru[i] == a && #[trigger] lru[j] == b
}

/// Of two contexts that are resident, neither the one to keep, eviction takes
/// none that was used after one it leaves: what goes was used before every
/// other that stays but the one to keep. Its kernels are unloaded with it, and
/// no others.
pub proof fn the_least_recently_used_goes(s: ResidencyView, keep: Seq<char>, gone: Seq<char>, stays: Seq<char>)
    requires
        s.wf(),
        s.lru.contains(gone),
        !s.evicted(keep).lru.contains(gone),
        s.evicted(keep).lru.contains(stays),
        stays != keep,
    ensures
        gone != keep,
        ahead(s.lru, gone, stays),
        forall|k: Seq<char>| #[trigger]
            s.evicted(keep).loaded.contains(k) <==> s.loaded.contains(k) && s.sources[k].ctx != gone,
{
    let i = first_other(s.lru, keep)->0;
    let r = s.lru.remove(i);
    let g = s.lru.index_of(gone);
    if g != i {
        if g < i {
            assert(r[g] == gone);
        } else {
            assert(r[g - 1] == gone);
        }
        assert(r.contains(gone));
    }
    if i == 1 {
        assert(s.lru[0] != s.lru[1]);
    }
    let k = r.index_of(stays);
    if k < i {
        assert(s.lru[k] == stays);
        assert(s.lru[0] == keep);
    } else {
        assert(s.lru[k + 1] == stays);
        assert(s.lru[i] == gone);
    }
}

/// Something goes whenever a context other than the one to keep is resident,
/// and only one does.
pub proof fn one_context_goes(s: ResidencyView, keep: Seq<char>)
    requires
        s.wf(),
    ensures
        (exists|c: Seq<char>| #[trigger] s.lru.contains(c) && c != keep) ==> s.evicted(keep).lru.len() == s.lru.len() - 1,
        !(exists|c: Seq<char>| #[trigger] s.lru.contains(c) && c != keep) ==> s.evicted(keep) == s,
{
    if exists|c: Seq<char>| #[trigger] s.lru.contains(c) && c != keep {
        let c = choose|c: Seq<char>| #[trigger] s.lru.contains(c) && c != keep;
        let i = s.lru.index_of(c);
        assert(s.lru[i] == c);
    } else {
        if s.lru.len() > 0 {
            assert(s.lru.contains(s.lru[0]));
        }
        if s.lru.len() > 1 {
            assert(s.lru.contains(s.lru[1]));
            assert(s.lru[0] != s.lru[1]);
        }
    }
}

/// Using a context moves it behind all others, whose order stays.
pub proof fn the_one_used_goes_last(s: ResidencyView, key: Seq<char>, a: Seq<char>, b: Seq<char>)
    requires
        s.wf(),
        s.lru.contains(s.ctx(key)),
        a != s.ctx(key),
    ensures
        s.lru.contains(a) ==> ahead(s.touched(key).lru, a, s.ctx(key)),
        b != s.ctx(key) && ahead(s.lru, a, b) ==> ahead(s.touched(key).lru, a, b),
{
    let ctx = s.ctx(key);
    let at = s.lru.index_of(ctx);
    let t = s.touched(key).lru;
    let n = s.lru.len();
    assert(t.len() == n && t[n - 1] == ctx);
    if s.lru.contains(a) {
        let i = s.lru.index_of(a);
        let k = if i < at {
            i
        } else {
            i - 1
        };
        assert(t[k] == a);
    }
    if b != ctx && ahead(s.lru, a, b) {
        let (i, j) = choose|i: int, j: int| 0 <= i < j < s.lru.len() && #[trigger] s.lru[i] == a && #[trigger] s.lru[j] == b;
        let p = if i < at {
            i
        } else {
            i - 1
        };
        let q = if j < at {
            j
        } else {
            j - 1
        };
        assert(t[p] == a && t[q] == b && p < q);
    }
}

/// A context made anew counts as used last.
pub proof fn a_new_context_goes_last(s: ResidencyView, key: Seq<char>, a: Seq<char>)
    requires
        s.wf(),
        !s.lru.contains(s.ctx(key)),
        s.lru.contains(a),
    ensures
        ahead(s.with(key).lru, a, s.ctx(key)),
        s.with(key).loaded == s.loaded.insert(key),
{
    let i = s.lru.index_of(a);
    let t = s.with(key).lru;
    assert(t[i] == a && t[s.lru.len() as int] == s.ctx(key));
}

/// Every stage is either on the host or a kernel's: together they took all
/// the time, and the kernels what the stages under their prefix took.
pub proof fn host_and_kernels_make_all(s: Seq<(Seq<char>, u64)>)
    ensures
        all_of(host_stages(s)) + all_of(kernel_stages(s)) == all_of(s),
        all_of(kernel_stages(s)) == total_of(s, "npu:"@),
        host_stages(s).len() + kernel_stages(s).len() == s.len(),
    decreases s.len(),
{
    if s.len() > 0 {
        host_and_kernels_make_all(s.drop_last());
        let h = host_stages(s.drop_last());
        let k = kernel_stages(s.drop_last());
        if starts_with(s.last().0, "npu:"@) {
            let e = (s.last().0.skip(4), s.last().1);
            assert(k.push(e).drop_last() =~= k);
        } else {
            assert(h.push(s.last()).drop_last() =~= h);
        }
    }
}

/// A kernel's stage is its name behind the prefix; no stage of the host has
/// the prefix.
pub proof fn kernels_are_told_by_their_prefix(s: Seq<(Seq<char>, u64)>, i: int)
    ensures
        0 <= i < kernel_stages(s).len() ==> s.contains(("npu:"@ + kernel_stages(s)[i].0, kernel_stages(s)[i].1)),
        0 <= i < host_stages(s).len() ==> s.contains(host_stages(s)[i]) && !starts_with(host_stages(s)[i].0, "npu:"@),
    decreases s.len(),
{
    reveal_strlit("npu:");
    if s.len() > 0 {
        let t = s.drop_last();
        kernels_are_told_by_their_prefix(t, i);
        let n = s.len() - 1;
        assert(s[n] == s.last());
        if 0 <= i < kernel_stages(s).len() {
            if starts_with(s.last().0, "npu:"@) && i == kernel_stages(t).len() {
                let name = s.last().0;
                assert("npu:"@ + name.skip(4) =~= name);
            } else {
                let e = ("npu:"@ + kernel_stages(t)[i].0, kernel_stages(t)[i].1);
                let j = t.index_of(e);
                assert(s[j] == e);
            }
        }
        if 0 <= i < host_stages(s).len() {
            if !starts_with(s.last().0, "npu:"@) && i == host_stages(t).len() {
            } else {
                let e = host_stages(t)[i];
                let j = t.index_of(e);
                assert(s[j] == e);
            }
        }
    }
}

proof fn ceil_div_is(a: nat, b: nat)
    requires
        b > 0,
    ensures
        ceil_div(a, b) * b >= a,
        a > 0 ==> (ceil_div(a, b) - 1) * b < a,
        a > 0 ==> ceil_div(a, b) >= 1,
        a == 0 ==> ceil_div(a, b) == 0,
{
    let n = a + b - 1;
    let q = n / b as int;
    vstd::arithmetic::div_mod::lemma_fundamental_div_mod(n, b as int);
    assert(q * b >= a && (q - 1) * b < a && q >= 0) by (nonlinear_arith)
        requires
            n == b * q + n % (b as int),
            0 <= n % (b as int) < b,
            n == a + b - 1,
            a >= 0,
            b > 0,
    ;
    if a > 0 {
        assert(q >= 1) by (nonlinear_arith)
            requires
                q * b >= a,
                a > 0,
                b >= 1,
        ;
    } else {
        assert(q == 0) by (nonlinear_arith)
            requires
                q >= 0,
                (q - 1) * b < 0,
                b >= 1,
        ;
    }
}

/// A piece starts with its first row.
pub proof fn pieces_start_with_a_row(len: nat, row: nat, per: nat, i: int)
    requires
        row > 0,
        per > 0,
        len <= usize::MAX,
        0 <= i < cut(len, row, per).len(),
    ensures
        cut(len, row, per)[i].start == cut(len, row, per)[i].first_row * row,
        cut(len, row, per)[i].len <= per * row,
{
    let step = per * row;
    assert(step >= 1) by (nonlinear_arith)
        requires
            step == per * row,
            per >= 1,
            row >= 1,
    ;
    ceil_div_is(len, step);
    let n = ceil_div(len, step) as int;
    assert(0 <= i * step <= (n - 1) * step) by (nonlinear_arith)
        requires
            0 <= i <= n - 1,
            step >= 1,
    ;
    assert(i * step == (i * per) * row && 0 <= i * per <= i * step) by (nonlinear_arith)
        requires
            step == per * row,
            i >= 0,
            per >= 1,
            row >= 1,
    ;
    assert((i + 1) * step == i * step + step) by (nonlinear_arith);
}

/// Whole rows shared over threads: no more pieces than threads, and none a row
/// longer than an even share.
pub proof fn threads_share_evenly(rows: nat, row: nat, threads: nat, i: int)
    requires
        row > 0,
        threads > 0,
        rows > 0,
        rows * row <= usize::MAX,
        0 <= i < evenly(rows * row, row, threads).len(),
    ensures
        evenly(rows * row, row, threads).len() <= threads,
        evenly(rows * row, row, threads)[i].len * threads < (rows + threads) * row,
{
    let len = rows * row;
    vstd::arithmetic::div_mod::lemma_div_multiples_vanish(rows as int, row as int);
    assert(rows * row == row * rows) by (nonlinear_arith);
    assert(len / row == rows);
    let per = ceil_div(rows, threads);
    ceil_div_is(rows, threads);
    assert((per - 1) * threads == per * threads - threads) by (nonlinear_arith);
    let share = (rows + threads) * row;
    assert(per * row * threads < share) by (nonlinear_arith)
        requires
            per * threads < rows + threads,
            row >= 1,
            share == (rows + threads) * row,
    ;
    if per >= rows {
        assert(len * threads <= per * row * threads) by (nonlinear_arith)
            requires
                len == rows * row,
                per >= rows,
                row >= 0,
                threads >= 0,
        ;
    } else {
        pieces_start_with_a_row(len, row, per, i);
        let p = evenly(len, row, threads)[i].len;
        assert(p * threads <= per * row * threads) by (nonlinear_arith)
            requires
                p <= per * row,
                threads >= 0,
        ;
        let step = per * row;
        assert(step >= 1) by (nonlinear_arith)
            requires
                step == per * row,
                per >= 1,
                row >= 1,
        ;
        ceil_div_is(len, step);
        let n = ceil_div(len, step);
        assert(n <= threads) by (nonlinear_arith)
            requires
                (n - 1) * step < len,
                len == rows * row,
                step == per * row,
                per * threads >= rows,
                row >= 1,
                step >= 1,
        ;
    }
}

/// Over a pool there are at most four pieces a thread, and where there are
/// two threads and two rows more than one.
pub proof fn a_pool_gets_a_few_pieces_a_thread(len: nat, row: nat, threads: nat)
    requires
        row > 0,
        threads > 1,
        row < len <= usize::MAX,
    ensures
        1 < balanced(len, row, threads, false).len() <= 4 * threads,
        balanced(len, row, threads, true).len() == 1,
        balanced(len, row, 1, false).len() == 1,
{
    let rows = ceil_div(len, row);
    ceil_div_is(len, row);
    assert(rows >= 2) by (nonlinear_arith)
        requires
            rows * row >= len,
            len > row,
            row >= 1,
    ;
    let tasks = if rows <= 4 * threads {
        rows
    } else {
        4 * threads
    };
    let per = ceil_div(rows, tasks);
    ceil_div_is(rows, tasks);
    let step = per * row;
    assert(step >= 1) by (nonlinear_arith)
        requires
            step == per * row,
            per >= 1,
            row >= 1,
    ;
    ceil_div_is(len, step);
    let n = ceil_div(len, step);
    assert(n <= tasks) by (nonlinear_arith)
        requires
            (n - 1) * step < len,
            len <= rows * row,
            step == per * row,
            per * tasks >= rows,
            row >= 1,
            step >= 1,
    ;
    assert(per <= rows - 1) by (nonlinear_arith)
        requires
            (per - 1) * tasks < rows,
            tasks >= 2,
            rows >= 2,
            per >= 1,
    ;
    vstd::arithmetic::mul::lemma_mul_inequality(per as int, rows - 1, row as int);
    assert(step < len);
    assert(n > 1) by (nonlinear_arith)
        requires
            n * step >= len,
            step < len,
            step >= 1,
    ;
}

/// The partition an xclbin holds is read from the first section of its kind:
/// the width and the one image that the section's record names.
pub proof fn the_first_partition_counts(b: Seq<u8>, i: int)
    requires
        partition_of(b) is Ok,
        0 <= i < le32(b, 448),
        456 + 40 * i + 32 <= b.len(),
        le32(b, 456 + 40 * i) == 32,
        forall|j: int| #![trigger le32(b, 456 + 40 * j)] 0 <= j < i ==> le32(b, 456 + 40 * j) != 32,
    ensures
        ({
            let s = le64(b, 456 + 40 * i + 24);
            let r = s + le32(b, s + 124);
            let p = partition_of(b)->Ok_0;
            &&& p.column_width == le16(b, s + 32)
            &&& le32(b, s + 120) == 1
            &&& p.pdi.len() == le32(b, r + 16)
            &&& forall|k: int| 0 <= k < p.pdi.len() ==> #[trigger] p.pdi[k] == b[s + le32(b, r + 20) + k]
        }),
{
    first_section(b, 0, le32(b, 448), i);
    let s = le64(b, 456 + 40 * i + 24);
    assert(s >= 0);
}

proof fn first_section(b: Seq<u8>, from: int, n: int, i: int)
    requires
        0 <= from <= i < n,
        456 + 40 * i + 32 <= b.len(),
        le32(b, 456 + 40 * i) == 32,
        forall|j: int| #![trigger le32(b, 456 + 40 * j)] from <= j < i ==> le32(b, 456 + 40 * j) != 32,
    ensures
        section(b, from, n) == Ok::<int, Seq<char>>(le64(b, 456 + 40 * i + 24)),
    decreases i - from,
{
    assert(le32(b, SECTIONS_OFF + from * SECTION_HEADER_SIZE) == le32(b, 456 + 40 * from));
    if from < i {
        assert(le32(b, 456 + 40 * from) != 32);
        first_section(b, from + 1, n, i);
    }
}

/// The work a context declares is its operations in whole billions, to within
/// one, as far as the field goes.
pub proof fn work_is_declared_in_billions(ops: nat)
    requires
        ops <= DOUBLE,
    ensures
        ({
            let g = ops / 1_000_000_000;
            g < u32::MAX ==> g <= declared(ops) <= g + 1
        }),
        declared(ops) <= u32::MAX,
{
    let b = DOUBLE as nat;
    let x = quotient(b, of_int(b, ops), of_int(b, 1_000_000_000));
    quotient_floor(b, ops, 1_000_000_000);
    assert(floor(x) == ops / 1_000_000_000);
    if x.e < 0 {
        vstd::arithmetic::power2::lemma_pow2_pos((-x.e) as nat);
    }
    assert(floor(x) <= nearest_up(x) <= floor(x) + 1);
}

/// Rounding half up leaves at most half a step, and goes up where it is
/// exactly half.
pub proof fn half_goes_up(n: nat, d: nat)
    requires
        d > 0,
    ensures
        -d < 2 * (half_up(n, d) * d - n) <= d,
{
    let (q, r) = (n as int / d as int, n as int % d as int);
    vstd::arithmetic::div_mod::lemma_fundamental_div_mod(n as int, d as int);
    assert(q * d - n == -r && (q + 1) * d - n == d - r) by (nonlinear_arith)
        requires
            n == d * q + r,
    ;
}

/// A report has an entry for each that the driver filled in, and says of it
/// what the driver does.
pub proof fn reports_say_what_the_driver_does(entries: Seq<HwctxEntry>, filled: int, i: int)
    requires
        0 <= i < filled,
        i < entries.len(),
    ensures
        ({
            let c = reported(entries, filled)[i];
            let h = entries[i];
            &&& i < reported(entries, filled).len() <= filled
            &&& c.context_id == h.context_id && c.pid == h.pid
            &&& c.start_col == h.start_col && c.num_col == h.num_col
            &&& c.submissions == h.command_submissions && c.completions == h.command_completions
            &&& c.errors == h.errors && c.txn_op_idx == h.txn_op_idx && c.fatal_error_type == h.fatal_error_type
            &&& c.active <==> h.state == 1
        }),
{
}

/// The threads that were asked for are used; without, the machine's, sixteen
/// at most.
pub proof fn threads_are_as_asked(set: usize, available: Option<usize>)
    ensures
        set > 0 ==> thread_count(set, available) == set,
        set == 0 ==> thread_count(set, available) <= 16,
        set == 0 && available is Some && available->0 <= 16 ==> thread_count(set, available) == available->0,
        set == 0 && available is None ==> 1 < thread_count(set, available),
{
}

/// A GEMM's source is its record's context, that context's files, and two
/// operations for each of its products; of several of one name the last.
pub proof fn gemms_come_from_their_contexts(m: BaseView, ps: Seq<(Seq<char>, GemmView)>, i: int)
    requires
        gemm_sources(m, ps) is Ok,
        0 <= i < ps.len(),
        forall|j: int| i < j < ps.len() ==> (#[trigger] ps[j]).1.key != ps[i].1.key,
    ensures
        ({
            let g = ps[i].1;
            let s = gemm_sources(m, ps)->Ok_0[g.key];
            &&& gemm_sources(m, ps)->Ok_0.contains_key(g.key)
            &&& s.ctx == g.ctx && s.insts == g.insts
            &&& m.xclbins.contains_key(g.ctx) && s.xclbin == m.xclbins[g.ctx].path && s.name == m.xclbins[g.ctx].kernel
            &&& s.ops == 2 * (g.m * g.k * g.n)
        }),
    decreases ps.len(),
{
    if i < ps.len() - 1 {
        assert(ps[ps.len() - 1].1.key != ps[i].1.key);
        assert forall|j: int| i < j < ps.len() - 1 implies (#[trigger] ps.drop_last()[j]).1.key != ps[i].1.key by {
            assert(ps.drop_last()[j] == ps[j]);
        }
        gemms_come_from_their_contexts(m, ps.drop_last(), i);
    }
}

/// Another kernel is its own context, from its own files; a GEMM of that name
/// gives way to it, and others stay.
pub proof fn other_kernels_are_their_own_contexts(start: Map<Seq<char>, SourceView>, ps: Seq<(Seq<char>, OpView)>, i: int, other: Seq<char>)
    requires
        0 <= i < ps.len(),
        forall|j: int| i < j < ps.len() ==> (#[trigger] ps[j]).1.key != ps[i].1.key,
        forall|j: int| 0 <= j < ps.len() ==> (#[trigger] ps[j]).1.key != other,
    ensures
        ({
            let o = ps[i].1;
            let s = op_sources(start, ps)[o.key];
            &&& op_sources(start, ps).contains_key(o.key)
            &&& s.ctx == o.key && s.xclbin == o.xclbin && s.insts == o.insts && s.name == o.name && s.ops == 0
        }),
        start.contains_key(other) ==> op_sources(start, ps).contains_key(other) && op_sources(start, ps)[other] == start[other],
    decreases ps.len(),
{
    let t = ps.drop_last();
    assert(ps[ps.len() - 1].1.key != other);
    assert forall|j: int| 0 <= j < t.len() implies (#[trigger] t[j]).1.key != other by {
        assert(t[j] == ps[j]);
    }
    if i < ps.len() - 1 {
        assert(ps[ps.len() - 1].1.key != ps[i].1.key);
        assert forall|j: int| i < j < t.len() implies (#[trigger] t[j]).1.key != ps[i].1.key by {
            assert(t[j] == ps[j]);
        }
        other_kernels_are_their_own_contexts(start, t, i, other);
    } else if ps.len() > 1 {
        others_stay(start, t, other);
    }
}

proof fn others_stay(start: Map<Seq<char>, SourceView>, ps: Seq<(Seq<char>, OpView)>, other: Seq<char>)
    requires
        forall|j: int| 0 <= j < ps.len() ==> (#[trigger] ps[j]).1.key != other,
    ensures
        start.contains_key(other) ==> op_sources(start, ps).contains_key(other) && op_sources(start, ps)[other] == start[other],
    decreases ps.len(),
{
    if ps.len() > 0 {
        let t = ps.drop_last();
        assert(ps[ps.len() - 1].1.key != other);
        assert forall|j: int| 0 <= j < t.len() implies (#[trigger] t[j]).1.key != other by {
            assert(t[j] == ps[j]);
        }
        others_stay(start, t, other);
    }
}

/// An attention is its own context, from its own files, with four operations
/// for each of its products.
pub proof fn attentions_are_their_own_contexts(start: Map<Seq<char>, SourceView>, ps: Seq<(Seq<char>, MhaView)>, i: int)
    requires
        mha_sources(start, ps) is Ok,
        0 <= i < ps.len(),
        forall|j: int| i < j < ps.len() ==> (#[trigger] ps[j]).1.key != ps[i].1.key,
    ensures
        ({
            let h = ps[i].1;
            let s = mha_sources(start, ps)->Ok_0[h.key];
            &&& mha_sources(start, ps)->Ok_0.contains_key(h.key)
            &&& s.ctx == h.key && s.xclbin == h.xclbin && s.insts == h.insts && s.name == h.name
            &&& s.ops == 4 * (h.heads * h.seq * h.seq * h.d)
        }),
    decreases ps.len(),
{
    if i < ps.len() - 1 {
        assert(ps[ps.len() - 1].1.key != ps[i].1.key);
        assert forall|j: int| i < j < ps.len() - 1 implies (#[trigger] ps.drop_last()[j]).1.key != ps[i].1.key by {
            assert(ps.drop_last()[j] == ps[j]);
        }
        attentions_are_their_own_contexts(start, ps.drop_last(), i);
    }
}

/// A text is found where it first stands, if it stands anywhere.
pub proof fn a_text_is_found_where_it_first_stands(s: Seq<char>, p: Seq<char>)
    ensures
        match first_at(s, p) {
            Some(n) => n <= s.len() && starts_with(s.skip(n as int), p) && forall|k: int|
                0 <= k < n ==> !(#[trigger] starts_with(s.skip(k), p)),
            None => forall|k: int| 0 <= k <= s.len() ==> !(#[trigger] starts_with(s.skip(k), p)),
        },
    decreases s.len(),
{
    assert(s.skip(0) =~= s);
    if !starts_with(s, p) && s.len() > 0 {
        let t = s.skip(1);
        a_text_is_found_where_it_first_stands(t, p);
        assert forall|k: int| 1 <= k <= s.len() implies #[trigger] s.skip(k) == t.skip(k - 1) by {
            assert(s.skip(k) =~= t.skip(k - 1));
        }
    }
}

/// A line of a plain index says of a tensor, in this order, its name, type,
/// sizes, first byte and bytes.
pub proof fn a_plain_line_says_its_tensor(line: Seq<char>, name: Seq<char>, e: EntryView)
    requires
        plain_entry_of(line) == Ok::<(Seq<char>, EntryView), Seq<char>>((name, e)),
    ensures
        words(line).len() == 5,
        name == words(line)[0],
        dtype_named(words(line)[1]) == Some(e.dtype),
        dims_of(pieces(words(line)[2], ',')) == Some(e.shape),
        usize::from_text(words(line)[3]) == Some(e.off as usize),
        usize::from_text(words(line)[4]) == Some(e.len as usize),
        e.off % 8 == 0,
{
}

/// A plain index's tensor is the one of the last line that names it.
pub proof fn the_last_line_of_a_name_counts(ls: Seq<Seq<char>>, i: int)
    requires
        plain_index_of(ls) is Ok,
        0 <= i < ls.len(),
        forall|j: int| i < j < ls.len() ==> plain_entry_of(#[trigger] ls[j])->Ok_0.0 != plain_entry_of(ls[i])->Ok_0.0,
    ensures
        plain_entry_of(ls[i]) is Ok,
        plain_index_of(ls)->Ok_0.contains_key(plain_entry_of(ls[i])->Ok_0.0),
        plain_index_of(ls)->Ok_0[plain_entry_of(ls[i])->Ok_0.0] == plain_entry_of(ls[i])->Ok_0.1,
    decreases ls.len(),
{
    if i < ls.len() - 1 {
        let t = ls.drop_last();
        assert(plain_entry_of(ls[ls.len() - 1])->Ok_0.0 != plain_entry_of(ls[i])->Ok_0.0);
        assert forall|j: int| i < j < t.len() implies plain_entry_of(#[trigger] t[j])->Ok_0.0 != plain_entry_of(ls[i])->Ok_0.0 by {
            assert(t[j] == ls[j]);
        }
        the_last_line_of_a_name_counts(t, i);
    }
}

/// A file of single-precision values holds them four bytes each, the lowest
/// first.
pub proof fn values_are_four_bytes(b: Seq<u8>, i: int)
    requires
        0 <= i < b.len() as int / 4,
    ensures
        floats_of(b).len() == b.len() as int / 4,
        floats_of(b)[i] == b[4 * i] + 256 * b[4 * i + 1] + 65536 * b[4 * i + 2] + 16777216 * b[4 * i + 3],
{
}

} // verus!
