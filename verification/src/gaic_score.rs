//! Scoring crops: boxes a group at a time through the first fully connected
//! layer on the device, its bias and ReLU and the rest of the head on the
//! host.

use crate::arith::{index_parts, split_index};
use crate::bf16::{bf16_to_f32, f32_to_bf16, larger, larger_of, narrow, wide};
use crate::gaic::relu_sum;
use crate::gaic_bundle::Error;
use vstd::prelude::*;

verus! {

/// The first layer as its kernel takes it: `rows` boxes at a time, their
/// features padded to `k_pad`, `n` outputs.
pub struct Fc1 {
    pub k_pad: usize,
    pub n: usize,
    pub rows: usize,
    pub bias: Vec<u32>,
}

impl Fc1 {
    pub open spec fn wf(&self) -> bool {
        &&& self.rows > 0
        &&& self.rows * self.k_pad <= usize::MAX
        &&& self.rows * self.n <= usize::MAX
        &&& self.bias.len() == self.n
    }

    /// Box `r` of a group in the A operand: its features rounded, zeros
    /// after them; zeros in the rows past the group.
    pub open spec fn operand_at(&self, feats: Seq<Vec<u32>>, r: int, e: int) -> u16 {
        if 0 <= r < feats.len() && e < feats[r].len() {
            narrow(feats[r][e])
        } else {
            0
        }
    }

    pub open spec fn operand(&self, feats: Seq<Vec<u32>>) -> Seq<u16> {
        Seq::new(
            (self.rows * self.k_pad) as nat,
            |i: int| self.operand_at(feats, i / (self.k_pad as int), i % (self.k_pad as int)),
        )
    }
}

/// The features, the A operand, the answer and the hidden values of a group.
pub struct GroupRun {
    pub feats: Seq<Vec<u32>>,
    pub a: Vec<u16>,
    pub c: Vec<u16>,
    pub hidden: Seq<Vec<u32>>,
}

/// `h1` are the hidden values of row `r` of an answer.
pub open spec fn is_hidden<A: Fn(u32, u32) -> u32>(l: Fc1, c: Seq<u16>, r: int, plus: A, h1: Seq<u32>) -> bool {
    &&& h1.len() == l.n
    &&& forall|j: int| 0 <= j < l.n ==> relu_sum(plus, wide(c[r * l.n + j]), l.bias[j], #[trigger] h1[j])
}

/// The features of boxes `first..first + count` are what `f` says.
pub open spec fn is_featured<F: Fn(usize) -> Vec<u32>>(f: F, first: usize, feats: Seq<Vec<u32>>, count: nat) -> bool {
    &&& feats.len() == count
    &&& forall|i: int| 0 <= i < count ==> call_ensures(f, ((first + i) as usize,), #[trigger] feats[i])
}

/// `s` are the scores of boxes `first..first + count` in run `t`.
pub open spec fn group_runs<
    F: Fn(usize) -> Vec<u32>,
    D: Fn(&Vec<u16>) -> Result<Vec<u16>, String>,
    A: Fn(u32, u32) -> u32,
    H: Fn(&Vec<u32>) -> u32,
>(l: Fc1, first: usize, count: nat, f: F, dev: D, plus: A, head: H, t: GroupRun, s: Seq<u32>) -> bool {
    &&& is_featured(f, first, t.feats, count)
    &&& t.a@ == l.operand(t.feats)
    &&& call_ensures(dev, (&t.a,), Ok(t.c))
    &&& t.hidden.len() == count && s.len() == count
    &&& forall|i: int|
        0 <= i < count ==> is_hidden(l, t.c@, i, plus, (#[trigger] t.hidden[i])@) && call_ensures(head, (&t.hidden[i],), s[i])
}

/// `s` are scores of boxes `first..first + count`.
pub open spec fn is_group<
    F: Fn(usize) -> Vec<u32>,
    D: Fn(&Vec<u16>) -> Result<Vec<u16>, String>,
    A: Fn(u32, u32) -> u32,
    H: Fn(&Vec<u32>) -> u32,
>(l: Fc1, first: usize, count: nat, f: F, dev: D, plus: A, head: H, s: Seq<u32>) -> bool {
    exists|t: GroupRun| group_runs(l, first, count, f, dev, plus, head, t, s)
}

/// The device refused the operand of boxes `first..first + count`, for which
/// it said `m`.
pub open spec fn group_refused<F: Fn(usize) -> Vec<u32>, D: Fn(&Vec<u16>) -> Result<Vec<u16>, String>>(
    l: Fc1,
    first: usize,
    count: nat,
    f: F,
    dev: D,
    m: Seq<char>,
) -> bool {
    exists|feats: Seq<Vec<u32>>, a: Vec<u16>, s: String|
        #[trigger] is_featured(f, first, feats, count) && a@ == l.operand(feats) && #[trigger] call_ensures(
            dev,
            (&a,),
            Err::<Vec<u16>, String>(s),
        ) && s@ == m
}

/// The device takes every operand, and answers with a value for every row and
/// output.
pub open spec fn scores_answered<D: Fn(&Vec<u16>) -> Result<Vec<u16>, String>>(l: Fc1, dev: D) -> bool {
    &&& forall|a: &Vec<u16>| call_requires(dev, (a,))
    &&& forall|a: &Vec<u16>, r: Vec<u16>| #[trigger]
        call_ensures(dev, (a,), Ok::<Vec<u16>, String>(r)) ==> r.len() >= l.rows * l.n
}

fn features_of<F: Fn(usize) -> Vec<u32>>(first: usize, count: usize, f: &F) -> (r: Vec<Vec<u32>>)
    requires
        first + count <= usize::MAX,
        forall|i: usize| first <= i < first + count ==> call_requires(*f, (i,)),
    ensures
        is_featured(*f, first, r@, count as nat),
{
    let mut out: Vec<Vec<u32>> = Vec::new();
    let mut i: usize = 0;
    while i < count
        invariant
            i <= count,
            first + count <= usize::MAX,
            forall|i: usize| first <= i < first + count ==> call_requires(*f, (i,)),
            is_featured(*f, first, out@, i as nat),
        decreases count - i,
    {
        let v: Vec<u32> = f(first + i);
        out.push(v);
        i += 1;
    }
    out
}

fn operand_of(l: &Fc1, feats: &Vec<Vec<u32>>) -> (r: Vec<u16>)
    requires
        l.wf(),
    ensures
        r@ == l.operand(feats@),
{
    let total: usize = l.rows * l.k_pad;
    let mut out: Vec<u16> = Vec::new();
    let mut i: usize = 0;
    while i < total
        invariant
            i <= total,
            total == l.rows * l.k_pad,
            out.len() == i,
            forall|j: int| 0 <= j < i ==> #[trigger] out[j] == l.operand(feats@)[j],
        decreases total - i,
    {
        proof {
            assert(l.k_pad > 0) by (nonlinear_arith)
                requires
                    i < l.rows * l.k_pad,
            ;
            index_parts(i as int, l.rows as int, l.k_pad as int);
        }
        let (r, e): (usize, usize) = (i / l.k_pad, i % l.k_pad);
        let v: u16 = if r < feats.len() && e < feats[r].len() {
            f32_to_bf16(feats[r][e])
        } else {
            0
        };
        out.push(v);
        i += 1;
    }
    proof {
        assert(out@ =~= l.operand(feats@));
    }
    out
}

fn hidden_of<A: Fn(u32, u32) -> u32>(l: &Fc1, c: &Vec<u16>, r: usize, plus: &A) -> (h1: Vec<u32>)
    requires
        l.wf(),
        r < l.rows,
        c.len() >= l.rows * l.n,
        forall|x: u32, y: u32| call_requires(*plus, (x, y)),
    ensures
        is_hidden(*l, c@, r as int, *plus, h1@),
{
    let mut out: Vec<u32> = Vec::new();
    let mut j: usize = 0;
    while j < l.n
        invariant
            j <= l.n,
            l.wf(),
            r < l.rows,
            c.len() >= l.rows * l.n,
            forall|x: u32, y: u32| call_requires(*plus, (x, y)),
            out.len() == j,
            forall|k: int| 0 <= k < j ==> relu_sum(*plus, wide(c@[r * l.n + k]), l.bias[k], #[trigger] out[k]),
        decreases l.n - j,
    {
        proof {
            assert(r * l.n + j < l.rows * l.n) by (nonlinear_arith)
                requires
                    r < l.rows,
                    j < l.n,
            ;
            assert(r * l.n >= 0) by (nonlinear_arith);
        }
        let s: u32 = plus(bf16_to_f32(c[r * l.n + j]), l.bias[j]);
        let v: u32 = larger_of(s, 0);
        assert(relu_sum(*plus, wide(c@[r * l.n + j]), l.bias[j as int], v)) by {
            assert(v == larger(s, 0));
        }
        out.push(v);
        j += 1;
    }
    out
}

/// Scores boxes `first..first + count`: their features (`f`) rounded into the
/// kernel's operand, its answer (`dev`) biased and cut off at zero, and the
/// rest of the head (`head`).
pub fn score_group<
    F: Fn(usize) -> Vec<u32>,
    D: Fn(&Vec<u16>) -> Result<Vec<u16>, String>,
    A: Fn(u32, u32) -> u32,
    H: Fn(&Vec<u32>) -> u32,
>(l: &Fc1, first: usize, count: usize, f: &F, dev: &D, plus: &A, head: &H) -> (r: Result<Vec<u32>, Error>)
    requires
        l.wf(),
        count <= l.rows,
        first + count <= usize::MAX,
        forall|i: usize| first <= i < first + count ==> call_requires(*f, (i,)),
        scores_answered(*l, *dev),
        forall|x: u32, y: u32| call_requires(*plus, (x, y)),
        forall|h: &Vec<u32>| call_requires(*head, (h,)),
    ensures
        match r {
            Ok(s) => is_group(*l, first, count as nat, *f, *dev, *plus, *head, s@),
            Err(e) => e matches Error::Npu(m) && group_refused(*l, first, count as nat, *f, *dev, m@),
        },
{
    let feats: Vec<Vec<u32>> = features_of(first, count, f);
    let a: Vec<u16> = operand_of(l, &feats);
    let c: Vec<u16> = match dev(&a) {
        Ok(c) => c,
        Err(m) => {
            return Err(Error::Npu(m));
        },
    };
    let mut hidden: Vec<Vec<u32>> = Vec::new();
    let mut s: Vec<u32> = Vec::new();
    let mut i: usize = 0;
    while i < count
        invariant
            l.wf(),
            count <= l.rows,
            c.len() >= l.rows * l.n,
            forall|x: u32, y: u32| call_requires(*plus, (x, y)),
            forall|h: &Vec<u32>| call_requires(*head, (h,)),
            i <= count,
            hidden.len() == i,
            s.len() == i,
            forall|k: int|
                0 <= k < i ==> is_hidden(*l, c@, k, *plus, (#[trigger] hidden[k])@) && call_ensures(*head, (&hidden[k],), s[k]),
        decreases count - i,
    {
        let h1: Vec<u32> = hidden_of(l, &c, i, plus);
        let v: u32 = head(&h1);
        hidden.push(h1);
        s.push(v);
        i += 1;
    }
    proof {
        let t = GroupRun { feats: feats@, a, c, hidden: hidden@ };
        assert(group_runs(*l, first, count as nat, *f, *dev, *plus, *head, t, s@));
    }
    Ok(s)
}

/// The boxes of group `g` of `n`.
pub open spec fn group_size(l: Fc1, n: nat, g: nat) -> nat {
    let first = g * (l.rows as nat);
    if n - first < l.rows {
        (n - first) as nat
    } else {
        (l.rows as nat)
    }
}

/// Group `g` of `n` boxes has its scores at its place in `s`.
pub open spec fn group_scored<
    F: Fn(usize) -> Vec<u32>,
    D: Fn(&Vec<u16>) -> Result<Vec<u16>, String>,
    A: Fn(u32, u32) -> u32,
    H: Fn(&Vec<u32>) -> u32,
>(l: Fc1, n: nat, g: nat, f: F, dev: D, plus: A, head: H, s: Seq<u32>) -> bool {
    let first = g * (l.rows as nat);
    is_group(
        l,
        first as usize,
        group_size(l, n, g),
        f,
        dev,
        plus,
        head,
        s.subrange(first as int, (first + group_size(l, n, g)) as int),
    )
}

/// Some group of `n` boxes was refused.
pub open spec fn some_refused<F: Fn(usize) -> Vec<u32>, D: Fn(&Vec<u16>) -> Result<Vec<u16>, String>>(
    l: Fc1,
    n: nat,
    f: F,
    dev: D,
    m: Seq<char>,
) -> bool {
    exists|g: nat|
        g * (l.rows as nat) <= n && #[trigger] group_refused(l, (g * (l.rows as nat)) as usize, group_size(l, n, g), f, dev, m)
}

/// Scores `n` boxes, as many at a time as the kernel takes; the first group
/// the device refuses ends it.
pub fn score<
    F: Fn(usize) -> Vec<u32>,
    D: Fn(&Vec<u16>) -> Result<Vec<u16>, String>,
    A: Fn(u32, u32) -> u32,
    H: Fn(&Vec<u32>) -> u32,
>(l: &Fc1, n: usize, f: &F, dev: &D, plus: &A, head: &H) -> (r: Result<Vec<u32>, Error>)
    requires
        l.wf(),
        forall|i: usize| i < n ==> call_requires(*f, (i,)),
        scores_answered(*l, *dev),
        forall|x: u32, y: u32| call_requires(*plus, (x, y)),
        forall|h: &Vec<u32>| call_requires(*head, (h,)),
    ensures
        match r {
            Ok(s) => s.len() == n && forall|g: nat|
                g * (l.rows as nat) < n ==> #[trigger] group_scored(*l, n as nat, g, *f, *dev, *plus, *head, s@),
            Err(e) => e matches Error::Npu(m) && some_refused(*l, n as nat, *f, *dev, m@),
        },
{
    let mut out: Vec<u32> = Vec::new();
    let mut first: usize = 0;
    let ghost mut g: nat = 0;
    proof {
        assert(0nat * (l.rows as nat) == 0) by (nonlinear_arith);
    }
    while first < n
        invariant
            l.wf(),
            forall|i: usize| i < n ==> call_requires(*f, (i,)),
            scores_answered(*l, *dev),
            forall|x: u32, y: u32| call_requires(*plus, (x, y)),
            forall|h: &Vec<u32>| call_requires(*head, (h,)),
            first <= n,
            out.len() == first,
            first < n ==> first == g * (l.rows as nat),
            first == n ==> n <= g * (l.rows as nat),
            forall|k: nat| k < g ==> #[trigger] group_scored(*l, n as nat, k, *f, *dev, *plus, *head, out@),
            forall|k: nat| k < g ==> #[trigger] (k * (l.rows as nat)) + group_size(*l, n as nat, k) <= first,
        decreases n - first,
    {
        let count: usize = if n - first < l.rows {
            n - first
        } else {
            l.rows
        };
        let mut s: Vec<u32> = match score_group(l, first, count, f, dev, plus, head) {
            Ok(s) => s,
            Err(e) => {
                proof {
                    assert(e matches Error::Npu(m) && group_refused(
                        *l,
                        (g * (l.rows as nat)) as usize,
                        group_size(*l, n as nat, g),
                        *f,
                        *dev,
                        m@,
                    ));
                }
                return Err(e);
            },
        };
        let ghost was = out@;
        let ghost new = s@;
        proof {
            let t = choose|t: GroupRun| group_runs(*l, first, count as nat, *f, *dev, *plus, *head, t, new);
            assert(group_runs(*l, first, count as nat, *f, *dev, *plus, *head, t, new));
            assert(new.len() == count);
        }
        out.append(&mut s);
        proof {
            assert(out@ =~= was + new);
            assert forall|k: nat| k < g + 1 implies #[trigger] group_scored(*l, n as nat, k, *f, *dev, *plus, *head, out@) by {
                let a = k * (l.rows as nat);
                let b = a + group_size(*l, n as nat, k);
                if k < g {
                    assert(group_scored(*l, n as nat, k, *f, *dev, *plus, *head, was));
                    assert((k * (l.rows as nat)) + group_size(*l, n as nat, k) <= first);
                    assert(out@.subrange(a as int, b as int) =~= was.subrange(a as int, b as int));
                } else {
                    assert(out@.subrange(a as int, b as int) =~= new);
                }
            }
            assert((g + 1) * (l.rows as nat) == g * (l.rows as nat) + (l.rows as nat)) by (nonlinear_arith);
            g = g + 1;
        }
        first = first + count;
    }
    proof {
        assert forall|k: nat| k * (l.rows as nat) < n implies #[trigger] group_scored(
            *l,
            n as nat,
            k,
            *f,
            *dev,
            *plus,
            *head,
            out@,
        ) by {
            assert(k < g) by (nonlinear_arith)
                requires
                    k * (l.rows as nat) < n,
                    n <= g * (l.rows as nat),
            ;
        }
    }
    Ok(out)
}

/// Box `i` is row `i % rows` of group `i / rows`: its place among all scores
/// is its place in its group after the groups before.
pub proof fn boxes_find_their_group(l: Fc1, n: nat, i: nat)
    requires
        l.wf(),
        i < n,
    ensures
        (i / (l.rows as nat)) * (l.rows as nat) <= i,
        i - (i / (l.rows as nat)) * (l.rows as nat) == i % (l.rows as nat),
        i % (l.rows as nat) < group_size(l, n, i / (l.rows as nat)),
{
    let rows = l.rows as int;
    vstd::arithmetic::div_mod::lemma_fundamental_div_mod(i as int, rows);
    let q = i as int / rows;
    assert(q * rows == rows * q) by (nonlinear_arith);
    assert(q >= 0) by {
        vstd::arithmetic::div_mod::lemma_div_pos_is_pos(i as int, rows);
    }
    split_index(q, i as int % rows, rows);
}

/// The dispatches that scoring `boxes` boxes takes, `rows` at a time.
pub fn dispatches(boxes: usize, rows: usize) -> (r: usize)
    requires
        rows > 0,
    ensures
        boxes <= r * rows,
        r > 0 ==> (r - 1) * rows < boxes,
{
    let whole: usize = boxes / rows;
    let rest: usize = boxes % rows;
    proof {
        vstd::arithmetic::div_mod::lemma_fundamental_div_mod(boxes as int, rows as int);
        assert(rows * whole == whole * rows) by (nonlinear_arith);
        assert((whole - 1) * rows == whole * rows - rows && (whole + 1) * rows == whole * rows + rows) by (nonlinear_arith);
        assert(whole <= whole * rows) by (nonlinear_arith)
            requires
                rows >= 1,
                whole >= 0,
        ;
    }
    if rest == 0 {
        whole
    } else {
        whole + 1
    }
}

} // verus!
