//! What a program computes, whatever registers it goes through: the value it
//! leaves in a register as a term over the values it started from.

use crate::sam3::Error;
use crate::sam3_machine::{runs_to, step_gives, step_to, trace, Fault, ModelView, Parts};
use crate::sam3_steps::{Op, Reg, StepView};
use crate::sam3_values::{Value, ValueView};
use vstd::prelude::*;

verus! {

/// A value: what a register held at the start, or what a step gives of
/// other values.
pub enum Term {
    Held(Reg),
    Of0(Op, Seq<char>),
    Of1(Op, Seq<char>, Box<Term>),
    Of2(Op, Seq<char>, Box<Term>, Box<Term>),
    Of3(Op, Seq<char>, Box<Term>, Box<Term>, Box<Term>),
    Of4(Op, Seq<char>, Box<Term>, Box<Term>, Box<Term>, Box<Term>),
    Of5(Op, Seq<char>, Box<Term>, Box<Term>, Box<Term>, Box<Term>, Box<Term>),
}

pub type Terms = Map<Reg, Term>;

/// The value of a step that takes nothing from a register.
pub open spec fn given(op: Op, name: Seq<char>) -> Term {
    Term::Of0(op, name)
}

pub open spec fn of(op: Op, name: Seq<char>, a: Term) -> Term {
    Term::Of1(op, name, Box::new(a))
}

pub open spec fn of2(op: Op, name: Seq<char>, a: Term, b: Term) -> Term {
    Term::Of2(op, name, Box::new(a), Box::new(b))
}

pub open spec fn of3(op: Op, name: Seq<char>, a: Term, b: Term, c: Term) -> Term {
    Term::Of3(op, name, Box::new(a), Box::new(b), Box::new(c))
}

pub open spec fn of4(op: Op, name: Seq<char>, a: Term, b: Term, c: Term, d: Term) -> Term {
    Term::Of4(op, name, Box::new(a), Box::new(b), Box::new(c), Box::new(d))
}

pub open spec fn of5(op: Op, name: Seq<char>, a: Term, b: Term, c: Term, d: Term, e: Term) -> Term {
    Term::Of5(op, name, Box::new(a), Box::new(b), Box::new(c), Box::new(d), Box::new(e))
}

/// What register `r` holds.
pub open spec fn held(t: Terms, r: Reg) -> Term {
    if t.contains_key(r) {
        t[r]
    } else {
        Term::Held(r)
    }
}

/// What a step gives.
pub open spec fn given_by(s: StepView, t: Terms) -> Term {
    if s.from.len() == 0 {
        given(s.op, s.name)
    } else if s.from.len() == 1 {
        of(s.op, s.name, held(t, s.from[0]))
    } else if s.from.len() == 2 {
        of2(s.op, s.name, held(t, s.from[0]), held(t, s.from[1]))
    } else if s.from.len() == 3 {
        of3(s.op, s.name, held(t, s.from[0]), held(t, s.from[1]), held(t, s.from[2]))
    } else if s.from.len() == 4 {
        of4(s.op, s.name, held(t, s.from[0]), held(t, s.from[1]), held(t, s.from[2]), held(t, s.from[3]))
    } else {
        of5(
            s.op,
            s.name,
            held(t, s.from[0]),
            held(t, s.from[1]),
            held(t, s.from[2]),
            held(t, s.from[3]),
            held(t, s.from[4]),
        )
    }
}

/// The registers after the first `n` steps.
pub open spec fn flows(p: Seq<StepView>, n: nat, t: Terms) -> Terms
    decreases n,
{
    if n == 0 {
        t
    } else {
        let before = flows(p, (n - 1) as nat, t);
        before.insert(p[n - 1].to, given_by(p[n - 1], before))
    }
}

/// The registers after a whole program.
pub open spec fn flow(p: Seq<StepView>, t: Terms) -> Terms {
    flows(p, p.len(), t)
}

proof fn flows_of_prefix(p: Seq<StepView>, q: Seq<StepView>, n: nat, t: Terms)
    requires
        n <= p.len(),
    ensures
        flows(p + q, n, t) == flows(p, n, t),
    decreases n,
{
    if n > 0 {
        flows_of_prefix(p, q, (n - 1) as nat, t);
        assert((p + q)[n - 1] == p[n - 1]);
    }
}

proof fn flows_of_suffix(p: Seq<StepView>, q: Seq<StepView>, n: nat, t: Terms)
    requires
        n <= q.len(),
    ensures
        flows(p + q, p.len() + n, t) == flows(q, n, flow(p, t)),
    decreases n,
{
    if n == 0 {
        flows_of_prefix(p, q, p.len(), t);
    } else {
        flows_of_suffix(p, q, (n - 1) as nat, t);
        assert((p + q)[p.len() + n - 1] == q[n - 1]);
    }
}

/// One program after another computes on what the first left.
pub proof fn flow_in_turn(p: Seq<StepView>, q: Seq<StepView>, t: Terms)
    ensures
        flow(p + q, t) == flow(q, flow(p, t)),
{
    flows_of_suffix(p, q, q.len(), t);
}

/// Value `v` is what a step of kind `op` on tensor `name` gives of operands
/// for which each of `want` holds in turn.
pub open spec fn gives<
    P: Fn(u32, u32) -> u32,
    M: Fn(u32, u32) -> u32,
    E: Fn(&Op, u32) -> u32,
    C: Fn(&Op, &Vec<&Value>, &Vec<Value>) -> Result<Value, Error>,
    D: Fn(&Op, &String, &Vec<&Value>) -> Result<Value, Error>,
>(
    parts: &Parts<P, M, E, C, D>,
    m: ModelView,
    op: Op,
    name: Seq<char>,
    want: Seq<spec_fn(ValueView) -> bool>,
    v: ValueView,
) -> bool {
    exists|s: StepView, y: Map<Reg, ValueView>| #[trigger]
        step_gives(parts, m, s, y, Ok::<ValueView, Fault>(v)) && s.op == op && s.name == name && s.from.len() == want.len()
            && forall|k: int| 0 <= k < want.len() && y.contains_key(#[trigger] s.from[k]) ==> want[k](y[s.from[k]])
}

/// Term `t` can come to value `v` from the registers `x`.
pub open spec fn comes_to<
    P: Fn(u32, u32) -> u32,
    M: Fn(u32, u32) -> u32,
    E: Fn(&Op, u32) -> u32,
    C: Fn(&Op, &Vec<&Value>, &Vec<Value>) -> Result<Value, Error>,
    D: Fn(&Op, &String, &Vec<&Value>) -> Result<Value, Error>,
>(
    parts: &Parts<P, M, E, C, D>,
    m: ModelView,
    t: Term,
    x: Map<Reg, ValueView>,
    v: ValueView,
) -> bool
    decreases t,
{
    match t {
        Term::Held(r) => x.contains_key(r) && x[r] == v,
        Term::Of0(op, name) => gives(parts, m, op, name, seq![], v),
        Term::Of1(op, name, a) => gives(
            parts,
            m,
            op,
            name,
            seq![|u: ValueView| comes_to(parts, m, *a, x, u)],
            v,
        ),
        Term::Of2(op, name, a, b) => gives(
            parts,
            m,
            op,
            name,
            seq![|u: ValueView| comes_to(parts, m, *a, x, u), |u: ValueView| comes_to(parts, m, *b, x, u)],
            v,
        ),
        Term::Of3(op, name, a, b, c) => gives(
            parts,
            m,
            op,
            name,
            seq![|u: ValueView| comes_to(parts, m, *a, x, u), |u: ValueView| comes_to(parts, m, *b, x, u), |u: ValueView| comes_to(parts, m, *c, x, u)],
            v,
        ),
        Term::Of4(op, name, a, b, c, d) => gives(
            parts,
            m,
            op,
            name,
            seq![|u: ValueView| comes_to(parts, m, *a, x, u), |u: ValueView| comes_to(parts, m, *b, x, u), |u: ValueView| comes_to(parts, m, *c, x, u), |u: ValueView| comes_to(parts, m, *d, x, u)],
            v,
        ),
        Term::Of5(op, name, a, b, c, d, e) => gives(
            parts,
            m,
            op,
            name,
            seq![|u: ValueView| comes_to(parts, m, *a, x, u), |u: ValueView| comes_to(parts, m, *b, x, u), |u: ValueView| comes_to(parts, m, *c, x, u), |u: ValueView| comes_to(parts, m, *d, x, u), |u: ValueView| comes_to(parts, m, *e, x, u)],
            v,
        ),
    }
}

/// No step takes more than five registers.
pub open spec fn narrow_steps(p: Seq<StepView>) -> bool {
    forall|k: int| 0 <= k < p.len() ==> (#[trigger] p[k]).from.len() <= 5
}

proof fn held_so_far<
    P: Fn(u32, u32) -> u32,
    M: Fn(u32, u32) -> u32,
    E: Fn(&Op, u32) -> u32,
    C: Fn(&Op, &Vec<&Value>, &Vec<Value>) -> Result<Value, Error>,
    D: Fn(&Op, &String, &Vec<&Value>) -> Result<Value, Error>,
>(
    parts: &Parts<P, M, E, C, D>,
    m: ModelView,
    p: Seq<StepView>,
    x: Map<Reg, ValueView>,
    tr: Seq<Map<Reg, ValueView>>,
    n: int,
    k: nat,
)
    requires
        trace(parts, m, p, x, tr, n),
        narrow_steps(p),
        k <= n,
    ensures
        forall|r: Reg| #[trigger] tr[k as int].contains_key(r) ==> comes_to(
            parts,
            m,
            held(flows(p, k, Terms::empty()), r),
            x,
            tr[k as int][r],
        ),
    decreases k,
{
    if k > 0 {
        held_so_far(parts, m, p, x, tr, n, (k - 1) as nat);
        let (s, y, z) = (p[k - 1], tr[k - 1], tr[k as int]);
        assert(step_to(parts, m, p[k - 1], tr[k - 1], tr[k - 1 + 1]));
        let t = flows(p, (k - 1) as nat, Terms::empty());
        let v = z[s.to];
        assert(comes_to(parts, m, given_by(s, t), x, v)) by {
            assert(s.from.len() <= 5);
            if s.from.len() == 0 {
                let want: Seq<spec_fn(ValueView) -> bool> = seq![];
                assert(gives(parts, m, s.op, s.name, want, v));
            } else if s.from.len() == 1 {
                let want: Seq<spec_fn(ValueView) -> bool> = seq![|u: ValueView| comes_to(parts, m, held(t, s.from[0]), x, u)];
                assert(y.contains_key(s.from[0]) ==> want[0](y[s.from[0]]));
                assert(gives(parts, m, s.op, s.name, want, v));
            } else if s.from.len() == 2 {
                let want: Seq<spec_fn(ValueView) -> bool> = seq![|u: ValueView| comes_to(parts, m, held(t, s.from[0]), x, u), |u: ValueView| comes_to(parts, m, held(t, s.from[1]), x, u)];
                assert(y.contains_key(s.from[0]) ==> want[0](y[s.from[0]]));
                assert(y.contains_key(s.from[1]) ==> want[1](y[s.from[1]]));
                assert(gives(parts, m, s.op, s.name, want, v));
            } else if s.from.len() == 3 {
                let want: Seq<spec_fn(ValueView) -> bool> = seq![|u: ValueView| comes_to(parts, m, held(t, s.from[0]), x, u), |u: ValueView| comes_to(parts, m, held(t, s.from[1]), x, u), |u: ValueView| comes_to(parts, m, held(t, s.from[2]), x, u)];
                assert(y.contains_key(s.from[0]) ==> want[0](y[s.from[0]]));
                assert(y.contains_key(s.from[1]) ==> want[1](y[s.from[1]]));
                assert(y.contains_key(s.from[2]) ==> want[2](y[s.from[2]]));
                assert(gives(parts, m, s.op, s.name, want, v));
            } else if s.from.len() == 4 {
                let want: Seq<spec_fn(ValueView) -> bool> = seq![|u: ValueView| comes_to(parts, m, held(t, s.from[0]), x, u), |u: ValueView| comes_to(parts, m, held(t, s.from[1]), x, u), |u: ValueView| comes_to(parts, m, held(t, s.from[2]), x, u), |u: ValueView| comes_to(parts, m, held(t, s.from[3]), x, u)];
                assert(y.contains_key(s.from[0]) ==> want[0](y[s.from[0]]));
                assert(y.contains_key(s.from[1]) ==> want[1](y[s.from[1]]));
                assert(y.contains_key(s.from[2]) ==> want[2](y[s.from[2]]));
                assert(y.contains_key(s.from[3]) ==> want[3](y[s.from[3]]));
                assert(gives(parts, m, s.op, s.name, want, v));
            } else {
                let want: Seq<spec_fn(ValueView) -> bool> = seq![|u: ValueView| comes_to(parts, m, held(t, s.from[0]), x, u), |u: ValueView| comes_to(parts, m, held(t, s.from[1]), x, u), |u: ValueView| comes_to(parts, m, held(t, s.from[2]), x, u), |u: ValueView| comes_to(parts, m, held(t, s.from[3]), x, u), |u: ValueView| comes_to(parts, m, held(t, s.from[4]), x, u)];
                assert(y.contains_key(s.from[0]) ==> want[0](y[s.from[0]]));
                assert(y.contains_key(s.from[1]) ==> want[1](y[s.from[1]]));
                assert(y.contains_key(s.from[2]) ==> want[2](y[s.from[2]]));
                assert(y.contains_key(s.from[3]) ==> want[3](y[s.from[3]]));
                assert(y.contains_key(s.from[4]) ==> want[4](y[s.from[4]]));
                assert(gives(parts, m, s.op, s.name, want, v));
            }
        }
        assert forall|r: Reg| #[trigger] z.contains_key(r) implies comes_to(
            parts,
            m,
            held(flows(p, k, Terms::empty()), r),
            x,
            z[r],
        ) by {
            if r != s.to {
                assert(y.contains_key(r));
            }
        }
    }
}

/// What a run leaves in a register is a value of the term its program
/// computes there.
pub proof fn a_run_leaves_its_terms<
    P: Fn(u32, u32) -> u32,
    M: Fn(u32, u32) -> u32,
    E: Fn(&Op, u32) -> u32,
    C: Fn(&Op, &Vec<&Value>, &Vec<Value>) -> Result<Value, Error>,
    D: Fn(&Op, &String, &Vec<&Value>) -> Result<Value, Error>,
>(
    parts: &Parts<P, M, E, C, D>,
    m: ModelView,
    p: Seq<StepView>,
    x: Map<Reg, ValueView>,
    y: Map<Reg, ValueView>,
    r: Reg,
)
    requires
        runs_to(parts, m, p, x, Ok::<(), Fault>(()), y),
        narrow_steps(p),
        y.contains_key(r),
    ensures
        comes_to(parts, m, held(flow(p, Terms::empty()), r), x, y[r]),
{
    let (tr, n) = choose|tr: Seq<Map<Reg, ValueView>>, n: int| #[trigger]
        trace(parts, m, p, x, tr, n) && y == tr.last() && n == p.len();
    held_so_far(parts, m, p, x, tr, n, n as nat);
    assert(tr[n] == y);
}

} // verus!
