//! What the registers of a SAM 3 program hold while it runs.
//!
//! Single precision stands as bits, half precision as bfloat16.

use crate::sam3_steps::{Reg, Step, StepView};
use vstd::prelude::*;

verus! {

/// What a register holds.
#[derive(Debug, Clone)]
pub enum Value {
    /// Single precision, as bits.
    Reals(Vec<u32>),
    /// Half precision.
    Halves(Vec<u16>),
    Flags(Vec<bool>),
    Ids(Vec<u32>),
    /// Weights packed for a kernel.
    Packed(Vec<u8>),
    /// Rows the device keeps, by the number it gave them.
    Resident(u64),
}

#[verifier::ext_equal]
pub enum ValueView {
    Reals(Seq<u32>),
    Halves(Seq<u16>),
    Flags(Seq<bool>),
    Ids(Seq<u32>),
    Packed(Seq<u8>),
    Resident(u64),
}

impl View for Value {
    type V = ValueView;

    open spec fn view(&self) -> ValueView {
        match self {
            Value::Reals(v) => ValueView::Reals(v@),
            Value::Halves(v) => ValueView::Halves(v@),
            Value::Flags(v) => ValueView::Flags(v@),
            Value::Ids(v) => ValueView::Ids(v@),
            Value::Packed(v) => ValueView::Packed(v@),
            Value::Resident(h) => ValueView::Resident(*h),
        }
    }
}

pub open spec fn seen(s: Seq<&Value>) -> Seq<ValueView> {
    Seq::new(s.len(), |i: int| s[i]@)
}

pub open spec fn values(s: Seq<Value>) -> Seq<ValueView> {
    Seq::new(s.len(), |i: int| s[i]@)
}

/// The registers of a running program.
#[derive(Debug)]
pub struct Machine {
    cells: Vec<(Reg, Value)>,
}

/// What the first cell of register `r` holds.
spec fn found(cells: Seq<(Reg, Value)>, r: Reg) -> Option<ValueView>
    decreases cells.len(),
{
    if cells.len() == 0 {
        None
    } else {
        match found(cells.drop_last(), r) {
            Some(v) => Some(v),
            None => if cells.last().0 == r {
                Some(cells.last().1@)
            } else {
                None
            },
        }
    }
}

proof fn found_at(cells: Seq<(Reg, Value)>, r: Reg, i: int)
    requires
        0 <= i < cells.len(),
        cells[i].0 == r,
        forall|j: int| 0 <= j < i ==> (#[trigger] cells[j]).0 != r,
    ensures
        found(cells, r) == Some(cells[i].1@),
    decreases cells.len(),
{
    if i < cells.len() - 1 {
        found_at(cells.drop_last(), r, i);
    } else {
        not_found(cells.drop_last(), r);
    }
}

proof fn not_found(cells: Seq<(Reg, Value)>, r: Reg)
    requires
        forall|j: int| 0 <= j < cells.len() ==> (#[trigger] cells[j]).0 != r,
    ensures
        found(cells, r) is None,
    decreases cells.len(),
{
    if cells.len() > 0 {
        not_found(cells.drop_last(), r);
        assert(cells[cells.len() - 1].0 != r);
    }
}

/// Writing a cell of register `r` changes no other register.
proof fn found_elsewhere(cells: Seq<(Reg, Value)>, i: int, c: (Reg, Value), q: Reg)
    requires
        0 <= i < cells.len(),
        cells[i].0 == c.0,
        q != c.0,
    ensures
        found(cells.update(i, c), q) == found(cells, q),
    decreases cells.len(),
{
    let new = cells.update(i, c);
    if i < cells.len() - 1 {
        assert(new.drop_last() =~= cells.drop_last().update(i, c));
        found_elsewhere(cells.drop_last(), i, c, q);
    } else {
        assert(new.drop_last() =~= cells.drop_last());
    }
}

impl View for Machine {
    type V = Map<Reg, ValueView>;

    closed spec fn view(&self) -> Map<Reg, ValueView> {
        Map::new(|r: Reg| found(self.cells@, r) is Some, |r: Reg| found(self.cells@, r)->0)
    }
}

impl Machine {
    /// Nothing in any register.
    pub fn new() -> (r: Machine)
        ensures
            r@ == Map::<Reg, ValueView>::empty(),
    {
        let r = Machine { cells: Vec::new() };
        proof {
            assert(r@ =~= Map::<Reg, ValueView>::empty());
        }
        r
    }

    fn position(&self, r: Reg) -> (at: Option<usize>)
        ensures
            match at {
                Some(i) => i < self.cells@.len() && self.cells@[i as int].0 == r && forall|j: int|
                    0 <= j < i ==> (#[trigger] self.cells@[j]).0 != r,
                None => forall|j: int| 0 <= j < self.cells@.len() ==> (#[trigger] self.cells@[j]).0 != r,
            },
    {
        let mut i: usize = 0;
        while i < self.cells.len()
            invariant
                i <= self.cells@.len(),
                forall|j: int| 0 <= j < i ==> (#[trigger] self.cells@[j]).0 != r,
            decreases self.cells@.len() - i,
        {
            if self.cells[i].0 == r {
                return Some(i);
            }
            i += 1;
        }
        None
    }

    /// What a register holds.
    pub fn get(&self, r: Reg) -> (v: Option<&Value>)
        ensures
            match v {
                Some(x) => self@.contains_key(r) && self@[r] == x@,
                None => !self@.contains_key(r),
            },
    {
        match self.position(r) {
            Some(i) => {
                proof {
                    found_at(self.cells@, r, i as int);
                }
                Some(&self.cells[i].1)
            },
            None => {
                proof {
                    not_found(self.cells@, r);
                }
                None
            },
        }
    }

    /// Gives a register a value.
    pub fn set(&mut self, r: Reg, v: Value)
        ensures
            final(self)@ == old(self)@.insert(r, v@),
    {
        let ghost was = self.cells@;
        let ghost before = self@;
        match self.position(r) {
            Some(i) => {
                let ghost cell = (r, v);
                self.cells.set(i, (r, v));
                proof {
                    found_at(self.cells@, r, i as int);
                    assert forall|q: Reg| q != r implies #[trigger] found(self.cells@, q) == found(was, q) by {
                        found_elsewhere(was, i as int, cell, q);
                    }
                    assert(self@ =~= before.insert(r, v@));
                }
            },
            None => {
                self.cells.push((r, v));
                proof {
                    not_found(was, r);
                    assert(self.cells@.drop_last() =~= was);
                    assert(self@ =~= before.insert(r, v@));
                }
            },
        }
    }
}

/// Operand `k` of step `s`, if its register holds anything.
pub open spec fn operand(regs: Map<Reg, ValueView>, s: StepView, k: int) -> Option<ValueView> {
    if 0 <= k < s.from.len() && regs.contains_key(s.from[k]) {
        Some(regs[s.from[k]])
    } else {
        None
    }
}

pub open spec fn reals(regs: Map<Reg, ValueView>, s: StepView, k: int) -> Option<Seq<u32>> {
    match operand(regs, s, k) {
        Some(ValueView::Reals(v)) => Some(v),
        _ => None,
    }
}

pub open spec fn halves(regs: Map<Reg, ValueView>, s: StepView, k: int) -> Option<Seq<u16>> {
    match operand(regs, s, k) {
        Some(ValueView::Halves(v)) => Some(v),
        _ => None,
    }
}

pub open spec fn ids(regs: Map<Reg, ValueView>, s: StepView, k: int) -> Option<Seq<u32>> {
    match operand(regs, s, k) {
        Some(ValueView::Ids(v)) => Some(v),
        _ => None,
    }
}

/// The operands of step `s`, if every register it names holds something.
pub open spec fn operands(regs: Map<Reg, ValueView>, s: StepView) -> Option<Seq<ValueView>> {
    if forall|k: int| 0 <= k < s.from.len() ==> regs.contains_key(#[trigger] s.from[k]) {
        Some(Seq::new(s.from.len(), |k: int| regs[s.from[k]]))
    } else {
        None
    }
}

impl Machine {
    pub(crate) fn operand(&self, s: &Step, k: usize) -> (r: Option<&Value>)
        ensures
            match r {
                Some(v) => operand(self@, s@, k as int) == Some(v@),
                None => operand(self@, s@, k as int) is None,
            },
    {
        if k < s.from.len() {
            self.get(s.from[k])
        } else {
            None
        }
    }

    pub(crate) fn reals(&self, s: &Step, k: usize) -> (r: Option<&Vec<u32>>)
        ensures
            match r {
                Some(v) => reals(self@, s@, k as int) == Some(v@),
                None => reals(self@, s@, k as int) is None,
            },
    {
        match self.operand(s, k) {
            Some(Value::Reals(v)) => Some(v),
            _ => None,
        }
    }

    pub(crate) fn halves(&self, s: &Step, k: usize) -> (r: Option<&Vec<u16>>)
        ensures
            match r {
                Some(v) => halves(self@, s@, k as int) == Some(v@),
                None => halves(self@, s@, k as int) is None,
            },
    {
        match self.operand(s, k) {
            Some(Value::Halves(v)) => Some(v),
            _ => None,
        }
    }

    pub(crate) fn ids(&self, s: &Step, k: usize) -> (r: Option<&Vec<u32>>)
        ensures
            match r {
                Some(v) => ids(self@, s@, k as int) == Some(v@),
                None => ids(self@, s@, k as int) is None,
            },
    {
        match self.operand(s, k) {
            Some(Value::Ids(v)) => Some(v),
            _ => None,
        }
    }

    pub(crate) fn operands(&self, s: &Step) -> (r: Option<Vec<&Value>>)
        ensures
            match r {
                Some(v) => operands(self@, s@) == Some(seen(v@)),
                None => operands(self@, s@) is None,
            },
    {
        let mut out: Vec<&Value> = Vec::new();
        let mut k: usize = 0;
        while k < s.from.len()
            invariant
                k <= s.from@.len(),
                out@.len() == k,
                forall|j: int| 0 <= j < k ==> self@.contains_key(#[trigger] s.from@[j]),
                forall|j: int| 0 <= j < k ==> (#[trigger] out@[j])@ == self@[s.from@[j]],
            decreases s.from@.len() - k,
        {
            match self.get(s.from[k]) {
                Some(v) => {
                    out.push(v);
                },
                None => {
                    assert(!self@.contains_key(s@.from[k as int]));
                    return None;
                },
            }
            k += 1;
        }
        proof {
            assert(seen(out@) =~= operands(self@, s@)->0);
        }
        Some(out)
    }
}

} // verus!
