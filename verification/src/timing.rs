//! Wall time per stage, in first-seen order; device time is kept under
//! `npu:<kernel>`.

use crate::text::{chars_of, has_prefix, same, starts_with, string_of};
use vstd::prelude::*;

verus! {

/// Stages and their nanoseconds.
#[derive(Debug, Clone)]
pub struct Timing {
    pub entries: Vec<(String, u64)>,
}

pub open spec fn spent(v: Seq<(String, u64)>) -> Seq<(Seq<char>, u64)> {
    v.map_values(|e: (String, u64)| (e.0@, e.1))
}

impl View for Timing {
    type V = Seq<(Seq<char>, u64)>;

    open spec fn view(&self) -> Seq<(Seq<char>, u64)> {
        spent(self.entries@)
    }
}

/// The first entry of `key`.
pub open spec fn entry_index(s: Seq<(Seq<char>, u64)>, key: Seq<char>) -> int
    decreases s.len(),
{
    if s.len() == 0 {
        0
    } else if s[0].0 == key {
        0
    } else {
        1 + entry_index(s.skip(1), key)
    }
}

/// What was spent on `key`; nothing if it was never seen.
pub open spec fn time_of(s: Seq<(Seq<char>, u64)>, key: Seq<char>) -> u64 {
    let i = entry_index(s, key);
    if i < s.len() {
        s[i].1
    } else {
        0
    }
}

/// With `d` more spent on `key`, which is appended when it is new.
pub open spec fn added(s: Seq<(Seq<char>, u64)>, key: Seq<char>, d: u64) -> Seq<(Seq<char>, u64)> {
    let i = entry_index(s, key);
    if i < s.len() {
        s.update(i, (key, (s[i].1 + d) as u64))
    } else {
        s.push((key, d))
    }
}

/// The sum over the stages whose name begins with `prefix`.
pub open spec fn total_of(s: Seq<(Seq<char>, u64)>, prefix: Seq<char>) -> nat
    decreases s.len(),
{
    if s.len() == 0 {
        0
    } else {
        total_of(s.drop_last(), prefix) + (if starts_with(s.last().0, prefix) {
            s.last().1 as nat
        } else {
            0
        })
    }
}

/// The stages on the host, in first-seen order.
pub open spec fn host_stages(s: Seq<(Seq<char>, u64)>) -> Seq<(Seq<char>, u64)>
    decreases s.len(),
{
    if s.len() == 0 {
        Seq::empty()
    } else if starts_with(s.last().0, "npu:"@) {
        host_stages(s.drop_last())
    } else {
        host_stages(s.drop_last()).push(s.last())
    }
}

/// The kernels, without the prefix of their stages, in first-seen order.
pub open spec fn kernel_stages(s: Seq<(Seq<char>, u64)>) -> Seq<(Seq<char>, u64)>
    decreases s.len(),
{
    if s.len() == 0 {
        Seq::empty()
    } else if starts_with(s.last().0, "npu:"@) {
        kernel_stages(s.drop_last()).push((s.last().0.skip(4), s.last().1))
    } else {
        kernel_stages(s.drop_last())
    }
}

proof fn entry_index_is(s: Seq<(Seq<char>, u64)>, key: Seq<char>, n: int)
    requires
        0 <= n <= s.len(),
        forall|i: int| 0 <= i < n ==> (#[trigger] s[i]).0 != key,
        n == s.len() || s[n].0 == key,
    ensures
        entry_index(s, key) == n,
    decreases s.len(),
{
    if n > 0 {
        assert(s[0].0 != key);
        let t = s.skip(1);
        assert forall|i: int| 0 <= i < n - 1 implies (#[trigger] t[i]).0 != key by {
            assert(t[i] == s[i + 1]);
        }
        entry_index_is(t, key, n - 1);
    }
}

proof fn entry_index_ensures(s: Seq<(Seq<char>, u64)>, key: Seq<char>)
    ensures
        0 <= entry_index(s, key) <= s.len(),
        forall|i: int| 0 <= i < entry_index(s, key) ==> (#[trigger] s[i]).0 != key,
        entry_index(s, key) < s.len() ==> s[entry_index(s, key)].0 == key,
    decreases s.len(),
{
    if s.len() > 0 && s[0].0 != key {
        let t = s.skip(1);
        entry_index_ensures(t, key);
        let n = entry_index(s, key);
        assert forall|i: int| 0 <= i < n implies (#[trigger] s[i]).0 != key by {
            if i > 0 {
                assert(t[i - 1] == s[i]);
            }
        }
        if n < s.len() {
            assert(t[n - 1] == s[n]);
        }
    }
}

/// Adding time changes that stage by as much, and no other.
pub proof fn adding_adds(s: Seq<(Seq<char>, u64)>, key: Seq<char>, d: u64, other: Seq<char>)
    requires
        time_of(s, key) + d <= u64::MAX,
    ensures
        time_of(added(s, key, d), key) == time_of(s, key) + d,
        other != key ==> time_of(added(s, key, d), other) == time_of(s, other),
{
    let t = added(s, key, d);
    entry_index_ensures(s, key);
    entry_index_ensures(s, other);
    let i = entry_index(s, key);
    assert forall|j: int| 0 <= j < i implies (#[trigger] t[j]).0 != key by {
        assert(t[j] == s[j]);
    }
    entry_index_is(t, key, i);
    if other != key {
        let o = entry_index(s, other);
        if o < s.len() {
            assert forall|j: int| 0 <= j < o implies (#[trigger] t[j]).0 != other by {
                assert(s[j].0 != other);
            }
            entry_index_is(t, other, o);
        } else {
            assert forall|j: int| 0 <= j < t.len() implies (#[trigger] t[j]).0 != other by {
                if j < s.len() {
                    assert(s[j].0 != other);
                }
            }
            entry_index_is(t, other, t.len() as int);
        }
    }
}

/// What additions leave, one after another.
pub open spec fn after_adds(log: Seq<(Seq<char>, u64)>) -> Seq<(Seq<char>, u64)>
    decreases log.len(),
{
    if log.len() == 0 {
        Seq::empty()
    } else {
        added(after_adds(log.drop_last()), log.last().0, log.last().1)
    }
}

/// The keys of additions, each where it was first seen.
pub open spec fn first_seen(log: Seq<(Seq<char>, u64)>) -> Seq<Seq<char>>
    decreases log.len(),
{
    if log.len() == 0 {
        Seq::empty()
    } else {
        let before = first_seen(log.drop_last());
        if before.contains(log.last().0) {
            before
        } else {
            before.push(log.last().0)
        }
    }
}

/// All that was spent.
pub open spec fn all_of(s: Seq<(Seq<char>, u64)>) -> nat
    decreases s.len(),
{
    if s.len() == 0 {
        0
    } else {
        all_of(s.drop_last()) + s.last().1 as nat
    }
}

pub open spec fn keys_of(s: Seq<(Seq<char>, u64)>) -> Seq<Seq<char>> {
    s.map_values(|e: (Seq<char>, u64)| e.0)
}

proof fn updated_totals(s: Seq<(Seq<char>, u64)>, i: int, v: u64, prefix: Seq<char>)
    requires
        0 <= i < s.len(),
    ensures
        all_of(s.update(i, (s[i].0, v))) == all_of(s) - s[i].1 + v,
        total_of(s.update(i, (s[i].0, v)), prefix) == total_of(s, prefix) + (if starts_with(s[i].0, prefix) {
            v - s[i].1
        } else {
            0
        }),
        s[i].1 <= all_of(s),
    decreases s.len(),
{
    let t = s.update(i, (s[i].0, v));
    if i == s.len() - 1 {
        assert(t.drop_last() =~= s.drop_last());
    } else {
        assert(t.drop_last() =~= s.drop_last().update(i, (s[i].0, v)));
        updated_totals(s.drop_last(), i, v, prefix);
    }
}

/// After additions that do not overflow together, the total under a prefix
/// is the sum of what was added under it, and the keys are those added, each
/// once, in the order they were first seen.
pub proof fn totals_are_what_was_added(log: Seq<(Seq<char>, u64)>, prefix: Seq<char>)
    requires
        all_of(log) <= u64::MAX,
    ensures
        total_of(after_adds(log), prefix) == total_of(log, prefix),
        all_of(after_adds(log)) == all_of(log),
        keys_of(after_adds(log)) == first_seen(log),
        first_seen(log).no_duplicates(),
    decreases log.len(),
{
    if log.len() == 0 {
        assert(keys_of(after_adds(log)) =~= first_seen(log));
    } else {
        totals_are_what_was_added(log.drop_last(), prefix);
        let s = after_adds(log.drop_last());
        let (key, d) = log.last();
        let seen = first_seen(log.drop_last());
        entry_index_ensures(s, key);
        let i = entry_index(s, key);
        if i < s.len() {
            updated_totals(s, i, (s[i].1 + d) as u64, prefix);
            assert(keys_of(s)[i] == key);
            assert(seen.contains(key));
            assert(keys_of(after_adds(log)) =~= keys_of(s));
        } else {
            if seen.contains(key) {
                let j = seen.index_of(key);
                assert(keys_of(s)[j] == s[j].0);
                assert(s[j].0 != key);
            }
            assert(after_adds(log).drop_last() =~= s);
            assert(keys_of(after_adds(log)) =~= keys_of(s).push(key));
        }
    }
}

proof fn total_bound(s: Seq<(Seq<char>, u64)>, prefix: Seq<char>)
    ensures
        total_of(s, prefix) <= s.len() * 0xffff_ffff_ffff_ffff,
    decreases s.len(),
{
    if s.len() > 0 {
        total_bound(s.drop_last(), prefix);
    }
}

impl Timing {
    pub fn new() -> (r: Self)
        ensures
            r@ == Seq::<(Seq<char>, u64)>::empty(),
    {
        let r = Timing { entries: Vec::new() };
        proof {
            assert(r@ =~= Seq::empty());
        }
        r
    }

    fn find(&self, key: &str) -> (r: usize)
        ensures
            r == entry_index(self@, key@),
            r <= self.entries.len(),
            r < self.entries.len() ==> self.entries[r as int].0@ == key@,
    {
        let mut i: usize = 0;
        while i < self.entries.len() && !same(self.entries[i].0.as_str(), key)
            invariant
                i <= self.entries.len(),
                forall|j: int| 0 <= j < i ==> (#[trigger] self@[j]).0 != key@,
            decreases self.entries.len() - i,
        {
            i += 1;
        }
        proof {
            entry_index_is(self@, key@, i as int);
        }
        i
    }

    /// Adds `d` nanoseconds to stage `key`.
    pub fn add(&mut self, key: &str, d: u64)
        requires
            time_of(old(self)@, key@) + d <= u64::MAX,
        ensures
            final(self)@ == added(old(self)@, key@, d),
    {
        let i: usize = self.find(key);
        let ghost was = self@;
        if i < self.entries.len() {
            let t: u64 = self.entries[i].1 + d;
            self.entries.set(i, (key.to_owned(), t));
            proof {
                assert(self@ =~= was.update(i as int, (key@, t)));
            }
        } else {
            self.entries.push((key.to_owned(), d));
            proof {
                assert(self@ =~= was.push((key@, d)));
            }
        }
    }

    pub fn get(&self, key: &str) -> (r: u64)
        ensures
            r == time_of(self@, key@),
    {
        let i: usize = self.find(key);
        if i < self.entries.len() {
            self.entries[i].1
        } else {
            0
        }
    }

    pub fn clear(&mut self)
        ensures
            final(self)@ == Seq::<(Seq<char>, u64)>::empty(),
    {
        self.entries = Vec::new();
        proof {
            assert(self@ =~= Seq::empty());
        }
    }

    fn sum(&self, prefix: &str) -> (r: u128)
        ensures
            r == total_of(self@, prefix@),
    {
        let mut t: u128 = 0;
        let mut i: usize = 0;
        proof {
            assert(self@.take(0) =~= Seq::empty());
        }
        while i < self.entries.len()
            invariant
                i <= self.entries.len(),
                t == total_of(self@.take(i as int), prefix@),
            decreases self.entries.len() - i,
        {
            proof {
                assert(self@.take(i + 1).drop_last() =~= self@.take(i as int));
                assert(self@.take(i + 1).last() == self@[i as int]);
                total_bound(self@.take(i + 1), prefix@);
                assert((i + 1) * 0xffff_ffff_ffff_ffff <= 0x1_0000_0000_0000_0000 * 0xffff_ffff_ffff_ffff);
            }
            if has_prefix(self.entries[i].0.as_str(), prefix) {
                t += self.entries[i].1 as u128;
            }
            i += 1;
        }
        proof {
            assert(self@.take(i as int) =~= self@);
        }
        t
    }

    /// The time on the device.
    pub fn npu_total(&self) -> (r: u128)
        ensures
            r == total_of(self@, "npu:"@),
    {
        self.sum("npu:")
    }

    /// What was spent on the host by stage, and on the device by kernel.
    pub fn by_place(&self) -> (r: (Vec<(String, u64)>, Vec<(String, u64)>))
        ensures
            spent(r.0@) == host_stages(self@),
            spent(r.1@) == kernel_stages(self@),
    {
        let mut host: Vec<(String, u64)> = Vec::new();
        let mut npu: Vec<(String, u64)> = Vec::new();
        let mut i: usize = 0;
        proof {
            reveal_strlit("npu:");
            assert(self@.take(0) =~= Seq::empty());
            assert(spent(host@) =~= Seq::empty());
            assert(spent(npu@) =~= Seq::empty());
        }
        while i < self.entries.len()
            invariant
                i <= self.entries.len(),
                "npu:"@.len() == 4,
                spent(host@) == host_stages(self@.take(i as int)),
                spent(npu@) == kernel_stages(self@.take(i as int)),
            decreases self.entries.len() - i,
        {
            let (name, t) = (&self.entries[i].0, self.entries[i].1);
            proof {
                assert(self@.take(i + 1).drop_last() =~= self@.take(i as int));
                assert(self@.take(i + 1).last() == (name@, t));
            }
            if has_prefix(name.as_str(), "npu:") {
                let c = chars_of(name.as_str());
                let k = string_of(&c, 4, c.len());
                proof {
                    assert(k@ =~= name@.skip(4));
                    assert(spent(npu@.push((k, t))) =~= spent(npu@).push((k@, t)));
                }
                npu.push((k, t));
            } else {
                let k = name.clone();
                proof {
                    assert(spent(host@.push((k, t))) =~= spent(host@).push((k@, t)));
                }
                host.push((k, t));
            }
            i += 1;
        }
        proof {
            assert(self@.take(i as int) =~= self@);
        }
        (host, npu)
    }

    /// The time over all stages.
    pub fn total(&self) -> (r: u128)
        ensures
            r == total_of(self@, ""@),
            forall|i: int| 0 <= i < self@.len() ==> starts_with((#[trigger] self@[i]).0, ""@),
    {
        proof {
            reveal_strlit("");
            assert forall|i: int| 0 <= i < self@.len() implies starts_with((#[trigger] self@[i]).0, ""@) by {
                assert(self@[i].0.take(0) =~= ""@);
            }
        }
        self.sum("")
    }
}

} // verus!
