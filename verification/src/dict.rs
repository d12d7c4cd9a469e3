//! A dictionary from names to values: what manifests define by key.

use crate::text::{same, texts, texts_push};
use std::collections::HashMap;
use vstd::prelude::*;

verus! {

broadcast use vstd::std_specs::hash::group_hash_axioms;

/// Named values, in the order the names were first inserted, and the
/// places of the names by their hash.
#[derive(Debug)]
struct Table<T> {
    items: Vec<(String, T)>,
    places: HashMap<u64, Vec<usize>>,
}

/// A dictionary from names to values; no name occurs twice.
#[derive(Debug)]
pub struct Dict<T> {
    table: Table<T>,
}

/// The hash a name is found by.
spec fn hash(s: Seq<char>) -> u64
    decreases s.len(),
{
    if s.len() == 0 {
        0
    } else {
        ((hash(s.drop_last()) % 0x1_0000_0000) * 16777619 + (s.last() as u32) as u64) as u64
    }
}

fn hash_of(s: &str) -> (r: u64)
    ensures
        r == hash(s@),
{
    let mut h: u64 = 0;
    for c in it: s.chars()
        invariant
            it.seq() == s@,
            h == hash(s@.take(it.index() as int)),
    {
        proof {
            let i = it.index() as int;
            assert(s@.take(i + 1).drop_last() =~= s@.take(i));
            assert(s@.take(i + 1).last() == c);
        }
        h = (h % 0x1_0000_0000) * 16777619 + (c as u32) as u64;
    }
    proof {
        assert(s@.take(s@.len() as int) =~= s@);
    }
    h
}

/// The map a list of pairs denotes, later pairs winning.
pub open spec fn map_of<V>(s: Seq<(Seq<char>, V)>) -> Map<Seq<char>, V>
    decreases s.len(),
{
    if s.len() == 0 {
        Map::empty()
    } else {
        map_of(s.drop_last()).insert(s.last().0, s.last().1)
    }
}

proof fn map_of_get<V>(s: Seq<(Seq<char>, V)>, i: int)
    requires
        0 <= i < s.len(),
        forall|j: int| i < j < s.len() ==> (#[trigger] s[j]).0 != s[i].0,
    ensures
        map_of(s).contains_pair(s[i].0, s[i].1),
    decreases s.len(),
{
    if i < s.len() - 1 {
        map_of_get(s.drop_last(), i);
        assert(s[s.len() - 1].0 != s[i].0);
    }
}

proof fn map_of_source<V>(s: Seq<(Seq<char>, V)>, key: Seq<char>) -> (j: int)
    requires
        map_of(s).contains_key(key),
    ensures
        0 <= j < s.len(),
        s[j].0 == key,
    decreases s.len(),
{
    if s.last().0 == key {
        s.len() - 1
    } else {
        map_of_source(s.drop_last(), key)
    }
}

proof fn map_of_absent<V>(s: Seq<(Seq<char>, V)>, key: Seq<char>)
    requires
        forall|j: int| 0 <= j < s.len() ==> (#[trigger] s[j]).0 != key,
    ensures
        !map_of(s).contains_key(key),
    decreases s.len(),
{
    if s.len() > 0 {
        map_of_absent(s.drop_last(), key);
        assert(s[s.len() - 1].0 != key);
    }
}

proof fn map_of_update<V>(s: Seq<(Seq<char>, V)>, i: int, v: V)
    requires
        0 <= i < s.len(),
        forall|a: int, b: int| 0 <= a < b < s.len() ==> (#[trigger] s[a]).0 != (#[trigger] s[b]).0,
    ensures
        map_of(s.update(i, (s[i].0, v))) =~= map_of(s).insert(s[i].0, v),
    decreases s.len(),
{
    let t = s.update(i, (s[i].0, v));
    if i == s.len() - 1 {
        assert(t.drop_last() =~= s.drop_last());
    } else {
        assert(t.drop_last() =~= s.drop_last().update(i, (s[i].0, v)));
        map_of_update(s.drop_last(), i, v);
        assert(s[i].0 != s[s.len() - 1].0);
    }
}

impl<T> Table<T> {
    spec fn wf(&self) -> bool {
        &&& forall|a: int, b: int|
            0 <= a < b < self.items@.len() ==> (#[trigger] self.items@[a]).0@ != (#[trigger] self.items@[b]).0@
        &&& forall|i: int|
            0 <= i < self.items@.len() ==> {
                let h = hash((#[trigger] self.items@[i]).0@);
                self.places@.contains_key(h) && self.places@[h]@.contains(i as usize)
            }
        &&& forall|h: u64, k: int|
            self.places@.contains_key(h) && 0 <= k < self.places@[h]@.len() ==> (#[trigger] self.places@[h]@[k])
                < self.items@.len()
    }

    fn empty() -> (r: Self)
        ensures
            r.wf(),
            r.items@ == Seq::<(String, T)>::empty(),
    {
        Table { items: Vec::new(), places: HashMap::new() }
    }

    /// Where `key` stands.
    fn find(&self, key: &str) -> (r: Option<usize>)
        requires
            self.wf(),
        ensures
            match r {
                Some(i) => i < self.items@.len() && self.items@[i as int].0@ == key@,
                None => forall|i: int| 0 <= i < self.items@.len() ==> (#[trigger] self.items@[i]).0@ != key@,
            },
    {
        let h: u64 = hash_of(key);
        let total: usize = self.items.len();
        match self.places.get(&h) {
            None => None,
            Some(places) => {
                let mut k: usize = 0;
                while k < places.len()
                    invariant
                        self.wf(),
                        total == self.items@.len(),
                        h == hash(key@),
                        self.places@.contains_key(h),
                        *places == self.places@[h],
                        k <= places.len(),
                        forall|j: int| 0 <= j < k ==> self.items@[(#[trigger] places@[j]) as int].0@ != key@,
                    decreases places.len() - k,
                {
                    let at: usize = places[k];
                    assert(self.places@[h]@[k as int] < self.items@.len());
                    if same(self.items[at].0.as_str(), key) {
                        return Some(at);
                    }
                    k += 1;
                }
                proof {
                    assert forall|i: int| 0 <= i < self.items@.len() implies (#[trigger] self.items@[i]).0@ != key@ by {
                        if self.items@[i].0@ == key@ {
                            let j = places@.index_of(i as usize);
                            assert(places@[j] == i as usize);
                        }
                    }
                }
                None
            },
        }
    }

    /// Appends a pair whose name is new.
    fn append(&mut self, key: String, v: T)
        requires
            old(self).wf(),
            forall|i: int| 0 <= i < old(self).items@.len() ==> (#[trigger] old(self).items@[i]).0@ != key@,
        ensures
            final(self).wf(),
            final(self).items@ == old(self).items@.push((key, v)),
    {
        let h: u64 = hash_of(key.as_str());
        let n: usize = self.items.len();
        let ghost was = self.places@;
        let mut places: Vec<usize> = match self.places.remove(&h) {
            Some(p) => p,
            None => Vec::new(),
        };
        let ghost before = places@;
        places.push(n);
        self.places.insert(h, places);
        self.items.push((key, v));
        proof {
            assert forall|i: int| 0 <= i < self.items@.len() implies {
                let g = hash((#[trigger] self.items@[i]).0@);
                self.places@.contains_key(g) && self.places@[g]@.contains(i as usize)
            } by {
                let g = hash(self.items@[i].0@);
                if i == n {
                    assert(self.places@[h]@[before.len() as int] == n);
                } else {
                    assert(old(self).items@[i] == self.items@[i]);
                    if g == h {
                        let k = was[h]@.index_of(i as usize);
                        assert(self.places@[h]@[k] == i as usize);
                    }
                }
            }
            assert forall|g: u64, k: int|
                self.places@.contains_key(g) && 0 <= k < self.places@[g]@.len() implies (
            #[trigger] self.places@[g]@[k]) < self.items@.len() by {
                if g == h {
                    if k < before.len() {
                        assert(was[h]@[k] < old(self).items@.len());
                    }
                } else {
                    assert(was[g]@[k] < old(self).items@.len());
                }
            }
        }
    }
}

impl<T> Dict<T> {
    #[verifier::type_invariant]
    spec fn wf(&self) -> bool {
        self.table.wf()
    }
}

impl<T: View> Dict<T> {
    /// The names and what their values denote, in insertion order.
    pub closed spec fn pairs(&self) -> Seq<(Seq<char>, T::V)> {
        self.table.items@.map_values(|p: (String, T)| (p.0@, p.1@))
    }

    pub fn new() -> (r: Self)
        ensures
            r@ == Map::<Seq<char>, T::V>::empty(),
            r.pairs() == Seq::<(Seq<char>, T::V)>::empty(),
    {
        let r = Dict { table: Table::empty() };
        proof {
            assert(r.pairs() =~= seq![]);
        }
        r
    }

    pub fn len(&self) -> (r: usize)
        ensures
            r == self.pairs().len(),
    {
        self.table.items.len()
    }

    fn position(&self, key: &str) -> (r: Option<usize>)
        ensures
            match r {
                Some(i) => i < self.table.items@.len() && self.table.items@[i as int].0@ == key@ && self@.contains_key(key@)
                    && self@[key@] == self.table.items@[i as int].1@,
                None => !self@.contains_key(key@) && forall|i: int|
                    0 <= i < self.table.items@.len() ==> (#[trigger] self.table.items@[i]).0@ != key@,
            },
    {
        proof {
            use_type_invariant(self);
        }
        let at = self.table.find(key);
        proof {
            let p = self.pairs();
            match at {
                Some(i) => {
                    assert forall|j: int| i < j < p.len() implies (#[trigger] p[j]).0 != p[i as int].0 by {
                        assert(self.table.items@[i as int].0@ != self.table.items@[j].0@);
                    }
                    map_of_get(p, i as int);
                },
                None => {
                    assert forall|j: int| 0 <= j < p.len() implies (#[trigger] p[j]).0 != key@ by {
                        assert(self.table.items@[j].0@ != key@);
                    }
                    map_of_absent(p, key@);
                },
            }
        }
        at
    }

    pub fn has(&self, key: &str) -> (r: bool)
        ensures
            r == self@.contains_key(key@),
    {
        match self.position(key) {
            Some(_) => true,
            None => false,
        }
    }

    pub fn get(&self, key: &str) -> (r: Option<&T>)
        ensures
            match r {
                Some(v) => self@.contains_key(key@) && v@ == self@[key@],
                None => !self@.contains_key(key@),
            },
    {
        match self.position(key) {
            Some(i) => Some(&self.table.items[i].1),
            None => None,
        }
    }

    /// The `i`th name.
    pub fn key(&self, i: usize) -> (r: &str)
        requires
            i < self.pairs().len(),
        ensures
            r@ == self.pairs()[i as int].0,
    {
        self.table.items[i].0.as_str()
    }

    /// The `i`th value.
    pub fn value(&self, i: usize) -> (r: &T)
        requires
            i < self.pairs().len(),
        ensures
            r@ == self.pairs()[i as int].1,
    {
        &self.table.items[i].1
    }

    /// The names, in insertion order.
    pub fn keys(&self) -> (r: Vec<String>)
        ensures
            texts(r@) == self.pairs().map_values(|p: (Seq<char>, T::V)| p.0),
            texts(r@).no_duplicates(),
            forall|k: Seq<char>| self@.contains_key(k) <==> texts(r@).contains(k),
    {
        proof {
            use_type_invariant(self);
        }
        let ghost p = self.pairs();
        let ghost want = p.map_values(|p: (Seq<char>, T::V)| p.0);
        let mut r: Vec<String> = Vec::new();
        let mut i: usize = 0;
        while i < self.table.items.len()
            invariant
                i <= self.table.items@.len(),
                p == self.pairs(),
                want == p.map_values(|p: (Seq<char>, T::V)| p.0),
                texts(r@) == want.take(i as int),
            decreases self.table.items@.len() - i,
        {
            let k = self.table.items[i].0.clone();
            proof {
                texts_push(r@, k);
                assert(want.take(i + 1) =~= want.take(i as int).push(k@));
            }
            r.push(k);
            i += 1;
        }
        proof {
            assert(want.take(i as int) =~= want);
            assert forall|a: int, b: int| 0 <= a < want.len() && 0 <= b < want.len() && a != b implies want[a]
                != want[b] by {
                assert(self.table.items@[a].0@ == want[a] && self.table.items@[b].0@ == want[b]);
            }
            assert forall|k: Seq<char>| self@.contains_key(k) <==> want.contains(k) by {
                if self@.contains_key(k) {
                    let j = map_of_source(p, k);
                    assert(want[j] == k);
                }
                if want.contains(k) {
                    let j = want.index_of(k);
                    assert(p[j].0 == k);
                    assert forall|b: int| j < b < p.len() implies (#[trigger] p[b]).0 != p[j].0 by {
                        assert(want[b] != want[j]);
                    }
                    map_of_get(p, j);
                }
            }
        }
        r
    }

    /// Sets the value of `key`; whether it had one.
    pub fn insert(&mut self, key: String, v: T) -> (r: bool)
        ensures
            final(self)@ == old(self)@.insert(key@, v@),
            r == old(self)@.contains_key(key@),
            !r ==> final(self).pairs() == old(self).pairs().push((key@, v@)),
            r ==> final(self).pairs().len() == old(self).pairs().len(),
    {
        proof {
            use_type_invariant(&*self);
        }
        let at = self.position(key.as_str());
        let mut table: Table<T> = Table::empty();
        std::mem::swap(&mut table, &mut self.table);
        let ghost before = table.items@.map_values(|p: (String, T)| (p.0@, p.1@));
        match at {
            Some(i) => {
                let ghost was = table.items@;
                let ghost places = table.places@;
                table.items.set(i, (key, v));
                proof {
                    assert forall|a: int, b: int| 0 <= a < b < before.len() implies (#[trigger] before[a]).0 != (
                    #[trigger] before[b]).0 by {
                        assert(was[a].0@ != was[b].0@);
                    }
                    map_of_update(before, i as int, v@);
                    assert(table.items@.map_values(|p: (String, T)| (p.0@, p.1@)) =~= before.update(
                        i as int,
                        (before[i as int].0, v@),
                    ));
                    assert forall|a: int, b: int| 0 <= a < b < table.items@.len() implies (
                    #[trigger] table.items@[a]).0@ != (#[trigger] table.items@[b]).0@ by {
                        assert(was[a].0@ != was[b].0@);
                    }
                    assert forall|j: int| 0 <= j < table.items@.len() implies {
                        let g = hash((#[trigger] table.items@[j]).0@);
                        table.places@.contains_key(g) && table.places@[g]@.contains(j as usize)
                    } by {
                        assert(was[j].0@ == table.items@[j].0@);
                    }
                }
                self.table = table;
                true
            },
            None => {
                table.append(key, v);
                proof {
                    let p = table.items@.map_values(|p: (String, T)| (p.0@, p.1@));
                    assert(p.drop_last() =~= before);
                    assert(p =~= before.push((key@, v@)));
                }
                self.table = table;
                false
            },
        }
    }
}

impl<T: View> View for Dict<T> {
    type V = Map<Seq<char>, T::V>;

    closed spec fn view(&self) -> Map<Seq<char>, T::V> {
        map_of(self.pairs())
    }
}

/// A dictionary's map is the one its pairs denote.
pub proof fn dict_view<T: View>(d: &Dict<T>)
    ensures
        d@ == map_of(d.pairs()),
{
}

} // verus!
