//! `tensors.txt` and `tensors.bin`: the named tensors of a bundle.
//!
//! The index has one line a tensor, `<name> <dtype> <d0,d1,...> <offset>
//! <bytes>`, into the blob; elements are little-endian. A `Store` only
//! exists once every entry has been checked to lie inside the blob.

use crate::bytes::{le16, le32, read16, read32, signed32, to_signed32};
use crate::dict::{dict_view, map_of, Dict};
use crate::manifest::{says, shows, Error};
use crate::text::{
    cat2, cat3, cat5, cat7, chars_of, decimal, decimal_of, lines, pieces, same, split_lines, split_pieces, split_words,
    texts, words, FromText,
};
use vstd::prelude::*;
use vstd::slice::slice_subrange;

verus! {

#[derive(Debug, Clone, Copy, PartialEq, Eq, Structural)]
pub enum DType {
    F32,
    Bf16,
    U8,
    I32,
}

impl DType {
    pub open spec fn width(self) -> nat {
        match self {
            DType::F32 => 4,
            DType::I32 => 4,
            DType::Bf16 => 2,
            DType::U8 => 1,
        }
    }

    pub open spec fn shown(self) -> Seq<char> {
        match self {
            DType::F32 => "F32"@,
            DType::I32 => "I32"@,
            DType::Bf16 => "Bf16"@,
            DType::U8 => "U8"@,
        }
    }

    /// Bytes an element takes.
    pub fn size(self) -> (r: usize)
        ensures
            r == self.width(),
            r > 0,
    {
        match self {
            DType::F32 => 4,
            DType::I32 => 4,
            DType::Bf16 => 2,
            DType::U8 => 1,
        }
    }

    pub(crate) fn label(self) -> (r: &'static str)
        ensures
            r@ == self.shown(),
    {
        match self {
            DType::F32 => "F32",
            DType::I32 => "I32",
            DType::Bf16 => "Bf16",
            DType::U8 => "U8",
        }
    }
}

/// The element type a `tensors.txt` line names.
pub open spec fn dtype_named(s: Seq<char>) -> Option<DType> {
    if s == "f32"@ {
        Some(DType::F32)
    } else if s == "bf16"@ {
        Some(DType::Bf16)
    } else if s == "u8"@ {
        Some(DType::U8)
    } else if s == "i32"@ {
        Some(DType::I32)
    } else {
        None
    }
}

fn dtype_of(s: &str) -> (r: Option<DType>)
    ensures
        r == dtype_named(s@),
{
    if same(s, "f32") {
        Some(DType::F32)
    } else if same(s, "bf16") {
        Some(DType::Bf16)
    } else if same(s, "u8") {
        Some(DType::U8)
    } else if same(s, "i32") {
        Some(DType::I32)
    } else {
        None
    }
}

#[derive(Debug, Clone)]
pub struct Entry {
    pub dtype: DType,
    pub shape: Vec<usize>,
    /// Where the tensor starts in the blob, and its length, in bytes.
    pub off: usize,
    pub len: usize,
}

#[verifier::ext_equal]
pub struct EntryView {
    pub dtype: DType,
    pub shape: Seq<usize>,
    pub off: nat,
    pub len: nat,
}

impl View for Entry {
    type V = EntryView;

    open spec fn view(&self) -> EntryView {
        EntryView { dtype: self.dtype, shape: self.shape@, off: self.off as nat, len: self.len as nat }
    }
}

impl EntryView {
    pub open spec fn elems(self) -> nat {
        self.len / self.dtype.width()
    }
}

impl Entry {
    /// Number of elements.
    pub fn elems(&self) -> (r: usize)
        ensures
            r == self@.elems(),
    {
        self.len / self.dtype.size()
    }
}

// ----------------------------------------------------------------------------
// The index
// ----------------------------------------------------------------------------

/// The message of an error on index line `i` (1-based), holding `line`.
pub open spec fn index_error(i: nat, line: Seq<char>, msg: Seq<char>) -> Seq<char> {
    "tensors.txt:"@ + decimal(i) + ": "@ + msg + ", in: "@ + line
}

fn index_fault(i: usize, line: &str, msg: &str) -> (r: Error)
    ensures
        says(r, index_error(i as nat, line@, msg@)),
{
    let n = decimal_of(i as u128);
    Error::Format(cat3("tensors.txt:", n.as_str(), ": ").concat(msg).concat(", in: ").concat(line))
}

/// The dimensions that the pieces of a shape field denote.
pub open spec fn dims_of(p: Seq<Seq<char>>) -> Option<Seq<usize>>
    decreases p.len(),
{
    if p.len() == 0 {
        Some(seq![])
    } else {
        match (dims_of(p.drop_last()), usize::from_text(p.last())) {
            (Some(s), Some(v)) => Some(s.push(v)),
            _ => None,
        }
    }
}

/// The tensor that index line `i` (1-based) defines.
pub open spec fn entry_of(i: nat, line: Seq<char>) -> Result<(Seq<char>, EntryView), Seq<char>> {
    let f = words(line);
    if f.len() != 5 {
        Err(index_error(i, line, "expected <name> <dtype> <shape> <offset> <bytes>"@))
    } else {
        match (dtype_named(f[1]), dims_of(pieces(f[2], ',')), usize::from_text(f[3]), usize::from_text(f[4])) {
            (None, _, _, _) => Err(index_error(i, line, "unknown dtype"@)),
            (_, None, _, _) => Err(index_error(i, line, "bad shape"@)),
            (_, _, None, _) => Err(index_error(i, line, "bad offset"@)),
            (_, _, _, None) => Err(index_error(i, line, "bad byte count"@)),
            (Some(dtype), Some(shape), Some(off), Some(len)) => if off % 8 != 0 {
                Err(index_error(i, line, "offset is not 8-byte aligned"@))
            } else if len as nat % dtype.width() != 0 {
                Err(index_error(i, line, "byte count is not a whole number of elements"@))
            } else {
                Ok((f[0], EntryView { dtype, shape, off: off as nat, len: len as nat }))
            },
        }
    }
}

/// The tensors that the first lines `ls` of an index define, in order.
pub open spec fn index_of(ls: Seq<Seq<char>>) -> Result<Seq<(Seq<char>, EntryView)>, Seq<char>>
    decreases ls.len(),
{
    if ls.len() == 0 {
        Ok(seq![])
    } else {
        match (index_of(ls.drop_last()), entry_of(ls.len(), ls.last())) {
            (Err(m), _) => Err(m),
            (_, Err(m)) => Err(m),
            (Ok(s), Ok(e)) => if map_of(s).contains_key(e.0) {
                Err(index_error(ls.len(), ls.last(), "tensor defined twice"@))
            } else {
                Ok(s.push(e))
            },
        }
    }
}

proof fn index_first_error(ls: Seq<Seq<char>>, n: int)
    requires
        0 <= n <= ls.len(),
        index_of(ls.take(n)) is Err,
    ensures
        index_of(ls) == index_of(ls.take(n)),
    decreases ls.len() - n,
{
    if n < ls.len() {
        assert(ls.take(n + 1).drop_last() =~= ls.take(n));
        index_first_error(ls, n + 1);
    } else {
        assert(ls.take(n) =~= ls);
    }
}

fn read_dims(s: &str) -> (r: Option<Vec<usize>>)
    ensures
        match r {
            Some(v) => dims_of(pieces(s@, ',')) == Some(v@),
            None => dims_of(pieces(s@, ',')) is None,
        },
{
    let p = split_pieces(s, ',');
    let ghost all = texts(p@);
    let mut out: Vec<usize> = Vec::new();
    let mut i: usize = 0;
    proof {
        assert(all.take(0) =~= seq![]);
    }
    while i < p.len()
        invariant
            i <= p.len(),
            all == texts(p@),
            all == pieces(s@, ','),
            dims_of(all.take(i as int)) == Some(out@),
        decreases p.len() - i,
    {
        proof {
            assert(all.take(i + 1).drop_last() =~= all.take(i as int));
            assert(all.take(i + 1).last() == p@[i as int]@);
        }
        match usize::parse_text(p[i].as_str()) {
            Some(v) => {
                out.push(v);
            },
            None => {
                proof {
                    dims_none(all, i + 1);
                }
                return None;
            },
        }
        i += 1;
    }
    proof {
        assert(all.take(i as int) =~= all);
    }
    Some(out)
}

proof fn dims_none(p: Seq<Seq<char>>, n: int)
    requires
        0 <= n <= p.len(),
        dims_of(p.take(n)) is None,
    ensures
        dims_of(p) is None,
    decreases p.len() - n,
{
    if n < p.len() {
        assert(p.take(n + 1).drop_last() =~= p.take(n));
        dims_none(p, n + 1);
    } else {
        assert(p.take(n) =~= p);
    }
}

/// Reads index line `i` (1-based).
fn read_entry(i: usize, line: &str) -> (r: Result<(String, Entry), Error>)
    ensures
        match (r, entry_of(i as nat, line@)) {
            (Ok((n, e)), Ok(w)) => n@ == w.0 && e@ == w.1,
            (Err(e), Err(m)) => says(e, m),
            _ => false,
        },
{
    let c = chars_of(line);
    let f = split_words(&c);
    if f.len() != 5 {
        return Err(index_fault(i, line, "expected <name> <dtype> <shape> <offset> <bytes>"));
    }
    proof {
        assert(forall|k: int| 0 <= k < 5 ==> #[trigger] words(line@)[k] == f@[k]@);
    }
    let dtype = match dtype_of(f[1].as_str()) {
        Some(d) => d,
        None => {
            return Err(index_fault(i, line, "unknown dtype"));
        },
    };
    let shape = match read_dims(f[2].as_str()) {
        Some(s) => s,
        None => {
            return Err(index_fault(i, line, "bad shape"));
        },
    };
    let off: usize = match usize::parse_text(f[3].as_str()) {
        Some(v) => v,
        None => {
            return Err(index_fault(i, line, "bad offset"));
        },
    };
    let len: usize = match usize::parse_text(f[4].as_str()) {
        Some(v) => v,
        None => {
            return Err(index_fault(i, line, "bad byte count"));
        },
    };
    if off % 8 != 0 {
        return Err(index_fault(i, line, "offset is not 8-byte aligned"));
    }
    if len % dtype.size() != 0 {
        return Err(index_fault(i, line, "byte count is not a whole number of elements"));
    }
    Ok((f[0].clone(), Entry { dtype, shape, off, len }))
}

/// Reads the whole index.
fn read_index(text: &str) -> (r: Result<Dict<Entry>, Error>)
    ensures
        match (r, index_of(lines(text@))) {
            (Ok(d), Ok(s)) => d.pairs() == s,
            (Err(e), Err(m)) => says(e, m),
            _ => false,
        },
{
    let ls = split_lines(text);
    let ghost all = texts(ls@);
    let mut d: Dict<Entry> = Dict::new();
    let mut i: usize = 0;
    proof {
        assert(all.take(0) =~= seq![]);
    }
    while i < ls.len()
        invariant
            i <= ls.len(),
            all == texts(ls@),
            all == lines(text@),
            index_of(all.take(i as int)) == Ok::<Seq<(Seq<char>, EntryView)>, Seq<char>>(d.pairs()),
        decreases ls.len() - i,
    {
        proof {
            assert(all.take(i + 1).drop_last() =~= all.take(i as int));
            assert(all.take(i + 1).last() == ls@[i as int]@);
            if index_of(all.take(i + 1)) is Err {
                index_first_error(all, i + 1);
            }
            dict_view(&d);
        }
        let (name, e) = match read_entry(i + 1, ls[i].as_str()) {
            Ok(x) => x,
            Err(e) => {
                return Err(e);
            },
        };
        if d.insert(name, e) {
            return Err(index_fault(i + 1, ls[i].as_str(), "tensor defined twice"));
        }
        i += 1;
    }
    proof {
        assert(all.take(i as int) =~= all);
    }
    Ok(d)
}

// ----------------------------------------------------------------------------
// The store
// ----------------------------------------------------------------------------

/// What a store holds: the blob and the tensors in it.
pub struct StoreView {
    pub data: Seq<u8>,
    pub tensors: Map<Seq<char>, EntryView>,
}

/// Whether a tensor lies inside a blob of `n` bytes.
pub open spec fn fits(e: EntryView, n: nat) -> bool {
    e.off + e.len <= n
}

/// The first of `s` that does not lie inside a blob of `n` bytes.
pub open spec fn first_misfit(s: Seq<(Seq<char>, EntryView)>, n: nat) -> Option<Seq<char>>
    decreases s.len(),
{
    if s.len() == 0 {
        None
    } else if !fits(s[0].1, n) {
        Some(s[0].0)
    } else {
        first_misfit(s.skip(1), n)
    }
}

/// The store that an index and a blob are.
pub open spec fn store_of(index: Seq<char>, data: Seq<u8>) -> Result<StoreView, Seq<char>> {
    match index_of(lines(index)) {
        Err(m) => Err(m),
        Ok(s) => match first_misfit(s, data.len()) {
            Some(name) => Err("tensor "@ + name + " runs past the end of tensors.bin"@),
            None => Ok(StoreView { data, tensors: map_of(s) }),
        },
    }
}

/// `n` 32-bit elements.
pub open spec fn elems32(s: Seq<u8>) -> Seq<u32> {
    Seq::new((s.len() / 4) as nat, |i: int| le32(s, 4 * i) as u32)
}

pub open spec fn elems16(s: Seq<u8>) -> Seq<u16> {
    Seq::new((s.len() / 2) as nat, |i: int| le16(s, 2 * i) as u16)
}

pub open spec fn signed_elems32(s: Seq<u8>) -> Seq<i32> {
    Seq::new((s.len() / 4) as nat, |i: int| signed32(le32(s, 4 * i)) as i32)
}

impl StoreView {
    pub open spec fn entry(self, name: Seq<char>) -> Result<EntryView, Seq<char>> {
        if self.tensors.contains_key(name) {
            Ok(self.tensors[name])
        } else {
            Err("tensor "@ + name + " missing from the bundle"@)
        }
    }

    pub open spec fn expect(self, name: Seq<char>, dtype: DType, elems: nat) -> Result<EntryView, Seq<char>> {
        match self.entry(name) {
            Err(m) => Err(m),
            Ok(e) => if e.dtype != dtype || e.elems() != elems {
                Err(
                    "tensor "@ + name + " is "@ + decimal(e.elems()) + " x "@ + e.dtype.shown() + ", wanted "@ + decimal(
                        elems,
                    ) + " x "@ + dtype.shown(),
                )
            } else {
                Ok(e)
            },
        }
    }

    /// The bytes of an entry.
    pub open spec fn slice(self, e: EntryView) -> Seq<u8> {
        self.data.subrange(e.off as int, (e.off + e.len) as int)
    }

    pub open spec fn bytes(self, name: Seq<char>) -> Result<Seq<u8>, Seq<char>> {
        match self.entry(name) {
            Err(m) => Err(m),
            Ok(e) => Ok(self.slice(e)),
        }
    }

    /// The bytes of a tensor that must have the type `want`.
    pub open spec fn typed(self, name: Seq<char>, want: DType) -> Result<Seq<u8>, Seq<char>> {
        match self.entry(name) {
            Err(m) => Err(m),
            Ok(e) => if e.dtype != want {
                Err("tensor "@ + name + " is "@ + e.dtype.shown() + ", wanted "@ + want.shown())
            } else {
                Ok(self.slice(e))
            },
        }
    }
}

/// Every tensor of a bundle.
pub struct Store {
    data: Vec<u8>,
    map: Dict<Entry>,
}

impl View for Store {
    type V = StoreView;

    closed spec fn view(&self) -> StoreView {
        StoreView { data: self.data@, tensors: self.map@ }
    }
}

proof fn no_misfit(s: Seq<(Seq<char>, EntryView)>, n: nat)
    requires
        first_misfit(s, n) is None,
    ensures
        forall|k: Seq<char>| #[trigger] map_of(s).contains_key(k) ==> fits(map_of(s)[k], n),
    decreases s.len(),
{
    assert forall|i: int| 0 <= i < s.len() implies fits((#[trigger] s[i]).1, n) by {
        misfit_at(s, n, i);
    }
    all_fit(s, n);
}

proof fn misfit_at(s: Seq<(Seq<char>, EntryView)>, n: nat, i: int)
    requires
        0 <= i < s.len(),
        first_misfit(s, n) is None,
    ensures
        fits(s[i].1, n),
    decreases i,
{
    if i > 0 {
        misfit_at(s.skip(1), n, i - 1);
    }
}

proof fn all_fit(s: Seq<(Seq<char>, EntryView)>, n: nat)
    requires
        forall|i: int| 0 <= i < s.len() ==> fits((#[trigger] s[i]).1, n),
    ensures
        forall|k: Seq<char>| #[trigger] map_of(s).contains_key(k) ==> fits(map_of(s)[k], n),
    decreases s.len(),
{
    if s.len() > 0 {
        let t = s.drop_last();
        assert forall|i: int| 0 <= i < t.len() implies fits((#[trigger] t[i]).1, n) by {
            assert(t[i] == s[i]);
        }
        all_fit(t, n);
        assert(fits(s[s.len() - 1].1, n));
        assert forall|k: Seq<char>| #[trigger] map_of(s).contains_key(k) implies fits(map_of(s)[k], n) by {
            if k != s.last().0 {
                assert(map_of(t).contains_key(k));
            }
        }
    }
}

/// Every tensor of a store that loads lies inside the blob.
pub proof fn loaded_tensors_fit(index: Seq<char>, data: Seq<u8>, name: Seq<char>)
    requires
        store_of(index, data) is Ok,
        store_of(index, data)->Ok_0.tensors.contains_key(name),
    ensures
        fits(store_of(index, data)->Ok_0.tensors[name], data.len()),
{
    no_misfit(index_of(lines(index))->Ok_0, data.len());
}

proof fn whole_entries(ls: Seq<Seq<char>>, name: Seq<char>)
    requires
        index_of(ls) is Ok,
        map_of(index_of(ls)->Ok_0).contains_key(name),
    ensures
        ({
            let e = map_of(index_of(ls)->Ok_0)[name];
            e.len % e.dtype.width() == 0 && e.off % 8 == 0
        }),
    decreases ls.len(),
{
    if ls.len() > 0 {
        let s = index_of(ls)->Ok_0;
        assert(s.drop_last() =~= index_of(ls.drop_last())->Ok_0);
        if name != s.last().0 {
            whole_entries(ls.drop_last(), name);
        }
    }
}

/// Every tensor of a store that loads is a whole number of elements, from a
/// multiple of eight bytes on.
pub proof fn loaded_tensors_are_whole(index: Seq<char>, data: Seq<u8>, name: Seq<char>)
    requires
        store_of(index, data) is Ok,
        store_of(index, data)->Ok_0.tensors.contains_key(name),
    ensures
        ({
            let e = store_of(index, data)->Ok_0.tensors[name];
            e.len == e.elems() * e.dtype.width() && e.off % 8 == 0
        }),
{
    whole_entries(lines(index), name);
    let e = store_of(index, data)->Ok_0.tensors[name];
    vstd::arithmetic::div_mod::lemma_fundamental_div_mod(e.len as int, e.dtype.width() as int);
    assert(e.dtype.width() * e.elems() == e.elems() * e.dtype.width()) by (nonlinear_arith);
}

impl Store {
    #[verifier::type_invariant]
    spec fn wf(&self) -> bool {
        forall|k: Seq<char>| #[trigger] self.map@.contains_key(k) ==> fits(self.map@[k], self.data@.len())
    }

    /// The store of an index (the text of `tensors.txt`) and a blob (the
    /// contents of `tensors.bin`).
    pub fn load(index: &str, data: Vec<u8>) -> (r: Result<Store, Error>)
        ensures
            shows(r, store_of(index@, data@)),
    {
        let map = match read_index(index) {
            Ok(m) => m,
            Err(e) => {
                return Err(e);
            },
        };
        let ghost s = map.pairs();
        let mut i: usize = 0;
        proof {
            assert(s.skip(0) =~= s);
        }
        while i < map.len()
            invariant
                i <= s.len(),
                s == map.pairs(),
                index_of(lines(index@)) == Ok::<Seq<(Seq<char>, EntryView)>, Seq<char>>(s),
                first_misfit(s, data@.len()) == first_misfit(s.skip(i as int), data@.len()),
            decreases s.len() - i,
        {
            proof {
                assert(s.skip(i as int).skip(1) =~= s.skip(i + 1));
            }
            let e = map.value(i);
            if e.off as u128 + e.len as u128 > data.len() as u128 {
                return Err(Error::Format(cat3("tensor ", map.key(i), " runs past the end of tensors.bin")));
            }
            i += 1;
        }
        proof {
            assert(first_misfit(s.skip(i as int), data@.len()) is None);
            no_misfit(s, data@.len());
            dict_view(&map);
        }
        Ok(Store { data, map })
    }

    pub fn has(&self, name: &str) -> (r: bool)
        ensures
            r == self@.tensors.contains_key(name@),
    {
        self.map.has(name)
    }

    /// The names of the tensors, in index order.
    pub fn names(&self) -> (r: Vec<String>)
        ensures
            forall|k: Seq<char>| self@.tensors.contains_key(k) <==> texts(r@).contains(k),
            texts(r@).no_duplicates(),
    {
        self.map.keys()
    }

    pub fn entry(&self, name: &str) -> (r: Result<&Entry, Error>)
        ensures
            shows(r, self@.entry(name@)),
    {
        match self.map.get(name) {
            Some(e) => Ok(e),
            None => Err(Error::Format(cat3("tensor ", name, " missing from the bundle"))),
        }
    }

    pub fn shape(&self, name: &str) -> (r: Result<&[usize], Error>)
        ensures
            match (r, self@.entry(name@)) {
                (Ok(s), Ok(e)) => s@ == e.shape,
                (Err(e), Err(m)) => says(e, m),
                _ => false,
            },
    {
        match self.entry(name) {
            Ok(e) => Ok(e.shape.as_slice()),
            Err(e) => Err(e),
        }
    }

    /// `name`'s entry, checked to be `dtype` with `elems` elements.
    pub fn expect(&self, name: &str, dtype: DType, elems: usize) -> (r: Result<&Entry, Error>)
        ensures
            shows(r, self@.expect(name@, dtype, elems as nat)),
    {
        let e = match self.entry(name) {
            Ok(e) => e,
            Err(e) => {
                return Err(e);
            },
        };
        if e.dtype != dtype || e.elems() != elems {
            let have = decimal_of(e.elems() as u128);
            let want = decimal_of(elems as u128);
            return Err(
                Error::Format(
                    cat7("tensor ", name, " is ", have.as_str(), " x ", e.dtype.label(), ", wanted ").concat(
                        want.as_str(),
                    ).concat(" x ").concat(dtype.label()),
                ),
            );
        }
        Ok(e)
    }

    /// The bytes of a tensor that must have the type `want`.
    fn typed(&self, name: &str, want: DType) -> (r: Result<&[u8], Error>)
        ensures
            shows(r, self@.typed(name@, want)),
            r matches Ok(b) ==> b@.len() == self@.tensors[name@].len && self@.tensors[name@].dtype == want,
    {
        let e = match self.entry(name) {
            Ok(e) => e,
            Err(e) => {
                return Err(e);
            },
        };
        if e.dtype != want {
            return Err(Error::Format(cat5("tensor ", name, " is ", e.dtype.label(), ", wanted ").concat(want.label())));
        }
        self.bytes(name)
    }

    /// Any tensor's raw bytes.
    pub fn bytes(&self, name: &str) -> (r: Result<&[u8], Error>)
        ensures
            shows(r, self@.bytes(name@)),
            r matches Ok(b) ==> b@.len() == self@.tensors[name@].len,
    {
        proof {
            use_type_invariant(self);
        }
        let e = match self.entry(name) {
            Ok(e) => e,
            Err(e) => {
                return Err(e);
            },
        };
        let n: usize = self.data.len();
        proof {
            assert(fits(self.map@[name@], n as nat));
        }
        Ok(slice_subrange(self.data.as_slice(), e.off, e.off + e.len))
    }

    /// f32 as raw bits.
    pub fn f32_bits(&self, name: &str) -> (r: Result<Vec<u32>, Error>)
        ensures
            match (r, self@.typed(name@, DType::F32)) {
                (Ok(v), Ok(b)) => v@ == elems32(b),
                (Err(e), Err(m)) => says(e, m),
                _ => false,
            },
            r matches Ok(v) ==> v@.len() == self@.tensors[name@].elems(),
    {
        let b = match self.typed(name, DType::F32) {
            Ok(b) => b,
            Err(e) => {
                return Err(e);
            },
        };
        let total: usize = b.len();
        let n: usize = total / 4;
        let mut v: Vec<u32> = Vec::new();
        let mut i: usize = 0;
        while i < n
            invariant
                i <= n,
                total == b@.len(),
                n == total / 4,
                v@ == elems32(b@).take(i as int),
            decreases n - i,
        {
            v.push(read32(b, 4 * i));
            proof {
                assert(v@ =~= elems32(b@).take(i + 1));
            }
            i += 1;
        }
        proof {
            assert(elems32(b@).take(n as int) =~= elems32(b@));
        }
        Ok(v)
    }

    /// bf16 as raw bits.
    pub fn bf16(&self, name: &str) -> (r: Result<Vec<u16>, Error>)
        ensures
            match (r, self@.typed(name@, DType::Bf16)) {
                (Ok(v), Ok(b)) => v@ == elems16(b),
                (Err(e), Err(m)) => says(e, m),
                _ => false,
            },
            r matches Ok(v) ==> v@.len() == self@.tensors[name@].elems(),
    {
        let b = match self.typed(name, DType::Bf16) {
            Ok(b) => b,
            Err(e) => {
                return Err(e);
            },
        };
        let total: usize = b.len();
        let n: usize = total / 2;
        let mut v: Vec<u16> = Vec::new();
        let mut i: usize = 0;
        while i < n
            invariant
                i <= n,
                total == b@.len(),
                n == total / 2,
                v@ == elems16(b@).take(i as int),
            decreases n - i,
        {
            v.push(read16(b, 2 * i));
            proof {
                assert(v@ =~= elems16(b@).take(i + 1));
            }
            i += 1;
        }
        proof {
            assert(elems16(b@).take(n as int) =~= elems16(b@));
        }
        Ok(v)
    }

    pub fn u8(&self, name: &str) -> (r: Result<&[u8], Error>)
        ensures
            shows(r, self@.typed(name@, DType::U8)),
    {
        self.typed(name, DType::U8)
    }

    pub fn i32(&self, name: &str) -> (r: Result<Vec<i32>, Error>)
        ensures
            match (r, self@.typed(name@, DType::I32)) {
                (Ok(v), Ok(b)) => v@ == signed_elems32(b),
                (Err(e), Err(m)) => says(e, m),
                _ => false,
            },
            r matches Ok(v) ==> v@.len() == self@.tensors[name@].elems(),
    {
        let b = match self.typed(name, DType::I32) {
            Ok(b) => b,
            Err(e) => {
                return Err(e);
            },
        };
        let total: usize = b.len();
        let n: usize = total / 4;
        let mut v: Vec<i32> = Vec::new();
        let mut i: usize = 0;
        while i < n
            invariant
                i <= n,
                total == b@.len(),
                n == total / 4,
                v@ == signed_elems32(b@).take(i as int),
            decreases n - i,
        {
            v.push(to_signed32(read32(b, 4 * i)));
            proof {
                assert(v@ =~= signed_elems32(b@).take(i + 1));
            }
            i += 1;
        }
        proof {
            assert(signed_elems32(b@).take(n as int) =~= signed_elems32(b@));
        }
        Ok(v)
    }
}

// ----------------------------------------------------------------------------
// Plain indices
// ----------------------------------------------------------------------------

/// The tensor that a line of a plain index defines: as `entry_of`, with
/// shorter messages and any byte count.
pub open spec fn plain_entry_of(line: Seq<char>) -> Result<(Seq<char>, EntryView), Seq<char>> {
    let f = words(line);
    if f.len() != 5 {
        Err("tensors.txt: "@ + line)
    } else {
        match (dtype_named(f[1]), dims_of(pieces(f[2], ',')), usize::from_text(f[3]), usize::from_text(f[4])) {
            (None, _, _, _) => Err("tensors.txt: dtype "@ + f[1]),
            (_, None, _, _) => Err(line),
            (_, _, None, _) => Err(line),
            (_, _, _, None) => Err(line),
            (Some(dtype), Some(shape), Some(off), Some(len)) => if off % 8 != 0 {
                Err("tensors.txt: "@ + f[0] + " is not 8-byte aligned"@)
            } else {
                Ok((f[0], EntryView { dtype, shape, off: off as nat, len: len as nat }))
            },
        }
    }
}

/// The tensors of a plain index; one defined again replaces the first.
pub open spec fn plain_index_of(ls: Seq<Seq<char>>) -> Result<Map<Seq<char>, EntryView>, Seq<char>>
    decreases ls.len(),
{
    if ls.len() == 0 {
        Ok(Map::empty())
    } else {
        match (plain_index_of(ls.drop_last()), plain_entry_of(ls.last())) {
            (Err(m), _) => Err(m),
            (_, Err(m)) => Err(m),
            (Ok(t), Ok(e)) => Ok(t.insert(e.0, e.1)),
        }
    }
}

/// Whether `o` is what a plain index and a blob come to; of several tensors
/// that run past the blob's end, any may be the one reported.
pub open spec fn plain_loads(index: Seq<char>, data: Seq<u8>, o: Result<StoreView, Seq<char>>) -> bool {
    match plain_index_of(lines(index)) {
        Err(m) => o == Err::<StoreView, Seq<char>>(m),
        Ok(t) => match o {
            Ok(s) => s == (StoreView { data, tensors: t }) && forall|k: Seq<char>| #[trigger]
                t.contains_key(k) ==> fits(t[k], data.len()),
            Err(m) => exists|k: Seq<char>| #[trigger]
                t.contains_key(k) && !fits(t[k], data.len()) && m == "tensor "@ + k
                    + " runs past the end of tensors.bin"@,
        },
    }
}

proof fn plain_first_error(ls: Seq<Seq<char>>, n: int)
    requires
        0 <= n <= ls.len(),
        plain_index_of(ls.take(n)) is Err,
    ensures
        plain_index_of(ls) == plain_index_of(ls.take(n)),
    decreases ls.len() - n,
{
    if n < ls.len() {
        assert(ls.take(n + 1).drop_last() =~= ls.take(n));
        plain_first_error(ls, n + 1);
    } else {
        assert(ls.take(n) =~= ls);
    }
}

fn read_plain_entry(line: &str) -> (r: Result<(String, Entry), String>)
    ensures
        match (r, plain_entry_of(line@)) {
            (Ok((n, e)), Ok(w)) => n@ == w.0 && e@ == w.1,
            (Err(e), Err(m)) => e@ == m,
            _ => false,
        },
{
    let c = chars_of(line);
    let f = split_words(&c);
    if f.len() != 5 {
        return Err(cat2("tensors.txt: ", line));
    }
    proof {
        assert(forall|k: int| 0 <= k < 5 ==> #[trigger] words(line@)[k] == f@[k]@);
    }
    let dtype = match dtype_of(f[1].as_str()) {
        Some(d) => d,
        None => {
            return Err(cat2("tensors.txt: dtype ", f[1].as_str()));
        },
    };
    let shape = match read_dims(f[2].as_str()) {
        Some(s) => s,
        None => {
            return Err(line.to_owned());
        },
    };
    let off: usize = match usize::parse_text(f[3].as_str()) {
        Some(v) => v,
        None => {
            return Err(line.to_owned());
        },
    };
    let len: usize = match usize::parse_text(f[4].as_str()) {
        Some(v) => v,
        None => {
            return Err(line.to_owned());
        },
    };
    if off % 8 != 0 {
        return Err(cat3("tensors.txt: ", f[0].as_str(), " is not 8-byte aligned"));
    }
    Ok((f[0].clone(), Entry { dtype, shape, off, len }))
}

fn read_plain_index(text: &str) -> (r: Result<Dict<Entry>, String>)
    ensures
        match (r, plain_index_of(lines(text@))) {
            (Ok(d), Ok(t)) => d@ == t,
            (Err(e), Err(m)) => e@ == m,
            _ => false,
        },
{
    let ls = split_lines(text);
    let ghost all = texts(ls@);
    let mut d: Dict<Entry> = Dict::new();
    let mut i: usize = 0;
    proof {
        assert(all.take(0) =~= seq![]);
    }
    while i < ls.len()
        invariant
            i <= ls.len(),
            all == texts(ls@),
            all == lines(text@),
            plain_index_of(all.take(i as int)) == Ok::<Map<Seq<char>, EntryView>, Seq<char>>(d@),
        decreases ls.len() - i,
    {
        proof {
            assert(all.take(i + 1).drop_last() =~= all.take(i as int));
            assert(all.take(i + 1).last() == ls@[i as int]@);
            if plain_index_of(all.take(i + 1)) is Err {
                plain_first_error(all, i + 1);
            }
        }
        let (name, e) = match read_plain_entry(ls[i].as_str()) {
            Ok(x) => x,
            Err(e) => {
                return Err(e);
            },
        };
        d.insert(name, e);
        i += 1;
    }
    proof {
        assert(all.take(i as int) =~= all);
    }
    Ok(d)
}

impl Store {
    /// The store of a plain index and a blob.
    pub fn load_plain(index: &str, data: Vec<u8>) -> (r: Result<Store, String>)
        ensures
            plain_loads(
                index@,
                data@,
                match r {
                    Ok(s) => Ok(s@),
                    Err(e) => Err(e@),
                },
            ),
    {
        let map = match read_plain_index(index) {
            Ok(m) => m,
            Err(e) => {
                return Err(e);
            },
        };
        let ghost t = map@;
        let keys = map.keys();
        let mut i: usize = 0;
        while i < keys.len()
            invariant
                i <= keys.len(),
                t == map@,
                plain_index_of(lines(index@)) == Ok::<Map<Seq<char>, EntryView>, Seq<char>>(t),
                forall|k: Seq<char>| t.contains_key(k) <==> texts(keys@).contains(k),
                forall|j: int| 0 <= j < i ==> fits(t[#[trigger] texts(keys@)[j]], data@.len()),
            decreases keys.len() - i,
        {
            proof {
                assert(texts(keys@)[i as int] == keys@[i as int]@);
                assert(texts(keys@).contains(keys@[i as int]@));
            }
            let key = keys[i].as_str();
            if let Some(e) = map.get(key) {
                if e.off as u128 + e.len as u128 > data.len() as u128 {
                    proof {
                        assert(t.contains_key(key@));
                    }
                    return Err(cat3("tensor ", key, " runs past the end of tensors.bin"));
                }
            }
            i += 1;
        }
        proof {
            assert forall|k: Seq<char>| #[trigger] t.contains_key(k) implies fits(t[k], data@.len()) by {
                assert(texts(keys@).contains(k));
                let j = choose|j: int| 0 <= j < texts(keys@).len() && texts(keys@)[j] == k;
                assert(fits(t[texts(keys@)[j]], data@.len()));
            }
        }
        Ok(Store { data, map })
    }
}

} // verus!
