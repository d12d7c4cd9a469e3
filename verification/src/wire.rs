//! Plain records as the bytes a driver exchanges: integer fields of fixed
//! width, little-endian, one after the other.

use vstd::prelude::*;

verus! {

/// An integer and the number of bytes it takes.
pub struct Field {
    pub width: nat,
    pub value: int,
}

/// The `w` little-endian bytes of `v`.
pub open spec fn le_bytes(w: nat, v: int) -> Seq<u8>
    decreases w,
{
    if w == 0 {
        Seq::empty()
    } else {
        seq![(v % 0x100) as u8] + le_bytes((w - 1) as nat, v / 0x100)
    }
}

/// The largest value of `w` bytes, plus one.
pub open spec fn room(w: nat) -> int
    decreases w,
{
    if w == 0 {
        1
    } else {
        0x100 * room((w - 1) as nat)
    }
}

/// The bytes of `f`, in order.
pub open spec fn packed(f: Seq<Field>) -> Seq<u8>
    decreases f.len(),
{
    if f.len() == 0 {
        Seq::empty()
    } else {
        packed(f.drop_last()) + le_bytes(f.last().width, f.last().value)
    }
}

pub open spec fn widths_of(f: Seq<Field>) -> Seq<nat> {
    f.map_values(|x: Field| x.width)
}

/// The bytes fields of widths `w` take.
pub open spec fn total(w: Seq<nat>) -> nat
    decreases w.len(),
{
    if w.len() == 0 {
        0
    } else {
        total(w.drop_last()) + w.last()
    }
}

pub open spec fn in_range(f: Seq<Field>) -> bool {
    forall|i: int| 0 <= i < f.len() ==> 0 <= (#[trigger] f[i]).value < room(f[i].width)
}

proof fn le_bytes_len(w: nat, v: int)
    ensures
        le_bytes(w, v).len() == w,
    decreases w,
{
    if w > 0 {
        le_bytes_len((w - 1) as nat, v / 0x100);
    }
}

proof fn packed_len(f: Seq<Field>)
    ensures
        packed(f).len() == total(widths_of(f)),
    decreases f.len(),
{
    if f.len() > 0 {
        packed_len(f.drop_last());
        le_bytes_len(f.last().width, f.last().value);
        assert(widths_of(f).drop_last() =~= widths_of(f.drop_last()));
    }
}

proof fn packed_push(f: Seq<Field>, x: Field)
    ensures
        packed(f.push(x)) == packed(f) + le_bytes(x.width, x.value),
{
    assert(f.push(x).drop_last() =~= f);
}

proof fn le_bytes_injective(w: nat, a: int, b: int)
    requires
        0 <= a < room(w),
        0 <= b < room(w),
        le_bytes(w, a) == le_bytes(w, b),
    ensures
        a == b,
    decreases w,
{
    if w > 0 {
        let x = le_bytes((w - 1) as nat, a / 0x100);
        let y = le_bytes((w - 1) as nat, b / 0x100);
        assert(le_bytes(w, a)[0] == (a % 0x100) as u8);
        assert(le_bytes(w, b)[0] == (b % 0x100) as u8);
        assert(x =~= le_bytes(w, a).skip(1));
        assert(y =~= le_bytes(w, b).skip(1));
        le_bytes_injective((w - 1) as nat, a / 0x100, b / 0x100);
    }
}

/// Fields of the same widths with the same bytes are the same fields.
pub proof fn packing_is_injective(f: Seq<Field>, g: Seq<Field>)
    requires
        in_range(f),
        in_range(g),
        widths_of(f) == widths_of(g),
        packed(f) == packed(g),
    ensures
        f == g,
    decreases f.len(),
{
    assert(widths_of(f).len() == f.len() && widths_of(g).len() == g.len());
    if f.len() > 0 {
        let n = f.len() - 1;
        assert(widths_of(f)[n] == f[n].width && widths_of(g)[n] == g[n].width);
        assert(widths_of(f.drop_last()) =~= widths_of(f).drop_last());
        assert(widths_of(g.drop_last()) =~= widths_of(g).drop_last());
        packed_len(f.drop_last());
        packed_len(g.drop_last());
        let k = packed(f.drop_last()).len() as int;
        assert(packed(f.drop_last()) =~= packed(f).take(k));
        assert(packed(g.drop_last()) =~= packed(g).take(k));
        assert(le_bytes(f.last().width, f.last().value) =~= packed(f).skip(k));
        assert(le_bytes(g.last().width, g.last().value) =~= packed(g).skip(k));
        assert(in_range(f.drop_last())) by {
            assert forall|i: int| 0 <= i < f.len() - 1 implies 0 <= (#[trigger] f.drop_last()[i]).value < room(
                f.drop_last()[i].width,
            ) by {
                assert(f.drop_last()[i] == f[i]);
            }
        }
        assert(in_range(g.drop_last())) by {
            assert forall|i: int| 0 <= i < g.len() - 1 implies 0 <= (#[trigger] g.drop_last()[i]).value < room(
                g.drop_last()[i].width,
            ) by {
                assert(g.drop_last()[i] == g[i]);
            }
        }
        packing_is_injective(f.drop_last(), g.drop_last());
        le_bytes_injective(f[n].width, f[n].value, g[n].value);
        assert forall|i: int| 0 <= i < f.len() implies f[i] == g[i] by {
            if i < n {
                assert(f[i] == f.drop_last()[i] && g[i] == g.drop_last()[i]);
            }
        }
        assert(f =~= g);
    } else {
        assert(f =~= g);
    }
}

proof fn rooms()
    ensures
        room(1) == 0x100,
        room(2) == 0x1_0000,
        room(4) == 0x1_0000_0000,
        room(8) == 0x1_0000_0000_0000_0000,
{
    reveal_with_fuel(room, 9);
}

/// The two's complement bits of `v`.
pub open spec fn bits64(v: i64) -> int {
    if v < 0 {
        v + 0x1_0000_0000_0000_0000
    } else {
        v as int
    }
}

/// A record being written: its bytes are those of the fields put so far.
pub struct Writer {
    bytes: Vec<u8>,
    fields: Ghost<Seq<Field>>,
}

impl Writer {
    #[verifier::type_invariant]
    spec fn wf(self) -> bool {
        self.bytes@ == packed(self.fields@)
    }

    pub closed spec fn fields(self) -> Seq<Field> {
        self.fields@
    }

    fn new() -> (r: Writer)
        ensures
            r.fields() == Seq::<Field>::empty(),
    {
        Writer { bytes: Vec::new(), fields: Ghost(Seq::empty()) }
    }

    fn bytes(self) -> (r: Vec<u8>)
        ensures
            r@ == packed(self.fields()),
    {
        proof {
            use_type_invariant(&self);
        }
        self.bytes
    }

    fn put(&mut self, width: usize, value: u64)
        requires
            value < room(width as nat),
        ensures
            final(self).fields() == old(self).fields().push(Field { width: width as nat, value: value as int }),
    {
        proof {
            use_type_invariant(&*self);
        }
        let ghost before = self.fields@;
        let mut out: Vec<u8> = Vec::new();
        let mut rest: u64 = value;
        let mut i: usize = 0;
        while i < width
            invariant
                i <= width,
                out@ + le_bytes((width - i) as nat, rest as int) == le_bytes(width as nat, value as int),
            decreases width - i,
        {
            let low: u8 = (rest % 0x100) as u8;
            let ghost tail = le_bytes((width - i - 1) as nat, rest as int / 0x100);
            assert(le_bytes((width - i) as nat, rest as int) == seq![low] + tail);
            assert(out@ + (seq![low] + tail) =~= out@.push(low) + tail);
            out.push(low);
            rest = rest / 0x100;
            i = i + 1;
        }
        assert(out@ + le_bytes(0, rest as int) =~= out@);
        let mut bytes = copy(&self.bytes);
        bytes.append(&mut out);
        proof {
            packed_push(before, Field { width: width as nat, value: value as int });
        }
        *self = Writer {
            bytes,
            fields: Ghost(before.push(Field { width: width as nat, value: value as int })),
        };
    }

    pub fn put8(&mut self, v: u8)
        ensures
            final(self).fields() == old(self).fields().push(Field { width: 1, value: v as int }),
    {
        proof {
            rooms();
        }
        self.put(1, v as u64);
    }

    pub fn put16(&mut self, v: u16)
        ensures
            final(self).fields() == old(self).fields().push(Field { width: 2, value: v as int }),
    {
        proof {
            rooms();
        }
        self.put(2, v as u64);
    }

    pub fn put32(&mut self, v: u32)
        ensures
            final(self).fields() == old(self).fields().push(Field { width: 4, value: v as int }),
    {
        proof {
            rooms();
        }
        self.put(4, v as u64);
    }

    pub fn put64(&mut self, v: u64)
        ensures
            final(self).fields() == old(self).fields().push(Field { width: 8, value: v as int }),
    {
        proof {
            rooms();
        }
        self.put(8, v);
    }

    pub fn put_signed(&mut self, v: i64)
        ensures
            final(self).fields() == old(self).fields().push(Field { width: 8, value: bits64(v) }),
    {
        let bits: u64 = if v < 0 {
            (v as i128 + 0x1_0000_0000_0000_0000) as u64
        } else {
            v as u64
        };
        self.put64(bits);
    }
}

fn copy(v: &Vec<u8>) -> (r: Vec<u8>)
    ensures
        r@ == v@,
{
    let mut r: Vec<u8> = Vec::new();
    let mut i: usize = 0;
    while i < v.len()
        invariant
            i <= v.len(),
            r@ == v@.take(i as int),
        decreases v.len() - i,
    {
        r.push(v[i]);
        i = i + 1;
        assert(v@.take(i as int).drop_last() =~= v@.take(i - 1));
    }
    assert(v@.take(v.len() as int) =~= v@);
    r
}

/// A record being read: the bytes consumed so far are those of the fields
/// taken so far.
pub struct Reader<'a> {
    bytes: &'a [u8],
    at: usize,
    fields: Ghost<Seq<Field>>,
}

impl<'a> Reader<'a> {
    #[verifier::type_invariant]
    spec fn wf(self) -> bool {
        &&& self.at <= self.bytes@.len()
        &&& self.bytes@.take(self.at as int) == packed(self.fields@)
    }

    pub closed spec fn fields(self) -> Seq<Field> {
        self.fields@
    }

    /// All the bytes, consumed or not.
    pub closed spec fn source(self) -> Seq<u8> {
        self.bytes@
    }

    pub closed spec fn consumed(self) -> nat {
        self.at as nat
    }

    fn new(bytes: &'a [u8]) -> (r: Reader<'a>)
        ensures
            r.fields() == Seq::<Field>::empty(),
            r.source() == bytes@,
            r.consumed() == 0,
    {
        assert(bytes@.take(0) =~= packed(Seq::empty()));
        Reader { bytes, at: 0, fields: Ghost(Seq::empty()) }
    }

    fn get(&mut self, width: usize) -> (r: u64)
        requires
            width <= 8,
            old(self).consumed() + width <= old(self).source().len(),
        ensures
            final(self).source() == old(self).source(),
            final(self).consumed() == old(self).consumed() + width,
            final(self).fields() == old(self).fields().push(Field { width: width as nat, value: r as int }),
            r < room(width as nat),
    {
        proof {
            use_type_invariant(&*self);
            reveal_with_fuel(room, 9);
        }
        let bytes = self.bytes;
        let at: usize = self.at;
        let ghost before = self.fields@;
        let mut v: u64 = 0;
        let mut i: usize = width;
        while i > 0
            invariant
                i <= width <= 8,
                at + width <= bytes.len(),
                v < room((width - i) as nat) <= 0x1_0000_0000_0000_0000,
                le_bytes((width - i) as nat, v as int) == bytes@.subrange(at + i, at + width),
            decreases i,
        {
            i = i - 1;
            proof {
                reveal_with_fuel(room, 9);
            }
            let ghost before_v = v as int;
            assert(room((width - i) as nat) == 0x100 * room((width - i - 1) as nat));
            v = bytes[at + i] as u64 + 0x100 * v;
            proof {
                assert(v as int / 0x100 == before_v);
                assert(v as int % 0x100 == bytes@[at + i]);
                assert(le_bytes((width - i) as nat, v as int) =~= bytes@.subrange(at + i, at + width));
            }
        }
        proof {
            let x = Field { width: width as nat, value: v as int };
            packed_push(before, x);
            assert(bytes@.take(at + width) =~= bytes@.take(at as int) + bytes@.subrange(at as int, at + width));
        }
        *self = Reader {
            bytes,
            at: at + width,
            fields: Ghost(before.push(Field { width: width as nat, value: v as int })),
        };
        v
    }

    pub fn get8(&mut self) -> (r: u8)
        requires
            old(self).consumed() + 1 <= old(self).source().len(),
        ensures
            final(self).source() == old(self).source(),
            final(self).consumed() == old(self).consumed() + 1,
            final(self).fields() == old(self).fields().push(Field { width: 1, value: r as int }),
    {
        proof {
            rooms();
        }
        self.get(1) as u8
    }

    pub fn get16(&mut self) -> (r: u16)
        requires
            old(self).consumed() + 2 <= old(self).source().len(),
        ensures
            final(self).source() == old(self).source(),
            final(self).consumed() == old(self).consumed() + 2,
            final(self).fields() == old(self).fields().push(Field { width: 2, value: r as int }),
    {
        proof {
            rooms();
        }
        self.get(2) as u16
    }

    pub fn get32(&mut self) -> (r: u32)
        requires
            old(self).consumed() + 4 <= old(self).source().len(),
        ensures
            final(self).source() == old(self).source(),
            final(self).consumed() == old(self).consumed() + 4,
            final(self).fields() == old(self).fields().push(Field { width: 4, value: r as int }),
    {
        proof {
            rooms();
        }
        self.get(4) as u32
    }

    pub fn get64(&mut self) -> (r: u64)
        requires
            old(self).consumed() + 8 <= old(self).source().len(),
        ensures
            final(self).source() == old(self).source(),
            final(self).consumed() == old(self).consumed() + 8,
            final(self).fields() == old(self).fields().push(Field { width: 8, value: r as int }),
    {
        self.get(8)
    }

    pub fn get_signed(&mut self) -> (r: i64)
        requires
            old(self).consumed() + 8 <= old(self).source().len(),
        ensures
            final(self).source() == old(self).source(),
            final(self).consumed() == old(self).consumed() + 8,
            final(self).fields() == old(self).fields().push(Field { width: 8, value: bits64(r) }),
    {
        let bits: u64 = self.get(8);
        if bits < 0x8000_0000_0000_0000 {
            bits as i64
        } else {
            (bits as i128 - 0x1_0000_0000_0000_0000) as i64
        }
    }
}

/// A record with a fixed layout.
pub trait Plain: Sized {
    spec fn fields(self) -> Seq<Field>;

    spec fn widths() -> Seq<nat>;

    /// The record's size in bytes.
    fn size() -> (r: usize)
        ensures
            r == total(Self::widths()),
    ;

    fn put(&self, w: &mut Writer)
        ensures
            final(w).fields() == old(w).fields() + self.fields(),
    ;

    fn take(r: &mut Reader) -> (x: Self)
        requires
            old(r).consumed() + total(Self::widths()) <= old(r).source().len(),
        ensures
            final(r).source() == old(r).source(),
            final(r).consumed() == old(r).consumed() + total(Self::widths()),
            final(r).fields() == old(r).fields() + x.fields(),
    ;

    proof fn laid_out(self)
        ensures
            in_range(self.fields()),
            widths_of(self.fields()) == Self::widths(),
    ;

    proof fn determined(x: Self, y: Self)
        requires
            x.fields() == y.fields(),
        ensures
            x == y,
    ;
}

/// The bytes of a record.
pub open spec fn bytes_of<T: Plain>(x: T) -> Seq<u8> {
    packed(x.fields())
}

pub fn encode<T: Plain>(x: &T) -> (r: Vec<u8>)
    ensures
        r@ == bytes_of(*x),
        r@.len() == total(T::widths()),
{
    let mut w = Writer::new();
    x.put(&mut w);
    proof {
        assert(Seq::<Field>::empty() + x.fields() =~= x.fields());
        x.laid_out();
        packed_len(x.fields());
    }
    w.bytes()
}

/// The record with the bytes `b`, when `b` is of a record's size.
pub fn decode<T: Plain>(b: &[u8]) -> (r: Option<T>)
    ensures
        r is Some <==> b.len() == total(T::widths()),
        r matches Some(x) ==> bytes_of(x) == b@,
{
    if b.len() != T::size() {
        return None;
    }
    let mut reader = Reader::new(b);
    let x = T::take(&mut reader);
    proof {
        use_type_invariant(&reader);
        assert(Seq::<Field>::empty() + x.fields() =~= x.fields());
        assert(b@.take(b@.len() as int) =~= b@);
    }
    Some(x)
}

/// Two records with the same bytes are the same: what decodes from a
/// record's bytes is that record.
pub proof fn decoding_undoes_encoding<T: Plain>(x: T, y: T)
    requires
        bytes_of(x) == bytes_of(y),
    ensures
        x == y,
{
    x.laid_out();
    y.laid_out();
    packing_is_injective(x.fields(), y.fields());
    T::determined(x, y);
}

} // verus!
