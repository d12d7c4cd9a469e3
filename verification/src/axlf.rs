//! The pieces of an `.xclbin` (an AXLF container) that loading a kernel
//! needs: the column width of its AIE partition and its PDI.

use crate::bytes::{le16, le32, le64, read16, read32, read64};
use crate::text::{cat3, decimal, decimal_of};
use vstd::prelude::*;

verus! {

/// Where the container's header counts its sections.
pub const NUM_SECTIONS_OFF: u32 = 448;

/// Where the section headers start: `{kind u32, name[16], offset u64, size
/// u64}` each.
pub const SECTIONS_OFF: u32 = 456;

pub const SECTION_HEADER_SIZE: u32 = 40;

/// The kind of the section that holds the partition.
pub const AIE_PARTITION: u32 = 32;

/// The AIE partition of an xclbin.
#[derive(Debug)]
pub struct Partition {
    /// Columns the partition spans.
    pub column_width: u16,
    /// The PDI the firmware loads into the partition: the array
    /// configuration and the cores' programs.
    pub pdi: Vec<u8>,
}

pub struct PartitionView {
    pub column_width: int,
    pub pdi: Seq<u8>,
}

impl View for Partition {
    type V = PartitionView;

    open spec fn view(&self) -> PartitionView {
        PartitionView { column_width: self.column_width as int, pdi: self.pdi@ }
    }
}

/// The first eight bytes of an xclbin.
pub open spec fn magic() -> Seq<u8> {
    seq![0x78u8, 0x63u8, 0x6cu8, 0x62u8, 0x69u8, 0x6eu8, 0x32u8, 0u8]
}

pub open spec fn has_magic(b: Seq<u8>) -> bool {
    b.len() >= 8 && b.subrange(0, 8) == magic()
}

pub open spec fn field16(b: Seq<u8>, at: int) -> Result<int, Seq<char>> {
    if at + 2 <= b.len() {
        Ok(le16(b, at))
    } else {
        Err("xclbin truncated"@)
    }
}

pub open spec fn field32(b: Seq<u8>, at: int) -> Result<int, Seq<char>> {
    if at + 4 <= b.len() {
        Ok(le32(b, at))
    } else {
        Err("xclbin truncated"@)
    }
}

pub open spec fn field64(b: Seq<u8>, at: int) -> Result<int, Seq<char>> {
    if at + 8 <= b.len() {
        Ok(le64(b, at))
    } else {
        Err("xclbin truncated"@)
    }
}

/// Where the first partition section among the headers `i..n` starts.
pub open spec fn section(b: Seq<u8>, i: int, n: int) -> Result<int, Seq<char>>
    decreases n - i,
{
    if i >= n {
        Err("xclbin has no AIE_PARTITION section"@)
    } else {
        let h = SECTIONS_OFF + i * SECTION_HEADER_SIZE;
        match field32(b, h) {
            Err(m) => Err(m),
            Ok(kind) => if kind == AIE_PARTITION {
                field64(b, h + 24)
            } else {
                section(b, i + 1, n)
            },
        }
    }
}

/// The PDI of the partition section at `s`, whose record stands at `p`.
pub open spec fn image(b: Seq<u8>, s: int, p: int) -> Result<Seq<u8>, Seq<char>> {
    match (field32(b, p + 16), field32(b, p + 20)) {
        (Ok(size), Ok(off)) => if s + off + size <= b.len() {
            Ok(b.subrange(s + off, s + off + size))
        } else {
            Err("PDI outside the xclbin"@)
        },
        (Err(m), _) => Err(m),
        (_, Err(m)) => Err(m),
    }
}

/// The partition in the section at `s`.
pub open spec fn partition_at(b: Seq<u8>, s: int) -> Result<PartitionView, Seq<char>> {
    match (field16(b, s + 32), field32(b, s + 120)) {
        (Ok(width), Ok(pdis)) => if pdis != 1 {
            Err("AIE_PARTITION holds "@ + decimal(pdis as nat) + " PDIs; the direct path loads exactly one"@)
        } else {
            match field32(b, s + 124) {
                Err(m) => Err(m),
                Ok(record) => match image(b, s, s + record) {
                    Err(m) => Err(m),
                    Ok(pdi) => Ok(PartitionView { column_width: width, pdi }),
                },
            }
        },
        (Err(m), _) => Err(m),
        (_, Err(m)) => Err(m),
    }
}

/// What an xclbin's bytes hold.
pub open spec fn partition_of(b: Seq<u8>) -> Result<PartitionView, Seq<char>> {
    if !has_magic(b) {
        Err("not an xclbin (no xclbin2 magic)"@)
    } else {
        match field32(b, NUM_SECTIONS_OFF as int) {
            Err(m) => Err(m),
            Ok(n) => match section(b, 0, n) {
                Err(m) => Err(m),
                Ok(s) => partition_at(b, s),
            },
        }
    }
}

/// Whether `r` is `want`: the number, or the message.
pub open spec fn counts<T: View>(r: Result<T, String>, want: Result<T::V, Seq<char>>) -> bool {
    match (r, want) {
        (Ok(v), Ok(w)) => v@ == w,
        (Err(e), Err(m)) => e@ == m,
        _ => false,
    }
}

fn truncated() -> (r: String)
    ensures
        r@ == "xclbin truncated"@,
{
    "xclbin truncated".to_string()
}

fn u16_at(b: &[u8], at: u128) -> (r: Result<u16, String>)
    requires
        at < 0x1_0000_0000_0000_0000_0000,
    ensures
        match (r, field16(b@, at as int)) {
            (Ok(v), Ok(w)) => v == w,
            (Err(e), Err(m)) => e@ == m,
            _ => false,
        },
{
    if at + 2 <= b.len() as u128 {
        Ok(read16(b, at as usize))
    } else {
        Err(truncated())
    }
}

fn u32_at(b: &[u8], at: u128) -> (r: Result<u32, String>)
    requires
        at < 0x1_0000_0000_0000_0000_0000,
    ensures
        match (r, field32(b@, at as int)) {
            (Ok(v), Ok(w)) => v == w,
            (Err(e), Err(m)) => e@ == m,
            _ => false,
        },
{
    if at + 4 <= b.len() as u128 {
        Ok(read32(b, at as usize))
    } else {
        Err(truncated())
    }
}

fn u64_at(b: &[u8], at: u128) -> (r: Result<u64, String>)
    requires
        at < 0x1_0000_0000_0000_0000_0000,
    ensures
        match (r, field64(b@, at as int)) {
            (Ok(v), Ok(w)) => v == w,
            (Err(e), Err(m)) => e@ == m,
            _ => false,
        },
{
    if at + 8 <= b.len() as u128 {
        Ok(read64(b, at as usize))
    } else {
        Err(truncated())
    }
}

fn find_section(b: &[u8], n: u32) -> (r: Result<u64, String>)
    ensures
        match (r, section(b@, 0, n as int)) {
            (Ok(v), Ok(w)) => v == w,
            (Err(e), Err(m)) => e@ == m,
            _ => false,
        },
{
    let mut i: u32 = 0;
    while i < n
        invariant
            i <= n,
            section(b@, 0, n as int) == section(b@, i as int, n as int),
        decreases n - i,
    {
        let h: u128 = SECTIONS_OFF as u128 + i as u128 * SECTION_HEADER_SIZE as u128;
        match u32_at(b, h) {
            Err(e) => {
                return Err(e);
            },
            Ok(kind) => {
                if kind == AIE_PARTITION {
                    return u64_at(b, h + 24);
                }
            },
        }
        i = i + 1;
    }
    Err("xclbin has no AIE_PARTITION section".to_string())
}

fn bytes_in(b: &[u8], from: usize, to: usize) -> (r: Vec<u8>)
    requires
        from <= to <= b.len(),
    ensures
        r@ == b@.subrange(from as int, to as int),
{
    let mut r: Vec<u8> = Vec::new();
    let mut i: usize = from;
    while i < to
        invariant
            from <= i <= to <= b.len(),
            r@ == b@.subrange(from as int, i as int),
        decreases to - i,
    {
        r.push(b[i]);
        i = i + 1;
        assert(b@.subrange(from as int, i as int).drop_last() == b@.subrange(from as int, i - 1));
    }
    r
}

fn read_image(b: &[u8], s: u64, p: u128) -> (r: Result<Vec<u8>, String>)
    requires
        p < 0x2_0000_0000_0000_0000,
    ensures
        counts(r, image(b@, s as int, p as int)),
{
    match u32_at(b, p + 16) {
        Err(e) => Err(e),
        Ok(size) => match u32_at(b, p + 20) {
            Err(e) => Err(e),
            Ok(off) => {
                let from: u128 = s as u128 + off as u128;
                let to: u128 = from + size as u128;
                if to <= b.len() as u128 {
                    Ok(bytes_in(b, from as usize, to as usize))
                } else {
                    Err("PDI outside the xclbin".to_string())
                }
            },
        },
    }
}

fn read_partition(b: &[u8], s: u64) -> (r: Result<Partition, String>)
    ensures
        counts(r, partition_at(b@, s as int)),
{
    let at: u128 = s as u128;
    let column_width = match u16_at(b, at + 32) {
        Err(e) => {
            return Err(e);
        },
        Ok(v) => v,
    };
    let pdis = match u32_at(b, at + 120) {
        Err(e) => {
            return Err(e);
        },
        Ok(v) => v,
    };
    if pdis != 1 {
        let n = decimal_of(pdis as u128);
        return Err(
            cat3("AIE_PARTITION holds ", n.as_str(), " PDIs; the direct path loads exactly one"),
        );
    }
    match u32_at(b, at + 124) {
        Err(e) => Err(e),
        Ok(record) => match read_image(b, s, at + record as u128) {
            Err(e) => Err(e),
            Ok(pdi) => Ok(Partition { column_width, pdi }),
        },
    }
}

fn starts_with_magic(b: &[u8]) -> (r: bool)
    ensures
        r == has_magic(b@),
{
    if b.len() < 8 {
        return false;
    }
    let r = b[0] == 0x78 && b[1] == 0x63 && b[2] == 0x6c && b[3] == 0x62 && b[4] == 0x69 && b[5] == 0x6e && b[6] == 0x32
        && b[7] == 0;
    proof {
        let head = b@.subrange(0, 8);
        if r {
            assert(head =~= magic());
        } else {
            assert forall|i: int| 0 <= i < 8 implies head[i] == #[trigger] b@[i] by {}
            if head == magic() {
                assert(b@[0] == magic()[0] && b@[1] == magic()[1] && b@[2] == magic()[2] && b@[3] == magic()[3]);
                assert(b@[4] == magic()[4] && b@[5] == magic()[5] && b@[6] == magic()[6] && b@[7] == magic()[7]);
            }
        }
    }
    r
}

/// The `AIE_PARTITION` section of `xclbin`: its column width and its PDI
/// (an IRON xclbin has exactly one).
pub fn partition(xclbin: &[u8]) -> (r: Result<Partition, String>)
    ensures
        counts(r, partition_of(xclbin@)),
{
    if !starts_with_magic(xclbin) {
        return Err("not an xclbin (no xclbin2 magic)".to_string());
    }
    match u32_at(xclbin, NUM_SECTIONS_OFF as u128) {
        Err(e) => Err(e),
        Ok(n) => match find_section(xclbin, n) {
            Err(e) => Err(e),
            Ok(s) => read_partition(xclbin, s),
        },
    }
}

/// What `partition` reads lies in the bytes it was given: the PDI is one of
/// their runs, and the width one of their 16-bit fields.
pub proof fn pdi_is_a_run(b: Seq<u8>)
    ensures
        partition_of(b) matches Ok(p) ==> exists|from: int, to: int|
            0 <= from <= to <= b.len() && p.pdi == #[trigger] b.subrange(from, to),
{
    if let Ok(p) = partition_of(b) {
        let n = field32(b, NUM_SECTIONS_OFF as int)->Ok_0;
        section_is_nonnegative(b, 0, n);
        let s = section(b, 0, n)->Ok_0;
        let q = s + field32(b, s + 124)->Ok_0;
        let size = field32(b, q + 16)->Ok_0;
        let off = field32(b, q + 20)->Ok_0;
        assert(p.pdi == b.subrange(s + off, s + off + size));
    }
}

proof fn section_is_nonnegative(b: Seq<u8>, i: int, n: int)
    ensures
        section(b, i, n) matches Ok(s) ==> s >= 0,
    decreases n - i,
{
    if i < n {
        section_is_nonnegative(b, i + 1, n);
    }
}

} // verus!
