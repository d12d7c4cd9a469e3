//! bfloat16 and single precision, as bit patterns.
//!
//! A bfloat16 is the upper half of a single-precision value, so widening
//! appends sixteen zero bits and narrowing rounds them away, to nearest
//! and ties to even.

use vstd::prelude::*;

verus! {

/// The single-precision bits of the bfloat16 `x`.
pub open spec fn wide(x: u16) -> u32 {
    (x * 0x1_0000) as u32
}

/// The single-precision bits of the bfloat16 `x`.
pub fn bf16_to_f32(x: u16) -> (r: u32)
    ensures
        r == wide(x),
{
    x as u32 * 0x1_0000
}

/// Whether single-precision bits are not a number.
pub open spec fn is_nan(bits: u32) -> bool {
    bits % 0x8000_0000 > 0x7f80_0000
}

/// `bits` with its lower half rounded away, to nearest and ties to even.
pub open spec fn nearest(bits: u32) -> int {
    let h = bits as int / 0x1_0000;
    let low = bits as int % 0x1_0000;
    if low > 0x8000 || (low == 0x8000 && h % 2 == 1) {
        h + 1
    } else {
        h
    }
}

/// The bfloat16 nearest to single-precision `bits`; a value that is not a
/// number keeps its upper half, made quiet.
pub open spec fn narrow(bits: u32) -> u16 {
    if is_nan(bits) {
        ((bits / 0x1_0000) as u16) | 0x40
    } else {
        nearest(bits) as u16
    }
}

/// As `narrow`, but every value that is not a number becomes the one quiet
/// bfloat16 of positive sign.
pub open spec fn narrow_canonical(bits: u32) -> u16 {
    if is_nan(bits) {
        0x7fc0
    } else {
        nearest(bits) as u16
    }
}

fn round_half_even(bits: u32) -> (r: u16)
    requires
        !is_nan(bits),
    ensures
        r == nearest(bits),
{
    let h: u32 = bits / 0x1_0000;
    let low: u32 = bits % 0x1_0000;
    if low > 0x8000 || (low == 0x8000 && h % 2 == 1) {
        (h + 1) as u16
    } else {
        h as u16
    }
}

/// The bfloat16 nearest to single-precision `bits` (ties to even).
pub fn f32_to_bf16(bits: u32) -> (r: u16)
    ensures
        r == narrow(bits),
{
    if bits % 0x8000_0000 > 0x7f80_0000 {
        ((bits / 0x1_0000) as u16) | 0x40
    } else {
        round_half_even(bits)
    }
}

/// As `f32_to_bf16`, not-a-number becoming the canonical one.
pub fn f32_to_bf16_canonical(bits: u32) -> (r: u16)
    ensures
        r == narrow_canonical(bits),
{
    if bits % 0x8000_0000 > 0x7f80_0000 {
        0x7fc0
    } else {
        round_half_even(bits)
    }
}

/// Whether single-precision `bits` are of a number below zero.
pub open spec fn below_zero(bits: u32) -> bool {
    bits > 0x8000_0000 && !is_nan(bits)
}

pub fn negative(bits: u32) -> (r: bool)
    ensures
        r == below_zero(bits),
{
    bits > 0x8000_0000 && bits % 0x8000_0000 <= 0x7f80_0000
}

/// Widening and narrowing back gives the same bfloat16, for every number.
pub proof fn narrow_of_wide(x: u16)
    requires
        !is_nan(wide(x)),
    ensures
        narrow(wide(x)) == x,
        narrow_canonical(wide(x)) == x,
{
}

/// Narrowing picks a nearest bfloat16: as bit patterns the result is at
/// most half a step away, and at exactly half a step it is even.
pub proof fn narrow_is_nearest(bits: u32)
    requires
        !is_nan(bits),
    ensures
        -0x8000 <= wide(narrow(bits)) - bits <= 0x8000,
        (wide(narrow(bits)) - bits == 0x8000 || wide(narrow(bits)) - bits == -0x8000) ==> narrow(bits) % 2 == 0,
        narrow_canonical(bits) == narrow(bits),
{
}

/// A value that is not a number stays one.
pub proof fn narrow_keeps_nan(bits: u32)
    requires
        is_nan(bits),
    ensures
        is_nan(wide(narrow(bits))),
        is_nan(wide(narrow_canonical(bits))),
{
    let h = (bits / 0x1_0000) as u16;
    assert((h | 0x40) % 0x8000 > 0x7f80) by (bit_vector)
        requires
            h % 0x8000 >= 0x7f80,
    ;
}

/// The place of a number (not NaN) in the order of single-precision values;
/// both zeros have the same.
pub open spec fn order_key(bits: u32) -> int {
    if bits >= 0x8000_0000 {
        0x8000_0000 - bits
    } else {
        bits as int
    }
}

/// The larger of two single-precision values, the other one where one is
/// NaN, the first where they are equal.
pub open spec fn larger(a: u32, b: u32) -> u32 {
    if is_nan(a) {
        b
    } else if is_nan(b) || order_key(a) >= order_key(b) {
        a
    } else {
        b
    }
}

fn not_a_number(bits: u32) -> (r: bool)
    ensures
        r == is_nan(bits),
{
    if bits >= 0x8000_0000 {
        bits - 0x8000_0000 > 0x7f80_0000
    } else {
        bits > 0x7f80_0000
    }
}

fn key(bits: u32) -> (r: i64)
    ensures
        r == order_key(bits),
{
    if bits >= 0x8000_0000 {
        0x8000_0000 - bits as i64
    } else {
        bits as i64
    }
}

pub fn larger_of(a: u32, b: u32) -> (r: u32)
    ensures
        r == larger(a, b),
{
    if not_a_number(a) {
        b
    } else if not_a_number(b) || key(a) >= key(b) {
        a
    } else {
        b
    }
}

} // verus!
