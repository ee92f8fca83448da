//! Ordered keys for real numbers.
//!
//! The queries of this library compare ray parameters and never compute
//! with them. A parameter is therefore carried as an `i64` key. For a
//! number in IEEE 754 binary64 form the key is read off its bit pattern,
//! which is a sign bit and a magnitude: numbers of one sign are ordered as
//! their magnitudes are, so the key is the magnitude with the sign applied.
//! Keys are then ordered as the numbers are, the two zeros share the key 0,
//! and changing the sign of a number changes the sign of its key.
//!
//! What is stated and proved here is stated of bit patterns and keys. That
//! a bit pattern stands for a certain number is the format's affair.

use vstd::prelude::*;

verus! {

/// The sign bit of a bit pattern.
pub const SIGN: u64 = 0x8000_0000_0000_0000;

/// The key of positive infinity. The keys of the finite numbers lie
/// strictly between `-INFINITY` and `INFINITY`; what lies outside is not a
/// number.
pub const INFINITY: i64 = 0x7ff0_0000_0000_0000;

/// The key of 0.
pub const ZERO: i64 = 0;

/// The key of 1.
pub const ONE: i64 = 0x3ff0_0000_0000_0000;

/// The key of the number with the bit pattern `bits`.
pub open spec fn key_of(bits: u64) -> int {
    if bits < SIGN {
        bits as int
    } else {
        -((bits - SIGN) as int)
    }
}

/// The bit pattern of the number with the key `key`; for the one key that
/// no number has, the lowest, that of the key above it.
pub open spec fn bits_of(key: i64) -> u64 {
    if key >= 0 {
        key as u64
    } else if key == i64::MIN {
        (SIGN + i64::MAX) as u64
    } else {
        (SIGN + (-key)) as u64
    }
}

/// The key of the number with the bit pattern `bits`.
pub fn from_bits(bits: u64) -> (key: i64)
    ensures
        key == key_of(bits),
        key > i64::MIN,
{
    if bits < SIGN {
        bits as i64
    } else {
        -((bits - SIGN) as i64)
    }
}

/// The bit pattern of the number with the key `key`.
pub fn to_bits(key: i64) -> (bits: u64)
    ensures
        bits == bits_of(key),
        key > i64::MIN ==> key_of(bits) == key,
{
    if key >= 0 {
        key as u64
    } else if key == i64::MIN {
        SIGN + (i64::MAX as u64)
    } else {
        SIGN + ((-key) as u64)
    }
}

/// The key is that of a number, finite or infinite.
pub open spec fn is_number_spec(key: i64) -> bool {
    -INFINITY <= key <= INFINITY
}

/// `key` brought into the range from `lo` to `hi`; a key that is not that
/// of a number stays as it is.
pub open spec fn clamp_spec(key: i64, lo: i64, hi: i64) -> i64 {
    if !is_number_spec(key) {
        key
    } else if key < lo {
        lo
    } else if key > hi {
        hi
    } else {
        key
    }
}

/// `a` is greater than `b`, as numbers: nothing is greater than what is not
/// a number, and what is not a number is greater than nothing.
pub open spec fn gt_spec(a: i64, b: i64) -> bool {
    is_number_spec(a) && is_number_spec(b) && a > b
}

/// `a` is less than `b`, as numbers.
pub open spec fn lt_spec(a: i64, b: i64) -> bool {
    gt_spec(b, a)
}

/// Whether the key is that of a number: of a finite one or an infinity.
pub fn is_number(key: i64) -> (b: bool)
    ensures
        b == is_number_spec(key),
{
    -INFINITY <= key && key <= INFINITY
}

/// Whether `a` is greater than `b`, as numbers.
pub fn gt(a: i64, b: i64) -> (greater: bool)
    ensures
        greater == gt_spec(a, b),
{
    is_number(a) && is_number(b) && a > b
}

/// Whether `a` is less than `b`, as numbers.
pub fn lt(a: i64, b: i64) -> (less: bool)
    ensures
        less == lt_spec(a, b),
{
    gt(b, a)
}

/// Brings a number into the range from `lo` to `hi`, which must not be
/// empty; what is not a number stays as it is.
pub fn clamp(key: i64, lo: i64, hi: i64) -> (clamped: i64)
    requires
        lo <= hi,
    ensures
        clamped == clamp_spec(key, lo, hi),
{
    if !is_number(key) {
        key
    } else if key < lo {
        lo
    } else if key > hi {
        hi
    } else {
        key
    }
}

/// A clamped number lies in the range, and clamping it once more changes
/// nothing.
pub proof fn lemma_clamp(key: i64, lo: i64, hi: i64)
    requires
        lo <= hi,
        is_number_spec(lo),
        is_number_spec(hi),
    ensures
        is_number_spec(key) ==> lo <= clamp_spec(key, lo, hi) <= hi,
        clamp_spec(clamp_spec(key, lo, hi), lo, hi) == clamp_spec(key, lo, hi),
{
}

/// Keys are ordered as magnitudes are among the patterns without the sign
/// bit, and the other way round among those with it; a pattern with the
/// sign bit never has a key above one without.
pub proof fn lemma_key_order(a: u64, b: u64)
    ensures
        a < SIGN && b < SIGN ==> (key_of(a) <= key_of(b) <==> a <= b),
        a >= SIGN && b >= SIGN ==> (key_of(a) <= key_of(b) <==> a >= b),
        a >= SIGN && b < SIGN ==> key_of(a) <= key_of(b),
{
}

/// Taking the key and going back gives the same pattern, but for the
/// negative zero, which comes back as the positive one.
pub proof fn lemma_round_trip(bits: u64, key: i64)
    ensures
        bits != SIGN ==> bits_of(key_of(bits) as i64) == bits,
        bits_of(key_of(SIGN) as i64) == 0,
        key > i64::MIN ==> key_of(bits_of(key)) == key,
{
}

/// Changing the sign of a number changes the sign of its key.
pub proof fn lemma_negation(bits: u64)
    ensures
        key_of(bits ^ SIGN) == -key_of(bits),
{
    assert(bits < 0x8000_0000_0000_0000 ==> bits ^ 0x8000_0000_0000_0000 == bits
        + 0x8000_0000_0000_0000) by (bit_vector);
    assert(bits >= 0x8000_0000_0000_0000 ==> bits ^ 0x8000_0000_0000_0000 == bits
        - 0x8000_0000_0000_0000) by (bit_vector);
}

} // verus!
