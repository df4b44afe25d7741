//! Distances along a ray, held as integer keys.
//!
//! A distance is an IEEE-754 double. Everything the intersection engine asks
//! of a distance is its place in the numeric order of doubles, so the engine
//! keeps each distance as a signed key made from the double's bit pattern. For
//! doubles with a clear sign bit the bit patterns ascend with the values; for
//! those with the sign bit set they descend. The key is the magnitude bits with
//! the double's sign, which folds both halves onto one ascending line of `i64`
//! and gives `-0.0` and `+0.0` the same key, 0.
use vstd::prelude::*;

verus! {

/// The sign bit of a double's bit pattern.
pub const SIGN_BIT: u64 = 0x8000_0000_0000_0000;

/// Whether the sign bit of a double's bit pattern is set.
pub open spec fn sign_set(bits: u64) -> bool {
    bits >= SIGN_BIT
}

/// The bit pattern without its sign bit: exponent and fraction.
pub open spec fn magnitude(bits: u64) -> int {
    if sign_set(bits) {
        bits - SIGN_BIT
    } else {
        bits as int
    }
}

/// Whether a double's bit pattern is that of a zero, `+0.0` or `-0.0`.
pub open spec fn is_zero(bits: u64) -> bool {
    magnitude(bits) == 0
}

/// The numeric order of doubles, read from their bit patterns: a value with
/// the sign bit set comes no later than one without it, and the two zeros
/// come no later than each other; among values of one sign, a larger
/// magnitude comes later for a clear sign bit and earlier for a set one. On
/// doubles that are not NaN this is `a <= b`.
pub open spec fn precedes(a: u64, b: u64) -> bool {
    if sign_set(a) != sign_set(b) {
        sign_set(a) || (is_zero(a) && is_zero(b))
    } else if sign_set(a) {
        magnitude(a) >= magnitude(b)
    } else {
        magnitude(a) <= magnitude(b)
    }
}

/// The key of a double's bit pattern: its magnitude, negated where the sign
/// bit is set.
pub open spec fn key_of(bits: u64) -> int {
    if sign_set(bits) {
        -magnitude(bits)
    } else {
        magnitude(bits)
    }
}

/// Turns a double's bit pattern (`f64::to_bits`) into its distance key. The
/// key is negative exactly for a double below zero, so both zeros lie on the
/// ray, not behind its origin.
pub fn distance_key(bits: u64) -> (k: i64)
    ensures
        k == key_of(bits),
        k > i64::MIN,
        k >= 0 <==> !sign_set(bits) || is_zero(bits),
{
    if bits < SIGN_BIT {
        bits as i64
    } else {
        -((bits - SIGN_BIT) as i64)
    }
}

/// Turns a distance key back into a double's bit pattern: the one it came
/// from, or `+0.0` for the key of either zero. `i64::MIN` is the key of no
/// double.
pub fn distance_bits(key: i64) -> (bits: u64)
    requires
        key > i64::MIN,
    ensures
        key_of(bits) == key,
        key == 0 ==> bits == 0,
{
    if key >= 0 {
        key as u64
    } else {
        ((-key) as u64) + SIGN_BIT
    }
}

/// A double's bit pattern survives the way to its key and back, but for
/// `-0.0`, which comes back as `+0.0`: the bit pattern `back` that
/// `distance_bits` gives for the key of `bits` is `bits`.
pub proof fn lemma_key_round_trip(bits: u64, back: u64)
    requires
        bits != SIGN_BIT,
        key_of(back) == key_of(bits),
        key_of(bits) == 0 ==> back == 0,
    ensures
        back == bits,
{
}

/// Keys compare as the doubles they come from: one key is at most another
/// exactly when its double comes no later in the numeric order.
pub proof fn lemma_key_order(a: u64, b: u64)
    ensures
        key_of(a) <= key_of(b) <==> precedes(a, b),
{
}

} // verus!
