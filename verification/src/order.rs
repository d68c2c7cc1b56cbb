//! Order keys: what the library knows of a real value when it compares.

use vstd::prelude::*;

verus! {

/// The order of a value: `Ordered(k)` compares as `k` does, `Unordered` (a NaN) compares
/// neither below, above nor equal to anything, itself included.
#[derive(Clone, Copy, Debug, PartialEq, Eq, Structural)]
pub enum OrderKey {
    Unordered,
    Ordered(i64),
}

/// `a >= b` between the values that the keys stand for.
pub open spec fn key_ge(a: OrderKey, b: OrderKey) -> bool {
    match (a, b) {
        (OrderKey::Ordered(x), OrderKey::Ordered(y)) => x >= y,
        _ => false,
    }
}

/// `a > b` between the values that the keys stand for.
pub open spec fn key_gt(a: OrderKey, b: OrderKey) -> bool {
    match (a, b) {
        (OrderKey::Ordered(x), OrderKey::Ordered(y)) => x > y,
        _ => false,
    }
}

/// The order key of the IEEE 754 double with bit pattern `bits`: unordered for a NaN
/// (magnitude above that of infinity), else the magnitude (the bits below the sign),
/// negated when the sign bit is set. Both zeros get the key 0.
pub open spec fn key_of_bits(bits: u64) -> OrderKey {
    let magnitude = bits % 0x8000_0000_0000_0000;
    if magnitude > 0x7ff0_0000_0000_0000 {
        OrderKey::Unordered
    } else if bits >= 0x8000_0000_0000_0000 {
        OrderKey::Ordered(-(magnitude as int) as i64)
    } else {
        OrderKey::Ordered(magnitude as i64)
    }
}

/// The double with bit pattern `bits` is a NaN: its exponent field (the 11 bits above the
/// 52-bit fraction) is all ones and its fraction is not zero.
pub open spec fn is_nan_bits(bits: u64) -> bool {
    (bits / 0x10_0000_0000_0000) % 0x800 == 0x7ff && bits % 0x10_0000_0000_0000 != 0
}

/// The IEEE 754 order `a >= b` between the doubles with bit patterns `a` and `b`, neither a
/// NaN: the two zeros are equal; a value with the sign bit clear is at least every value
/// with it set; between two such non-negative patterns the greater pattern is the greater
/// value, and between two negative ones the smaller pattern is.
pub open spec fn double_ge(a: u64, b: u64) -> bool {
    let negative_a = a >= 0x8000_0000_0000_0000;
    let negative_b = b >= 0x8000_0000_0000_0000;
    let low_a = a % 0x8000_0000_0000_0000;
    let low_b = b % 0x8000_0000_0000_0000;
    if low_a == 0 && low_b == 0 {
        true
    } else if !negative_a && !negative_b {
        a >= b
    } else if negative_a && negative_b {
        a <= b
    } else {
        !negative_a
    }
}

/// A key is unordered exactly for the bit patterns of NaNs.
pub proof fn law_key_unordered_exactly_for_nan(bits: u64)
    ensures
        key_of_bits(bits) is Unordered <==> is_nan_bits(bits),
{
    assert(((bits / 0x10_0000_0000_0000) % 0x800 == 0x7ff && bits % 0x10_0000_0000_0000 != 0)
        <==> bits % 0x8000_0000_0000_0000 > 0x7ff0_0000_0000_0000) by (bit_vector);
}

/// Order keys follow the order of doubles: for two doubles that are not NaN, the key of
/// `a` is at least that of `b` exactly when `a >= b`, and only the two zeros share a key.
pub proof fn law_keys_order_doubles(a: u64, b: u64)
    requires
        !is_nan_bits(a),
        !is_nan_bits(b),
    ensures
        key_ge(key_of_bits(a), key_of_bits(b)) <==> double_ge(a, b),
        key_of_bits(a) == key_of_bits(b) ==> a == b
            || (a % 0x8000_0000_0000_0000 == 0 && b % 0x8000_0000_0000_0000 == 0),
{
    law_key_unordered_exactly_for_nan(a);
    law_key_unordered_exactly_for_nan(b);
}

impl OrderKey {
    /// The order key of the double with bit pattern `bits` (see `key_of_bits`).
    pub fn from_bits(bits: u64) -> (r: OrderKey)
        ensures
            r == key_of_bits(bits),
    {
        let magnitude: u64 = bits % 0x8000_0000_0000_0000;
        if magnitude > 0x7ff0_0000_0000_0000 {
            OrderKey::Unordered
        } else if bits >= 0x8000_0000_0000_0000 {
            let m: i64 = magnitude as i64;
            OrderKey::Ordered(-m)
        } else {
            OrderKey::Ordered(magnitude as i64)
        }
    }

    /// `self >= other`; false whenever either side is unordered.
    pub fn ge(&self, other: &OrderKey) -> (r: bool)
        ensures
            r == key_ge(*self, *other),
    {
        match (self, other) {
            (OrderKey::Ordered(x), OrderKey::Ordered(y)) => *x >= *y,
            _ => false,
        }
    }

    /// `self > other`; false whenever either side is unordered.
    pub fn gt(&self, other: &OrderKey) -> (r: bool)
        ensures
            r == key_gt(*self, *other),
    {
        match (self, other) {
            (OrderKey::Ordered(x), OrderKey::Ordered(y)) => *x > *y,
            _ => false,
        }
    }
}

} // verus!
