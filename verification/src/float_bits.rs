//! The numeric ground level: IEEE 754 single-precision values represented by
//! their bit patterns.
//!
//! A `u32` here always carries the bits of one single-precision value
//! (sign, 8 exponent bits, 23 fraction bits).  Three orders matter:
//!
//! * the standard IEEE comparisons (`ieee_lt`, `ieee_le`, ...): partial,
//!   false on NaN, and gluing the two zeroes together;
//! * the total order (`total_lt`): sign-aware order over all bit patterns,
//!   negative NaNs first, positive NaNs last, `-0.0` strictly before `+0.0`;
//! * `min_bits` / `max_bits`: the NaN-ignoring minimum and maximum.  Where
//!   the two operands are the equal-valued `+0.0` and `-0.0`, IEEE 754 lets
//!   an implementation return either; these functions pick by the total
//!   order, which never changes an IEEE comparison made on the result.
//!
//! The key to all proofs is `ord_key`, the monotone map from bit patterns to
//! `u32` under which the total order is plain integer order.

use vstd::prelude::*;

verus! {

/// Bits of `+0.0`.
pub const POS_ZERO_BITS: u32 = 0x0000_0000;
/// Bits of `-0.0`.
pub const NEG_ZERO_BITS: u32 = 0x8000_0000;
/// Bits of `+1.0`.
pub const POS_ONE_BITS: u32 = 0x3F80_0000;
/// Bits of `-1.0`.
pub const NEG_ONE_BITS: u32 = 0xBF80_0000;
/// Bits of positive infinity.
pub const POS_INF_BITS: u32 = 0x7F80_0000;
/// Bits of negative infinity.
pub const NEG_INF_BITS: u32 = 0xFF80_0000;

/// The value is a NaN: exponent all ones, fraction non-zero.
pub open spec fn is_nan(b: u32) -> bool {
    b & 0x7F80_0000 == 0x7F80_0000 && b & 0x007F_FFFF != 0
}

/// The value is `+0.0` or `-0.0`.
pub open spec fn is_zero(b: u32) -> bool {
    b & 0x7FFF_FFFF == 0
}

/// Monotone key of a bit pattern: total order on values becomes integer
/// order on keys.  Negative patterns are complemented, positive ones get
/// the high bit set, so every negative key lies below every positive key.
pub open spec fn ord_key(b: u32) -> u32 {
    if b & 0x8000_0000 != 0 {
        !b
    } else {
        b | 0x8000_0000
    }
}

/// The total order on values, `-NaN < -inf < ... < -0.0 < +0.0 < ... < +inf < +NaN`.
pub open spec fn total_lt(a: u32, b: u32) -> bool {
    ord_key(a) < ord_key(b)
}

/// IEEE equality: false on NaN, true on equal patterns and on the two zeroes.
pub open spec fn ieee_eq(a: u32, b: u32) -> bool {
    !is_nan(a) && !is_nan(b) && (a == b || (is_zero(a) && is_zero(b)))
}

/// IEEE strict less-than: false whenever either side is NaN.
pub open spec fn ieee_lt(a: u32, b: u32) -> bool {
    !is_nan(a) && !is_nan(b) && !(is_zero(a) && is_zero(b)) && ord_key(a) < ord_key(b)
}

/// IEEE less-or-equal: false whenever either side is NaN.
pub open spec fn ieee_le(a: u32, b: u32) -> bool {
    !is_nan(a) && !is_nan(b) && (ord_key(a) <= ord_key(b) || (is_zero(a) && is_zero(b)))
}

/// IEEE strict greater-than.
pub open spec fn ieee_gt(a: u32, b: u32) -> bool {
    ieee_lt(b, a)
}

/// IEEE greater-or-equal.
pub open spec fn ieee_ge(a: u32, b: u32) -> bool {
    ieee_le(b, a)
}

/// NaN-ignoring minimum: if one operand is NaN the other is returned; ties
/// among the two zeroes go by the total order (`-0.0` first).
pub open spec fn min_bits(a: u32, b: u32) -> u32 {
    if is_nan(a) {
        b
    } else if is_nan(b) {
        a
    } else if ord_key(a) <= ord_key(b) {
        a
    } else {
        b
    }
}

/// NaN-ignoring maximum, the mirror of `min_bits`.
pub open spec fn max_bits(a: u32, b: u32) -> u32 {
    if is_nan(a) {
        b
    } else if is_nan(b) {
        a
    } else if ord_key(a) >= ord_key(b) {
        a
    } else {
        b
    }
}

/// Whether `b` is a NaN pattern.
pub fn nan_bits(b: u32) -> (r: bool)
    ensures
        r == is_nan(b),
{
    b & 0x7F80_0000 == 0x7F80_0000 && b & 0x007F_FFFF != 0
}

/// Whether `b` is one of the two zero patterns.
pub fn zero_bits(b: u32) -> (r: bool)
    ensures
        r == is_zero(b),
{
    b & 0x7FFF_FFFF == 0
}

/// The monotone key of `b`.
pub fn key_of(b: u32) -> (r: u32)
    ensures
        r == ord_key(b),
{
    if b & 0x8000_0000 != 0 {
        !b
    } else {
        b | 0x8000_0000
    }
}

/// IEEE less-or-equal on bit patterns.
pub fn le_bits(a: u32, b: u32) -> (r: bool)
    ensures
        r == ieee_le(a, b),
{
    if nan_bits(a) || nan_bits(b) {
        false
    } else {
        key_of(a) <= key_of(b) || (zero_bits(a) && zero_bits(b))
    }
}

/// IEEE strict less-than on bit patterns.
pub fn lt_bits(a: u32, b: u32) -> (r: bool)
    ensures
        r == ieee_lt(a, b),
{
    if nan_bits(a) || nan_bits(b) {
        false
    } else {
        !(zero_bits(a) && zero_bits(b)) && key_of(a) < key_of(b)
    }
}

/// IEEE greater-or-equal on bit patterns.
pub fn ge_bits(a: u32, b: u32) -> (r: bool)
    ensures
        r == ieee_ge(a, b),
{
    le_bits(b, a)
}

/// IEEE strict greater-than on bit patterns.
pub fn gt_bits(a: u32, b: u32) -> (r: bool)
    ensures
        r == ieee_gt(a, b),
{
    lt_bits(b, a)
}

/// NaN-ignoring minimum of two bit patterns.
pub fn min_of_bits(a: u32, b: u32) -> (r: u32)
    ensures
        r == min_bits(a, b),
{
    if nan_bits(a) {
        b
    } else if nan_bits(b) {
        a
    } else if key_of(a) <= key_of(b) {
        a
    } else {
        b
    }
}

/// NaN-ignoring maximum of two bit patterns.
pub fn max_of_bits(a: u32, b: u32) -> (r: u32)
    ensures
        r == max_bits(a, b),
{
    if nan_bits(a) {
        b
    } else if nan_bits(b) {
        a
    } else if key_of(a) >= key_of(b) {
        a
    } else {
        b
    }
}

/// The IEEE order agrees with itself across the three comparison shapes:
/// `le` is `lt or eq`, on any patterns.
pub proof fn lemma_le_is_lt_or_eq(a: u32, b: u32)
    ensures
        ieee_le(a, b) == (ieee_lt(a, b) || ieee_eq(a, b)),
{
    if !is_nan(a) && !is_nan(b) && a != b && ord_key(a) == ord_key(b) {
        lemma_key_injective(a, b);
    }
}

/// IEEE less-or-equal is transitive.
pub proof fn lemma_le_trans(a: u32, b: u32, c: u32)
    requires
        ieee_le(a, b),
        ieee_le(b, c),
    ensures
        ieee_le(a, c),
{
    lemma_zero_key(a);
    lemma_zero_key(b);
    lemma_zero_key(c);
}

/// A non-NaN pattern compares less-or-equal to itself.
pub proof fn lemma_le_refl(a: u32)
    requires
        !is_nan(a),
    ensures
        ieee_le(a, a),
{
}

/// The key map is injective: equal keys come from equal patterns.
pub proof fn lemma_key_injective(a: u32, b: u32)
    requires
        ord_key(a) == ord_key(b),
    ensures
        a == b,
{
    assert(a == b) by (bit_vector)
        requires
            (if a & 0x8000_0000 != 0 {
                !a
            } else {
                a | 0x8000_0000
            }) == (if b & 0x8000_0000 != 0 {
                !b
            } else {
                b | 0x8000_0000
            }),
    ;
}

/// NaN patterns are exactly those whose key falls outside the closed key
/// range of the two infinities.
pub proof fn lemma_nan_key(b: u32)
    ensures
        is_nan(b) <==> !(0x007F_FFFFu32 <= ord_key(b) && ord_key(b) <= 0xFF80_0000u32),
{
    assert((b & 0x7F80_0000 == 0x7F80_0000 && b & 0x007F_FFFF != 0) <==> !(0x007F_FFFFu32 <= (
    if b & 0x8000_0000 != 0 {
        !b
    } else {
        b | 0x8000_0000
    }) && (if b & 0x8000_0000 != 0 {
        !b
    } else {
        b | 0x8000_0000
    }) <= 0xFF80_0000u32)) by (bit_vector);
}

/// Keys and classifications of the named constant patterns.
pub proof fn lemma_const_bits()
    by (bit_vector)
    ensures
        !is_nan(POS_ZERO_BITS) && is_zero(POS_ZERO_BITS) && ord_key(POS_ZERO_BITS)
            == 0x8000_0000u32,
        !is_nan(NEG_ZERO_BITS) && is_zero(NEG_ZERO_BITS) && ord_key(NEG_ZERO_BITS)
            == 0x7FFF_FFFFu32,
        !is_nan(POS_ONE_BITS) && !is_zero(POS_ONE_BITS) && ord_key(POS_ONE_BITS) == 0xBF80_0000u32,
        !is_nan(NEG_ONE_BITS) && !is_zero(NEG_ONE_BITS) && ord_key(NEG_ONE_BITS) == 0x407F_FFFFu32,
        !is_nan(POS_INF_BITS) && !is_zero(POS_INF_BITS) && ord_key(POS_INF_BITS) == 0xFF80_0000u32,
        !is_nan(NEG_INF_BITS) && !is_zero(NEG_INF_BITS) && ord_key(NEG_INF_BITS) == 0x007F_FFFFu32,
{
}

/// The keys of the two zero patterns are adjacent, and every other pattern's
/// key lies strictly outside the pair.
pub proof fn lemma_zero_key(a: u32)
    ensures
        is_zero(a) ==> ord_key(a) == 0x7FFF_FFFFu32 || ord_key(a) == 0x8000_0000u32,
        !is_zero(a) ==> ord_key(a) < 0x7FFF_FFFFu32 || ord_key(a) > 0x8000_0000u32,
{
    if a & 0x7FFF_FFFF == 0 {
        assert((if a & 0x8000_0000 != 0 {
            !a
        } else {
            a | 0x8000_0000
        }) == 0x7FFF_FFFFu32 || (if a & 0x8000_0000 != 0 {
            !a
        } else {
            a | 0x8000_0000
        }) == 0x8000_0000u32) by (bit_vector)
            requires
                a & 0x7FFF_FFFF == 0,
        ;
    } else {
        assert((if a & 0x8000_0000 != 0 {
            !a
        } else {
            a | 0x8000_0000
        }) < 0x7FFF_FFFFu32 || (if a & 0x8000_0000 != 0 {
            !a
        } else {
            a | 0x8000_0000
        }) > 0x8000_0000u32) by (bit_vector)
            requires
                !(a & 0x7FFF_FFFF == 0),
        ;
    }
}

} // verus!
