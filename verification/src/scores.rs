//! Scores and confidences travel through the library as the IEEE-754 bit
//! patterns of the `f64` values that hold them (`f64::to_bits`). The library
//! never computes with them; it only tells a NaN, compares two of them as
//! `partial_cmp(..).unwrap_or(Equal)` does, and tests the range `0.0..=1.0`,
//! all of which are integer functions of the bit pattern.
use vstd::prelude::*;

verus! {

/// 2^52: the weight of the lowest exponent bit.
pub const EXPONENT_UNIT: u64 = 0x10_0000_0000_0000;

/// 2^63: the sign bit.
pub const SIGN_BIT: u64 = 0x8000_0000_0000_0000;

/// The bit pattern of `1.0`.
pub const ONE_BITS: u64 = 0x3FF0_0000_0000_0000;

/// The bit pattern of `0.5`.
pub const HALF_BITS: u64 = 0x3FE0_0000_0000_0000;

/// The bit pattern of `0.8`.
pub const POINT_EIGHT_BITS: u64 = 0x3FE9_9999_9999_999A;

/// The bit pattern of `0.3`.
pub const POINT_THREE_BITS: u64 = 0x3FD3_3333_3333_3333;

/// The exponent field is all ones and the mantissa is not zero.
pub open spec fn is_nan_bits(b: u64) -> bool {
    (b / EXPONENT_UNIT) % 0x800 == 0x7FF && b % EXPONENT_UNIT != 0
}

/// A key whose integer order is the order of the values for every non-NaN
/// pattern: negative values in reverse magnitude, both zeros together at
/// 2^63, positive values above.
pub open spec fn order_key(b: u64) -> int {
    if b >= SIGN_BIT {
        let m = b - SIGN_BIT;
        if m == 0 {
            SIGN_BIT as int
        } else {
            SIGN_BIT - 1 - m
        }
    } else {
        SIGN_BIT + b
    }
}

/// The outcome of comparing two scores.
#[derive(Clone, Copy, Debug, PartialEq, Eq, Structural)]
pub enum ScoreOrder {
    Less,
    Equal,
    Greater,
}

/// `a.partial_cmp(&b).unwrap_or(Ordering::Equal)` for the values with these
/// bit patterns: a NaN compares equal to everything.
pub open spec fn compare_scores(a: u64, b: u64) -> ScoreOrder {
    if is_nan_bits(a) || is_nan_bits(b) {
        ScoreOrder::Equal
    } else if order_key(a) < order_key(b) {
        ScoreOrder::Less
    } else if order_key(a) > order_key(b) {
        ScoreOrder::Greater
    } else {
        ScoreOrder::Equal
    }
}

/// `a < b` for the values with these bit patterns.
pub open spec fn score_below(a: u64, b: u64) -> bool {
    !is_nan_bits(a) && !is_nan_bits(b) && order_key(a) < order_key(b)
}

/// `a >= b` for the values with these bit patterns.
pub open spec fn score_at_least(a: u64, b: u64) -> bool {
    !is_nan_bits(a) && !is_nan_bits(b) && order_key(a) >= order_key(b)
}

/// `(0.0..=1.0).contains(&x)` for the value `x` with this bit pattern.
pub open spec fn in_unit_interval(b: u64) -> bool {
    !is_nan_bits(b) && order_key(0) <= order_key(b) <= order_key(ONE_BITS)
}

/// Whether the pattern is a NaN.
pub fn is_nan(b: u64) -> (r: bool)
    ensures
        r == is_nan_bits(b),
{
    (b / EXPONENT_UNIT) % 0x800 == 0x7FF && b % EXPONENT_UNIT != 0
}

/// The order key of a pattern (see `order_key`).
pub fn score_key(b: u64) -> (k: u64)
    ensures
        k == order_key(b),
{
    if b >= SIGN_BIT {
        let m = b - SIGN_BIT;
        if m == 0 {
            SIGN_BIT
        } else {
            SIGN_BIT - 1 - m
        }
    } else {
        SIGN_BIT + b
    }
}

/// Compares two scores as `partial_cmp(..).unwrap_or(Equal)` does.
pub fn compare(a: u64, b: u64) -> (r: ScoreOrder)
    ensures
        r == compare_scores(a, b),
{
    if is_nan(a) || is_nan(b) {
        ScoreOrder::Equal
    } else {
        let ka = score_key(a);
        let kb = score_key(b);
        if ka < kb {
            ScoreOrder::Less
        } else if ka > kb {
            ScoreOrder::Greater
        } else {
            ScoreOrder::Equal
        }
    }
}

/// Whether score `a` is below score `b`.
pub fn is_below(a: u64, b: u64) -> (r: bool)
    ensures
        r == score_below(a, b),
{
    !is_nan(a) && !is_nan(b) && score_key(a) < score_key(b)
}

/// Whether the value lies in `0.0..=1.0`; a NaN does not.
pub fn is_unit_interval(b: u64) -> (r: bool)
    ensures
        r == in_unit_interval(b),
{
    !is_nan(b) && score_key(0) <= score_key(b) && score_key(b) <= score_key(ONE_BITS)
}

/// Whether a confidence is high: `x >= 0.8`.
pub fn is_high_confidence(b: u64) -> (r: bool)
    ensures
        r == score_at_least(b, POINT_EIGHT_BITS),
{
    !is_nan(b) && score_key(b) >= score_key(POINT_EIGHT_BITS)
}

/// Whether a confidence is medium: `x >= 0.5 && x < 0.8`.
pub fn is_medium_confidence(b: u64) -> (r: bool)
    ensures
        r == (score_at_least(b, HALF_BITS) && score_below(b, POINT_EIGHT_BITS)),
{
    !is_nan(b) && score_key(b) >= score_key(HALF_BITS) && score_key(b) < score_key(POINT_EIGHT_BITS)
}

/// Whether a confidence is low: `x < 0.5`.
pub fn is_low_confidence(b: u64) -> (r: bool)
    ensures
        r == score_below(b, HALF_BITS),
{
    is_below(b, HALF_BITS)
}

} // verus!
