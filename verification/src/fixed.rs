//! Fixed-point arithmetic used throughout the engine.
//!
//! A scalar `x` stands for the real number `x / SCALE`. Node values are kept
//! within `[-VALUE_LIMIT, VALUE_LIMIT]` and connection weights within
//! `[-WEIGHT_LIMIT, WEIGHT_LIMIT]`, so that every product and sum fits
//! comfortably in an `i128` accumulator.

use vstd::prelude::*;

verus! {

/// One whole unit of the fixed-point scale: a weight of `SCALE` means 1.0.
pub const SCALE: i64 = 1_000_000;

/// Largest admitted magnitude of a connection weight or bias.
pub const WEIGHT_LIMIT: i64 = 1_000_000_000_000;

/// Largest magnitude a node value can take; evaluation saturates here.
pub const VALUE_LIMIT: i64 = 1_000_000_000_000;

/// Saturation bound of the evaluation accumulator (scale-squared units).
pub const ACC_LIMIT: i128 = 1_000_000_000_000_000_000_000_000_000_000;

/// Clamp `x` into the closed interval `[lo, hi]`.
pub open spec fn clamp_spec(x: int, lo: int, hi: int) -> int {
    if x < lo {
        lo
    } else if x > hi {
        hi
    } else {
        x
    }
}

/// Division that truncates toward zero (the behaviour of `/` on the
/// machine integers), defined for positive divisors.
pub open spec fn tdiv(x: int, d: int) -> int {
    if x >= 0 {
        x / d
    } else {
        -((-x) / d)
    }
}

/// Clamp a 128-bit value into `[-ACC_LIMIT, ACC_LIMIT]`.
pub fn clamp_acc(x: i128) -> (r: i128)
    ensures
        r as int == clamp_spec(x as int, -(ACC_LIMIT as int), ACC_LIMIT as int),
{
    if x < -ACC_LIMIT {
        -ACC_LIMIT
    } else if x > ACC_LIMIT {
        ACC_LIMIT
    } else {
        x
    }
}

/// Clamp a wide value into the node-value range `[-VALUE_LIMIT, VALUE_LIMIT]`.
pub fn clamp_value(x: i128) -> (r: i64)
    ensures
        r as int == clamp_spec(x as int, -(VALUE_LIMIT as int), VALUE_LIMIT as int),
{
    if x < -(VALUE_LIMIT as i128) {
        -VALUE_LIMIT
    } else if x > VALUE_LIMIT as i128 {
        VALUE_LIMIT
    } else {
        x as i64
    }
}

/// Clamp a wide value into the weight range `[-WEIGHT_LIMIT, WEIGHT_LIMIT]`.
pub fn clamp_weight(x: i128) -> (r: i64)
    ensures
        r as int == clamp_spec(x as int, -(WEIGHT_LIMIT as int), WEIGHT_LIMIT as int),
{
    if x < -(WEIGHT_LIMIT as i128) {
        -WEIGHT_LIMIT
    } else if x > WEIGHT_LIMIT as i128 {
        WEIGHT_LIMIT
    } else {
        x as i64
    }
}

/// Truncating division of a 128-bit value by a positive divisor.
pub fn div_trunc(x: i128, d: i128) -> (r: i128)
    requires
        d > 0,
        x > i128::MIN,
    ensures
        r as int == tdiv(x as int, d as int),
{
    if x >= 0 {
        x / d
    } else {
        let m = -x;
        -(m / d)
    }
}

} // verus!
