//! Pointwise activation functions on fixed-point node values.
//!
//! `Sigmoid` is the piecewise-linear logistic approximation
//! `clamp(1/2 + x/4, 0, 1)`: exact at 0, saturating at `|x| >= 2`, and
//! monotone, which is all the evolution loop needs of it.

use crate::fixed::{clamp_spec, tdiv, SCALE, VALUE_LIMIT};
use vstd::prelude::*;

verus! {

/// Half of one fixed-point unit: the sigmoid's value at zero.
pub const HALF_SCALE: i64 = 500_000;

#[derive(Clone, Copy, Debug, PartialEq, Eq, Structural)]
pub enum Activation {
    Identity,
    Sigmoid,
    Relu,
}

/// What each activation returns on a fixed-point argument.
pub open spec fn activation_spec(a: Activation, x: int) -> int {
    match a {
        Activation::Identity => x,
        Activation::Sigmoid => clamp_spec(HALF_SCALE + tdiv(x, 4), 0, SCALE as int),
        Activation::Relu => if x > 0 {
            x
        } else {
            0
        },
    }
}

/// An activation of a value in the node range stays in the node range.
pub proof fn lemma_activation_in_range(a: Activation, x: int)
    requires
        -VALUE_LIMIT <= x <= VALUE_LIMIT,
    ensures
        -VALUE_LIMIT <= activation_spec(a, x) <= VALUE_LIMIT,
{
}

impl Activation {
    /// Apply the activation to a fixed-point value.
    pub fn function(&self, value: i64) -> (r: i64)
        requires
            -VALUE_LIMIT <= value <= VALUE_LIMIT,
        ensures
            r == activation_spec(*self, value as int),
            -VALUE_LIMIT <= r <= VALUE_LIMIT,
    {
        match self {
            Activation::Identity => value,
            Activation::Sigmoid => {
                let quarter: i64 = if value >= 0 {
                    value / 4
                } else {
                    -((-value) / 4)
                };
                let raw = HALF_SCALE + quarter;
                if raw < 0 {
                    0
                } else if raw > SCALE {
                    SCALE
                } else {
                    raw
                }
            },
            Activation::Relu => if value > 0 {
                value
            } else {
                0
            },
        }
    }
}

} // verus!
