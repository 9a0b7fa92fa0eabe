//! Randomness used by mutation, crossover and selection.
//!
//! Everything random in the engine is derived from one trusted draw,
//! `random_below`. Probabilities are fixed-point values in `[0, SCALE]`;
//! normally distributed weights are approximated by a central-limit sum of
//! uniform draws, entirely in integers.

use crate::fixed::{clamp_weight, SCALE, WEIGHT_LIMIT};
use rand::Rng;
use vstd::prelude::*;

verus! {

/// Relies on rand::thread_rng and rand::Rng::gen_range over `0..bound`:
/// returns a number in `[0, bound)`; gen_range panics only on an empty
/// range, which the precondition rules out.
#[verifier::external_body]
pub fn random_below(bound: usize) -> (r: usize)
    requires
        bound > 0,
    ensures
        r < bound,
{
    rand::thread_rng().gen_range(0..bound)
}

/// Decide an event of probability `prob / SCALE`: true with that
/// probability, always false at 0, always true at SCALE.
pub fn random_decision(prob: i64) -> (r: bool)
    requires
        0 <= prob <= SCALE,
    ensures
        prob == 0 ==> !r,
        prob == SCALE ==> r,
{
    let draw = random_below(SCALE as usize);
    (draw as i64) < prob
}

/// Draw an approximately normal value with the given mean and standard
/// deviation (both fixed-point), clamped into the admitted weight range.
///
/// The draw sums twelve uniform samples on `[0, 1)`: that sum has mean 6 and
/// unit variance, a classical central-limit approximation of the standard
/// normal.
pub fn sample_normal(mean: i64, std_dev: i64) -> (r: i64)
    requires
        -WEIGHT_LIMIT <= mean <= WEIGHT_LIMIT,
        0 <= std_dev <= WEIGHT_LIMIT,
    ensures
        -WEIGHT_LIMIT <= r <= WEIGHT_LIMIT,
{
    let mut sum: i64 = 0;
    let mut k: usize = 0;
    while k < 12
        invariant
            k <= 12,
            0 <= sum <= k * SCALE,
        decreases 12 - k,
    {
        let draw = random_below(SCALE as usize);
        sum = sum + draw as i64;
        k = k + 1;
    }
    let z: i64 = sum - 6 * SCALE;
    let mz: i128 = if z >= 0 {
        z as i128
    } else {
        -(z as i128)
    };
    proof {
        let sd = std_dev as int;
        let m = mz as int;
        assert(0 <= sd * m <= 6000000000000000000int) by (nonlinear_arith)
            requires
                0 <= sd <= 1000000000000int,
                0 <= m <= 6000000int,
        ;
        assert((std_dev as i128) * mz == sd * m);
    }
    let magnitude: i128 = ((std_dev as i128) * mz) / (SCALE as i128);
    let offset: i128 = if z >= 0 {
        magnitude
    } else {
        -magnitude
    };
    clamp_weight((mean as i128) + offset)
}

} // verus!
