//! Shared configuration validation: the error kind and the range checks
//! that the individual configuration structs apply to their fields.
//!
//! Probabilities and ratios are fixed-point values in `[0, SCALE]`;
//! coefficients and weights live in the admitted weight range, the cap that
//! keeps every product of the engine inside its 128-bit accumulators.

use crate::fixed::{SCALE, WEIGHT_LIMIT};
use vstd::prelude::*;

verus! {

/// Why a configuration was rejected.
#[derive(Clone, Copy, Debug, PartialEq, Eq, Structural)]
pub enum ConfigError {
    /// A probability lies outside `[0, SCALE]`.
    NotAProbability,
    /// A ratio lies outside `[0, SCALE]`.
    NotARatio,
    /// A coefficient or tolerance is negative.
    Negative,
    /// A scalar exceeds the admitted fixed-point range.
    OutOfRange,
    /// The population would hold no organisms.
    ZeroOrganismCount,
}

impl ConfigError {
    /// A short description of the rejection.
    pub fn message(&self) -> &'static str {
        match self {
            ConfigError::NotAProbability => "value must be a probability (in [0, SCALE])",
            ConfigError::NotARatio => "value must be a ratio (in [0, SCALE])",
            ConfigError::Negative => "value must not be negative",
            ConfigError::OutOfRange => "value exceeds the fixed-point range",
            ConfigError::ZeroOrganismCount => "organism_count must not be 0",
        }
    }
}

/// Check that a fixed-point value is a probability.
pub fn assert_probability(value: i64) -> (r: Result<(), ConfigError>)
    ensures
        r == if 0 <= value <= SCALE {
            Ok::<(), ConfigError>(())
        } else {
            Err::<(), ConfigError>(ConfigError::NotAProbability)
        },
{
    if 0 <= value && value <= SCALE {
        Ok(())
    } else {
        Err(ConfigError::NotAProbability)
    }
}

/// Check that a fixed-point value is a ratio.
pub fn assert_ratio(value: i64) -> (r: Result<(), ConfigError>)
    ensures
        r == if 0 <= value <= SCALE {
            Ok::<(), ConfigError>(())
        } else {
            Err::<(), ConfigError>(ConfigError::NotARatio)
        },
{
    if 0 <= value && value <= SCALE {
        Ok(())
    } else {
        Err(ConfigError::NotARatio)
    }
}

/// Check that a scalar is non-negative and within the fixed-point range.
pub fn assert_not_negative(value: i64) -> (r: Result<(), ConfigError>)
    ensures
        r == if value < 0 {
            Err::<(), ConfigError>(ConfigError::Negative)
        } else if value > WEIGHT_LIMIT {
            Err::<(), ConfigError>(ConfigError::OutOfRange)
        } else {
            Ok::<(), ConfigError>(())
        },
{
    if value < 0 {
        Err(ConfigError::Negative)
    } else if value > WEIGHT_LIMIT {
        Err(ConfigError::OutOfRange)
    } else {
        Ok(())
    }
}

/// Check that a scalar lies in the admitted weight range.
pub fn assert_weight(value: i64) -> (r: Result<(), ConfigError>)
    ensures
        r == if -WEIGHT_LIMIT <= value <= WEIGHT_LIMIT {
            Ok::<(), ConfigError>(())
        } else {
            Err::<(), ConfigError>(ConfigError::OutOfRange)
        },
{
    if -WEIGHT_LIMIT <= value && value <= WEIGHT_LIMIT {
        Ok(())
    } else {
        Err(ConfigError::OutOfRange)
    }
}

} // verus!
