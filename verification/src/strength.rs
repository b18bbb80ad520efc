//! Strength of the seasonal component and of the trend of a decomposition.

use crate::scalar::Scalar;
use crate::stl_result::is_strength;
use crate::stl_result::strength;
use crate::stl_result::StlResult;
use vstd::prelude::*;

verus! {

/// The strength of the seasonal component of `result` against its
/// remainder.
pub fn seasonal_strength<T: Scalar>(result: &StlResult<T>) -> (s: T)
    ensures
        is_strength(result.seasonal@, result.remainder@, s),
{
    strength(result.seasonal(), result.remainder())
}

/// The strength of the trend of `result` against its remainder.
pub fn trend_strength<T: Scalar>(result: &StlResult<T>) -> (s: T)
    ensures
        is_strength(result.trend@, result.remainder@, s),
{
    strength(result.trend(), result.remainder())
}

} // verus!
