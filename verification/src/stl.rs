//! Entry point of the single-period decomposition.

use crate::error::Error;
use crate::scalar::all_count;
use crate::scalar::uniform;
use crate::scalar::Scalar;
use crate::stl_params::decomposes;
use crate::stl_params::StlParams;
use crate::stl_result::StlResult;
use vstd::prelude::*;

verus! {

/// Seasonal-trend decomposition using Loess (STL).
pub struct Stl;

impl Stl {
    /// Decomposes a time series with the default parameters.
    pub fn fit<T: Scalar>(series: &[T], period: usize) -> (r: Result<StlResult<T>, Error>)
        requires
            series@.len() <= usize::MAX / 2,
        ensures
            match r {
                Ok(res) => {
                    &&& StlParams::initial().fault(series@.len() as int, period as int) is None
                    &&& decomposes(series@, StlParams::initial().resolved(period as int), res)
                    &&& uniform(res.weights@)
                    &&& all_count(1, res.weights@)
                },
                Err(e) => {
                    &&& StlParams::initial().fault(series@.len() as int, period as int) is Some
                    &&& StlParams::initial().fault(
                        series@.len() as int,
                        period as int,
                    ).unwrap().reported_by(e)
                },
            },
    {
        StlParams::new().fit(series, period)
    }

    /// Creates a new set of parameters.
    pub fn params() -> (r: StlParams)
        ensures
            r == StlParams::initial(),
    {
        StlParams::new()
    }
}

} // verus!
