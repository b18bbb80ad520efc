//! Entry point of the multi-period decomposition.

use crate::error::Error;
use crate::mstl_params::MstlParams;
use crate::mstl_result::MstlResult;
use crate::scalar::Scalar;
use crate::stl_params::StlParams;
use vstd::prelude::*;

verus! {

/// Multiple seasonal-trend decomposition using Loess (MSTL).
pub struct Mstl;

impl Mstl {
    /// Decomposes a time series with the default parameters.
    pub fn fit<T: Scalar>(series: &[T], periods: &[usize]) -> (r: Result<MstlResult<T>, Error>)
        requires
            series@.len() <= usize::MAX / 2,
            7 + 4 * periods@.len() <= usize::MAX,
        ensures
            (MstlParams::<T> {
                iterate: 2,
                lambda: None,
                swin: None,
                stl_params: StlParams::initial(),
            }).outcome(series@, periods@, true, r),
    {
        MstlParams::new().fit(series, periods)
    }

    /// Creates a new set of parameters.
    pub fn params<T: Scalar>() -> (r: MstlParams<T>)
        ensures
            r.iterate == 2,
            r.lambda is None,
            r.swin is None,
            r.stl_params == StlParams::initial(),
    {
        MstlParams::new()
    }
}

} // verus!
