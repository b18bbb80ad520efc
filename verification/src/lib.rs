//! Seasonal-trend decomposition of equally spaced series by local regression
//! (STL), for one seasonal period and, by backfitting, for several
//! superimposed ones (MSTL).
//!
//! The decomposition is written against [`Scalar`], the arithmetic of the
//! number type in use, and assumes nothing of it. Whatever the arithmetic
//! returns, every access is in bounds, every loop ends, and no function
//! panics.
//!
//! What a function computes is stated in two ways. Everything that concerns
//! positions, windows, strides, the order of the periods and the errors is
//! integer work and has contracts over `int` and `Seq`. The numbers are
//! stated over relations such as [`scalar::is_sum`]: `is_sum(a, b, r)` says
//! that `r` is a result of `a + b` in the arithmetic of the scalar type, so
//! that whatever an implementation of [`Scalar::plus`] ensures of its result
//! holds of `r`. A contract such as that of [`loess::est`] then says which
//! operations, on which values and in which order, lead to the result. It
//! says as much about the numbers as the scalar type says about its own
//! operations, and holds of every implementation, also of one whose results
//! vary from call to call.
//!
//! The entry points are [`Stl`] and [`Mstl`]; [`laws`] holds what is true of
//! every decomposition.

pub mod cycle;
pub mod error;
pub mod filter;
pub mod laws;
pub mod loess;
pub mod mstl;
pub mod mstl_impl;
pub mod mstl_params;
pub mod mstl_result;
pub mod robust;
pub mod scalar;
pub mod smooth;
pub mod stl;
pub mod stl_impl;
pub mod stl_params;
pub mod stl_result;
pub mod strength;

pub use error::Error;
pub use error::Fault;
pub use mstl::Mstl;
pub use mstl_params::MstlParams;
pub use mstl_result::MstlResult;
pub use scalar::Scalar;
pub use stl::Stl;
pub use stl_params::StlConfig;
pub use stl_params::StlParams;
pub use stl_result::StlResult;

use vstd::prelude::*;

verus! {

/// Creates a new set of parameters for a single-period decomposition.
pub fn params() -> (r: StlParams)
    ensures
        r == StlParams::initial(),
{
    StlParams::new()
}

} // verus!
