//! The result of a multi-period decomposition.

use crate::scalar::Scalar;
use crate::stl_result::is_strength;
use crate::stl_result::strength;
use vstd::prelude::*;

verus! {

/// The components of a multi-period decomposition: one seasonal component
/// for each period, in the order in which the periods were given, and the
/// trend and remainder that they share.
#[derive(Clone, Debug)]
pub struct MstlResult<T> {
    /// Seasonal component of each period.
    pub seasonal: Vec<Vec<T>>,
    /// Trend.
    pub trend: Vec<T>,
    /// What is left of the series without the others.
    pub remainder: Vec<T>,
}

impl<T: Scalar> MstlResult<T> {
    /// Whether there are `count` seasonal components and each component,
    /// seasonal or not, holds `n` values.
    pub open spec fn has_shape(&self, count: int, n: int) -> bool {
        &&& self.seasonal@.len() == count
        &&& forall|p: int| 0 <= p < count ==> (#[trigger] self.seasonal@[p])@.len() == n
        &&& self.trend@.len() == n
        &&& self.remainder@.len() == n
    }

    /// Returns the seasonal components.
    pub fn seasonal(&self) -> (r: &[Vec<T>])
        ensures
            r@ == self.seasonal@,
    {
        self.seasonal.as_slice()
    }

    /// Returns the trend component.
    pub fn trend(&self) -> (r: &[T])
        ensures
            r@ == self.trend@,
    {
        self.trend.as_slice()
    }

    /// Returns the remainder.
    pub fn remainder(&self) -> (r: &[T])
        ensures
            r@ == self.remainder@,
    {
        self.remainder.as_slice()
    }

    /// Returns the seasonal strength of each seasonal component.
    pub fn seasonal_strength(&self) -> (r: Vec<T>)
        ensures
            r@.len() == self.seasonal@.len(),
            forall|p: int|
                0 <= p < r@.len() ==> is_strength(
                    self.seasonal@[p]@,
                    self.remainder@,
                    #[trigger] r@[p],
                ),
    {
        let m: usize = self.seasonal.len();
        let mut r: Vec<T> = Vec::with_capacity(m);
        let mut p: usize = 0;
        while p < m
            invariant
                p <= m == self.seasonal@.len(),
                r@.len() == p,
                forall|q: int|
                    0 <= q < p ==> is_strength(
                        self.seasonal@[q]@,
                        self.remainder@,
                        #[trigger] r@[q],
                    ),
            decreases m - p,
        {
            r.push(strength(self.seasonal[p].as_slice(), self.remainder.as_slice()));
            p += 1;
        }
        r
    }

    /// Returns the trend strength.
    pub fn trend_strength(&self) -> (s: T)
        ensures
            is_strength(self.trend@, self.remainder@, s),
    {
        strength(self.trend.as_slice(), self.remainder.as_slice())
    }

    /// Consumes the result, returning the seasonal components, trend
    /// component, and remainder.
    pub fn into_parts(self) -> (r: (Vec<Vec<T>>, Vec<T>, Vec<T>))
        ensures
            r.0 == self.seasonal,
            r.1 == self.trend,
            r.2 == self.remainder,
    {
        (self.seasonal, self.trend, self.remainder)
    }
}

} // verus!
