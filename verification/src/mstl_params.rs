//! Parameters of the multi-period decomposition and what is refused of
//! them.

use crate::error::Error;
use crate::error::Fault;
use crate::mstl_impl::backfit_fault;
use crate::mstl_impl::check_steps;
use crate::mstl_impl::is_backfit;
use crate::mstl_impl::mstl;
use crate::mstl_impl::rounds;
use crate::mstl_impl::views;
use crate::mstl_impl::periods_fit;
use crate::mstl_impl::rank_order;
use crate::mstl_result::MstlResult;
use crate::scalar::copy_of;
use crate::scalar::is_count;
use crate::scalar::is_le;
use crate::scalar::Scalar;
use crate::stl_params::StlParams;
use vstd::prelude::*;

verus! {

/// A set of parameters for a multi-period decomposition.
#[derive(Clone, Debug)]
pub struct MstlParams<T> {
    /// Rounds of backfitting.
    pub iterate: usize,
    /// Parameter of the Box-Cox transform, where one is applied.
    pub lambda: Option<T>,
    /// Seasonal window for each period, where the caller lists them.
    pub swin: Option<Vec<usize>>,
    /// Parameters of the single-period decompositions.
    pub stl_params: StlParams,
}

/// Whether `in_range` says that `lambda` lies within the unit interval: that
/// zero is at most `lambda` and `lambda` at most one.
pub open spec fn is_in_unit_interval<T: Scalar>(lambda: T, in_range: bool) -> bool {
    exists|zero: T, low: bool|
        is_count(0, zero) && is_le(zero, lambda, low) && if low {
            exists|one: T| is_count(1, one) && is_le(lambda, one, in_range)
        } else {
            !in_range
        }
}

/// Whether some period is below 2.
pub open spec fn some_period_too_small(periods: Seq<usize>) -> bool {
    exists|i: int| 0 <= i < periods.len() && #[trigger] periods[i] < 2
}

/// Whether a series of `n` observations holds less than two cycles of some
/// period.
pub open spec fn some_period_too_long(n: int, periods: Seq<usize>) -> bool {
    exists|i: int| 0 <= i < periods.len() && n < 2 * #[trigger] periods[i]
}

impl<T: Scalar> MstlParams<T> {
    /// Creates a new set of parameters: two rounds, no transform, no listed
    /// windows.
    pub fn new() -> (r: Self)
        ensures
            r.iterate == 2,
            r.lambda is None,
            r.swin is None,
            r.stl_params == StlParams::initial(),
    {
        MstlParams { iterate: 2, lambda: None, swin: None, stl_params: StlParams::new() }
    }

    /// Sets the number of iterations.
    pub fn iterations(&mut self, iterations: usize) -> (r: &mut Self)
        ensures
            *r == (MstlParams { iterate: iterations, ..*old(self) }),
            *final(self) == *final(r),
    {
        self.iterate = iterations;
        self
    }

    /// Sets lambda for the Box-Cox transformation.
    pub fn lambda(&mut self, lambda: T) -> (r: &mut Self)
        ensures
            *r == (MstlParams { lambda: Some(lambda), ..*old(self) }),
            *final(self) == *final(r),
    {
        self.lambda = Some(lambda);
        self
    }

    /// Sets the lengths of the seasonal smoothers.
    pub fn seasonal_lengths(&mut self, lengths: &[usize]) -> (r: &mut Self)
        ensures
            r.swin is Some,
            r.swin.unwrap()@ == lengths@,
            r.iterate == old(self).iterate,
            r.lambda == old(self).lambda,
            r.stl_params == old(self).stl_params,
            *final(self) == *final(r),
    {
        self.swin = Some(copy_of(lengths));
        self
    }

    /// Sets the parameters of the single-period decompositions.
    pub fn stl_params(&mut self, stl_params: StlParams) -> (r: &mut Self)
        ensures
            *r == (MstlParams { stl_params, ..*old(self) }),
            *final(self) == *final(r),
    {
        self.stl_params = stl_params;
        self
    }

    /// The first constraint, in the order in which they are checked, that
    /// these parameters break for a series of `n` observations and a list of
    /// periods; `lambda_in_range` says whether the transform parameter, where
    /// there is one, lies within the unit interval.
    pub open spec fn fault(&self, n: int, periods: Seq<usize>, lambda_in_range: bool) -> Option<
        Fault,
    > {
        if some_period_too_small(periods) {
            Some(Fault::PeriodsTooSmall)
        } else if some_period_too_long(n, periods) {
            Some(Fault::TooFewPeriods)
        } else if self.lambda is Some && !lambda_in_range {
            Some(Fault::LambdaOutOfRange)
        } else if self.swin is Some && self.swin.unwrap()@.len() != periods.len() {
            Some(Fault::SeasonalLengthsMismatch)
        } else {
            backfit_fault(self.stl_params, self.windows(), periods)
        }
    }

    /// The seasonal windows that the caller listed.
    pub open spec fn windows(&self) -> Option<Seq<usize>> {
        match self.swin {
            Some(sw) => Some(sw@),
            None => None,
        }
    }

    /// What a decomposition of `series` returns where the comparison of the
    /// transform parameter with 0 and 1 came out as `lambda_in_range`: the
    /// error that reports the first fault, or, where there is none, the
    /// components that backfitting finds, as [`is_backfit`] says: one
    /// seasonal component for each period, a trend and a remainder, each as
    /// long as the series.
    pub open spec fn outcome(
        &self,
        series: Seq<T>,
        periods: Seq<usize>,
        lambda_in_range: bool,
        r: Result<MstlResult<T>, Error>,
    ) -> bool {
        let n = series.len() as int;
        match r {
            Ok(res) => {
                &&& self.fault(n, periods, lambda_in_range) is None
                &&& res.has_shape(periods.len() as int, n)
                &&& is_backfit(
                    series,
                    periods,
                    rounds(self.iterate, periods.len() as int) as int,
                    self.lambda,
                    self.windows(),
                    self.stl_params,
                    res.trend@,
                    res.remainder@,
                    views(res.seasonal@),
                )
            },
            Err(e) => {
                &&& self.fault(n, periods, lambda_in_range) is Some
                &&& self.fault(n, periods, lambda_in_range).unwrap().reported_by(e)
            },
        }
    }

    /// What the caller must see to in every case: sizes that the machine
    /// can count.
    pub open spec fn usable(&self, n: int, periods: Seq<usize>) -> bool {
        &&& n <= usize::MAX / 2
        &&& 7 + 4 * periods.len() <= usize::MAX
    }

    /// What the caller must see to where nothing is refused: positive
    /// strides, and a round to run. A round is run where at least one is
    /// asked for, or where there is a single period, for which one round is
    /// run whatever is asked for; without a round and with several periods
    /// there is no trend to return.
    pub open spec fn can_run(&self, periods: Seq<usize>) -> bool {
        &&& self.stl_params.jumps_positive()
        &&& (self.iterate >= 1 || periods.len() <= 1)
    }

    /// Checks the periods against the series and the parameters against the
    /// periods, in the order of [`MstlParams::fault`], up to and including
    /// the listed windows.
    pub fn validate(&self, n: usize, periods: &[usize], lambda_in_range: bool) -> (r: Result<
        (),
        Error,
    >)
        ensures
            match r {
                Ok(()) => {
                    &&& periods_fit(n as int, periods@)
                    &&& !(self.lambda is Some && !lambda_in_range)
                    &&& self.swin matches Some(sw) ==> sw@.len() == periods@.len()
                    &&& self.fault(n as int, periods@, lambda_in_range) == backfit_fault(
                        self.stl_params,
                        self.windows(),
                        periods@,
                    )
                },
                Err(e) => {
                    &&& self.fault(n as int, periods@, lambda_in_range) is Some
                    &&& self.fault(n as int, periods@, lambda_in_range).unwrap().reported_by(e)
                },
            },
    {
        let m: usize = periods.len();
        let mut i: usize = 0;
        while i < m
            invariant
                i <= m == periods@.len(),
                forall|q: int| 0 <= q < i ==> #[trigger] periods@[q] >= 2,
            decreases m - i,
        {
            if periods[i] < 2 {
                return Err(Fault::PeriodsTooSmall.error());
            }
            i += 1;
        }
        let mut i: usize = 0;
        while i < m
            invariant
                i <= m == periods@.len(),
                forall|q: int| 0 <= q < m ==> #[trigger] periods@[q] >= 2,
                forall|q: int| 0 <= q < i ==> 2 * #[trigger] periods@[q] <= n,
            decreases m - i,
        {
            if n / 2 < periods[i] {
                return Err(Fault::TooFewPeriods.error());
            }
            i += 1;
        }
        if self.lambda.is_some() && !lambda_in_range {
            return Err(Fault::LambdaOutOfRange.error());
        }
        match &self.swin {
            Some(sw) => {
                if sw.len() != m {
                    return Err(Fault::SeasonalLengthsMismatch.error());
                }
            },
            None => {},
        }
        Ok(())
    }

    /// Checks everything that a decomposition of a series of `n`
    /// observations may refuse, in the order of [`MstlParams::fault`], and
    /// computes nothing else.
    pub fn check(&self, n: usize, periods: &[usize], lambda_in_range: bool) -> (r: Result<
        (),
        Error,
    >)
        requires
            self.usable(n as int, periods@),
        ensures
            match r {
                Ok(()) => self.fault(n as int, periods@, lambda_in_range) is None,
                Err(e) => {
                    &&& self.fault(n as int, periods@, lambda_in_range) is Some
                    &&& self.fault(n as int, periods@, lambda_in_range).unwrap().reported_by(e)
                },
            },
    {
        match self.validate(n, periods, lambda_in_range) {
            Ok(()) => {},
            Err(e) => {
                return Err(e);
            },
        }
        if periods.len() == 0 {
            return Err(Fault::NoPeriods.error());
        }
        let order: Vec<usize> = rank_order(periods);
        check_steps(n, periods, &order, &self.swin, &self.stl_params)
    }

    /// Decomposes a time series, given how the transform parameter compares
    /// with 0 and 1. See [`MstlParams::outcome`].
    pub fn fit_checked(&self, series: &[T], periods: &[usize], lambda_in_range: bool) -> (r: Result<
        MstlResult<T>,
        Error,
    >)
        requires
            self.usable(series@.len() as int, periods@),
            self.fault(series@.len() as int, periods@, lambda_in_range) is None ==> self.can_run(
                periods@,
            ),
        ensures
            self.outcome(series@, periods@, lambda_in_range, r),
    {
        match self.validate(series.len(), periods, lambda_in_range) {
            Ok(()) => {},
            Err(e) => {
                return Err(e);
            },
        }
        match mstl(series, periods, self.iterate, self.lambda, &self.swin, &self.stl_params) {
            Ok(parts) => Ok(MstlResult { seasonal: parts.2, trend: parts.0, remainder: parts.1 }),
            Err(e) => Err(e),
        }
    }

    /// Decomposes a time series.
    ///
    /// Where there is a transform parameter, it is compared with 0 and 1;
    /// the result is that of [`MstlParams::fit_checked`] for what the
    /// comparison gave. Without one, nothing depends on the arithmetic: the
    /// result is an error exactly where [`MstlParams::fault`] names one.
    ///
    /// Positive strides and a round to run are asked of the caller only where
    /// nothing is refused: whatever is at fault is reported also where no
    /// round is asked for.
    pub fn fit(&self, series: &[T], periods: &[usize]) -> (r: Result<MstlResult<T>, Error>)
        requires
            self.usable(series@.len() as int, periods@),
            match self.lambda {
                Some(lam) => forall|in_range: bool|
                    #[trigger] is_in_unit_interval(lam, in_range) && self.fault(
                        series@.len() as int,
                        periods@,
                        in_range,
                    ) is None ==> self.can_run(periods@),
                None => self.fault(series@.len() as int, periods@, true) is None
                    ==> self.can_run(periods@),
            },
        ensures
            match self.lambda {
                Some(lam) => exists|in_range: bool|
                    is_in_unit_interval(lam, in_range) && #[trigger] self.outcome(
                        series@,
                        periods@,
                        in_range,
                        r,
                    ),
                None => self.outcome(series@, periods@, true, r),
            },
    {
        let in_range: bool = match self.lambda {
            Some(lam) => {
                let zero: T = T::from_count(0);
                let low: bool = zero.le(lam);
                let within: bool = if low {
                    let one: T = T::from_count(1);
                    let b: bool = lam.le(one);
                    assert(is_count(1, one) && is_le(lam, one, b));
                    b
                } else {
                    false
                };
                assert(is_count(0, zero) && is_le(zero, lam, low));
                assert(is_in_unit_interval(lam, within));
                within
            },
            None => true,
        };
        self.fit_checked(series, periods, in_range)
    }
}

impl<T: Scalar> Default for MstlParams<T> {
    fn default() -> (r: Self)
        ensures
            r.iterate == 2,
            r.lambda is None,
            r.swin is None,
            r.stl_params == StlParams::initial(),
    {
        Self::new()
    }
}

} // verus!
