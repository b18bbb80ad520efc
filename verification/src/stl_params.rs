//! Parameters of the single-period decomposition: what the caller names,
//! what the defaults are, and what is refused.

use crate::error::Error;
use crate::error::Fault;
use crate::scalar::all_count;
use crate::scalar::filled;
use crate::scalar::is_count;
use crate::scalar::is_difference;
use crate::scalar::uniform;
use crate::scalar::Scalar;
use crate::stl_impl::is_decomposition;
use crate::stl_impl::stl;
use crate::stl_result::StlResult;
use vstd::prelude::*;

verus! {

/// `a / b`, rounded up.
pub open spec fn ceil_div(a: int, b: int) -> int {
    (a + b - 1) / b
}

/// A default for a window made usable: at least 3, and odd. Windows that
/// the caller names are taken as they are, and refused where they are not
/// so.
pub open spec fn odd_window(w: int) -> int {
    let m = if w < 3 { 3 } else { w };
    if m % 2 == 0 { m + 1 } else { m }
}

/// The trend window that goes with a period and a seasonal window when the
/// caller names none: `1.5 * period / (1 - 1.5 / seasonal)`, rounded up.
pub open spec fn trend_length_for(period: int, seasonal: int) -> int {
    ceil_div(3 * period * seasonal, 2 * seasonal - 3)
}

/// The stride that goes with a window when the caller names none: a tenth of
/// the window, rounded up.
pub open spec fn jump_for(window: int) -> int {
    ceil_div(window, 10)
}

/// If `num` is at most `m` times a positive `den`, then so is `num / den`
/// rounded up at most `m`.
proof fn lemma_ceil_div_bound(num: int, den: int, m: int)
    requires
        den > 0,
        0 <= num <= m * den,
    ensures
        0 <= ceil_div(num, den) <= m,
{
    assert(0 <= (num + den - 1) / den <= m) by (nonlinear_arith)
        requires
            den > 0,
            0 <= num <= m * den,
    ;
}

/// A default for a window made usable: see [`odd_window`].
fn odd_window_of(w: usize) -> (r: usize)
    ensures
        r == odd_window(w as int),
        r >= 3,
        r % 2 == 1,
{
    let m: usize = if w < 3 { 3 } else { w };
    if m % 2 == 0 {
        m + 1
    } else {
        m
    }
}

/// The default trend window: see [`trend_length_for`].
fn default_trend_length(period: usize, seasonal: usize) -> (r: usize)
    requires
        period <= usize::MAX / 4,
        seasonal >= 3,
    ensures
        r == trend_length_for(period as int, seasonal as int),
{
    let p: u128 = period as u128;
    let s: u128 = seasonal as u128;
    assert(3 * p * s <= 0xc000_0000_0000_0000_0000_0000_0000_0000) by (nonlinear_arith)
        requires
            0 <= p <= 0x4000_0000_0000_0000,
            0 <= s <= 0x1_0000_0000_0000_0000,
    ;
    let num: u128 = 3 * p * s;
    let den: u128 = 2 * s - 3;
    let q: u128 = (num + den - 1) / den;
    proof {
        assert(num <= (3 * p) * den) by (nonlinear_arith)
            requires
                num == 3 * p * s,
                den == 2 * s - 3,
                s >= 3,
                p >= 0,
        ;
        lemma_ceil_div_bound(num as int, den as int, 3 * p);
    }
    q as usize
}

/// The default stride: see [`jump_for`].
fn default_jump(window: usize) -> (r: usize)
    ensures
        r == jump_for(window as int),
        window >= 1 ==> r >= 1,
{
    if window % 10 == 0 {
        window / 10
    } else {
        window / 10 + 1
    }
}

/// A set of parameters for a single-period decomposition, each either named
/// by the caller or left to its default.
#[derive(Clone, Copy, Debug)]
pub struct StlParams {
    /// Seasonal window.
    pub ns: Option<usize>,
    /// Trend window.
    pub nt: Option<usize>,
    /// Low-pass window.
    pub nl: Option<usize>,
    /// Seasonal degree.
    pub isdeg: i32,
    /// Trend degree.
    pub itdeg: i32,
    /// Low-pass degree.
    pub ildeg: Option<i32>,
    /// Seasonal stride.
    pub nsjump: Option<usize>,
    /// Trend stride.
    pub ntjump: Option<usize>,
    /// Low-pass stride.
    pub nljump: Option<usize>,
    /// Passes of the inner loop.
    pub ni: Option<usize>,
    /// Robustness iterations.
    pub no: Option<usize>,
    /// Whether robustness iterations are asked for.
    pub robust: bool,
}

/// The parameters of one decomposition with every default filled in.
#[derive(Clone, Copy, Debug)]
pub struct StlConfig {
    /// Period.
    pub np: usize,
    /// Seasonal window.
    pub ns: usize,
    /// Trend window.
    pub nt: usize,
    /// Low-pass window.
    pub nl: usize,
    /// Seasonal degree.
    pub isdeg: i32,
    /// Trend degree.
    pub itdeg: i32,
    /// Low-pass degree.
    pub ildeg: i32,
    /// Seasonal stride.
    pub nsjump: usize,
    /// Trend stride.
    pub ntjump: usize,
    /// Low-pass stride.
    pub nljump: usize,
    /// Passes of the inner loop.
    pub ni: usize,
    /// Robustness iterations.
    pub no: usize,
}

impl StlConfig {
    /// What every resolved configuration satisfies where the strides that
    /// the caller named are positive: a period of at least 2, odd windows of
    /// at least 3, degrees 0 or 1, and positive strides.
    pub open spec fn well_formed(&self) -> bool {
        &&& self.np >= 2
        &&& self.ns >= 3 && self.ns % 2 == 1
        &&& self.nt >= 3 && self.nt % 2 == 1
        &&& self.nl >= 3 && self.nl % 2 == 1
        &&& (self.isdeg == 0 || self.isdeg == 1)
        &&& (self.itdeg == 0 || self.itdeg == 1)
        &&& (self.ildeg == 0 || self.ildeg == 1)
        &&& self.nsjump >= 1
        &&& self.ntjump >= 1
        &&& self.nljump >= 1
    }

    /// Whether a series of `n` observations holds two full periods and its
    /// padded form still has a length.
    pub open spec fn fits(&self, n: int) -> bool {
        2 * self.np <= n && n + 2 * self.np <= usize::MAX
    }
}

/// Whether `r` is what is left of the observation `y` once the seasonal value
/// `s` and then the trend value `t` are taken from it.
pub open spec fn is_remainder<T: Scalar>(y: T, s: T, t: T, r: T) -> bool {
    exists|d: T| is_difference(y, s, d) && is_difference(d, t, r)
}

/// The sequence of `n` times `x`.
pub open spec fn constant<T>(n: nat, x: T) -> Seq<T> {
    Seq::new(n, |i: int| x)
}

/// Whether `seasonal`, `trend` and `weights` are the seasonal component, the
/// trend and the weights of `series` under `cfg`: those of
/// [`is_decomposition`], started from components that are zero throughout.
pub open spec fn is_components<T: Scalar>(
    series: Seq<T>,
    cfg: StlConfig,
    seasonal: Seq<T>,
    trend: Seq<T>,
    weights: Seq<T>,
) -> bool {
    &&& seasonal.len() == series.len()
    &&& trend.len() == series.len()
    &&& weights.len() == series.len()
    &&& exists|zero: T|
        is_count(0, zero) && #[trigger] is_decomposition(
            series,
            cfg,
            constant(series.len(), zero),
            constant(series.len(), zero),
            weights,
            seasonal,
            trend,
        )
}

/// Whether `res` is the decomposition of `series` under `cfg`: seasonal
/// component, trend and weights are those of [`is_components`], and each
/// remainder is the observation less the seasonal value less the trend
/// value.
pub open spec fn decomposes<T: Scalar>(series: Seq<T>, cfg: StlConfig, res: StlResult<T>) -> bool {
    &&& res.has_len(series.len() as int)
    &&& is_components(series, cfg, res.seasonal@, res.trend@, res.weights@)
    &&& forall|i: int|
        0 <= i < series.len() ==> is_remainder(
            series[i],
            res.seasonal@[i],
            res.trend@[i],
            #[trigger] res.remainder@[i],
        )
}

impl StlParams {
    /// The parameters with nothing named: degree 0 for the seasonal smoother,
    /// degree 1 for the trend smoother, no robustness iterations.
    pub open spec fn initial() -> StlParams {
        StlParams {
            ns: None,
            nt: None,
            nl: None,
            isdeg: 0,
            itdeg: 1,
            ildeg: None,
            nsjump: None,
            ntjump: None,
            nljump: None,
            ni: None,
            no: None,
            robust: false,
        }
    }

    /// Creates a new set of parameters.
    pub fn new() -> (r: Self)
        ensures
            r == Self::initial(),
    {
        StlParams {
            ns: None,
            nt: None,
            nl: None,
            isdeg: 0,
            itdeg: 1,
            ildeg: None,
            nsjump: None,
            ntjump: None,
            nljump: None,
            ni: None,
            no: None,
            robust: false,
        }
    }

    /// Sets the length of the seasonal smoother.
    pub fn seasonal_length(&mut self, length: usize) -> (r: &mut Self)
        ensures
            *r == (StlParams { ns: Some(length), ..*old(self) }),
            *final(self) == *final(r),
    {
        self.ns = Some(length);
        self
    }

    /// Sets the length of the trend smoother.
    pub fn trend_length(&mut self, length: usize) -> (r: &mut Self)
        ensures
            *r == (StlParams { nt: Some(length), ..*old(self) }),
            *final(self) == *final(r),
    {
        self.nt = Some(length);
        self
    }

    /// Sets the length of the low-pass filter.
    pub fn low_pass_length(&mut self, length: usize) -> (r: &mut Self)
        ensures
            *r == (StlParams { nl: Some(length), ..*old(self) }),
            *final(self) == *final(r),
    {
        self.nl = Some(length);
        self
    }

    /// Sets the degree of the locally fitted polynomial in seasonal smoothing.
    pub fn seasonal_degree(&mut self, degree: i32) -> (r: &mut Self)
        ensures
            *r == (StlParams { isdeg: degree, ..*old(self) }),
            *final(self) == *final(r),
    {
        self.isdeg = degree;
        self
    }

    /// Sets the degree of the locally fitted polynomial in trend smoothing.
    pub fn trend_degree(&mut self, degree: i32) -> (r: &mut Self)
        ensures
            *r == (StlParams { itdeg: degree, ..*old(self) }),
            *final(self) == *final(r),
    {
        self.itdeg = degree;
        self
    }

    /// Sets the degree of the locally fitted polynomial in low-pass smoothing.
    pub fn low_pass_degree(&mut self, degree: i32) -> (r: &mut Self)
        ensures
            *r == (StlParams { ildeg: Some(degree), ..*old(self) }),
            *final(self) == *final(r),
    {
        self.ildeg = Some(degree);
        self
    }

    /// Sets the skipping value for seasonal smoothing.
    pub fn seasonal_jump(&mut self, jump: usize) -> (r: &mut Self)
        ensures
            *r == (StlParams { nsjump: Some(jump), ..*old(self) }),
            *final(self) == *final(r),
    {
        self.nsjump = Some(jump);
        self
    }

    /// Sets the skipping value for trend smoothing.
    pub fn trend_jump(&mut self, jump: usize) -> (r: &mut Self)
        ensures
            *r == (StlParams { ntjump: Some(jump), ..*old(self) }),
            *final(self) == *final(r),
    {
        self.ntjump = Some(jump);
        self
    }

    /// Sets the skipping value for low-pass smoothing.
    pub fn low_pass_jump(&mut self, jump: usize) -> (r: &mut Self)
        ensures
            *r == (StlParams { nljump: Some(jump), ..*old(self) }),
            *final(self) == *final(r),
    {
        self.nljump = Some(jump);
        self
    }

    /// Sets the number of loops for updating the seasonal and trend components.
    pub fn inner_loops(&mut self, loops: usize) -> (r: &mut Self)
        ensures
            *r == (StlParams { ni: Some(loops), ..*old(self) }),
            *final(self) == *final(r),
    {
        self.ni = Some(loops);
        self
    }

    /// Sets the number of iterations of robust fitting.
    pub fn outer_loops(&mut self, loops: usize) -> (r: &mut Self)
        ensures
            *r == (StlParams { no: Some(loops), ..*old(self) }),
            *final(self) == *final(r),
    {
        self.no = Some(loops);
        self
    }

    /// Sets whether robustness iterations are to be used.
    pub fn robust(&mut self, robust: bool) -> (r: &mut Self)
        ensures
            *r == (StlParams { robust, ..*old(self) }),
            *final(self) == *final(r),
    {
        self.robust = robust;
        self
    }

    /// Whether every stride that the caller named is positive. With a stride
    /// of zero the smoothers would never advance; it is asked of the caller
    /// where nothing else is refused.
    pub open spec fn jumps_positive(&self) -> bool {
        &&& self.nsjump != Some(0usize)
        &&& self.ntjump != Some(0usize)
        &&& self.nljump != Some(0usize)
    }

    /// The seasonal window in use for a period: the one that the caller
    /// named, as it is; else the period, made odd and at least 3.
    pub open spec fn seasonal_window(&self, period: int) -> int {
        match self.ns {
            Some(w) => w as int,
            None => odd_window(period),
        }
    }

    /// The trend window in use for a period: the one that the caller named,
    /// as it is; else the one that goes with the period and the seasonal
    /// window, made odd and at least 3.
    pub open spec fn trend_window(&self, period: int) -> int {
        match self.nt {
            Some(w) => w as int,
            None => odd_window(trend_length_for(period, self.seasonal_window(period))),
        }
    }

    /// The low-pass window in use for a period. One that the caller named is
    /// taken as it is; the default is the period, made odd (and 3 for a
    /// period below 2, which is refused on its own account).
    pub open spec fn low_pass_window(&self, period: int) -> int {
        match self.nl {
            Some(w) => w as int,
            None => if period < 2 {
                3
            } else if period % 2 == 0 {
                period + 1
            } else {
                period
            },
        }
    }

    /// The low-pass degree in use: the trend degree unless the caller named
    /// one.
    pub open spec fn low_pass_degree_used(&self) -> i32 {
        match self.ildeg {
            Some(d) => d,
            None => self.itdeg,
        }
    }

    /// The first constraint, in the order in which they are checked, that
    /// these parameters break for a series of `n` observations and a period.
    pub open spec fn fault(&self, n: int, period: int) -> Option<Fault> {
        if n < 2 * period {
            Some(Fault::TooFewPeriods)
        } else if self.ns is Some && self.ns.unwrap() < 3 {
            Some(Fault::SeasonalLengthTooSmall)
        } else if self.nt is Some && self.nt.unwrap() < 3 {
            Some(Fault::TrendLengthTooSmall)
        } else if self.low_pass_window(period) < 3 {
            Some(Fault::LowPassLengthTooSmall)
        } else if period < 2 {
            Some(Fault::PeriodTooSmall)
        } else if self.isdeg != 0 && self.isdeg != 1 {
            Some(Fault::SeasonalDegree)
        } else if self.itdeg != 0 && self.itdeg != 1 {
            Some(Fault::TrendDegree)
        } else if self.low_pass_degree_used() != 0 && self.low_pass_degree_used() != 1 {
            Some(Fault::LowPassDegree)
        } else if self.ns is Some && self.ns.unwrap() % 2 != 1 {
            Some(Fault::SeasonalLengthEven)
        } else if self.nt is Some && self.nt.unwrap() % 2 != 1 {
            Some(Fault::TrendLengthEven)
        } else if self.low_pass_window(period) % 2 != 1 {
            Some(Fault::LowPassLengthEven)
        } else {
            None
        }
    }

    /// The first constraint that these parameters break whatever the series
    /// and the period: the part of [`StlParams::fault`] that is left for a
    /// period of at least 2 and a series of two cycles or more.
    pub open spec fn window_fault(&self) -> Option<Fault> {
        if self.ns is Some && self.ns.unwrap() < 3 {
            Some(Fault::SeasonalLengthTooSmall)
        } else if self.nt is Some && self.nt.unwrap() < 3 {
            Some(Fault::TrendLengthTooSmall)
        } else if self.nl is Some && self.nl.unwrap() < 3 {
            Some(Fault::LowPassLengthTooSmall)
        } else if self.isdeg != 0 && self.isdeg != 1 {
            Some(Fault::SeasonalDegree)
        } else if self.itdeg != 0 && self.itdeg != 1 {
            Some(Fault::TrendDegree)
        } else if self.low_pass_degree_used() != 0 && self.low_pass_degree_used() != 1 {
            Some(Fault::LowPassDegree)
        } else if self.ns is Some && self.ns.unwrap() % 2 != 1 {
            Some(Fault::SeasonalLengthEven)
        } else if self.nt is Some && self.nt.unwrap() % 2 != 1 {
            Some(Fault::TrendLengthEven)
        } else if self.nl is Some && self.nl.unwrap() % 2 != 1 {
            Some(Fault::LowPassLengthEven)
        } else {
            None
        }
    }

    /// For a period of at least 2 and a series that holds two cycles of it,
    /// what these parameters break is what they break for every series.
    pub proof fn lemma_fault_of_fitting_period(&self, n: int, period: int)
        requires
            2 <= period,
            2 * period <= n,
        ensures
            self.fault(n, period) == self.window_fault(),
    {
    }

    /// These parameters with every default filled in for a period.
    pub open spec fn resolved(&self, period: int) -> StlConfig {
        let ns = self.seasonal_window(period);
        let nt = self.trend_window(period);
        let nl = self.low_pass_window(period);
        StlConfig {
            np: period as usize,
            ns: ns as usize,
            nt: nt as usize,
            nl: nl as usize,
            isdeg: self.isdeg,
            itdeg: self.itdeg,
            ildeg: self.low_pass_degree_used(),
            nsjump: match self.nsjump {
                Some(j) => j,
                None => jump_for(ns) as usize,
            },
            ntjump: match self.ntjump {
                Some(j) => j,
                None => jump_for(nt) as usize,
            },
            nljump: match self.nljump {
                Some(j) => j,
                None => jump_for(nl) as usize,
            },
            ni: match self.ni {
                Some(k) => k,
                None => if self.robust { 1usize } else { 2usize },
            },
            no: self.outer_loops_used(),
        }
    }

    /// The number of robustness iterations in use.
    pub open spec fn outer_loops_used(&self) -> usize {
        match self.no {
            Some(k) => k,
            None => if self.robust { 15usize } else { 0usize },
        }
    }

    /// Fills in every default for a series of `n` observations and a period,
    /// or reports the first constraint that is broken. Nothing is computed on
    /// the data before this has succeeded.
    pub fn resolve(&self, n: usize, period: usize) -> (r: Result<StlConfig, Error>)
        requires
            n <= usize::MAX / 2,
        ensures
            match r {
                Ok(c) => {
                    &&& self.fault(n as int, period as int) is None
                    &&& c == self.resolved(period as int)
                    &&& self.jumps_positive() ==> c.well_formed()
                    &&& c.fits(n as int)
                },
                Err(e) => {
                    &&& self.fault(n as int, period as int) is Some
                    &&& self.fault(n as int, period as int).unwrap().reported_by(e)
                },
            },
    {
        if n / 2 < period {
            return Err(Fault::TooFewPeriods.error());
        }
        let ns: usize = match self.ns {
            Some(w) => w,
            None => odd_window_of(period),
        };
        if ns < 3 {
            return Err(Fault::SeasonalLengthTooSmall.error());
        }
        let nt: usize = match self.nt {
            Some(w) => w,
            None => odd_window_of(default_trend_length(period, ns)),
        };
        if nt < 3 {
            return Err(Fault::TrendLengthTooSmall.error());
        }
        let nl: usize = match self.nl {
            Some(w) => w,
            None => if period < 2 {
                3
            } else if period % 2 == 0 {
                period + 1
            } else {
                period
            },
        };
        let ildeg: i32 = match self.ildeg {
            Some(d) => d,
            None => self.itdeg,
        };
        if nl < 3 {
            return Err(Fault::LowPassLengthTooSmall.error());
        }
        if period < 2 {
            return Err(Fault::PeriodTooSmall.error());
        }
        if self.isdeg != 0 && self.isdeg != 1 {
            return Err(Fault::SeasonalDegree.error());
        }
        if self.itdeg != 0 && self.itdeg != 1 {
            return Err(Fault::TrendDegree.error());
        }
        if ildeg != 0 && ildeg != 1 {
            return Err(Fault::LowPassDegree.error());
        }
        if ns % 2 != 1 {
            return Err(Fault::SeasonalLengthEven.error());
        }
        if nt % 2 != 1 {
            return Err(Fault::TrendLengthEven.error());
        }
        if nl % 2 != 1 {
            return Err(Fault::LowPassLengthEven.error());
        }
        let nsjump: usize = match self.nsjump {
            Some(j) => j,
            None => default_jump(ns),
        };
        let ntjump: usize = match self.ntjump {
            Some(j) => j,
            None => default_jump(nt),
        };
        let nljump: usize = match self.nljump {
            Some(j) => j,
            None => default_jump(nl),
        };
        let ni: usize = match self.ni {
            Some(k) => k,
            None => if self.robust { 1 } else { 2 },
        };
        let no: usize = match self.no {
            Some(k) => k,
            None => if self.robust { 15 } else { 0 },
        };
        Ok(
            StlConfig {
                np: period,
                ns,
                nt,
                nl,
                isdeg: self.isdeg,
                itdeg: self.itdeg,
                ildeg,
                nsjump,
                ntjump,
                nljump,
                ni,
                no,
            },
        )
    }

    /// Decomposes a time series into seasonal component, trend and remainder.
    ///
    /// The parameters are checked before anything is computed: the result is
    /// an error exactly where [`StlParams::fault`] names one, and then the
    /// error that reports it. Otherwise the result is the decomposition under
    /// the resolved parameters, as [`decomposes`] says: each component has
    /// the length of the series, each remainder is the observation less the
    /// seasonal value less the trend value, and with no robustness iteration
    /// every weight is one and the same number, the scalar for the count 1.
    pub fn fit<T: Scalar>(&self, series: &[T], period: usize) -> (r: Result<StlResult<T>, Error>)
        requires
            series@.len() <= usize::MAX / 2,
            self.fault(series@.len() as int, period as int) is None ==> self.jumps_positive(),
        ensures
            match r {
                Ok(res) => {
                    &&& self.fault(series@.len() as int, period as int) is None
                    &&& decomposes(series@, self.resolved(period as int), res)
                    &&& self.outer_loops_used() == 0 ==> uniform(res.weights@) && all_count(
                        1,
                        res.weights@,
                    )
                },
                Err(e) => {
                    &&& self.fault(series@.len() as int, period as int) is Some
                    &&& self.fault(series@.len() as int, period as int).unwrap().reported_by(e)
                },
            },
    {
        let n: usize = series.len();
        let cfg: StlConfig = match self.resolve(n, period) {
            Ok(c) => c,
            Err(e) => {
                return Err(e);
            },
        };
        let zero: T = T::from_count(0);
        let mut rw: Vec<T> = filled(n, zero);
        let mut season: Vec<T> = filled(n, zero);
        let mut trend: Vec<T> = filled(n, zero);

        assert(season@ =~= constant(n as nat, zero));
        assert(trend@ =~= constant(n as nat, zero));
        stl(series, &cfg, &mut rw, &mut season, &mut trend);

        let mut remainder: Vec<T> = Vec::with_capacity(n);
        let mut i: usize = 0;
        while i < n
            invariant
                i <= n == series@.len(),
                season@.len() == n,
                trend@.len() == n,
                remainder@.len() == i,
                forall|q: int|
                    0 <= q < i ==> is_remainder(
                        series@[q],
                        season@[q],
                        trend@[q],
                        #[trigger] remainder@[q],
                    ),
            decreases n - i,
        {
            let d: T = series[i].minus(season[i]);
            let r: T = d.minus(trend[i]);
            assert(is_difference(series@[i as int], season@[i as int], d) && is_difference(
                d,
                trend@[i as int],
                r,
            ));
            remainder.push(r);
            i += 1;
        }
        Ok(StlResult { seasonal: season, trend, remainder, weights: rw })
    }
}

impl Default for StlParams {
    fn default() -> (r: Self)
        ensures
            r == StlParams::initial(),
    {
        Self::new()
    }
}

} // verus!
