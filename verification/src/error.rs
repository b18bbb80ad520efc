//! The errors of a decomposition and the faults that they report.

use vstd::prelude::*;

verus! {

/// Why a decomposition was refused.
#[derive(Debug, PartialEq, Eq)]
pub enum Error {
    /// The configuration is invalid, whatever the data.
    Parameter(String),
    /// The configuration is sound but the series is too short for it.
    Series(String),
}

impl Error {
    /// Whether this is a series error (as opposed to a parameter error).
    pub open spec fn is_series(&self) -> bool {
        self is Series
    }

    /// The characters of the message.
    pub open spec fn text(&self) -> Seq<char> {
        match self {
            Error::Parameter(m) => m@,
            Error::Series(m) => m@,
        }
    }

    /// The human-readable message.
    pub fn message(&self) -> (m: String)
        ensures
            m@ == self.text(),
    {
        match self {
            Error::Parameter(m) => m.clone(),
            Error::Series(m) => m.clone(),
        }
    }
}

/// Each single constraint that a configuration or a series can break.
#[derive(Clone, Copy, Debug, PartialEq, Eq, Structural)]
pub enum Fault {
    /// The series holds fewer than two full periods.
    TooFewPeriods,
    /// The seasonal window that the caller named is below 3.
    SeasonalLengthTooSmall,
    /// The trend window that the caller named is below 3.
    TrendLengthTooSmall,
    /// The low-pass window is below 3.
    LowPassLengthTooSmall,
    /// The period is below 2.
    PeriodTooSmall,
    /// The seasonal degree is neither 0 nor 1.
    SeasonalDegree,
    /// The trend degree is neither 0 nor 1.
    TrendDegree,
    /// The low-pass degree is neither 0 nor 1.
    LowPassDegree,
    /// The seasonal window that the caller named is even.
    SeasonalLengthEven,
    /// The trend window that the caller named is even.
    TrendLengthEven,
    /// The low-pass window is even.
    LowPassLengthEven,
    /// One of several periods is below 2.
    PeriodsTooSmall,
    /// The power-transform parameter lies outside the unit interval.
    LambdaOutOfRange,
    /// The list of seasonal windows and the list of periods differ in length.
    SeasonalLengthsMismatch,
    /// No period was given.
    NoPeriods,
}

impl Fault {
    /// Whether the fault concerns the length of the series rather than the
    /// configuration.
    pub open spec fn is_series(self) -> bool {
        self == Fault::TooFewPeriods
    }

    /// The message that reports the fault.
    pub open spec fn text(self) -> Seq<char> {
        match self {
            Fault::TooFewPeriods => "series has less than two periods"@,
            Fault::SeasonalLengthTooSmall => "seasonal_length must be at least 3"@,
            Fault::TrendLengthTooSmall => "trend_length must be at least 3"@,
            Fault::LowPassLengthTooSmall => "low_pass_length must be at least 3"@,
            Fault::PeriodTooSmall => "period must be at least 2"@,
            Fault::SeasonalDegree => "seasonal_degree must be 0 or 1"@,
            Fault::TrendDegree => "trend_degree must be 0 or 1"@,
            Fault::LowPassDegree => "low_pass_degree must be 0 or 1"@,
            Fault::SeasonalLengthEven => "seasonal_length must be odd"@,
            Fault::TrendLengthEven => "trend_length must be odd"@,
            Fault::LowPassLengthEven => "low_pass_length must be odd"@,
            Fault::PeriodsTooSmall => "periods must be at least 2"@,
            Fault::LambdaOutOfRange => "lambda must be between 0 and 1"@,
            Fault::SeasonalLengthsMismatch => {
                "seasonal_lengths must have the same length as periods"@
            },
            Fault::NoPeriods => "periods must not be empty"@,
        }
    }

    /// Whether `e` is the error that reports this fault: the same kind and
    /// the same message.
    pub open spec fn reported_by(self, e: Error) -> bool {
        e.is_series() == self.is_series() && e.text() == self.text()
    }

    /// The error that reports the fault.
    pub fn error(self) -> (e: Error)
        ensures
            self.reported_by(e),
    {
        match self {
            Fault::TooFewPeriods => Error::Series("series has less than two periods".to_string()),
            Fault::SeasonalLengthTooSmall => Error::Parameter(
                "seasonal_length must be at least 3".to_string(),
            ),
            Fault::TrendLengthTooSmall => Error::Parameter(
                "trend_length must be at least 3".to_string(),
            ),
            Fault::LowPassLengthTooSmall => Error::Parameter(
                "low_pass_length must be at least 3".to_string(),
            ),
            Fault::PeriodTooSmall => Error::Parameter("period must be at least 2".to_string()),
            Fault::SeasonalDegree => Error::Parameter("seasonal_degree must be 0 or 1".to_string()),
            Fault::TrendDegree => Error::Parameter("trend_degree must be 0 or 1".to_string()),
            Fault::LowPassDegree => Error::Parameter("low_pass_degree must be 0 or 1".to_string()),
            Fault::SeasonalLengthEven => Error::Parameter(
                "seasonal_length must be odd".to_string(),
            ),
            Fault::TrendLengthEven => Error::Parameter("trend_length must be odd".to_string()),
            Fault::LowPassLengthEven => Error::Parameter("low_pass_length must be odd".to_string()),
            Fault::PeriodsTooSmall => Error::Parameter("periods must be at least 2".to_string()),
            Fault::LambdaOutOfRange => Error::Parameter(
                "lambda must be between 0 and 1".to_string(),
            ),
            Fault::SeasonalLengthsMismatch => Error::Parameter(
                "seasonal_lengths must have the same length as periods".to_string(),
            ),
            Fault::NoPeriods => Error::Parameter("periods must not be empty".to_string()),
        }
    }
}

} // verus!
