//! The result of a single-period decomposition and the strength of its
//! components.

use crate::scalar::is_count;
use crate::scalar::is_difference;
use crate::scalar::is_le;
use crate::scalar::is_power;
use crate::scalar::is_quotient;
use crate::scalar::is_sum;
use crate::scalar::is_summation;
use crate::scalar::lemma_summation_start;
use crate::scalar::lemma_summation_step;
use crate::scalar::sums_to;
use crate::scalar::Scalar;
use crate::filter::each_of;
use vstd::prelude::*;

verus! {

/// The components of a single-period decomposition.
#[derive(Clone, Debug)]
pub struct StlResult<T> {
    /// Seasonal component.
    pub seasonal: Vec<T>,
    /// Trend.
    pub trend: Vec<T>,
    /// What is left of the series without the two.
    pub remainder: Vec<T>,
    /// Robustness weights.
    pub weights: Vec<T>,
}

/// The terms of the sum of squares about `mean`: position `j` adds the
/// deviation of `series[j]` from `mean` to the power `two`.
pub open spec fn squares_of<T: Scalar>(series: Seq<T>, mean: T, two: T) -> spec_fn(
    int,
    Option<T>,
) -> bool {
    |j: int, t: Option<T>|
        exists|d: T, sq: T|
            is_difference(series[j], mean, d) && is_power(d, two, sq) && t == Some(sq)
}

/// Whether `v` is the unbiased sample variance of `series`: with the mean
/// the sum of the values over their number, the squared deviations from the
/// mean, summed and divided by one less than the number of values.
pub open spec fn is_variance<T: Scalar>(series: Seq<T>, v: T) -> bool {
    exists|zero: T, sum: T, cn: T, mean: T, two: T, from: T, squares: T, count: T, one: T, den: T|
        {
            &&& is_count(0, zero)
            &&& sums_to(0, series.len() as int, zero, each_of(series), sum)
            &&& is_count(series.len() as usize, cn)
            &&& is_quotient(sum, cn, mean)
            &&& is_count(2, two)
            &&& is_count(0, from)
            &&& sums_to(0, series.len() as int, from, squares_of(series, mean, two), squares)
            &&& is_count(series.len() as usize, count)
            &&& is_count(1, one)
            &&& is_difference(count, one, den)
            &&& is_quotient(squares, den, v)
        }
}

/// Whether `s` is the strength of `component` against `remainder`: one
/// minus the variance of the remainder over the variance of component plus
/// remainder, and zero where that is not at least zero.
pub open spec fn is_strength<T: Scalar>(component: Seq<T>, remainder: Seq<T>, s: T) -> bool {
    exists|both: Seq<T>, vr: T, vb: T, ratio: T, one: T, d: T, zero: T, some: bool|
        {
            &&& both.len() == if component.len() < remainder.len() {
                component.len()
            } else {
                remainder.len()
            }
            &&& forall|i: int|
                0 <= i < both.len() ==> is_sum(component[i], remainder[i], #[trigger] both[i])
            &&& is_variance(remainder, vr)
            &&& is_variance(both, vb)
            &&& is_quotient(vr, vb, ratio)
            &&& is_count(1, one)
            &&& is_difference(one, ratio, d)
            &&& is_count(0, zero)
            &&& is_le(zero, d, some)
            &&& s == if some {
                d
            } else {
                zero
            }
        }
}

/// Unbiased sample variance: the squared deviations from the mean, summed
/// and divided by one less than the number of values.
pub fn var<T: Scalar>(series: &[T]) -> (v: T)
    ensures
        is_variance(series@, v),
{
    let n: usize = series.len();
    let zero: T = T::from_count(0);
    let mut sum: T = zero;
    let ghost mut terms: Seq<Option<T>> = Seq::new(0, |i: int| None);
    let ghost mut acc: Seq<T> = Seq::new(1, |i: int| zero);
    proof {
        lemma_summation_start(0, zero, each_of(series@));
    }
    let mut i: usize = 0;
    while i < n
        invariant
            i <= n == series@.len(),
            is_summation(0, i as int, zero, each_of(series@), terms, acc, sum),
        decreases n - i,
    {
        let next: T = sum.plus(series[i]);
        proof {
            lemma_summation_step(
                0,
                i as int,
                zero,
                each_of(series@),
                terms,
                acc,
                sum,
                Some(series@[i as int]),
                next,
            );
            terms = terms.push(Some(series@[i as int]));
            acc = acc.push(next);
        }
        sum = next;
        i += 1;
    }
    assert(sums_to(0, n as int, zero, each_of(series@), sum));
    let cn: T = T::from_count(n);
    let mean: T = sum.over(cn);
    let two: T = T::from_count(2);
    let from: T = T::from_count(0);
    let mut squares: T = from;
    let ghost mut terms: Seq<Option<T>> = Seq::new(0, |i: int| None);
    let ghost mut acc: Seq<T> = Seq::new(1, |i: int| from);
    proof {
        lemma_summation_start(0, from, squares_of(series@, mean, two));
    }
    let mut i: usize = 0;
    while i < n
        invariant
            i <= n == series@.len(),
            is_summation(0, i as int, from, squares_of(series@, mean, two), terms, acc, squares),
        decreases n - i,
    {
        let d: T = series[i].minus(mean);
        let sq: T = d.powf(two);
        let next: T = squares.plus(sq);
        proof {
            assert(is_difference(series@[i as int], mean, d) && is_power(d, two, sq));
            assert(squares_of(series@, mean, two)(i as int, Some(sq)));
            lemma_summation_step(
                0,
                i as int,
                from,
                squares_of(series@, mean, two),
                terms,
                acc,
                squares,
                Some(sq),
                next,
            );
            terms = terms.push(Some(sq));
            acc = acc.push(next);
        }
        squares = next;
        i += 1;
    }
    assert(sums_to(0, n as int, from, squares_of(series@, mean, two), squares));
    let count: T = T::from_count(n);
    let one: T = T::from_count(1);
    let den: T = count.minus(one);
    let v: T = squares.over(den);
    assert(is_count(0, zero) && is_count(n, cn) && is_quotient(sum, cn, mean) && is_count(2, two)
        && is_count(0, from) && is_count(n, count) && is_count(1, one) && is_difference(
        count,
        one,
        den,
    ) && is_quotient(squares, den, v));
    v
}

/// Strength of a component against the remainder: one minus the variance of
/// the remainder over the variance of component plus remainder, and zero
/// where that is not at least zero.
pub fn strength<T: Scalar>(component: &[T], remainder: &[T]) -> (s: T)
    ensures
        is_strength(component@, remainder@, s),
{
    let n: usize = if component.len() < remainder.len() {
        component.len()
    } else {
        remainder.len()
    };
    let mut both: Vec<T> = Vec::with_capacity(n);
    let mut i: usize = 0;
    while i < n
        invariant
            i <= n <= component@.len(),
            n <= remainder@.len(),
            both@.len() == i,
            forall|q: int| 0 <= q < i ==> is_sum(component@[q], remainder@[q], #[trigger] both@[q]),
        decreases n - i,
    {
        both.push(component[i].plus(remainder[i]));
        i += 1;
    }
    let vr: T = var(remainder);
    let vb: T = var(both.as_slice());
    let ratio: T = vr.over(vb);
    let one: T = T::from_count(1);
    let d: T = one.minus(ratio);
    let zero: T = T::from_count(0);
    let some: bool = zero.le(d);
    let s: T = if some {
        d
    } else {
        zero
    };
    assert(is_variance(remainder@, vr) && is_variance(both@, vb) && is_quotient(vr, vb, ratio)
        && is_count(1, one) && is_difference(one, ratio, d) && is_count(0, zero) && is_le(
        zero,
        d,
        some,
    ));
    s
}

impl<T: Scalar> StlResult<T> {
    /// Whether each of the four components holds `n` values.
    pub open spec fn has_len(&self, n: int) -> bool {
        &&& self.seasonal@.len() == n
        &&& self.trend@.len() == n
        &&& self.remainder@.len() == n
        &&& self.weights@.len() == n
    }

    /// Returns the seasonal component.
    pub fn seasonal(&self) -> (r: &[T])
        ensures
            r@ == self.seasonal@,
    {
        self.seasonal.as_slice()
    }

    /// Returns the trend component.
    pub fn trend(&self) -> (r: &[T])
        ensures
            r@ == self.trend@,
    {
        self.trend.as_slice()
    }

    /// Returns the remainder.
    pub fn remainder(&self) -> (r: &[T])
        ensures
            r@ == self.remainder@,
    {
        self.remainder.as_slice()
    }

    /// Returns the weights.
    pub fn weights(&self) -> (r: &[T])
        ensures
            r@ == self.weights@,
    {
        self.weights.as_slice()
    }

    /// Returns the seasonal strength.
    pub fn seasonal_strength(&self) -> (s: T)
        ensures
            is_strength(self.seasonal@, self.remainder@, s),
    {
        strength(self.seasonal.as_slice(), self.remainder.as_slice())
    }

    /// Returns the trend strength.
    pub fn trend_strength(&self) -> (s: T)
        ensures
            is_strength(self.trend@, self.remainder@, s),
    {
        strength(self.trend.as_slice(), self.remainder.as_slice())
    }

    /// Consumes the result, returning the seasonal component, trend
    /// component, remainder, and weights.
    pub fn into_parts(self) -> (r: (Vec<T>, Vec<T>, Vec<T>, Vec<T>))
        ensures
            r.0 == self.seasonal,
            r.1 == self.trend,
            r.2 == self.remainder,
            r.3 == self.weights,
    {
        (self.seasonal, self.trend, self.remainder, self.weights)
    }
}

} // verus!
