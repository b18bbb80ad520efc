//! What holds of every decomposition and of the steps that lead to it,
//! whatever the series and the parameters. Each statement is over the spec
//! functions in which the functions of the library state their results.

use crate::cycle::cycle_len;
use crate::error::Error;
use crate::error::Fault;
use crate::loess::window_left;
use crate::loess::window_right;
use crate::mstl_impl::is_backfit;
use crate::mstl_impl::is_backfit_by;
use crate::mstl_impl::is_box_cox;
use crate::mstl_impl::is_transformed;
use crate::mstl_impl::is_zero_test;
use crate::mstl_impl::is_backfit_with;
use crate::mstl_impl::is_step;
use crate::mstl_impl::is_sweep;
use crate::mstl_impl::is_sweep_by;
use crate::mstl_impl::params_at;
use crate::mstl_impl::rounds;
use crate::mstl_params::some_period_too_long;
use crate::mstl_params::some_period_too_small;
use crate::mstl_params::MstlParams;
use crate::mstl_result::MstlResult;
use crate::scalar::is_count;
use crate::scalar::is_difference;
use crate::scalar::is_le;
use crate::scalar::is_quotient;
use crate::scalar::is_sum;
use crate::scalar::Scalar;
use crate::smooth::last_anchor;
use crate::smooth::lemma_mod_offset;
use crate::smooth::stride;
use crate::stl_params::decomposes;
use crate::stl_params::is_remainder;
use crate::stl_params::StlConfig;
use crate::stl_params::StlParams;
use crate::stl_result::is_strength;
use crate::stl_result::is_variance;
use crate::stl_result::StlResult;
use vstd::prelude::*;

verus! {

/// In every decomposition each remainder is what is left of the observation
/// once the seasonal value and then the trend value are taken from it.
pub proof fn law_components_add_up<T: Scalar>(
    series: Seq<T>,
    cfg: StlConfig,
    res: StlResult<T>,
    i: int,
)
    requires
        decomposes(series, cfg, res),
        0 <= i < series.len(),
    ensures
        is_remainder(series[i], res.seasonal@[i], res.trend@[i], res.remainder@[i]),
{
}

/// Whether in the arithmetic of `T` addition undoes subtraction: `(a - b) + b`
/// is `a`. This holds of exact arithmetic; in floating point it holds up to
/// rounding only.
pub open spec fn subtraction_is_undone<T: Scalar>() -> bool {
    forall|a: T, b: T, d: T| #[trigger] is_difference(a, b, d) ==> is_sum(d, b, a)
}

/// In an arithmetic in which addition undoes subtraction, the components of
/// every decomposition add up to the series: remainder plus trend plus
/// seasonal value is the observation.
pub proof fn law_components_add_up_exactly<T: Scalar>(
    series: Seq<T>,
    cfg: StlConfig,
    res: StlResult<T>,
    i: int,
)
    requires
        subtraction_is_undone::<T>(),
        decomposes(series, cfg, res),
        0 <= i < series.len(),
    ensures
        exists|s: T|
            is_sum(res.remainder@[i], res.trend@[i], s) && is_sum(s, res.seasonal@[i], series[i]),
{
    let d = choose|d: T|
        is_difference(series[i], res.seasonal@[i], d) && is_difference(
            d,
            res.trend@[i],
            res.remainder@[i],
        );
    assert(is_sum(res.remainder@[i], res.trend@[i], d) && is_sum(d, res.seasonal@[i], series[i]));
}

/// A strength is never below zero: it is the scalar for the count 0 itself,
/// or a number of which the arithmetic says that zero is at most it.
pub proof fn law_strength_is_not_below_zero<T: Scalar>(component: Seq<T>, remainder: Seq<T>, s: T)
    requires
        is_strength(component, remainder, s),
    ensures
        exists|zero: T| is_count(0, zero) && (s == zero || is_le(zero, s, true)),
{
    let (both, vr, vb, ratio, one, d, zero, some) = choose|
        both: Seq<T>,
        vr: T,
        vb: T,
        ratio: T,
        one: T,
        d: T,
        zero: T,
        some: bool,
    |
        {
            &&& both.len() == if component.len() < remainder.len() {
                component.len()
            } else {
                remainder.len()
            }
            &&& forall|i: int|
                0 <= i < both.len() ==> is_sum(component[i], remainder[i], #[trigger] both[i])
            &&& is_variance(remainder, vr)
            &&& is_variance(both, vb)
            &&& is_quotient(vr, vb, ratio)
            &&& is_count(1, one)
            &&& is_difference(one, ratio, d)
            &&& is_count(0, zero)
            &&& is_le(zero, d, some)
            &&& s == if some {
                d
            } else {
                zero
            }
        };
    assert(is_count(0, zero) && (s == zero || is_le(zero, s, true)));
}

/// With a single period and no transform, each remainder of a multi-period
/// decomposition is what is left of the observation once the seasonal value
/// and then the trend value are taken from it.
pub proof fn law_single_period_components_add_up<T: Scalar>(
    x: Seq<T>,
    periods: Seq<usize>,
    swin: Option<Seq<usize>>,
    stl_params: StlParams,
    trend: Seq<T>,
    remainder: Seq<T>,
    seasonal: Seq<Seq<T>>,
    t: int,
)
    requires
        periods.len() == 1,
        is_backfit(x, periods, 1, None, swin, stl_params, trend, remainder, seasonal),
        0 <= t < x.len(),
    ensures
        is_remainder(x[t], seasonal[0][t], trend[t], remainder[t]),
{
    let (order, start, begins, prevs, seasons, trends, ends) = choose|
        order: Seq<usize>,
        start: Seq<T>,
        begins: Seq<Seq<T>>,
        prevs: Seq<Seq<Seq<T>>>,
        seasons: Seq<Seq<Seq<T>>>,
        trends: Seq<Seq<T>>,
        ends: Seq<Seq<T>>,
    | #[trigger]
        is_backfit_with(
            x,
            periods,
            1,
            None,
            swin,
            stl_params,
            trend,
            remainder,
            seasonal,
            order,
            start,
            begins,
            prevs,
            seasons,
            trends,
            ends,
        );
    assert(order[0] == 0);
    assert(seasonal[order[0] as int] == seasons[0][0]);
    assert(is_sweep(
        periods,
        swin,
        stl_params,
        order,
        None,
        begins[0],
        seasons[0],
        trends[0],
        ends[0],
    ));
    let (restored, steps, afters) = choose|
        restored: Seq<Seq<T>>,
        steps: Seq<Seq<T>>,
        afters: Seq<Seq<T>>,
    |
        {
            &&& #[trigger] is_sweep_by(
                periods,
                swin,
                stl_params,
                order,
                None,
                begins[0],
                1,
                restored,
                seasons[0],
                steps,
                afters,
            )
            &&& periods.len() > 0
            &&& trends[0] == steps[periods.len() - 1]
            &&& ends[0] == afters[periods.len() - 1]
        };
    assert(is_step(
        params_at(stl_params, swin, order[0] as int, 0),
        periods[order[0] as int],
        None,
        begins[0],
        restored[0],
        seasons[0][0],
        steps[0],
        afters[0],
    ));
    assert(restored[0] == x);
    assert(is_difference(x[t], seasonal[0][t], afters[0][t]));
    assert(is_difference(afters[0][t], trend[t], remainder[t]));
}

/// Parameters that ask for no robustness and name no number of outer loops
/// run none, so that [`StlParams::fit`] returns every weight as the scalar
/// for the count 1.
pub proof fn law_plain_fit_has_no_outer_loops(params: StlParams)
    requires
        !params.robust,
        params.no is None,
    ensures
        params.outer_loops_used() == 0,
{
}

/// A series that holds less than two cycles of the period is refused with a
/// series error, whatever the parameters: no other check comes first.
pub proof fn law_short_series_is_series_error(params: StlParams, n: int, period: int)
    requires
        n < 2 * period,
    ensures
        params.fault(n, period) == Some(Fault::TooFewPeriods),
        params.fault(n, period).unwrap().is_series(),
{
}

/// Among several periods of at least 2 each, one of which the series holds
/// less than two cycles is refused with a series error, whatever the other
/// parameters.
pub proof fn law_short_series_for_some_period<T: Scalar>(
    params: MstlParams<T>,
    n: int,
    periods: Seq<usize>,
    lambda_in_range: bool,
)
    requires
        some_period_too_long(n, periods),
        !some_period_too_small(periods),
    ensures
        params.fault(n, periods, lambda_in_range) == Some(Fault::TooFewPeriods),
        params.fault(n, periods, lambda_in_range).unwrap().is_series(),
{
}

/// A seasonal degree other than 0 and 1 is refused with a parameter error
/// for every series that holds two cycles of the period.
pub proof fn law_bad_seasonal_degree_is_parameter_error(params: StlParams, n: int, period: int)
    requires
        params.isdeg != 0 && params.isdeg != 1,
        2 * period <= n,
    ensures
        params.fault(n, period) is Some,
        !params.fault(n, period).unwrap().is_series(),
{
}

/// With a single period the number of rounds asked for has no part in
/// what is returned: one round is run, the same inputs are refused, and
/// whatever one set of parameters may return, the other may return too.
pub proof fn law_single_period_ignores_iterations<T: Scalar>(
    params: MstlParams<T>,
    iterations: usize,
    series: Seq<T>,
    periods: Seq<usize>,
    lambda_in_range: bool,
    r: Result<MstlResult<T>, Error>,
)
    requires
        periods.len() == 1,
    ensures
        rounds(params.iterate, 1) == rounds(iterations, 1),
        params.fault(series.len() as int, periods, lambda_in_range) == (MstlParams {
            iterate: iterations,
            ..params
        }).fault(series.len() as int, periods, lambda_in_range),
        params.outcome(series, periods, lambda_in_range, r) == (MstlParams {
            iterate: iterations,
            ..params
        }).outcome(series, periods, lambda_in_range, r),
{
}

/// A transform parameter outside the unit interval is refused with a
/// parameter error for every series that holds two cycles of each period.
pub proof fn law_lambda_out_of_range_is_parameter_error<T: Scalar>(
    params: MstlParams<T>,
    n: int,
    periods: Seq<usize>,
)
    requires
        params.lambda is Some,
        !some_period_too_long(n, periods),
    ensures
        params.fault(n, periods, false) is Some,
        !params.fault(n, periods, false).unwrap().is_series(),
{
}

/// Every window holds the position that it is for, lies within the
/// sequence, and has as many neighbours as were asked for, or all there are.
pub proof fn law_window_holds_its_position(i: int, n: int, len: int)
    requires
        1 <= i <= n,
        1 <= len,
    ensures
        1 <= window_left(i, n, len) <= i <= window_right(i, n, len) <= n,
        window_right(i, n, len) - window_left(i, n, len) + 1 == if len < n {
            len
        } else {
            n
        },
{
}

/// Smoothing accounts for every place of a sequence: each position is an
/// anchor of the stride, or the last position, or lies on the line between
/// the anchor before it and the next, or on the line from the last anchor
/// to the last position.
pub proof fn law_smoothing_reaches_every_place(n: int, jump: int, p: int)
    requires
        2 <= n,
        1 <= jump,
        1 <= p <= n,
    ensures
        ({
            let s = stride(n, jump);
            let k = last_anchor(n, s);
            ||| (p - 1) % s == 0
            ||| p == n
            ||| ({
                let lo = p - (p - 1) % s;
                1 <= lo <= n - s && (lo - 1) % s == 0 && lo < p < lo + s
            })
            ||| k < p < n
        }),
{
    let s = stride(n, jump);
    let k = last_anchor(n, s);
    let r = (p - 1) % s;
    let q = (p - 1) / s;
    vstd::arithmetic::div_mod::lemma_fundamental_div_mod(p - 1, s);
    assert(0 <= r < s) by (nonlinear_arith)
        requires
            r == (p - 1) % s,
            s >= 1,
    ;
    if r != 0 && p != n {
        let lo = p - r;
        assert(q * s == s * q) by (nonlinear_arith);
        assert(0 <= q) by (nonlinear_arith)
            requires
                q == (p - 1) / s,
                p - 1 >= 0,
                s >= 1,
        ;
        assert(0 <= s * q) by (nonlinear_arith)
            requires
                0 <= q,
                1 <= s,
        ;
        vstd::arithmetic::div_mod::lemma_fundamental_div_mod_converse(lo - 1, s, q, 0);
        if lo + s <= n {
            assert(1 <= lo <= n - s && (lo - 1) % s == 0 && lo < p < lo + s);
        } else {
            lemma_mod_offset(lo - 1, n - lo, s);
            assert(k == lo);
        }
    }
}

/// Cycle-wise smoothing accounts for every place of the padded sequence:
/// the place `q` belongs to the position `q % np + 1` of the cycle and is
/// the value `q / np` of the extended subseries of that position.
pub proof fn law_cycles_reach_every_place(n: int, np: int, q: int)
    requires
        1 <= np <= n,
        0 <= q < n + 2 * np,
    ensures
        ({
            let j = q % np + 1;
            let m = q / np;
            1 <= j <= np && 0 <= m < cycle_len(n, np, j) + 2 && q == m * np + j - 1
        }),
{
    let j = q % np + 1;
    let m = q / np;
    vstd::arithmetic::div_mod::lemma_fundamental_div_mod(q, np);
    assert(0 <= q % np < np && 0 <= m) by (nonlinear_arith)
        requires
            m == q / np,
            0 <= q,
            1 <= np,
    ;
    assert(m * np == np * m) by (nonlinear_arith);
    let c = (n - j) / np;
    vstd::arithmetic::div_mod::lemma_fundamental_div_mod(n - j, np);
    assert(0 <= (n - j) % np < np) by (nonlinear_arith)
        requires
            0 <= n - j,
            1 <= np,
    ;
    assert(m < c + 3) by (nonlinear_arith)
        requires
            np * m + j - 1 < n + 2 * np,
            n - j == np * c + (n - j) % np,
            (n - j) % np < np,
            1 <= np,
    ;
    assert(1 <= j <= np && 0 <= m < cycle_len(n, np, j) + 2 && q == m * np + j - 1);
}

/// A window that the caller names and that is below 3 or even is refused
/// with a parameter error, whichever of the three it is, for every series
/// that holds two cycles of the period.
pub proof fn law_named_window_must_be_odd_and_at_least_three(
    params: StlParams,
    n: int,
    period: int,
    w: usize,
)
    requires
        2 * period <= n,
        w < 3 || w % 2 == 0,
        params.ns == Some(w) || params.nt == Some(w) || params.nl == Some(w),
    ensures
        params.fault(n, period) is Some,
        !params.fault(n, period).unwrap().is_series(),
{
}

/// A window that the caller does not name is odd and at least 3, and is
/// never what is refused.
pub proof fn law_default_windows_are_usable(params: StlParams, period: int)
    requires
        2 <= period,
    ensures
        params.ns is None ==> params.seasonal_window(period) >= 3 && params.seasonal_window(period)
            % 2 == 1,
        params.nt is None ==> params.trend_window(period) >= 3 && params.trend_window(period) % 2
            == 1,
        params.nl is None ==> params.low_pass_window(period) >= 3 && params.low_pass_window(period)
            % 2 == 1,
        StlParams::initial().window_fault() is None,
{
}

/// Whether the additions and subtractions of `T` are exact as `val` measures
/// the numbers: the measure of a sum is the sum of the measures, and that of
/// a difference their difference. Arithmetic that rounds has no such
/// measure.
pub open spec fn is_exact_under<T: Scalar>(val: spec_fn(T) -> int) -> bool {
    &&& forall|a: T, b: T, r: T| #[trigger] is_sum(a, b, r) ==> val(r) == val(a) + val(b)
    &&& forall|a: T, b: T, r: T| #[trigger] is_difference(a, b, r) ==> val(r) == val(a) - val(b)
}

/// The measures of the values at place `t` of the first `upto` of `rows`,
/// added up.
pub open spec fn total_at<T: Scalar>(
    rows: Seq<Seq<T>>,
    t: int,
    val: spec_fn(T) -> int,
    upto: int,
) -> int
    decreases upto,
{
    if upto <= 0 {
        0
    } else {
        total_at(rows, t, val, upto - 1) + val(rows[upto - 1][t])
    }
}

/// In exact arithmetic the first `i` steps of a round take out of the
/// running series what they find, less what they added back.
proof fn lemma_sweep_conserves<T: Scalar>(
    val: spec_fn(T) -> int,
    periods: Seq<usize>,
    swin: Option<Seq<usize>>,
    stl_params: StlParams,
    order: Seq<usize>,
    prev: Option<Seq<Seq<T>>>,
    begin: Seq<T>,
    count: int,
    restored: Seq<Seq<T>>,
    seasons: Seq<Seq<T>>,
    trends: Seq<Seq<T>>,
    afters: Seq<Seq<T>>,
    t: int,
    i: int,
)
    requires
        is_exact_under(val),
        is_sweep_by(
            periods,
            swin,
            stl_params,
            order,
            prev,
            begin,
            count,
            restored,
            seasons,
            trends,
            afters,
        ),
        1 <= i <= count,
        0 <= t < begin.len(),
    ensures
        afters[i - 1].len() == begin.len(),
        val(afters[i - 1][t]) + total_at(seasons, t, val, i) == val(begin[t]) + match prev {
            Some(p) => total_at(p, t, val, i),
            None => 0,
        },
    decreases i,
{
    if i > 1 {
        lemma_sweep_conserves(
            val,
            periods,
            swin,
            stl_params,
            order,
            prev,
            begin,
            count,
            restored,
            seasons,
            trends,
            afters,
            t,
            i - 1,
        );
    }
    let before = if i == 1 {
        begin
    } else {
        afters[i - 2]
    };
    assert(is_step(
        params_at(stl_params, swin, order[i - 1] as int, i - 1),
        periods[order[i - 1] as int],
        match prev {
            Some(p) => Some(p[i - 1]),
            None => None,
        },
        before,
        #[trigger] restored[i - 1],
        seasons[i - 1],
        trends[i - 1],
        afters[i - 1],
    ));
    assert(before.len() == begin.len());
    assert(is_difference(restored[i - 1][t], seasons[i - 1][t], afters[i - 1][t]));
    assert(val(afters[i - 1][t]) == val(restored[i - 1][t]) - val(seasons[i - 1][t]));
    assert(total_at(seasons, t, val, 0) == 0);
    assert(total_at(seasons, t, val, i) == total_at(seasons, t, val, i - 1) + val(
        seasons[i - 1][t],
    ));
    match prev {
        Some(p) => {
            assert(is_sum(before[t], p[i - 1][t], restored[i - 1][t]));
            assert(val(restored[i - 1][t]) == val(before[t]) + val(p[i - 1][t]));
            assert(total_at(p, t, val, 0) == 0);
            assert(total_at(p, t, val, i) == total_at(p, t, val, i - 1) + val(p[i - 1][t]));
        },
        None => {
            assert(restored[i - 1] == before);
        },
    }
}

/// In exact arithmetic every round leaves the running series and the
/// seasonal components adding up to the series that backfitting took up.
proof fn lemma_rounds_conserve<T: Scalar>(
    val: spec_fn(T) -> int,
    periods: Seq<usize>,
    swin: Option<Seq<usize>>,
    stl_params: StlParams,
    order: Seq<usize>,
    start: Seq<T>,
    count: int,
    begins: Seq<Seq<T>>,
    prevs: Seq<Seq<Seq<T>>>,
    seasons: Seq<Seq<Seq<T>>>,
    trends: Seq<Seq<T>>,
    ends: Seq<Seq<T>>,
    t: int,
    j: int,
)
    requires
        is_exact_under(val),
        is_backfit_by(
            periods,
            swin,
            stl_params,
            order,
            start,
            count,
            begins,
            prevs,
            seasons,
            trends,
            ends,
        ),
        0 <= j < count,
        0 <= t < start.len(),
    ensures
        ends[j].len() == start.len(),
        val(ends[j][t]) + total_at(seasons[j], t, val, periods.len() as int) == val(start[t]),
    decreases j,
{
    if j > 0 {
        lemma_rounds_conserve(
            val,
            periods,
            swin,
            stl_params,
            order,
            start,
            count,
            begins,
            prevs,
            seasons,
            trends,
            ends,
            t,
            j - 1,
        );
        assert(begins[j] == ends[j - 1]);
        assert(prevs[j] == seasons[j - 1]);
    }
    let prev = if j == 0 {
        None
    } else {
        Some(prevs[j])
    };
    assert(is_sweep(
        periods,
        swin,
        stl_params,
        order,
        prev,
        begins[j],
        seasons[j],
        trends[j],
        #[trigger] ends[j],
    ));
    let (restored, steps, afters) = choose|
        restored: Seq<Seq<T>>,
        steps: Seq<Seq<T>>,
        afters: Seq<Seq<T>>,
    |
        {
            &&& #[trigger] is_sweep_by(
                periods,
                swin,
                stl_params,
                order,
                prev,
                begins[j],
                periods.len() as int,
                restored,
                seasons[j],
                steps,
                afters,
            )
            &&& periods.len() > 0
            &&& trends[j] == steps[periods.len() - 1]
            &&& ends[j] == afters[periods.len() - 1]
        };
    lemma_sweep_conserves(
        val,
        periods,
        swin,
        stl_params,
        order,
        prev,
        begins[j],
        periods.len() as int,
        restored,
        seasons[j],
        steps,
        afters,
        t,
        periods.len() as int,
    );
}

/// In exact arithmetic the components of every multi-period decomposition
/// add up to the series as backfitting took it up, transformed where a
/// transform is asked for: at every place the seasonal components of all
/// periods, the trend and the remainder have the measure of the series.
/// The seasonal components are counted in the order in which the periods
/// are handled; `seasons[count - 1]` lists them so.
pub proof fn law_multi_period_components_add_up<T: Scalar>(
    val: spec_fn(T) -> int,
    x: Seq<T>,
    periods: Seq<usize>,
    count: int,
    lambda: Option<T>,
    swin: Option<Seq<usize>>,
    stl_params: StlParams,
    trend: Seq<T>,
    remainder: Seq<T>,
    seasonal: Seq<Seq<T>>,
    order: Seq<usize>,
    start: Seq<T>,
    begins: Seq<Seq<T>>,
    prevs: Seq<Seq<Seq<T>>>,
    seasons: Seq<Seq<Seq<T>>>,
    trends: Seq<Seq<T>>,
    ends: Seq<Seq<T>>,
    t: int,
)
    requires
        is_exact_under(val),
        is_backfit_with(
            x,
            periods,
            count,
            lambda,
            swin,
            stl_params,
            trend,
            remainder,
            seasonal,
            order,
            start,
            begins,
            prevs,
            seasons,
            trends,
            ends,
        ),
        0 <= t < x.len(),
    ensures
        is_transformed(x, lambda, start),
        forall|i: int|
            0 <= i < periods.len() ==> seasonal[order[i] as int] == #[trigger] seasons[count
                - 1][i],
        total_at(seasons[count - 1], t, val, periods.len() as int) + val(trend[t]) + val(
            remainder[t],
        ) == val(start[t]),
{
    assert(start.len() == x.len()) by {
        match lambda {
            Some(lam) => {
                let log = choose|log: bool|
                    is_zero_test(lam, log) && #[trigger] is_box_cox(x, lam, log, start);
            },
            None => {},
        }
    }
    lemma_rounds_conserve(
        val,
        periods,
        swin,
        stl_params,
        order,
        start,
        count,
        begins,
        prevs,
        seasons,
        trends,
        ends,
        t,
        count - 1,
    );
    assert(is_difference(ends[count - 1][t], trend[t], remainder[t]));
}

} // verus!
