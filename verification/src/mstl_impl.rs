//! Backfitting: the single-period decomposition applied to each period in
//! turn, round after round.

use crate::error::Error;
use crate::error::Fault;
use crate::scalar::copy_of;
use crate::scalar::is_count;
use crate::scalar::is_difference;
use crate::scalar::is_le;
use crate::scalar::is_log;
use crate::scalar::is_power;
use crate::scalar::is_quotient;
use crate::scalar::is_sum;
use crate::scalar::Scalar;
use crate::stl_params::is_components;
use crate::stl_params::StlParams;
use vstd::prelude::*;

verus! {

/// Whether the period at index `a` is handled before the one at index `b`:
/// the shorter period first, and of two equal ones the one named first.
pub open spec fn precedes(periods: Seq<usize>, a: int, b: int) -> bool {
    periods[a] < periods[b] || (periods[a] == periods[b] && a < b)
}

/// Whether `order` lists the indices of `periods`, each once, in the order in
/// which the periods are handled.
pub open spec fn ascending_order(periods: Seq<usize>, order: Seq<usize>) -> bool {
    &&& order.len() == periods.len()
    &&& forall|k: int| 0 <= k < order.len() ==> 0 <= #[trigger] order[k] < periods.len()
    &&& forall|a: int, b: int|
        #![trigger order[a], order[b]]
        0 <= a < b < order.len() ==> precedes(periods, order[a] as int, order[b] as int)
    &&& forall|p: usize| p < periods.len() ==> #[trigger] order.contains(p)
}

/// The rounds of backfitting in use: one where there is a single period,
/// else as many as asked for.
pub open spec fn rounds(iterate: usize, count: int) -> usize {
    if count == 1 {
        1
    } else {
        iterate
    }
}

/// The rounds in use: see [`rounds`].
pub fn rounds_for(iterate: usize, count: usize) -> (r: usize)
    ensures
        r == rounds(iterate, count as int),
{
    if count == 1 {
        1
    } else {
        iterate
    }
}

/// The parameters in use for the period at index `idx`, handled as the
/// `rank`-th (counted from 0): the seasonal window is the one listed for
/// that period where windows are listed, else the one that the parameters
/// name, else `7 + 4 * (rank + 1)`.
pub open spec fn params_at(
    stl_params: StlParams,
    swin: Option<Seq<usize>>,
    idx: int,
    rank: int,
) -> StlParams {
    match swin {
        Some(sw) => StlParams { ns: Some(sw[idx]), ..stl_params },
        None => if stl_params.ns is Some {
            stl_params
        } else {
            StlParams { ns: Some((7 + 4 * (rank + 1)) as usize), ..stl_params }
        },
    }
}

/// Whether a series of `n` observations holds two cycles of every period,
/// each period being at least 2.
pub open spec fn periods_fit(n: int, periods: Seq<usize>) -> bool {
    forall|i: int| 0 <= i < periods.len() ==> 2 <= #[trigger] periods[i] && 2 * periods[i] <= n
}

/// The indices of `periods` in the order in which the periods are handled:
/// ascending by period, equal periods in the order given.
pub fn rank_order(periods: &[usize]) -> (order: Vec<usize>)
    ensures
        ascending_order(periods@, order@),
{
    let m: usize = periods.len();
    let mut order: Vec<usize> = Vec::with_capacity(m);
    let mut i: usize = 0;
    while i < m
        invariant
            i <= m == periods@.len(),
            order@.len() == i,
            forall|k: int| 0 <= k < i ==> 0 <= #[trigger] order@[k] < i,
            forall|a: int, b: int|
                #![trigger order@[a], order@[b]]
                0 <= a < b < i ==> precedes(periods@, order@[a] as int, order@[b] as int),
            forall|p: usize| p < i ==> #[trigger] order@.contains(p),
        decreases m - i,
    {
        let mut pos: usize = 0;
        while pos < i && periods[order[pos]] <= periods[i]
            invariant
                pos <= i < m == periods@.len(),
                order@.len() == i,
                forall|k: int| 0 <= k < i ==> 0 <= #[trigger] order@[k] < i,
                forall|k: int|
                    0 <= k < pos ==> periods@[#[trigger] order@[k] as int] <= periods@[i as int],
            decreases i - pos,
        {
            pos += 1;
        }
        let ghost before = order@;
        order.insert(pos, i);
        proof {
            let after = order@;
            assert(after == before.insert(pos as int, i));
            assert forall|k: int| 0 <= k < i + 1 implies 0 <= #[trigger] after[k] < i + 1 by {
                if k < pos {
                    assert(after[k] == before[k]);
                } else if k > pos {
                    assert(after[k] == before[k - 1]);
                }
            }
            assert forall|a: int, b: int|
                #![trigger after[a], after[b]]
                0 <= a < b < i + 1 implies precedes(periods@, after[a] as int, after[b] as int) by {
                if b < pos {
                    assert(after[a] == before[a] && after[b] == before[b]);
                } else if b == pos {
                    assert(after[a] == before[a]);
                    assert(before[a] < i);
                } else if a < pos {
                    assert(after[a] == before[a] && after[b] == before[b - 1]);
                    if a < b - 1 {
                        assert(precedes(periods@, before[a] as int, before[b - 1] as int));
                    }
                } else if a == pos {
                    assert(after[b] == before[b - 1]);
                    assert(periods@[before[pos as int] as int] > periods@[i as int]);
                    if pos < b - 1 {
                        assert(precedes(periods@, before[pos as int] as int, before[b - 1] as int));
                    }
                } else {
                    assert(after[a] == before[a - 1] && after[b] == before[b - 1]);
                    assert(precedes(periods@, before[a - 1] as int, before[b - 1] as int));
                }
            }
            assert forall|p: usize| p < i + 1 implies #[trigger] after.contains(p) by {
                if p == i {
                    assert(after[pos as int] == p);
                } else {
                    assert(before.contains(p));
                    let k0 = choose|k: int| 0 <= k < before.len() && before[k] == p;
                    if k0 < pos {
                        assert(after[k0] == p);
                    } else {
                        assert(after[k0 + 1] == before[k0]);
                    }
                }
            }
        }
        i += 1;
    }
    order
}

/// The parameters for the period at index `idx` as far as they can be at
/// fault: with the seasonal window listed for that period, where windows
/// are listed. (The window `7 + 4 * (rank + 1)` is never at fault.)
pub open spec fn step_params(
    stl_params: StlParams,
    swin: Option<Seq<usize>>,
    idx: int,
) -> StlParams {
    match swin {
        Some(sw) => StlParams { ns: Some(sw[idx]), ..stl_params },
        None => stl_params,
    }
}

/// The first constraint that the parameters for the period at index `idx`
/// break.
pub open spec fn step_fault(
    stl_params: StlParams,
    swin: Option<Seq<usize>>,
    idx: int,
) -> Option<Fault> {
    step_params(stl_params, swin, idx).window_fault()
}

/// Whether none of the first `count` periods has parameters at fault.
pub open spec fn no_step_fault(
    stl_params: StlParams,
    swin: Option<Seq<usize>>,
    count: int,
) -> bool {
    forall|q: int| 0 <= q < count ==> #[trigger] step_fault(stl_params, swin, q) is None
}

/// Whether the period at index `p` is the first, in the order in which the
/// periods are handled, whose parameters are at fault.
pub open spec fn is_first_faulty(
    stl_params: StlParams,
    swin: Option<Seq<usize>>,
    periods: Seq<usize>,
    p: int,
) -> bool {
    &&& 0 <= p < periods.len()
    &&& step_fault(stl_params, swin, p) is Some
    &&& forall|q: int|
        0 <= q < periods.len() && q != p && #[trigger] step_fault(stl_params, swin, q) is Some
            ==> precedes(periods, p, q)
}

/// The fault of the single-period decompositions: that of the first period,
/// in the order in which the periods are handled, whose parameters are at
/// fault.
pub open spec fn steps_fault(
    stl_params: StlParams,
    swin: Option<Seq<usize>>,
    periods: Seq<usize>,
) -> Option<Fault> {
    if exists|p: int| #[trigger] is_first_faulty(stl_params, swin, periods, p) {
        step_fault(
            stl_params,
            swin,
            choose|p: int| #[trigger] is_first_faulty(stl_params, swin, periods, p),
        )
    } else {
        None
    }
}

/// What backfitting refuses once the periods fit the series: that there is
/// no period, or the fault of the single-period decompositions.
pub open spec fn backfit_fault(
    stl_params: StlParams,
    swin: Option<Seq<usize>>,
    periods: Seq<usize>,
) -> Option<Fault> {
    if periods.len() == 0 {
        Some(Fault::NoPeriods)
    } else {
        steps_fault(stl_params, swin, periods)
    }
}

/// The window `7 + 4 * (rank + 1)` is never at fault: the parameters in use
/// for a period break what [`step_fault`] says.
pub proof fn lemma_step_fault(stl_params: StlParams, swin: Option<Seq<usize>>, idx: int, rank: int)
    requires
        0 <= rank,
        7 + 4 * (rank + 1) <= usize::MAX,
    ensures
        params_at(stl_params, swin, idx, rank).window_fault() == step_fault(stl_params, swin, idx),
{
}

/// Only one period is the first at fault.
pub proof fn lemma_first_faulty_is_one(
    stl_params: StlParams,
    swin: Option<Seq<usize>>,
    periods: Seq<usize>,
    p: int,
)
    requires
        is_first_faulty(stl_params, swin, periods, p),
    ensures
        steps_fault(stl_params, swin, periods) == step_fault(stl_params, swin, p),
{
    let c = choose|c: int| #[trigger] is_first_faulty(stl_params, swin, periods, c);
    if c != p {
        assert(precedes(periods, p, c));
        assert(precedes(periods, c, p));
    }
}

/// Where no period has parameters at fault, there is no fault.
pub proof fn lemma_no_step_fault(
    stl_params: StlParams,
    swin: Option<Seq<usize>>,
    periods: Seq<usize>,
)
    requires
        no_step_fault(stl_params, swin, periods.len() as int),
    ensures
        steps_fault(stl_params, swin, periods) is None,
{
    assert forall|p: int| !#[trigger] is_first_faulty(stl_params, swin, periods, p) by {
        if 0 <= p < periods.len() {
            assert(step_fault(stl_params, swin, p) is None);
        }
    }
}

/// The parameters in use for the period at index `idx`, handled as the
/// `rank`-th: see [`params_at`].
pub fn params_for(
    stl_params: &StlParams,
    swin: &Option<Vec<usize>>,
    idx: usize,
    rank: usize,
) -> (params: StlParams)
    requires
        7 + 4 * (rank + 1) <= usize::MAX,
        swin matches Some(sw) ==> idx < sw@.len(),
    ensures
        params == params_at(
            *stl_params,
            match swin {
                Some(sw) => Some(sw@),
                None => None,
            },
            idx as int,
            rank as int,
        ),
{
    let mut params: StlParams = *stl_params;
    match swin {
        Some(sw) => {
            params.ns = Some(sw[idx]);
        },
        None => {
            if stl_params.ns.is_none() {
                params.ns = Some(7 + 4 * (rank + 1));
            }
        },
    }
    params
}

/// Checks the parameters of each single-period decomposition, in the order
/// in which the periods are handled, before anything is computed.
pub fn check_steps(
    n: usize,
    periods: &[usize],
    order: &Vec<usize>,
    swin: &Option<Vec<usize>>,
    stl_params: &StlParams,
) -> (r: Result<(), Error>)
    requires
        n <= usize::MAX / 2,
        7 + 4 * periods@.len() <= usize::MAX,
        periods_fit(n as int, periods@),
        swin matches Some(sw) ==> sw@.len() == periods@.len(),
        ascending_order(periods@, order@),
    ensures
        ({
            let windows = match swin {
                Some(sw) => Some(sw@),
                None => None,
            };
            match r {
                Ok(()) => {
                    &&& no_step_fault(*stl_params, windows, periods@.len() as int)
                    &&& steps_fault(*stl_params, windows, periods@) is None
                },
                Err(e) => {
                    &&& steps_fault(*stl_params, windows, periods@) is Some
                    &&& steps_fault(*stl_params, windows, periods@).unwrap().reported_by(e)
                },
            }
        }),
{
    let m: usize = periods.len();
    let ghost windows: Option<Seq<usize>> = match swin {
        Some(sw) => Some(sw@),
        None => None,
    };
    let mut i: usize = 0;
    while i < m
        invariant
            i <= m == periods@.len(),
            n <= usize::MAX / 2,
            7 + 4 * m <= usize::MAX,
            periods_fit(n as int, periods@),
            swin matches Some(sw) ==> sw@.len() == m,
            windows == match swin {
                Some(sw) => Some(sw@),
                None => None,
            },
            ascending_order(periods@, order@),
            forall|a: int|
                0 <= a < i ==> step_fault(
                    *stl_params,
                    windows,
                    #[trigger] order@[a] as int,
                ) is None,
        decreases m - i,
    {
        let idx: usize = order[i];
        let params: StlParams = params_for(stl_params, swin, idx, i);
        proof {
            lemma_step_fault(*stl_params, windows, idx as int, i as int);
            params.lemma_fault_of_fitting_period(n as int, periods@[idx as int] as int);
        }
        match params.resolve(n, periods[idx]) {
            Ok(_) => {},
            Err(e) => {
                proof {
                    assert forall|q: int|
                        0 <= q < m && q != idx && #[trigger] step_fault(
                            *stl_params,
                            windows,
                            q,
                        ) is Some implies precedes(periods@, idx as int, q) by {
                        assert(order@.contains(q as usize));
                        let a = choose|a: int| 0 <= a < order@.len() && order@[a] == q as usize;
                        if a < i {
                            assert(step_fault(*stl_params, windows, order@[a] as int) is None);
                        }
                        assert(precedes(periods@, order@[i as int] as int, order@[a] as int));
                    }
                    assert(is_first_faulty(*stl_params, windows, periods@, idx as int));
                    lemma_first_faulty_is_one(*stl_params, windows, periods@, idx as int);
                }
                return Err(e);
            },
        }
        i += 1;
    }
    proof {
        assert forall|q: int| 0 <= q < m implies #[trigger] step_fault(
            *stl_params,
            windows,
            q,
        ) is None by {
            assert(order@.contains(q as usize));
            let a = choose|a: int| 0 <= a < order@.len() && order@[a] == q as usize;
            assert(step_fault(*stl_params, windows, order@[a] as int) is None);
        }
        lemma_no_step_fault(*stl_params, windows, periods@);
    }
    Ok(())
}

/// Whether `r` is the power transform of `y` for `lambda`:
/// `(y^lambda - 1) / lambda`.
pub open spec fn is_power_transform<T: Scalar>(y: T, lambda: T, r: T) -> bool {
    exists|one: T, p: T, d: T|
        is_count(1, one) && is_power(y, lambda, p) && is_difference(p, one, d) && is_quotient(
            d,
            lambda,
            r,
        )
}

/// Whether `r` holds the Box-Cox transform of each value of `y`: the natural
/// logarithm where `log` holds, else the power transform for `lambda`.
pub open spec fn is_box_cox<T: Scalar>(y: Seq<T>, lambda: T, log: bool, r: Seq<T>) -> bool {
    &&& r.len() == y.len()
    &&& forall|i: int|
        0 <= i < y.len() ==> if log {
            is_log(y[i], #[trigger] r[i])
        } else {
            is_power_transform(y[i], lambda, #[trigger] r[i])
        }
}

/// The Box-Cox transform of each value of `y`: the natural logarithm where
/// `log` holds, else `(y^lambda - 1) / lambda`.
pub fn box_cox_with<T: Scalar>(y: &[T], lambda: T, log: bool) -> (r: Vec<T>)
    ensures
        is_box_cox(y@, lambda, log, r@),
{
    let n: usize = y.len();
    let one: T = T::from_count(1);
    let mut r: Vec<T> = Vec::with_capacity(n);
    let mut i: usize = 0;
    while i < n
        invariant
            i <= n == y@.len(),
            r@.len() == i,
            is_count(1, one),
            forall|q: int|
                0 <= q < i ==> if log {
                    is_log(y@[q], #[trigger] r@[q])
                } else {
                    is_power_transform(y@[q], lambda, #[trigger] r@[q])
                },
        decreases n - i,
    {
        if log {
            r.push(y[i].ln());
        } else {
            let p: T = y[i].powf(lambda);
            let d: T = p.minus(one);
            let t: T = d.over(lambda);
            assert(is_count(1, one) && is_power(y@[i as int], lambda, p) && is_difference(p, one, d)
                && is_quotient(d, lambda, t));
            r.push(t);
        }
        i += 1;
    }
    r
}

/// Whether `log` says that `lambda` compares equal to zero: that it is at
/// most zero and zero at most it.
pub open spec fn is_zero_test<T: Scalar>(lambda: T, log: bool) -> bool {
    exists|zero: T, low: bool|
        is_count(0, zero) && is_le(lambda, zero, low) && if low {
            is_le(zero, lambda, log)
        } else {
            !log
        }
}

/// Whether `r` holds the Box-Cox transform of each value of `y` for the
/// parameter `lambda`: the natural logarithm where `lambda` compares equal
/// to zero, the power transform elsewhere.
pub open spec fn is_transform<T: Scalar>(y: Seq<T>, lambda: T, r: Seq<T>) -> bool {
    exists|log: bool| is_zero_test(lambda, log) && #[trigger] is_box_cox(y, lambda, log, r)
}

/// The Box-Cox transform of each value of `y` for the parameter `lambda`:
/// the natural logarithm where `lambda` compares equal to zero, the power
/// transform elsewhere.
pub fn box_cox<T: Scalar>(y: &[T], lambda: T) -> (r: Vec<T>)
    ensures
        is_transform(y@, lambda, r@),
{
    let zero: T = T::from_count(0);
    let low: bool = lambda.le(zero);
    let log: bool = if low {
        zero.le(lambda)
    } else {
        false
    };
    assert(is_count(0, zero) && is_le(lambda, zero, low));
    let r: Vec<T> = box_cox_with(y, lambda, log);
    assert(is_zero_test(lambda, log) && is_box_cox(y@, lambda, log, r@));
    r
}

/// Adds `s` to `d`, place by place.
fn add_back<T: Scalar>(d: &mut Vec<T>, s: &Vec<T>)
    ensures
        final(d)@.len() == old(d)@.len(),
        s@.len() == old(d)@.len() ==> forall|t: int|
            0 <= t < s@.len() ==> is_sum(old(d)@[t], s@[t], #[trigger] final(d)@[t]),
{
    let n: usize = if d.len() < s.len() { d.len() } else { s.len() };
    let mut t: usize = 0;
    while t < n
        invariant
            t <= n <= d@.len(),
            n <= s@.len(),
            d@.len() == old(d)@.len(),
            forall|q: int| t <= q < d@.len() ==> d@[q] == old(d)@[q],
            forall|q: int| 0 <= q < t ==> is_sum(old(d)@[q], s@[q], #[trigger] d@[q]),
        decreases n - t,
    {
        d[t] = d[t].plus(s[t]);
        t += 1;
    }
}

/// Subtracts `s` from `d`, place by place.
fn take_out<T: Scalar>(d: &mut Vec<T>, s: &Vec<T>)
    ensures
        final(d)@.len() == old(d)@.len(),
        s@.len() == old(d)@.len() ==> forall|t: int|
            0 <= t < s@.len() ==> is_difference(old(d)@[t], s@[t], #[trigger] final(d)@[t]),
{
    let n: usize = if d.len() < s.len() { d.len() } else { s.len() };
    let mut t: usize = 0;
    while t < n
        invariant
            t <= n <= d@.len(),
            n <= s@.len(),
            d@.len() == old(d)@.len(),
            forall|q: int| t <= q < d@.len() ==> d@[q] == old(d)@[q],
            forall|q: int| 0 <= q < t ==> is_difference(old(d)@[q], s@[q], #[trigger] d@[q]),
        decreases n - t,
    {
        d[t] = d[t].minus(s[t]);
        t += 1;
    }
}

/// Whether one step of backfitting leads from the running series `before`
/// to `after`: `restored` is `before` with the seasonal component of the
/// round before added back, where there is one; `seasonal` and `trend` are
/// the components of `restored` under these parameters and this period; and
/// `after` is `restored` less `seasonal`.
pub open spec fn is_step<T: Scalar>(
    params: StlParams,
    period: usize,
    restore: Option<Seq<T>>,
    before: Seq<T>,
    restored: Seq<T>,
    seasonal: Seq<T>,
    trend: Seq<T>,
    after: Seq<T>,
) -> bool {
    &&& restored.len() == before.len()
    &&& after.len() == before.len()
    &&& match restore {
        Some(s) => forall|t: int|
            0 <= t < before.len() ==> is_sum(before[t], s[t], #[trigger] restored[t]),
        None => restored == before,
    }
    &&& exists|weights: Seq<T>| #[trigger]
        is_components(restored, params.resolved(period as int), seasonal, trend, weights)
    &&& forall|t: int|
        0 <= t < before.len() ==> is_difference(restored[t], seasonal[t], #[trigger] after[t])
}

/// Whether the witnesses show that the first `count` steps of one round
/// lead on from the running series `begin`: step `i` handles the period at
/// `order[i]`, adds back `prev[i]` where there was a round before, and
/// gives `seasons[i]`, `trends[i]` and the running series `afters[i]`.
pub open spec fn is_sweep_by<T: Scalar>(
    periods: Seq<usize>,
    swin: Option<Seq<usize>>,
    stl_params: StlParams,
    order: Seq<usize>,
    prev: Option<Seq<Seq<T>>>,
    begin: Seq<T>,
    count: int,
    restored: Seq<Seq<T>>,
    seasons: Seq<Seq<T>>,
    trends: Seq<Seq<T>>,
    afters: Seq<Seq<T>>,
) -> bool {
    &&& restored.len() == count
    &&& seasons.len() == count
    &&& trends.len() == count
    &&& afters.len() == count
    &&& forall|i: int|
        0 <= i < count ==> is_step(
            params_at(stl_params, swin, order[i] as int, i),
            periods[order[i] as int],
            match prev {
                Some(s) => Some(s[i]),
                None => None,
            },
            if i == 0 {
                begin
            } else {
                afters[i - 1]
            },
            #[trigger] restored[i],
            seasons[i],
            trends[i],
            afters[i],
        )
}

/// Whether one round of backfitting, a step for each period in ascending
/// order, leads from the running series `begin` to `end`, with `seasons`
/// the seasonal components by rank and `trend` the trend of the last step.
pub open spec fn is_sweep<T: Scalar>(
    periods: Seq<usize>,
    swin: Option<Seq<usize>>,
    stl_params: StlParams,
    order: Seq<usize>,
    prev: Option<Seq<Seq<T>>>,
    begin: Seq<T>,
    seasons: Seq<Seq<T>>,
    trend: Seq<T>,
    end: Seq<T>,
) -> bool {
    exists|restored: Seq<Seq<T>>, trends: Seq<Seq<T>>, afters: Seq<Seq<T>>|
        {
            &&& #[trigger] is_sweep_by(
                periods,
                swin,
                stl_params,
                order,
                prev,
                begin,
                periods.len() as int,
                restored,
                seasons,
                trends,
                afters,
            )
            &&& periods.len() > 0
            &&& trend == trends[periods.len() - 1]
            &&& end == afters[periods.len() - 1]
        }
}

/// Whether the witnesses show that `count` rounds of backfitting lead from
/// the series `start`: round `j` begins with the running series `begins[j]`
/// and the seasonal components `prevs[j]` of the round before, and gives
/// the seasonal components `seasons[j]`, the trend `trends[j]` and the
/// running series `ends[j]`.
pub open spec fn is_backfit_by<T: Scalar>(
    periods: Seq<usize>,
    swin: Option<Seq<usize>>,
    stl_params: StlParams,
    order: Seq<usize>,
    start: Seq<T>,
    count: int,
    begins: Seq<Seq<T>>,
    prevs: Seq<Seq<Seq<T>>>,
    seasons: Seq<Seq<Seq<T>>>,
    trends: Seq<Seq<T>>,
    ends: Seq<Seq<T>>,
) -> bool {
    &&& begins.len() == count
    &&& prevs.len() == count
    &&& seasons.len() == count
    &&& trends.len() == count
    &&& ends.len() == count
    &&& count > 0 ==> begins[0] == start
    &&& forall|j: int| 1 <= j < count ==> #[trigger] begins[j] == ends[j - 1]
    &&& forall|j: int| 1 <= j < count ==> #[trigger] prevs[j] == seasons[j - 1]
    &&& forall|j: int|
        0 <= j < count ==> is_sweep(
            periods,
            swin,
            stl_params,
            order,
            if j == 0 {
                None
            } else {
                Some(prevs[j])
            },
            begins[j],
            seasons[j],
            trends[j],
            #[trigger] ends[j],
        )
}

/// Whether `start` is the series `x` as backfitting takes it up: `x` itself,
/// or its Box-Cox transform where `lambda` is given.
pub open spec fn is_transformed<T: Scalar>(x: Seq<T>, lambda: Option<T>, start: Seq<T>) -> bool {
    match lambda {
        Some(lam) => is_transform(x, lam, start),
        None => start == x,
    }
}

/// Whether the witnesses show that `trend`, `remainder` and `seasonal` are
/// the components of `x` found by backfitting in `count` rounds: `order` is
/// the order in which the periods are handled, `start` the series as it is
/// taken up, and the others are the witnesses of [`is_backfit_by`].
pub open spec fn is_backfit_with<T: Scalar>(
    x: Seq<T>,
    periods: Seq<usize>,
    count: int,
    lambda: Option<T>,
    swin: Option<Seq<usize>>,
    stl_params: StlParams,
    trend: Seq<T>,
    remainder: Seq<T>,
    seasonal: Seq<Seq<T>>,
    order: Seq<usize>,
    start: Seq<T>,
    begins: Seq<Seq<T>>,
    prevs: Seq<Seq<Seq<T>>>,
    seasons: Seq<Seq<Seq<T>>>,
    trends: Seq<Seq<T>>,
    ends: Seq<Seq<T>>,
) -> bool {
    &&& ascending_order(periods, order)
    &&& is_transformed(x, lambda, start)
    &&& is_backfit_by(
        periods,
        swin,
        stl_params,
        order,
        start,
        count,
        begins,
        prevs,
        seasons,
        trends,
        ends,
    )
    &&& count >= 1
    &&& seasonal.len() == periods.len()
    &&& forall|i: int|
        0 <= i < periods.len() ==> seasonal[order[i] as int] == #[trigger] seasons[count - 1][i]
    &&& trend == trends[count - 1]
    &&& remainder.len() == x.len()
    &&& forall|t: int|
        0 <= t < x.len() ==> is_difference(ends[count - 1][t], trend[t], #[trigger] remainder[t])
}

/// Whether `trend`, `remainder` and `seasonal` are the components of `x`
/// for the periods `periods`, found by backfitting in `count` rounds.
///
/// The periods are handled in ascending order. The seasonal component of
/// each period is the one that the last round found for it, and stands
/// where the period stands in `periods`; the trend is that of the last step
/// of the last round, and the remainder is the running series after that
/// step, less the trend.
pub open spec fn is_backfit<T: Scalar>(
    x: Seq<T>,
    periods: Seq<usize>,
    count: int,
    lambda: Option<T>,
    swin: Option<Seq<usize>>,
    stl_params: StlParams,
    trend: Seq<T>,
    remainder: Seq<T>,
    seasonal: Seq<Seq<T>>,
) -> bool {
    exists|
        order: Seq<usize>,
        start: Seq<T>,
        begins: Seq<Seq<T>>,
        prevs: Seq<Seq<Seq<T>>>,
        seasons: Seq<Seq<Seq<T>>>,
        trends: Seq<Seq<T>>,
        ends: Seq<Seq<T>>,
    | #[trigger]
        is_backfit_with(
            x,
            periods,
            count,
            lambda,
            swin,
            stl_params,
            trend,
            remainder,
            seasonal,
            order,
            start,
            begins,
            prevs,
            seasons,
            trends,
            ends,
        )
}

/// The views of the vectors of `v`.
pub open spec fn views<T>(v: Seq<Vec<T>>) -> Seq<Seq<T>> {
    Seq::new(v.len(), |i: int| v[i]@)
}

/// What a step adds back: `last` where `restore` holds, else nothing.
pub open spec fn restoring<T>(restore: bool, last: Seq<T>) -> Option<Seq<T>> {
    if restore {
        Some(last)
    } else {
        None
    }
}

/// One step of backfitting on the running series `deseas`: adds `last` back
/// where `restore` holds, decomposes the result under `params` for
/// `period`, and takes the new seasonal component out again. Returns that
/// component and the trend. See [`is_step`].
fn backfit_step<T: Scalar>(
    deseas: &mut Vec<T>,
    restore: bool,
    last: &Vec<T>,
    params: &StlParams,
    period: usize,
) -> (r: Result<(Vec<T>, Vec<T>), Error>)
    requires
        params.jumps_positive(),
        old(deseas)@.len() <= usize::MAX / 2,
        2 <= period,
        2 * period <= old(deseas)@.len(),
        restore ==> last@.len() == old(deseas)@.len(),
    ensures
        final(deseas)@.len() == old(deseas)@.len(),
        match r {
            Ok((seasonal, trend)) => {
                &&& params.window_fault() is None
                &&& seasonal@.len() == old(deseas)@.len()
                &&& trend@.len() == old(deseas)@.len()
                &&& exists|restored: Seq<T>| #[trigger]
                    is_step(
                        *params,
                        period,
                        restoring(restore, last@),
                        old(deseas)@,
                        restored,
                        seasonal@,
                        trend@,
                        final(deseas)@,
                    )
            },
            Err(e) => {
                &&& params.window_fault() is Some
                &&& params.window_fault().unwrap().reported_by(e)
            },
        },
{
    if restore {
        add_back(deseas, last);
    }
    let ghost restored = deseas@;
    proof {
        params.lemma_fault_of_fitting_period(deseas@.len() as int, period as int);
    }
    let fit = match params.fit(deseas.as_slice(), period) {
        Ok(f) => f,
        Err(e) => {
            return Err(e);
        },
    };
    let ghost found = fit;
    let parts = fit.into_parts();
    let seasonal: Vec<T> = parts.0;
    let trend: Vec<T> = parts.1;
    take_out(deseas, &seasonal);
    proof {
        assert(is_components(
            restored,
            params.resolved(period as int),
            seasonal@,
            trend@,
            found.weights@,
        ));
        assert(is_step(
            *params,
            period,
            restoring(restore, last@),
            old(deseas)@,
            restored,
            seasonal@,
            trend@,
            deseas@,
        ));
        assert(params.window_fault() is None);
        assert(seasonal@.len() == old(deseas)@.len());
        assert(trend@.len() == old(deseas)@.len());
    }
    let r: Result<(Vec<T>, Vec<T>), Error> = Ok((seasonal, trend));
    assert(r matches Ok(pair) && pair.0@ == seasonal@ && pair.1@ == trend@);
    r
}

/// Decomposes `x` for several seasonal periods by backfitting.
///
/// The series is transformed where `lambda` is given. Then, in each round
/// and for each period in ascending order, the seasonal component found for
/// that period in the round before is added back to the running series, a
/// single-period decomposition of the running series gives the new one, and
/// that is taken out again. The result is the trend of the last
/// decomposition, the running series less that trend, and the seasonal
/// components in the order in which the periods were given. See
/// [`is_backfit`].
pub fn mstl<T: Scalar>(
    x: &[T],
    seas_ids: &[usize],
    iterate: usize,
    lambda: Option<T>,
    swin: &Option<Vec<usize>>,
    stl_params: &StlParams,
) -> (r: Result<(Vec<T>, Vec<T>, Vec<Vec<T>>), Error>)
    requires
        x@.len() <= usize::MAX / 2,
        7 + 4 * seas_ids@.len() <= usize::MAX,
        periods_fit(x@.len() as int, seas_ids@),
        swin matches Some(sw) ==> sw@.len() == seas_ids@.len(),
        backfit_fault(
            *stl_params,
            match swin {
                Some(sw) => Some(sw@),
                None => None,
            },
            seas_ids@,
        ) is None ==> stl_params.jumps_positive() && (iterate >= 1 || seas_ids@.len() <= 1),
    ensures
        match r {
            Ok((trend, remainder, seasonal)) => {
                &&& backfit_fault(
                    *stl_params,
                    match swin {
                        Some(sw) => Some(sw@),
                        None => None,
                    },
                    seas_ids@,
                ) is None
                &&& trend@.len() == x@.len()
                &&& remainder@.len() == x@.len()
                &&& seasonal@.len() == seas_ids@.len()
                &&& forall|p: int|
                    0 <= p < seasonal@.len() ==> (#[trigger] seasonal@[p])@.len() == x@.len()
                &&& is_backfit(
                    x@,
                    seas_ids@,
                    rounds(iterate, seas_ids@.len() as int) as int,
                    lambda,
                    match swin {
                        Some(sw) => Some(sw@),
                        None => None,
                    },
                    *stl_params,
                    trend@,
                    remainder@,
                    views(seasonal@),
                )
            },
            Err(e) => {
                &&& backfit_fault(
                    *stl_params,
                    match swin {
                        Some(sw) => Some(sw@),
                        None => None,
                    },
                    seas_ids@,
                ) is Some
                &&& backfit_fault(
                    *stl_params,
                    match swin {
                        Some(sw) => Some(sw@),
                        None => None,
                    },
                    seas_ids@,
                ).unwrap().reported_by(e)
            },
        },
{
    let k: usize = x.len();
    let m: usize = seas_ids.len();
    if m == 0 {
        return Err(Fault::NoPeriods.error());
    }
    let order: Vec<usize> = rank_order(seas_ids);
    let ghost windows: Option<Seq<usize>> = match swin {
        Some(sw) => Some(sw@),
        None => None,
    };
    match check_steps(k, seas_ids, &order, swin, stl_params) {
        Ok(()) => {},
        Err(e) => {
            return Err(e);
        },
    }
    let iterate: usize = rounds_for(iterate, m);

    let mut seasonality: Vec<Vec<T>> = Vec::with_capacity(m);
    let mut trend: Vec<T> = Vec::new();
    let mut deseas: Vec<T> = match lambda {
        Some(lam) => box_cox(x, lam),
        None => copy_of(x),
    };
    let ghost start = deseas@;
    let mut p: usize = 0;
    while p < m
        invariant
            p <= m,
            seasonality@.len() == p,
        decreases m - p,
    {
        seasonality.push(Vec::new());
        p += 1;
    }

    let ghost mut begins: Seq<Seq<T>> = Seq::empty();
    let ghost mut prevs: Seq<Seq<Seq<T>>> = Seq::empty();
    let ghost mut seasons: Seq<Seq<Seq<T>>> = Seq::empty();
    let ghost mut trends: Seq<Seq<T>> = Seq::empty();
    let ghost mut ends: Seq<Seq<T>> = Seq::empty();
    let mut j: usize = 0;
    while j < iterate
        invariant
            j <= iterate,
            1 <= iterate,
            1 <= m == seas_ids@.len(),
            k == x@.len(),
            k <= usize::MAX / 2,
            7 + 4 * m <= usize::MAX,
            stl_params.jumps_positive(),
            periods_fit(k as int, seas_ids@),
            swin matches Some(sw) ==> sw@.len() == m,
            windows == match swin {
                Some(sw) => Some(sw@),
                None => None,
            },
            ascending_order(seas_ids@, order@),
            seasonality@.len() == m,
            deseas@.len() == k,
            no_step_fault(*stl_params, windows, m as int),
            j > 0 ==> trend@.len() == k,
            j > 0 ==> forall|q: int| 0 <= q < m ==> (#[trigger] seasonality@[q])@.len() == k,
            is_backfit_by(
                seas_ids@,
                windows,
                *stl_params,
                order@,
                start,
                j as int,
                begins,
                prevs,
                seasons,
                trends,
                ends,
            ),
            j == 0 ==> deseas@ == start,
            j > 0 ==> deseas@ == ends[j - 1],
            j > 0 ==> trend@ == trends[j - 1],
            j > 0 ==> seasons[j - 1].len() == m,
            j > 0 ==> forall|i: int|
                0 <= i < m ==> seasonality@[order@[i] as int]@ == #[trigger] seasons[j - 1][i],
        decreases iterate - j,
    {
        let ghost begin = deseas@;
        let ghost prev: Option<Seq<Seq<T>>> = if j == 0 {
            None
        } else {
            Some(seasons[j - 1])
        };
        let ghost mut row_restored: Seq<Seq<T>> = Seq::empty();
        let ghost mut row_seasons: Seq<Seq<T>> = Seq::empty();
        let ghost mut row_trends: Seq<Seq<T>> = Seq::empty();
        let ghost mut row_afters: Seq<Seq<T>> = Seq::empty();
        let mut i: usize = 0;
        while i < m
            invariant
                i <= m,
                1 <= m == seas_ids@.len(),
                k <= usize::MAX / 2,
                7 + 4 * m <= usize::MAX,
                stl_params.jumps_positive(),
                periods_fit(k as int, seas_ids@),
                swin matches Some(sw) ==> sw@.len() == m,
                windows == match swin {
                    Some(sw) => Some(sw@),
                    None => None,
                },
                ascending_order(seas_ids@, order@),
                seasonality@.len() == m,
                deseas@.len() == k,
                begin.len() == k,
                no_step_fault(*stl_params, windows, m as int),
                j > 0 || i > 0 ==> trend@.len() == k,
                j > 0 ==> forall|q: int| 0 <= q < m ==> (#[trigger] seasonality@[q])@.len() == k,
                forall|a: int|
                    0 <= a < i ==> (#[trigger] seasonality@[order@[a] as int])@.len() == k,
                prev == if j == 0 {
                    None::<Seq<Seq<T>>>
                } else {
                    Some(seasons[j - 1])
                },
                j > 0 ==> seasons[j - 1].len() == m,
                is_sweep_by(
                    seas_ids@,
                    windows,
                    *stl_params,
                    order@,
                    prev,
                    begin,
                    i as int,
                    row_restored,
                    row_seasons,
                    row_trends,
                    row_afters,
                ),
                i == 0 ==> deseas@ == begin,
                i > 0 ==> deseas@ == row_afters[i - 1] && trend@ == row_trends[i - 1],
                forall|a: int|
                    0 <= a < i ==> seasonality@[order@[a] as int]@ == #[trigger] row_seasons[a],
                j > 0 ==> forall|a: int|
                    i <= a < m ==> seasonality@[order@[a] as int]@ == #[trigger] seasons[j - 1][a],
            decreases m - i,
        {
            let idx: usize = order[i];
            let ghost before = deseas@;
            let params: StlParams = params_for(stl_params, swin, idx, i);
            proof {
                lemma_step_fault(*stl_params, windows, idx as int, i as int);
                assert(step_fault(*stl_params, windows, idx as int) is None);
                assert(params.window_fault() is None);
                if j > 0 {
                    assert(seasonality@[order@[i as int] as int]@ == seasons[j - 1][i as int]);
                }
            }
            let again: bool = j > 0;
            let parts = match backfit_step(
                &mut deseas,
                again,
                &seasonality[idx],
                &params,
                seas_ids[idx],
            ) {
                Ok(f) => f,
                Err(e) => {
                    return Err(e);
                },
            };
            let ghost table = seasonality@;
            let ghost found_seasonal = parts.0@;
            let ghost found_trend = parts.1@;
            seasonality[idx] = parts.0;
            trend = parts.1;
            proof {
                let after = deseas@;
                let restored = choose|restored: Seq<T>| #[trigger]
                    is_step(
                        params,
                        seas_ids@[idx as int],
                        restoring(again, table[idx as int]@),
                        before,
                        restored,
                        found_seasonal,
                        found_trend,
                        after,
                    );
                assert(is_step(
                    params_at(*stl_params, windows, idx as int, i as int),
                    seas_ids@[idx as int],
                    match prev {
                        Some(s) => Some(s[i as int]),
                        None => None,
                    },
                    before,
                    restored,
                    found_seasonal,
                    found_trend,
                    after,
                ));
                let restored2 = row_restored.push(restored);
                let seasons2 = row_seasons.push(found_seasonal);
                let trends2 = row_trends.push(found_trend);
                let afters2 = row_afters.push(after);
                assert forall|a: int| 0 <= a < i + 1 implies is_step(
                    params_at(*stl_params, windows, order@[a] as int, a),
                    seas_ids@[order@[a] as int],
                    match prev {
                        Some(s) => Some(s[a]),
                        None => None,
                    },
                    if a == 0 {
                        begin
                    } else {
                        afters2[a - 1]
                    },
                    #[trigger] restored2[a],
                    seasons2[a],
                    trends2[a],
                    afters2[a],
                ) by {
                    if a < i {
                        assert(restored2[a] == row_restored[a]);
                        assert(seasons2[a] == row_seasons[a]);
                        assert(trends2[a] == row_trends[a]);
                        assert(afters2[a] == row_afters[a]);
                        if a > 0 {
                            assert(afters2[a - 1] == row_afters[a - 1]);
                        }
                    } else {
                        if a > 0 {
                            assert(afters2[a - 1] == row_afters[a - 1]);
                        }
                    }
                }
                assert forall|a: int| 0 <= a < i + 1 implies (#[trigger] seasonality@[order@[a] as int])@
                    .len() == k by {
                    if a < i {
                        assert(table[order@[a] as int]@.len() == k);
                    }
                }
                assert forall|a: int| 0 <= a < i + 1 implies seasonality@[order@[a] as int]@
                    == #[trigger] seasons2[a] by {
                    if a < i {
                        assert(precedes(seas_ids@, order@[a] as int, order@[i as int] as int));
                        assert(table[order@[a] as int]@ == row_seasons[a]);
                    }
                }
                if j > 0 {
                    assert forall|a: int| i + 1 <= a < m implies seasonality@[order@[a] as int]@
                        == #[trigger] seasons[j - 1][a] by {
                        assert(precedes(seas_ids@, order@[i as int] as int, order@[a] as int));
                        assert(table[order@[a] as int]@ == seasons[j - 1][a]);
                    }
                }
                row_restored = restored2;
                row_seasons = seasons2;
                row_trends = trends2;
                row_afters = afters2;
            }
            i += 1;
        }
        proof {
            assert forall|q: int| 0 <= q < m implies (#[trigger] seasonality@[q])@.len() == k by {
                assert(order@.contains(q as usize));
                let a = choose|a: int| 0 <= a < order@.len() && order@[a] == q as usize;
                assert(seasonality@[order@[a] as int]@.len() == k);
            }
            assert(is_sweep(
                seas_ids@,
                windows,
                *stl_params,
                order@,
                prev,
                begin,
                row_seasons,
                trend@,
                deseas@,
            ));
            let begins2 = begins.push(begin);
            let prevs2 = prevs.push(if j == 0 {
                Seq::empty()
            } else {
                seasons[j - 1]
            });
            let seasons2 = seasons.push(row_seasons);
            let trends2 = trends.push(trend@);
            let ends2 = ends.push(deseas@);
            assert forall|r: int| 0 <= r < j + 1 implies is_sweep(
                seas_ids@,
                windows,
                *stl_params,
                order@,
                if r == 0 {
                    None
                } else {
                    Some(prevs2[r])
                },
                begins2[r],
                seasons2[r],
                trends2[r],
                #[trigger] ends2[r],
            ) by {
                if r < j {
                    assert(begins2[r] == begins[r]);
                    assert(prevs2[r] == prevs[r]);
                    assert(seasons2[r] == seasons[r]);
                    assert(trends2[r] == trends[r]);
                    assert(ends2[r] == ends[r]);
                }
            }
            assert forall|r: int| 1 <= r < j + 1 implies #[trigger] begins2[r] == ends2[r - 1] by {
                if r < j {
                    assert(begins2[r] == begins[r]);
                }
                assert(ends2[r - 1] == ends[r - 1]);
            }
            assert forall|r: int| 1 <= r < j + 1 implies #[trigger] prevs2[r] == seasons2[r
                - 1] by {
                if r < j {
                    assert(prevs2[r] == prevs[r]);
                }
                assert(seasons2[r - 1] == seasons[r - 1]);
            }
            if j > 0 {
                assert(begins2[0] == begins[0]);
            }
            begins = begins2;
            prevs = prevs2;
            seasons = seasons2;
            trends = trends2;
            ends = ends2;
        }
        j += 1;
    }

    let mut remainder: Vec<T> = Vec::with_capacity(k);
    let mut i: usize = 0;
    while i < k
        invariant
            i <= k,
            deseas@.len() == k,
            trend@.len() == k,
            remainder@.len() == i,
            forall|t: int|
                0 <= t < i ==> is_difference(deseas@[t], trend@[t], #[trigger] remainder@[t]),
        decreases k - i,
    {
        remainder.push(deseas[i].minus(trend[i]));
        i += 1;
    }
    proof {
        assert forall|i: int| 0 <= i < m implies views(seasonality@)[order@[i] as int]
            == #[trigger] seasons[iterate - 1][i] by {
            assert(seasonality@[order@[i] as int]@ == seasons[iterate - 1][i]);
        }
        assert(is_transformed(x@, lambda, start));
        assert(is_backfit_with(
            x@,
            seas_ids@,
            iterate as int,
            lambda,
            windows,
            *stl_params,
            trend@,
            remainder@,
            views(seasonality@),
            order@,
            start,
            begins,
            prevs,
            seasons,
            trends,
            ends,
        ));
    }
    Ok((trend, remainder, seasonality))
}

} // verus!
