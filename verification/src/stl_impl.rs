//! The inner and the outer loop of the single-period decomposition.

use crate::cycle::is_cycle_smooth;
use crate::cycle::ss;
use crate::filter::fts;
use crate::filter::is_low_pass;
use crate::robust::is_robustness_weights;
use crate::robust::rwts;
use crate::scalar::all_count;
use crate::scalar::fill;
use crate::scalar::filled;
use crate::scalar::is_difference;
use crate::scalar::is_sum;
use crate::scalar::Scalar;
use crate::scalar::uniform;
use crate::smooth::ess;
use crate::smooth::is_smooth;
use crate::stl_params::StlConfig;
use vstd::prelude::*;

verus! {

/// What the buffers of one decomposition of `n` observations must hold: the
/// three results `n` places each, the five work areas a cycle more on either
/// side.
pub open spec fn buffers_fit<T>(
    cfg: StlConfig,
    n: int,
    rw: Seq<T>,
    season: Seq<T>,
    trend: Seq<T>,
    work1: Seq<T>,
    work2: Seq<T>,
    work3: Seq<T>,
    work4: Seq<T>,
    work5: Seq<T>,
) -> bool {
    &&& rw.len() == n
    &&& season.len() == n
    &&& trend.len() == n
    &&& work1.len() == n + 2 * cfg.np
    &&& work2.len() == n + 2 * cfg.np
    &&& work3.len() == n + 2 * cfg.np
    &&& work4.len() == n + 2 * cfg.np
    &&& work5.len() == n + 2 * cfg.np
}

/// Whether the witnesses show that one pass of the inner loop leads from
/// the trend `trend_in` to the seasonal component `season_out` and the trend
/// `trend_out`: `detrended` is the series less the trend, `cycles` its
/// cycle-wise smoothing, `low` the low-pass filter of that and `level` the
/// smoothing of `low`; the seasonal component is `cycles`, one cycle in,
/// less `level`; `deseason` is the series less the seasonal component, and
/// the trend its smoothing.
pub open spec fn is_pass_by<T: Scalar>(
    y: Seq<T>,
    cfg: StlConfig,
    userw: bool,
    rw: Seq<T>,
    trend_in: Seq<T>,
    season_out: Seq<T>,
    trend_out: Seq<T>,
    detrended: Seq<T>,
    cycles: Seq<T>,
    low: Seq<T>,
    level: Seq<T>,
    free: Seq<T>,
    deseason: Seq<T>,
) -> bool {
    let n = y.len() as usize;
    &&& season_out.len() == n
    &&& trend_out.len() == n
    &&& forall|i: int| 0 <= i < n ==> is_difference(y[i], trend_in[i], #[trigger] detrended[i])
    &&& is_cycle_smooth(detrended, n, cfg.np, cfg.ns, cfg.isdeg, cfg.nsjump, userw, rw, cycles)
    &&& is_low_pass(cycles, (n + 2 * cfg.np) as usize, cfg.np, low)
    &&& is_smooth(low, n, cfg.nl, cfg.ildeg, cfg.nljump, false, free, level, 0)
    &&& forall|i: int|
        0 <= i < n ==> is_difference(cycles[cfg.np + i], level[i], #[trigger] season_out[i])
    &&& forall|i: int| 0 <= i < n ==> is_difference(y[i], season_out[i], #[trigger] deseason[i])
    &&& is_smooth(deseason, n, cfg.nt, cfg.itdeg, cfg.ntjump, userw, rw, trend_out, 0)
}

/// Whether one pass of the inner loop leads from the trend `trend_in` to the
/// seasonal component `season_out` and the trend `trend_out`.
pub open spec fn is_pass<T: Scalar>(
    y: Seq<T>,
    cfg: StlConfig,
    userw: bool,
    rw: Seq<T>,
    trend_in: Seq<T>,
    season_out: Seq<T>,
    trend_out: Seq<T>,
) -> bool {
    exists|
        detrended: Seq<T>,
        cycles: Seq<T>,
        low: Seq<T>,
        level: Seq<T>,
        free: Seq<T>,
        deseason: Seq<T>,
    | #[trigger]
        is_pass_by(
            y,
            cfg,
            userw,
            rw,
            trend_in,
            season_out,
            trend_out,
            detrended,
            cycles,
            low,
            level,
            free,
            deseason,
        )
}

/// Whether `seasons` and `trends` show that `passes` passes of the inner
/// loop lead from `season0` and `trend0` to `season` and `trend`:
/// `trends[p]` is the trend before pass `p`, and `seasons[p]` and
/// `trends[p + 1]` are what that pass gives.
pub open spec fn is_inner_loop_by<T: Scalar>(
    y: Seq<T>,
    cfg: StlConfig,
    userw: bool,
    rw: Seq<T>,
    passes: int,
    season0: Seq<T>,
    trend0: Seq<T>,
    season: Seq<T>,
    trend: Seq<T>,
    seasons: Seq<Seq<T>>,
    trends: Seq<Seq<T>>,
) -> bool {
    &&& 0 <= passes
    &&& seasons.len() == passes
    &&& trends.len() == passes + 1
    &&& trends[0] == trend0
    &&& trends[passes] == trend
    &&& season == if passes == 0 {
        season0
    } else {
        seasons[passes - 1]
    }
    &&& forall|p: int|
        0 <= p < passes ==> is_pass(
            y,
            cfg,
            userw,
            rw,
            trends[p],
            #[trigger] seasons[p],
            trends[p + 1],
        )
}

/// Whether the inner loop, `cfg.ni` passes, leads from `season0` and
/// `trend0` to `season` and `trend`, with the robustness weights `rw` where
/// `userw` holds.
pub open spec fn is_inner_loop<T: Scalar>(
    y: Seq<T>,
    cfg: StlConfig,
    userw: bool,
    rw: Seq<T>,
    season0: Seq<T>,
    trend0: Seq<T>,
    season: Seq<T>,
    trend: Seq<T>,
) -> bool {
    exists|seasons: Seq<Seq<T>>, trends: Seq<Seq<T>>| #[trigger]
        is_inner_loop_by(
            y,
            cfg,
            userw,
            rw,
            cfg.ni as int,
            season0,
            trend0,
            season,
            trend,
            seasons,
            trends,
        )
}

/// The inner loop: `cfg.ni` passes, each of which removes the trend, smooths
/// the cycle-subseries, low-pass filters the result and subtracts that from
/// it to give the seasonal component, then removes the seasonal component
/// and smooths what is left to give the trend. See [`is_inner_loop`].
pub fn onestp<T: Scalar>(
    y: &[T],
    cfg: &StlConfig,
    userw: bool,
    rw: &mut Vec<T>,
    season: &mut Vec<T>,
    trend: &mut Vec<T>,
    work1: &mut Vec<T>,
    work2: &mut Vec<T>,
    work3: &mut Vec<T>,
    work4: &mut Vec<T>,
    work5: &mut Vec<T>,
)
    requires
        cfg.well_formed(),
        cfg.fits(y@.len() as int),
        buffers_fit(
            *cfg,
            y@.len() as int,
            old(rw)@,
            old(season)@,
            old(trend)@,
            old(work1)@,
            old(work2)@,
            old(work3)@,
            old(work4)@,
            old(work5)@,
        ),
    ensures
        buffers_fit(
            *cfg,
            y@.len() as int,
            final(rw)@,
            final(season)@,
            final(trend)@,
            final(work1)@,
            final(work2)@,
            final(work3)@,
            final(work4)@,
            final(work5)@,
        ),
        final(rw)@ == old(rw)@,
        is_inner_loop(
            y@,
            *cfg,
            userw,
            old(rw)@,
            old(season)@,
            old(trend)@,
            final(season)@,
            final(trend)@,
        ),
{
    let n: usize = y.len();
    let np: usize = cfg.np;
    let ghost mut seasons: Seq<Seq<T>> = Seq::empty();
    let ghost mut trends: Seq<Seq<T>> = seq![trend@];
    let mut pass: usize = 0;
    while pass < cfg.ni
        invariant
            pass <= cfg.ni,
            n == y@.len(),
            np == cfg.np,
            cfg.well_formed(),
            cfg.fits(n as int),
            buffers_fit(
                *cfg,
                n as int,
                rw@,
                season@,
                trend@,
                work1@,
                work2@,
                work3@,
                work4@,
                work5@,
            ),
            rw@ == old(rw)@,
            is_inner_loop_by(
                y@,
                *cfg,
                userw,
                rw@,
                pass as int,
                old(season)@,
                old(trend)@,
                season@,
                trend@,
                seasons,
                trends,
            ),
        decreases cfg.ni - pass,
    {
        let ghost trend_in = trend@;
        let mut i: usize = 0;
        while i < n
            invariant
                i <= n == y@.len(),
                trend@ == trend_in,
                trend@.len() == n,
                work1@.len() == n + 2 * np,
                forall|q: int|
                    0 <= q < i ==> is_difference(y@[q], trend_in[q], #[trigger] work1@[q]),
            decreases n - i,
        {
            work1[i] = y[i].minus(trend[i]);
            i += 1;
        }
        let ghost detrended = work1@;
        ss(
            work1.as_slice(),
            n,
            np,
            cfg.ns,
            cfg.isdeg,
            cfg.nsjump,
            userw,
            rw.as_slice(),
            work2,
            work3,
            work4,
            work5,
            season,
        );
        let ghost cycles = work2@;
        fts(work2.as_slice(), n + 2 * np, np, work3, work1);
        let ghost low = work3@;
        let ghost free = work4@;
        ess(
            work3.as_slice(),
            n,
            cfg.nl,
            cfg.ildeg,
            cfg.nljump,
            false,
            work4.as_slice(),
            work1,
            0,
            work5,
        );
        let ghost level = work1@;
        let mut i: usize = 0;
        while i < n
            invariant
                i <= n,
                season@.len() == n,
                work1@ == level,
                work2@ == cycles,
                work1@.len() == n + 2 * np,
                work2.len() == n + 2 * np,
                forall|q: int|
                    0 <= q < i ==> is_difference(cycles[np + q], level[q], #[trigger] season@[q]),
            decreases n - i,
        {
            season[i] = work2[np + i].minus(work1[i]);
            i += 1;
        }
        let ghost season_out = season@;
        let mut i: usize = 0;
        while i < n
            invariant
                i <= n == y@.len(),
                season@ == season_out,
                season@.len() == n,
                work1@.len() == n + 2 * np,
                forall|q: int|
                    0 <= q < i ==> is_difference(y@[q], season_out[q], #[trigger] work1@[q]),
            decreases n - i,
        {
            work1[i] = y[i].minus(season[i]);
            i += 1;
        }
        let ghost deseason = work1@;
        ess(
            work1.as_slice(),
            n,
            cfg.nt,
            cfg.itdeg,
            cfg.ntjump,
            userw,
            rw.as_slice(),
            trend,
            0,
            work3,
        );
        proof {
            assert(is_pass_by(
                y@,
                *cfg,
                userw,
                rw@,
                trend_in,
                season_out,
                trend@,
                detrended,
                cycles,
                low,
                level,
                free,
                deseason,
            ));
            let seasons2 = seasons.push(season_out);
            let trends2 = trends.push(trend@);
            assert forall|p: int| 0 <= p < pass + 1 implies is_pass(
                y@,
                *cfg,
                userw,
                rw@,
                trends2[p],
                #[trigger] seasons2[p],
                trends2[p + 1],
            ) by {
                if p < pass {
                    assert(seasons2[p] == seasons[p]);
                    assert(trends2[p] == trends[p]);
                    assert(trends2[p + 1] == trends[p + 1]);
                }
            }
            seasons = seasons2;
            trends = trends2;
        }
        pass += 1;
    }
}

/// Whether `fit` holds the sum of trend and seasonal component, and `w` the
/// robustness weights of the observations fitted so, and the inner loop with
/// these weights leads from `season_in` and `trend_in` to `season` and
/// `trend`.
pub open spec fn is_round_by<T: Scalar>(
    y: Seq<T>,
    cfg: StlConfig,
    season_in: Seq<T>,
    trend_in: Seq<T>,
    w: Seq<T>,
    season: Seq<T>,
    trend: Seq<T>,
    fit: Seq<T>,
) -> bool {
    &&& forall|i: int| 0 <= i < y.len() ==> is_sum(trend_in[i], season_in[i], #[trigger] fit[i])
    &&& is_robustness_weights(y, y.len() as usize, fit, w)
    &&& is_inner_loop(y, cfg, true, w, season_in, trend_in, season, trend)
}

/// Whether one robustness iteration leads from `season_in` and `trend_in`
/// to the weights `w` and, with them, to `season` and `trend`.
pub open spec fn is_round<T: Scalar>(
    y: Seq<T>,
    cfg: StlConfig,
    season_in: Seq<T>,
    trend_in: Seq<T>,
    w: Seq<T>,
    season: Seq<T>,
    trend: Seq<T>,
) -> bool {
    exists|fit: Seq<T>| #[trigger] is_round_by(y, cfg, season_in, trend_in, w, season, trend, fit)
}

/// Whether the witnesses show that `rounds` robustness iterations after the
/// first, unweighted run of the inner loop lead from `season0` and `trend0`
/// to `season`, `trend` and the weights `rw`: `weights[r]` are the weights
/// of iteration `r`, and `seasons[r]` and `trends[r]` its results;
/// `weights[0]` stands for the unused weights of the first run.
pub open spec fn is_outer_loop_by<T: Scalar>(
    y: Seq<T>,
    cfg: StlConfig,
    rounds: int,
    season0: Seq<T>,
    trend0: Seq<T>,
    rw: Seq<T>,
    season: Seq<T>,
    trend: Seq<T>,
    weights: Seq<Seq<T>>,
    seasons: Seq<Seq<T>>,
    trends: Seq<Seq<T>>,
) -> bool {
    &&& 0 <= rounds
    &&& weights.len() == rounds + 1
    &&& seasons.len() == rounds + 1
    &&& trends.len() == rounds + 1
    &&& is_inner_loop(y, cfg, false, weights[0], season0, trend0, seasons[0], trends[0])
    &&& forall|r: int|
        1 <= r <= rounds ==> is_round(
            y,
            cfg,
            seasons[r - 1],
            trends[r - 1],
            #[trigger] weights[r],
            seasons[r],
            trends[r],
        )
    &&& rw == weights[rounds]
    &&& season == seasons[rounds]
    &&& trend == trends[rounds]
}

/// Whether `season`, `trend` and `rw` are the seasonal component, the trend
/// and the weights of the series `y` under `cfg`, starting from `season0`
/// and `trend0`: the inner loop runs once without weights, then `cfg.no`
/// times with the robustness weights of the fit before. With no such
/// iteration every weight is one and the same scalar for the count 1; else
/// the weights are those of the last iteration.
#[verifier::opaque]
pub open spec fn is_decomposition<T: Scalar>(
    y: Seq<T>,
    cfg: StlConfig,
    season0: Seq<T>,
    trend0: Seq<T>,
    rw: Seq<T>,
    season: Seq<T>,
    trend: Seq<T>,
) -> bool {
    exists|last: Seq<T>, weights: Seq<Seq<T>>, seasons: Seq<Seq<T>>, trends: Seq<Seq<T>>|
        {
            &&& #[trigger] is_outer_loop_by(
                y,
                cfg,
                cfg.no as int,
                season0,
                trend0,
                last,
                season,
                trend,
                weights,
                seasons,
                trends,
            )
            &&& rw.len() == y.len()
            &&& if cfg.no == 0 {
                uniform(rw) && all_count(1, rw)
            } else {
                rw == last
            }
        }
}

/// The outer loop of a single-period decomposition of `y` under `cfg`.
///
/// The inner loop runs once without robustness weights; then, `cfg.no`
/// times, the weights are computed anew from the residuals of the current
/// fit and the inner loop runs again with them. On return `season` and
/// `trend` hold the two components and `rw` the weights last used; with no
/// robustness iteration every weight is one and the same number, the scalar
/// for the count 1. See [`is_decomposition`].
pub fn stl<T: Scalar>(
    y: &[T],
    cfg: &StlConfig,
    rw: &mut Vec<T>,
    season: &mut Vec<T>,
    trend: &mut Vec<T>,
)
    requires
        cfg.well_formed(),
        cfg.fits(y@.len() as int),
        old(rw)@.len() == y@.len(),
        old(season)@.len() == y@.len(),
        old(trend)@.len() == y@.len(),
    ensures
        final(rw)@.len() == y@.len(),
        final(season)@.len() == y@.len(),
        final(trend)@.len() == y@.len(),
        is_decomposition(
            y@,
            *cfg,
            old(season)@,
            old(trend)@,
            final(rw)@,
            final(season)@,
            final(trend)@,
        ),
        cfg.no == 0 ==> uniform(final(rw)@) && all_count(
            1,
            final(rw)@,
        ),
{
    let n: usize = y.len();
    let zero: T = T::from_count(0);
    let mut work1: Vec<T> = filled(n + 2 * cfg.np, zero);
    let mut work2: Vec<T> = filled(n + 2 * cfg.np, zero);
    let mut work3: Vec<T> = filled(n + 2 * cfg.np, zero);
    let mut work4: Vec<T> = filled(n + 2 * cfg.np, zero);
    let mut work5: Vec<T> = filled(n + 2 * cfg.np, zero);

    onestp(
        y,
        cfg,
        false,
        rw,
        season,
        trend,
        &mut work1,
        &mut work2,
        &mut work3,
        &mut work4,
        &mut work5,
    );
    let ghost mut weights: Seq<Seq<T>> = seq![rw@];
    let ghost mut seasons: Seq<Seq<T>> = seq![season@];
    let ghost mut trends: Seq<Seq<T>> = seq![trend@];
    let mut k: usize = 0;
    while k < cfg.no
        invariant
            k <= cfg.no,
            n == y@.len(),
            cfg.well_formed(),
            cfg.fits(n as int),
            buffers_fit(
                *cfg,
                n as int,
                rw@,
                season@,
                trend@,
                work1@,
                work2@,
                work3@,
                work4@,
                work5@,
            ),
            is_outer_loop_by(
                y@,
                *cfg,
                k as int,
                old(season)@,
                old(trend)@,
                rw@,
                season@,
                trend@,
                weights,
                seasons,
                trends,
            ),
        decreases cfg.no - k,
    {
        let ghost season_in = season@;
        let ghost trend_in = trend@;
        let mut i: usize = 0;
        while i < n
            invariant
                i <= n,
                season@ == season_in,
                trend@ == trend_in,
                season@.len() == n,
                trend@.len() == n,
                work1@.len() == n + 2 * cfg.np,
                forall|q: int|
                    0 <= q < i ==> is_sum(trend_in[q], season_in[q], #[trigger] work1@[q]),
            decreases n - i,
        {
            work1[i] = trend[i].plus(season[i]);
            i += 1;
        }
        let ghost fit = work1@;
        rwts(y, n, work1.as_slice(), rw);
        onestp(
            y,
            cfg,
            true,
            rw,
            season,
            trend,
            &mut work1,
            &mut work2,
            &mut work3,
            &mut work4,
            &mut work5,
        );
        proof {
            assert(is_round_by(y@, *cfg, season_in, trend_in, rw@, season@, trend@, fit));
            let weights2 = weights.push(rw@);
            let seasons2 = seasons.push(season@);
            let trends2 = trends.push(trend@);
            assert forall|r: int| 1 <= r <= k + 1 implies is_round(
                y@,
                *cfg,
                seasons2[r - 1],
                trends2[r - 1],
                #[trigger] weights2[r],
                seasons2[r],
                trends2[r],
            ) by {
                if r <= k {
                    assert(weights2[r] == weights[r]);
                    assert(seasons2[r] == seasons[r]);
                    assert(trends2[r] == trends[r]);
                }
                assert(seasons2[r - 1] == seasons[r - 1]);
                assert(trends2[r - 1] == trends[r - 1]);
            }
            assert(weights2[0] == weights[0]);
            assert(seasons2[0] == seasons[0]);
            assert(trends2[0] == trends[0]);
            weights = weights2;
            seasons = seasons2;
            trends = trends2;
        }
        k += 1;
    }
    let ghost last = rw@;
    if cfg.no == 0 {
        fill(rw, T::from_count(1));
    }
    reveal(is_decomposition);
    assert(is_outer_loop_by(
        y@,
        *cfg,
        cfg.no as int,
        old(season)@,
        old(trend)@,
        last,
        season@,
        trend@,
        weights,
        seasons,
        trends,
    ));
}

} // verus!
