//! Smoothing of the subseries of each position of the cycle.

use crate::loess::est;
use crate::loess::is_fit;
use crate::scalar::is_count;
use crate::scalar::Scalar;
use crate::smooth::ess;
use crate::smooth::is_smooth;
use crate::smooth::lemma_smooth_kept;
use vstd::prelude::*;

verus! {

/// Number of observations in the subseries of a sequence of `n` that starts
/// at position `j` (counted from 1) and takes every `np`-th one.
pub open spec fn cycle_len(n: int, np: int, j: int) -> int {
    (n - j) / np + 1
}

/// The `i`-th observation (counted from 0) of the subseries that starts at
/// position `j` lies within the sequence, also `extra` cycles beyond its end
/// where the sequence is padded by as many.
proof fn lemma_cycle_index(n: int, np: int, j: int, i: int, extra: int)
    requires
        1 <= np,
        1 <= j <= n,
        0 <= extra,
        0 <= i < cycle_len(n, np, j) + extra,
    ensures
        0 <= i * np,
        i * np + j <= n + extra * np,
{
    let q = (n - j) / np;
    assert(q * np <= n - j) by (nonlinear_arith)
        requires
            q == (n - j) / np,
            np >= 1,
            n - j >= 0,
    ;
    assert(0 <= i * np <= (q + extra) * np) by (nonlinear_arith)
        requires
            0 <= i <= q + extra,
            np >= 1,
    ;
    assert((q + extra) * np == q * np + extra * np) by (nonlinear_arith);
}

/// The subseries that starts at position `j` is no longer than the sequence.
proof fn lemma_cycle_len(n: int, np: int, j: int)
    requires
        1 <= np,
        1 <= j <= n,
    ensures
        1 <= cycle_len(n, np, j) <= n,
{
    assert(0 <= (n - j) / np <= n - j) by (nonlinear_arith)
        requires
            np >= 1,
            n - j >= 0,
    ;
}

/// Whether `v` extends a smoothed subseries by one place: the fit at
/// position `pos`, just off one end of the `k` values of `sub`, over the
/// neighbours `l..=r`, or, where there is no fit, the smoothed value
/// `fallback` next to it.
pub open spec fn is_edge_value<T: Scalar>(
    sub: Seq<T>,
    k: usize,
    ns: usize,
    isdeg: i32,
    pos: usize,
    l: usize,
    r: usize,
    userw: bool,
    subw: Seq<T>,
    fallback: T,
    v: T,
) -> bool {
    exists|xs: T, fitted: Option<T>|
        {
            &&& is_count(pos, xs)
            &&& is_fit(sub, k, ns, isdeg, xs, l, r, userw, subw, fitted)
            &&& v == match fitted {
                Some(f) => f,
                None => fallback,
            }
        }
}

/// Whether the witnesses show that `season` holds, at the places of the
/// `j`-th position of the cycle, the smoothed subseries of that position:
/// `sub` is the subseries of `y` and `subw` that of the robustness weights;
/// `sm[1..=k]` is `sub` smoothed, `sm[0]` extends it before its first and
/// `sm[k + 1]` after its last value, each over the `ns` nearest values; and
/// `season` holds `sm` at every `np`-th place from `j - 1`.
pub open spec fn is_cycle_by<T: Scalar>(
    y: Seq<T>,
    n: usize,
    np: usize,
    ns: usize,
    isdeg: i32,
    nsjump: usize,
    userw: bool,
    rw: Seq<T>,
    season: Seq<T>,
    j: int,
    sub: Seq<T>,
    subw: Seq<T>,
    sm: Seq<T>,
) -> bool {
    let k = cycle_len(n as int, np as int, j);
    &&& forall|i: int| 0 <= i < k ==> #[trigger] sub[i] == y[i * np + j - 1]
    &&& userw ==> forall|i: int| 0 <= i < k ==> #[trigger] subw[i] == rw[i * np + j - 1]
    &&& is_smooth(sub, k as usize, ns, isdeg, nsjump, userw, subw, sm, 1)
    &&& is_edge_value(
        sub,
        k as usize,
        ns,
        isdeg,
        0,
        1,
        (if ns < k { ns as int } else { k }) as usize,
        userw,
        subw,
        sm[1],
        sm[0],
    )
    &&& is_edge_value(
        sub,
        k as usize,
        ns,
        isdeg,
        (k + 1) as usize,
        (if k >= ns { k - ns + 1 } else { 1 }) as usize,
        k as usize,
        userw,
        subw,
        sm[k],
        sm[k + 1],
    )
    &&& forall|m: int| 0 <= m < k + 2 ==> season[m * np + j - 1] == #[trigger] sm[m]
}

/// Whether `season` holds, at the places of the `j`-th position of the
/// cycle, the smoothed and extended subseries of that position.
pub open spec fn is_cycle<T: Scalar>(
    y: Seq<T>,
    n: usize,
    np: usize,
    ns: usize,
    isdeg: i32,
    nsjump: usize,
    userw: bool,
    rw: Seq<T>,
    season: Seq<T>,
    j: int,
) -> bool {
    exists|sub: Seq<T>, subw: Seq<T>, sm: Seq<T>| #[trigger]
        is_cycle_by(y, n, np, ns, isdeg, nsjump, userw, rw, season, j, sub, subw, sm)
}

/// Whether the first `n + 2 * np` places of `season` hold the cycle-wise
/// smoothing of the first `n` values of `y`: for each position of the cycle
/// its subseries, smoothed with a window of `ns` and extended by one value
/// at either end, so that `season` reaches one cycle beyond `y` on both
/// sides.
pub open spec fn is_cycle_smooth<T: Scalar>(
    y: Seq<T>,
    n: usize,
    np: usize,
    ns: usize,
    isdeg: i32,
    nsjump: usize,
    userw: bool,
    rw: Seq<T>,
    season: Seq<T>,
) -> bool {
    forall|j: int|
        1 <= j <= np ==> #[trigger] is_cycle(y, n, np, ns, isdeg, nsjump, userw, rw, season, j)
}

/// The place `m * np + r` has the remainder `r`.
proof fn lemma_index_residue(m: int, np: int, r: int)
    requires
        0 <= m,
        0 <= r < np,
    ensures
        (m * np + r) % np == r,
{
    vstd::arithmetic::div_mod::lemma_fundamental_div_mod_converse(m * np + r, np, m, r);
}

/// What `season` holds for one position of the cycle stays so where none of
/// the places of that position changes.
proof fn lemma_cycle_kept<T: Scalar>(
    y: Seq<T>,
    n: usize,
    np: usize,
    ns: usize,
    isdeg: i32,
    nsjump: usize,
    userw: bool,
    rw: Seq<T>,
    before: Seq<T>,
    after: Seq<T>,
    j: int,
    other: int,
)
    requires
        1 <= np <= n,
        1 <= j <= np,
        1 <= other <= np,
        j != other,
        n + 2 * np <= before.len() == after.len(),
        is_cycle(y, n, np, ns, isdeg, nsjump, userw, rw, before, j),
        forall|q: int|
            0 <= q < before.len() && q % (np as int) != other - 1 ==> #[trigger] after[q]
                == before[q],
    ensures
        is_cycle(y, n, np, ns, isdeg, nsjump, userw, rw, after, j),
{
    let (sub, subw, sm) = choose|sub: Seq<T>, subw: Seq<T>, sm: Seq<T>| #[trigger]
        is_cycle_by(y, n, np, ns, isdeg, nsjump, userw, rw, before, j, sub, subw, sm);
    let k = cycle_len(n as int, np as int, j);
    assert forall|m: int| 0 <= m < k + 2 implies after[m * np + j - 1] == #[trigger] sm[m] by {
        lemma_index_residue(m, np as int, j - 1);
        lemma_cycle_index(n as int, np as int, j, m, 2);
        assert(after[m * np + j - 1] == before[m * np + j - 1]);
    }
    assert(is_cycle_by(y, n, np, ns, isdeg, nsjump, userw, rw, after, j, sub, subw, sm));
}

/// Two places of one position of the cycle, in different cycles, differ.
proof fn lemma_stride_distinct(a: int, b: int, np: int, r: int)
    requires
        0 <= a < b,
        1 <= np,
    ensures
        a * np + r < b * np + r,
        0 <= a * np,
{
    assert(a * np + np <= b * np) by (nonlinear_arith)
        requires
            a + 1 <= b,
            1 <= np,
    ;
    assert(0 <= a * np) by (nonlinear_arith)
        requires
            0 <= a,
            1 <= np,
    ;
}

/// Smooths each of the `np` subseries of the first `n` values of `y` (the
/// observations at one position of the cycle) with a window of `ns`, and
/// extends each by one value before its first and one after its last
/// observation. The results are interleaved again into the first
/// `n + 2 * np` places of `season`: one cycle more on either side. See
/// [`is_cycle_smooth`]. `work1` to `work4` are scratch space.
pub fn ss<T: Scalar>(
    y: &[T],
    n: usize,
    np: usize,
    ns: usize,
    isdeg: i32,
    nsjump: usize,
    userw: bool,
    rw: &[T],
    season: &mut Vec<T>,
    work1: &mut Vec<T>,
    work2: &mut Vec<T>,
    work3: &mut Vec<T>,
    work4: &mut Vec<T>,
)
    requires
        1 <= np <= n <= y@.len(),
        1 <= ns,
        1 <= nsjump,
        userw ==> n <= rw@.len(),
        n + 2 * np <= old(season).len(),
        n <= old(work1).len(),
        n + 2 <= old(work2).len(),
        n <= old(work3).len(),
        n <= old(work4).len(),
    ensures
        final(season)@.len() == old(season)@.len(),
        final(work1)@.len() == old(work1)@.len(),
        final(work2)@.len() == old(work2)@.len(),
        final(work3)@.len() == old(work3)@.len(),
        final(work4)@.len() == old(work4)@.len(),
        forall|i: int|
            n + 2 * np <= i < old(season)@.len() ==> final(season)@[i] == old(season)@[i],
        is_cycle_smooth(y@, n, np, ns, isdeg, nsjump, userw, rw@, final(season)@),
{
    let mut j: usize = 1;
    while j <= np
        invariant
            1 <= j <= np + 1,
            1 <= np <= n <= y@.len(),
            1 <= ns,
            1 <= nsjump,
            userw ==> n <= rw@.len(),
            n + 2 * np <= season.len(),
            n <= work1.len(),
            n + 2 <= work2.len(),
            n <= work3.len(),
            n <= work4.len(),
            season@.len() == old(season)@.len(),
            work1@.len() == old(work1)@.len(),
            work2@.len() == old(work2)@.len(),
            work3@.len() == old(work3)@.len(),
            work4@.len() == old(work4)@.len(),
            forall|i: int| n + 2 * np <= i < old(season)@.len() ==> season@[i] == old(season)@[i],
            forall|c: int|
                1 <= c < j ==> #[trigger] is_cycle(
                    y@,
                    n,
                    np,
                    ns,
                    isdeg,
                    nsjump,
                    userw,
                    rw@,
                    season@,
                    c,
                ),
        decreases np + 1 - j,
    {
        let k: usize = (n - j) / np + 1;
        proof {
            lemma_cycle_len(n as int, np as int, j as int);
        }
        let mut i: usize = 0;
        while i < k
            invariant
                i <= k <= n <= y@.len(),
                k == cycle_len(n as int, np as int, j as int),
                1 <= j <= np <= n,
                userw ==> n <= rw@.len(),
                n <= work1.len(),
                n <= work3.len(),
                work1@.len() == old(work1)@.len(),
                work3@.len() == old(work3)@.len(),
                forall|q: int| 0 <= q < i ==> #[trigger] work1@[q] == y@[q * np + j - 1],
                userw ==> forall|q: int| 0 <= q < i ==> #[trigger] work3@[q] == rw@[q * np + j - 1],
            decreases k - i,
        {
            proof {
                lemma_cycle_index(n as int, np as int, j as int, i as int, 0);
            }
            work1[i] = y[i * np + j - 1];
            if userw {
                work3[i] = rw[i * np + j - 1];
            }
            i += 1;
        }
        ess(work1.as_slice(), k, ns, isdeg, nsjump, userw, work3.as_slice(), work2, 1, work4);
        let ghost smoothed = work2@;
        let nright: usize = if ns < k { ns } else { k };
        let first: Option<T> = est(
            work1.as_slice(),
            k,
            ns,
            isdeg,
            T::from_count(0),
            1,
            nright,
            work4,
            userw,
            work3.as_slice(),
        );
        work2[0] = match first {
            Some(v) => v,
            None => work2[1],
        };
        let nleft: usize = if k >= ns { k - ns + 1 } else { 1 };
        let last: Option<T> = est(
            work1.as_slice(),
            k,
            ns,
            isdeg,
            T::from_count(k + 1),
            nleft,
            k,
            work4,
            userw,
            work3.as_slice(),
        );
        work2[k + 1] = match last {
            Some(v) => v,
            None => work2[k],
        };
        proof {
            lemma_smooth_kept(
                work1@,
                k,
                ns,
                isdeg,
                nsjump,
                userw,
                work3@,
                smoothed,
                work2@,
                1,
            );
        }
        let ghost before = season@;
        let mut m: usize = 0;
        while m < k + 2
            invariant
                m <= k + 2 <= n + 2 <= work2.len(),
                k == cycle_len(n as int, np as int, j as int),
                1 <= j <= np <= n,
                n + 2 * np <= season.len(),
                season@.len() == old(season)@.len(),
                season@.len() == before.len(),
                forall|i: int|
                    n + 2 * np <= i < old(season)@.len() ==> season@[i] == old(season)@[i],
                forall|q: int|
                    0 <= q < season@.len() && q % (np as int) != j - 1 ==> #[trigger] season@[q]
                        == before[q],
                forall|q: int| 0 <= q < m ==> season@[q * np + j - 1] == #[trigger] work2@[q],
            decreases k + 2 - m,
        {
            proof {
                lemma_cycle_index(n as int, np as int, j as int, m as int, 2);
                lemma_index_residue(m as int, np as int, j - 1);
            }
            let ghost prior = season@;
            season[m * np + j - 1] = work2[m];
            proof {
                assert forall|q: int| 0 <= q < m + 1 implies season@[q * np + j - 1]
                    == #[trigger] work2@[q] by {
                    if q < m {
                        lemma_stride_distinct(q, m as int, np as int, j - 1);
                        assert(season@[q * np + j - 1] == prior[q * np + j - 1]);
                    }
                }
            }
            m += 1;
        }
        proof {
            assert(is_cycle_by(
                y@,
                n,
                np,
                ns,
                isdeg,
                nsjump,
                userw,
                rw@,
                season@,
                j as int,
                work1@,
                work3@,
                work2@,
            ));
            assert forall|c: int| 1 <= c < j + 1 implies #[trigger] is_cycle(
                y@,
                n,
                np,
                ns,
                isdeg,
                nsjump,
                userw,
                rw@,
                season@,
                c,
            ) by {
                if c < j {
                    lemma_cycle_kept(
                        y@,
                        n,
                        np,
                        ns,
                        isdeg,
                        nsjump,
                        userw,
                        rw@,
                        before,
                        season@,
                        c,
                        j as int,
                    );
                }
            }
        }
        j += 1;
    }
}

} // verus!
