//! Moving averages and the low-pass filter made of three of them.

use crate::scalar::is_count;
use crate::scalar::is_difference;
use crate::scalar::is_quotient;
use crate::scalar::is_sum;
use crate::scalar::is_summation;
use crate::scalar::lemma_summation_start;
use crate::scalar::lemma_summation_step;
use crate::scalar::Scalar;
use crate::scalar::sums_to;
use vstd::prelude::*;

verus! {

/// The terms of a plain sum over `x`: position `j` adds `x[j]`.
pub open spec fn each_of<T: Scalar>(x: Seq<T>) -> spec_fn(int, Option<T>) -> bool {
    |j: int, t: Option<T>| t == Some(x[j])
}

/// Whether `r` is the window sum `v` moved on by one place: less the value
/// that leaves the window, plus the value that enters it.
pub open spec fn is_slide<T: Scalar>(v: T, leaving: T, entering: T, r: T) -> bool {
    exists|d: T| is_difference(v, leaving, d) && is_sum(d, entering, r)
}

/// Whether `sums` shows that the first `n - len + 1` places of `ave` hold
/// the moving averages of window `len` over the first `n` values of `x`:
/// `sums[0]` is the sum of the first `len` values, each further sum is the
/// one before it moved on by one place, and each average is its sum over
/// the number for `len`.
pub open spec fn is_moving_average_by<T: Scalar>(
    x: Seq<T>,
    n: usize,
    len: usize,
    ave: Seq<T>,
    zero: T,
    flen: T,
    sums: Seq<T>,
) -> bool {
    &&& is_count(0, zero)
    &&& is_count(len, flen)
    &&& sums.len() == n - len + 1
    &&& sums_to(0, len as int, zero, each_of(x), sums[0])
    &&& forall|j: int|
        1 <= j < n - len + 1 ==> is_slide(sums[j - 1], x[j - 1], x[len + j - 1], #[trigger] sums[j])
    &&& forall|j: int| 0 <= j < n - len + 1 ==> is_quotient(sums[j], flen, #[trigger] ave[j])
}

/// Whether the first `n - len + 1` places of `ave` hold the moving averages
/// of window `len` over the first `n` values of `x`.
pub open spec fn is_moving_average<T: Scalar>(
    x: Seq<T>,
    n: usize,
    len: usize,
    ave: Seq<T>,
) -> bool {
    exists|zero: T, flen: T, sums: Seq<T>| #[trigger]
        is_moving_average_by(x, n, len, ave, zero, flen, sums)
}

/// Moving average of window `len` over the first `n` values of `x`, written
/// to the first `n - len + 1` places of `ave`.
pub fn ma<T: Scalar>(x: &[T], n: usize, len: usize, ave: &mut Vec<T>)
    requires
        1 <= len <= n <= x@.len(),
        n - len + 1 <= old(ave)@.len(),
    ensures
        final(ave)@.len() == old(ave)@.len(),
        forall|i: int| n - len + 1 <= i < old(ave)@.len() ==> final(ave)@[i] == old(ave)@[i],
        is_moving_average(x@, n, len, final(ave)@),
{
    let newn: usize = n - len + 1;
    let flen: T = T::from_count(len);
    let zero: T = T::from_count(0);
    let mut v: T = zero;
    let ghost mut terms: Seq<Option<T>> = Seq::new(0, |i: int| None);
    let ghost mut acc: Seq<T> = Seq::new(1, |i: int| zero);
    proof {
        lemma_summation_start(0, zero, each_of(x@));
    }
    let mut i: usize = 0;
    while i < len
        invariant
            i <= len <= x@.len(),
            is_summation(0, i as int, zero, each_of(x@), terms, acc, v),
        decreases len - i,
    {
        let next: T = v.plus(x[i]);
        proof {
            lemma_summation_step(
                0,
                i as int,
                zero,
                each_of(x@),
                terms,
                acc,
                v,
                Some(x@[i as int]),
                next,
            );
            terms = terms.push(Some(x@[i as int]));
            acc = acc.push(next);
        }
        v = next;
        i += 1;
    }
    ave[0] = v.over(flen);
    let ghost mut sums: Seq<T> = seq![v];
    let mut j: usize = 1;
    while j < newn
        invariant
            1 <= j <= newn,
            newn == n - len + 1,
            1 <= len <= n <= x@.len(),
            newn <= ave@.len(),
            ave@.len() == old(ave)@.len(),
            forall|i: int| newn <= i < old(ave)@.len() ==> ave@[i] == old(ave)@[i],
            is_count(0, zero),
            is_count(len, flen),
            sums.len() == j,
            sums[j - 1] == v,
            sums_to(0, len as int, zero, each_of(x@), sums[0]),
            forall|q: int|
                1 <= q < j ==> is_slide(
                    sums[q - 1],
                    x@[q - 1],
                    x@[len + q - 1],
                    #[trigger] sums[q],
                ),
            forall|q: int| 0 <= q < j ==> is_quotient(sums[q], flen, #[trigger] ave@[q]),
        decreases newn - j,
    {
        let d: T = v.minus(x[j - 1]);
        let next: T = d.plus(x[len + j - 1]);
        assert(is_difference(v, x@[j - 1], d) && is_sum(d, x@[len + j - 1], next));
        v = next;
        ave[j] = v.over(flen);
        proof {
            sums = sums.push(v);
        }
        j += 1;
    }
    assert(is_moving_average_by(x@, n, len, ave@, zero, flen, sums));
}

/// Whether the first `n - 2 * np` places of `out` hold the first `n` values
/// of `x` after the low-pass filter: a moving average of window `np`, again
/// of window `np`, then of window 3.
pub open spec fn is_low_pass<T: Scalar>(x: Seq<T>, n: usize, np: usize, out: Seq<T>) -> bool {
    exists|first: Seq<T>, second: Seq<T>| #[trigger] is_low_pass_by(x, n, np, out, first, second)
}

/// Whether `first` and `second` are the two moving averages of window `np`
/// that lead from `x` to the low-pass filtered `out`.
pub open spec fn is_low_pass_by<T: Scalar>(
    x: Seq<T>,
    n: usize,
    np: usize,
    out: Seq<T>,
    first: Seq<T>,
    second: Seq<T>,
) -> bool {
    &&& is_moving_average(x, n, np, first)
    &&& is_moving_average(first, (n - np + 1) as usize, np, second)
    &&& is_moving_average(second, (n - 2 * np + 2) as usize, 3, out)
}

/// The low-pass filter over the first `n` values of `x`: see
/// [`is_low_pass`]. The first `n - 2 * np` places of `trend` receive the
/// result; `work` is scratch space.
pub fn fts<T: Scalar>(x: &[T], n: usize, np: usize, trend: &mut Vec<T>, work: &mut Vec<T>)
    requires
        1 <= np,
        2 * np + 1 <= n <= x@.len(),
        n - np + 1 <= old(trend)@.len(),
        n - 2 * np + 2 <= old(work)@.len(),
    ensures
        final(trend)@.len() == old(trend)@.len(),
        final(work)@.len() == old(work)@.len(),
        is_low_pass(x@, n, np, final(trend)@),
{
    ma(x, n, np, trend);
    let ghost first = trend@;
    ma(trend.as_slice(), n - np + 1, np, work);
    let ghost second = work@;
    ma(work.as_slice(), n - 2 * np + 2, 3, trend);
    assert(is_low_pass_by(x@, n, np, trend@, first, second));
}

} // verus!
