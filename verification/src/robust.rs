//! Robustness weights from the residuals of a fit.

use crate::loess::is_scaled;
use crate::loess::scaled;
use crate::scalar::is_abs;
use crate::scalar::is_count;
use crate::scalar::is_difference;
use crate::scalar::is_int_power;
use crate::scalar::is_le;
use crate::scalar::is_lt;
use crate::scalar::is_product;
use crate::scalar::is_quotient;
use crate::scalar::is_sum;
use crate::scalar::Scalar;
use vstd::multiset::Multiset;
use vstd::prelude::*;

verus! {

/// Exchanges two elements.
fn swap<T: Scalar>(v: &mut Vec<T>, i: usize, j: usize)
    requires
        i < old(v)@.len(),
        j < old(v)@.len(),
    ensures
        final(v)@ == old(v)@.update(i as int, old(v)@[j as int]).update(
            j as int,
            old(v)@[i as int],
        ),
        final(v)@.to_multiset() == old(v)@.to_multiset(),
{
    let a: T = v[i];
    let b: T = v[j];
    v[i] = b;
    v[j] = a;
    proof {
        let s0 = old(v)@;
        let s1 = s0.update(i as int, b);
        vstd::seq_lib::to_multiset_update(s0, i as int, b);
        vstd::seq_lib::to_multiset_update(s1, j as int, a);
        vstd::seq_lib::to_multiset_contains(s0, a);
        assert(s0.contains(a)) by {
            assert(s0[i as int] == a);
        }
        assert(s1[j as int] == b);
        assert(v@ == s1.update(j as int, a));
        assert(v@.to_multiset() =~= s0.to_multiset());
    }
}

/// Whether `a` is at most `b` in the order of `T`: `T` denies that `b < a`.
pub open spec fn at_most<T: Scalar>(a: T, b: T) -> bool {
    is_lt(b, a, false)
}

/// Whether the comparison of `T` orders the values of `m`: where it says
/// that `a < b` it denies that `b < a`, and "at most" carries over from
/// `a`, `b` and `b`, `c` to `a`, `c`. Numbers that do not compare, as a
/// floating-point NaN, are not ordered so.
pub open spec fn orders<T: Scalar>(m: Multiset<T>) -> bool {
    &&& forall|a: T, b: T|
        m.count(a) > 0 && m.count(b) > 0 && #[trigger] is_lt(a, b, true) ==> at_most(a, b)
    &&& forall|a: T, b: T, c: T|
        m.count(a) > 0 && m.count(b) > 0 && m.count(c) > 0 && #[trigger] at_most(a, b)
            && #[trigger] at_most(b, c) ==> at_most(a, c)
}

/// Whether each value of `s` is at most every later one.
pub open spec fn ascending<T: Scalar>(s: Seq<T>) -> bool {
    forall|i: int, j: int| 0 <= i < j < s.len() ==> at_most(#[trigger] s[i], #[trigger] s[j])
}

/// Whether, within `s[lo..end]` seen as a binary heap, each child is at most
/// its parent.
pub open spec fn is_heap<T: Scalar>(s: Seq<T>, lo: int, end: int) -> bool {
    forall|i: int, c: int|
        lo <= i < c < end && (c == 2 * i + 1 || c == 2 * i + 2) ==> at_most(
            #[trigger] s[c],
            #[trigger] s[i],
        )
}

/// Whether `x` is one of the values `s[lo..hi]`.
pub open spec fn drawn_from<T>(x: T, s: Seq<T>, lo: int, hi: int) -> bool {
    exists|k: int| lo <= k < hi && s[k] == x
}

/// Every value of a sequence counts among its values.
proof fn lemma_member<T>(s: Seq<T>, i: int)
    requires
        0 <= i < s.len(),
    ensures
        s.to_multiset().count(s[i]) > 0,
{
    vstd::seq_lib::to_multiset_contains(s, s[i]);
    assert(s.contains(s[i]));
}

/// In a heap every value is at most the one at the root.
proof fn lemma_root_is_most<T: Scalar>(s: Seq<T>, end: int, i: int)
    requires
        orders(s.to_multiset()),
        is_heap(s, 0, end),
        1 <= i < end <= s.len(),
    ensures
        at_most(s[i], s[0]),
    decreases i,
{
    let p = (i - 1) / 2;
    assert(i == 2 * p + 1 || i == 2 * p + 2);
    assert(at_most(s[i], s[p]));
    if p > 0 {
        lemma_root_is_most(s, end, p);
        lemma_member(s, i);
        lemma_member(s, p);
        lemma_member(s, 0);
    }
}

/// Lets the element at `start` sink within `v[..end]`, seen as a binary
/// heap, until neither child ranks above it.
fn sift_down<T: Scalar>(v: &mut Vec<T>, start: usize, end: usize)
    requires
        start < end <= old(v).len(),
        orders(old(v)@.to_multiset()) ==> is_heap(old(v)@, start + 1, end as int),
    ensures
        final(v)@.len() == old(v)@.len(),
        final(v)@.to_multiset() == old(v)@.to_multiset(),
        forall|i: int| 0 <= i < start || end <= i < old(v)@.len() ==> final(v)@[i] == old(v)@[i],
        forall|i: int|
            start <= i < end ==> drawn_from(
                #[trigger] final(v)@[i],
                old(v)@,
                start as int,
                end as int,
            ),
        orders(old(v)@.to_multiset()) ==> is_heap(final(v)@, start as int, end as int),
{
    let ghost m = v@.to_multiset();
    let mut root: usize = start;
    loop
        invariant_except_break
            orders(m) ==> forall|i: int, c: int|
                start <= i < c < end && (c == 2 * i + 1 || c == 2 * i + 2) && i != root ==> at_most(
                    #[trigger] v@[c],
                    #[trigger] v@[i],
                ),
            orders(m) && root > start ==> forall|c: int|
                root < c < end && (c == 2 * root + 1 || c == 2 * root + 2) ==> at_most(
                    #[trigger] v@[c],
                    v@[(root - 1) / 2],
                ),
        invariant
            start <= root < end <= v.len(),
            v@.len() == old(v)@.len(),
            v@.to_multiset() == m,
            m == old(v)@.to_multiset(),
            forall|i: int| 0 <= i < start || end <= i < old(v)@.len() ==> v@[i] == old(v)@[i],
            forall|i: int|
                start <= i < end ==> drawn_from(
                    #[trigger] v@[i],
                    old(v)@,
                    start as int,
                    end as int,
                ),
        ensures
            orders(m) ==> is_heap(v@, start as int, end as int),
        decreases end - root,
    {
        if root >= end / 2 {
            break ;
        }
        let left: usize = 2 * root + 1;
        let mut child: usize = left;
        let ghost mut sibling: int = left + 1;
        if left + 1 < end {
            let right_more: bool = v[left].lt(v[left + 1]);
            if right_more {
                child = left + 1;
                proof {
                    sibling = left as int;
                }
            }
            proof {
                if orders(m) {
                    lemma_member(v@, left as int);
                    lemma_member(v@, left + 1);
                    assert(is_lt(v@[left as int], v@[left + 1], right_more));
                    assert(at_most(v@[sibling], v@[child as int]));
                }
            }
        }
        let sink: bool = v[root].lt(v[child]);
        if sink {
            let ghost before = v@;
            swap(v, root, child);
            proof {
                assert(drawn_from(before[child as int], old(v)@, start as int, end as int));
                assert(drawn_from(before[root as int], old(v)@, start as int, end as int));
                if orders(m) {
                    lemma_member(before, root as int);
                    lemma_member(before, child as int);
                    assert(is_lt(before[root as int], before[child as int], true));
                    assert(at_most(before[root as int], before[child as int]));
                    assert forall|i: int, c: int|
                        start <= i < c < end && (c == 2 * i + 1 || c == 2 * i + 2) && i
                            != child implies at_most(#[trigger] v@[c], #[trigger] v@[i]) by {
                        if i == root {
                            if c == child {
                            } else {
                                assert(c == sibling);
                                assert(at_most(before[sibling], before[child as int]));
                            }
                        } else if c == root {
                            assert(i == (root - 1) / 2);
                            assert(at_most(before[child as int], before[(root - 1) / 2]));
                        } else {
                            assert(at_most(before[c], before[i]));
                        }
                    }
                    assert forall|c: int|
                        child < c < end && (c == 2 * child + 1 || c == 2 * child + 2) implies at_most(
                        #[trigger] v@[c],
                        v@[(child - 1) / 2],
                    ) by {
                        assert(at_most(before[c], before[child as int]));
                    }
                }
            }
            root = child;
        } else {
            proof {
                if orders(m) {
                    lemma_member(v@, root as int);
                    lemma_member(v@, child as int);
                    assert(is_lt(v@[root as int], v@[child as int], false));
                    assert(at_most(v@[child as int], v@[root as int]));
                    if left + 1 < end {
                        lemma_member(v@, sibling);
                        assert(at_most(v@[sibling], v@[root as int]));
                    }
                    assert forall|i: int, c: int|
                        start <= i < c < end && (c == 2 * i + 1 || c == 2 * i + 2) implies at_most(
                        #[trigger] v@[c],
                        #[trigger] v@[i],
                    ) by {
                        if i == root {
                            if c != child {
                                assert(c == sibling);
                            }
                        }
                    }
                }
            }
            break ;
        }
    }
}

/// Rearranges `v` by heap sort under the order of [`Scalar::lt`]. The result
/// holds the same values as before, each as often; where the comparison
/// orders these values, as [`orders`] says, it holds them in ascending
/// order.
pub fn sort<T: Scalar>(v: &mut Vec<T>)
    ensures
        final(v)@.len() == old(v)@.len(),
        final(v)@.to_multiset() == old(v)@.to_multiset(),
        orders(old(v)@.to_multiset()) ==> ascending(final(v)@),
{
    let n: usize = v.len();
    if n < 2 {
        return ;
    }
    let ghost m = v@.to_multiset();
    let mut start: usize = n / 2;
    while start > 0
        invariant
            start <= n / 2,
            2 <= n == v.len(),
            v@.len() == old(v)@.len(),
            v@.to_multiset() == m,
            m == old(v)@.to_multiset(),
            orders(m) ==> is_heap(v@, start as int, n as int),
        decreases start,
    {
        start -= 1;
        sift_down(v, start, n);
    }
    let mut end: usize = n;
    while end > 1
        invariant
            1 <= end <= n == v.len(),
            v@.len() == old(v)@.len(),
            v@.to_multiset() == m,
            m == old(v)@.to_multiset(),
            orders(m) ==> is_heap(v@, 0, end as int),
            orders(m) ==> forall|i: int, j: int|
                0 <= i < end <= j < n ==> at_most(#[trigger] v@[i], #[trigger] v@[j]),
            orders(m) ==> forall|i: int, j: int|
                end <= i < j < n ==> at_most(#[trigger] v@[i], #[trigger] v@[j]),
        decreases end,
    {
        end -= 1;
        let ghost before = v@;
        swap(v, 0, end);
        let ghost swapped = v@;
        proof {
            if orders(m) {
                assert forall|i: int| 0 <= i < end implies at_most(
                    #[trigger] swapped[i],
                    swapped[end as int],
                ) by {
                    if i == 0 {
                        lemma_root_is_most(before, end + 1, end as int);
                    } else {
                        lemma_root_is_most(before, end + 1, i);
                    }
                }
                assert(is_heap(swapped, 1, end as int)) by {
                    assert forall|i: int, c: int|
                        1 <= i < c < end && (c == 2 * i + 1 || c == 2 * i + 2) implies at_most(
                        #[trigger] swapped[c],
                        #[trigger] swapped[i],
                    ) by {
                        assert(at_most(before[c], before[i]));
                    }
                }
            }
        }
        sift_down(v, 0, end);
        proof {
            if orders(m) {
                assert forall|i: int, j: int| 0 <= i < end <= j < n implies at_most(
                    #[trigger] v@[i],
                    #[trigger] v@[j],
                ) by {
                    assert(drawn_from(v@[i], swapped, 0, end as int));
                    let k = choose|k: int| 0 <= k < end && swapped[k] == v@[i];
                    if j == end {
                        assert(at_most(swapped[k], swapped[end as int]));
                    } else {
                        if k == 0 {
                            assert(at_most(before[end as int], before[j]));
                        } else {
                            assert(at_most(before[k], before[j]));
                        }
                    }
                }
                assert forall|i: int, j: int| end <= i < j < n implies at_most(
                    #[trigger] v@[i],
                    #[trigger] v@[j],
                ) by {
                    if i == end {
                        assert(at_most(before[0], before[j]));
                    } else {
                        assert(at_most(before[i], before[j]));
                    }
                }
            }
        }
    }
}

/// Whether `r` is the absolute residual of the fitted value `f` against the
/// observation `y`.
pub open spec fn is_residual<T: Scalar>(y: T, f: T, r: T) -> bool {
    exists|d: T| is_difference(y, f, d) && is_abs(d, r)
}

/// Whether `w` is the bisquare weight of the residual `r` for the scale
/// `cmad`: `(1 - (r / cmad)^2)^2`.
pub open spec fn is_bisquare<T: Scalar>(r: T, cmad: T, one: T, w: T) -> bool {
    exists|q: T, q2: T, e: T|
        is_quotient(r, cmad, q) && is_int_power(q, 2, q2) && is_difference(one, q2, e)
            && is_int_power(e, 2, w)
}

/// Whether `w` is the robustness weight of an observation `y` fitted as
/// `f`: `one` where the residual is within `c1`, the bisquare weight where
/// it is within `c9`, and zero beyond.
pub open spec fn is_robustness_weight<T: Scalar>(
    y: T,
    f: T,
    cmad: T,
    c1: T,
    c9: T,
    one: T,
    w: T,
) -> bool {
    exists|r: T, small: bool|
        is_residual(y, f, r) && is_le(r, c1, small) && if small {
            w == one
        } else {
            exists|middling: bool|
                is_le(r, c9, middling) && if middling {
                    is_bisquare(r, cmad, one, w)
                } else {
                    is_count(0, w)
                }
        }
}

/// Whether `cmad` is the scale of the residuals as `sorted` lists them:
/// three times the sum of the two in the middle, which is six times their
/// median.
pub open spec fn is_scale<T: Scalar>(sorted: Seq<T>, n: usize, cmad: T) -> bool {
    exists|three: T, pair: T|
        {
            &&& is_count(3, three)
            &&& is_sum(sorted[(n - 1) / 2], sorted[(n / 2) as int], pair)
            &&& is_product(three, pair, cmad)
        }
}

/// Whether the witnesses show that `rw` holds the robustness weights of the
/// first `n` observations `y` fitted as `fit`: `resid` are the absolute
/// residuals; `sorted` holds the same values, in ascending order where the
/// comparison orders them; and `cmad` is the scale taken from the middle of
/// `sorted`.
pub open spec fn is_robustness_weights_by<T: Scalar>(
    y: Seq<T>,
    n: usize,
    fit: Seq<T>,
    rw: Seq<T>,
    resid: Seq<T>,
    sorted: Seq<T>,
    cmad: T,
    c9: T,
    c1: T,
    one: T,
) -> bool {
    &&& resid.len() == n
    &&& sorted.len() == n
    &&& rw.len() == n
    &&& forall|i: int| 0 <= i < n ==> is_residual(y[i], fit[i], #[trigger] resid[i])
    &&& sorted.to_multiset() == resid.to_multiset()
    &&& orders(resid.to_multiset()) ==> ascending(sorted)
    &&& is_scale(sorted, n, cmad)
    &&& is_scaled(999, cmad, c9)
    &&& is_scaled(1, cmad, c1)
    &&& is_count(1, one)
    &&& forall|i: int|
        0 <= i < n ==> is_robustness_weight(y[i], fit[i], cmad, c1, c9, one, #[trigger] rw[i])
}

/// Whether `rw` holds the robustness weights of the first `n` observations
/// `y` fitted as `fit`.
pub open spec fn is_robustness_weights<T: Scalar>(
    y: Seq<T>,
    n: usize,
    fit: Seq<T>,
    rw: Seq<T>,
) -> bool {
    exists|resid: Seq<T>, sorted: Seq<T>, cmad: T, c9: T, c1: T, one: T| #[trigger]
        is_robustness_weights_by(y, n, fit, rw, resid, sorted, cmad, c9, c1, one)
}

/// Robustness weights from the residuals of `fit` against `y`.
///
/// The scale is six times the median of the absolute residuals, the median
/// being the mean of the sorted values at `(n - 1) / 2` and at `n / 2`. An
/// observation whose residual is within a thousandth of the scale weighs 1,
/// one beyond 999 thousandths of it weighs 0, and the others follow the
/// bisquare kernel. Where the scale is zero, this leaves weight 1 to the
/// observations that are met exactly and 0 to all others.
pub fn rwts<T: Scalar>(y: &[T], n: usize, fit: &[T], rw: &mut Vec<T>)
    requires
        1 <= n <= y@.len(),
        n <= fit@.len(),
        old(rw)@.len() == n,
    ensures
        final(rw)@.len() == n,
        is_robustness_weights(y@, n, fit@, final(rw)@),
{
    let mut i: usize = 0;
    while i < n
        invariant
            i <= n <= y@.len(),
            n <= fit@.len(),
            rw@.len() == n,
            forall|q: int| 0 <= q < i ==> is_residual(y@[q], fit@[q], #[trigger] rw@[q]),
        decreases n - i,
    {
        let d: T = y[i].minus(fit[i]);
        let r: T = d.abs();
        assert(is_difference(y@[i as int], fit@[i as int], d) && is_abs(d, r));
        rw[i] = r;
        i += 1;
    }
    let ghost resid = rw@;

    let mid1: usize = (n - 1) / 2;
    let mid2: usize = n / 2;

    sort(rw);
    let ghost sorted = rw@;

    let one: T = T::from_count(1);
    let three: T = T::from_count(3);
    let pair: T = rw[mid1].plus(rw[mid2]);
    let cmad: T = three.times(pair);
    assert(is_count(3, three) && is_sum(sorted[(n - 1) / 2], sorted[(n / 2) as int], pair)
        && is_product(three, pair, cmad));
    let c9: T = scaled(999, cmad);
    let c1: T = scaled(1, cmad);

    let mut i: usize = 0;
    while i < n
        invariant
            i <= n <= y@.len(),
            n <= fit@.len(),
            rw@.len() == n,
            is_count(1, one),
            forall|q: int|
                0 <= q < i ==> is_robustness_weight(
                    y@[q],
                    fit@[q],
                    cmad,
                    c1,
                    c9,
                    one,
                    #[trigger] rw@[q],
                ),
        decreases n - i,
    {
        let d: T = y[i].minus(fit[i]);
        let r: T = d.abs();
        assert(is_difference(y@[i as int], fit@[i as int], d) && is_abs(d, r));
        let small: bool = r.le(c1);
        let w: T = if small {
            one
        } else {
            let middling: bool = r.le(c9);
            let w: T = if middling {
                let q: T = r.over(cmad);
                let q2: T = q.powi(2);
                let e: T = one.minus(q2);
                let b: T = e.powi(2);
                assert(is_quotient(r, cmad, q) && is_int_power(q, 2, q2) && is_difference(
                    one,
                    q2,
                    e,
                ) && is_int_power(e, 2, b));
                b
            } else {
                T::from_count(0)
            };
            assert(is_le(r, c9, middling) && if middling {
                is_bisquare(r, cmad, one, w)
            } else {
                is_count(0, w)
            });
            w
        };
        assert(is_residual(y@[i as int], fit@[i as int], r) && is_le(r, c1, small));
        rw[i] = w;
        i += 1;
    }
    assert(is_robustness_weights_by(y@, n, fit@, rw@, resid, sorted, cmad, c9, c1, one));
}

} // verus!
