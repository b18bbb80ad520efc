//! The local regression at one position: the window of neighbours, their
//! weights, and the weighted fit.

use crate::scalar::is_abs;
use crate::scalar::is_count;
use crate::scalar::is_difference;
use crate::scalar::is_int_power;
use crate::scalar::is_larger;
use crate::scalar::is_le;
use crate::scalar::is_lt;
use crate::scalar::is_product;
use crate::scalar::is_quotient;
use crate::scalar::is_root;
use crate::scalar::is_sum;
use crate::scalar::is_summation;
use crate::scalar::larger;
use crate::scalar::lemma_summation_start;
use crate::scalar::lemma_summation_step;
use crate::scalar::Scalar;
use crate::scalar::sums_to;
use vstd::prelude::*;

verus! {

/// First position (counted from 1) of the window of `len` neighbours used to
/// fit position `i` of a sequence of `n`: centred on `i` where that fits,
/// held at the edge of the sequence where it does not. A window as long as
/// the sequence, or longer, is the whole sequence.
pub open spec fn window_left(i: int, n: int, len: int) -> int {
    let half = (len + 1) / 2;
    if len >= n || i < half {
        1
    } else if i > n - half {
        n - len + 1
    } else {
        i - half + 1
    }
}

/// Last position of the window that starts at [`window_left`].
pub open spec fn window_right(i: int, n: int, len: int) -> int {
    if len >= n {
        n
    } else {
        window_left(i, n, len) + len - 1
    }
}

/// The window of [`window_left`] and [`window_right`] for position `i`.
pub fn window_at(i: usize, n: usize, len: usize) -> (r: (usize, usize))
    requires
        1 <= i <= n,
        1 <= len,
    ensures
        r.0 == window_left(i as int, n as int, len as int),
        r.1 == window_right(i as int, n as int, len as int),
        1 <= r.0 <= i <= r.1 <= n,
        r.1 - r.0 + 1 == if len < n { len } else { n },
{
    if len >= n {
        (1, n)
    } else {
        let half: usize = (len + 1) / 2;
        if i < half {
            (1, len)
        } else if i > n - half {
            (n - len + 1, n)
        } else {
            (i - half + 1, i - half + len)
        }
    }
}

/// Whether `r` is `k / 1000` in the arithmetic of `T`.
pub open spec fn is_thousandths<T: Scalar>(k: usize, r: T) -> bool {
    exists|c: T, d: T| is_count(k, c) && is_count(1000, d) && is_quotient(c, d, r)
}

/// Whether `r` is `k` thousandths of `h`.
pub open spec fn is_scaled<T: Scalar>(k: usize, h: T, r: T) -> bool {
    exists|f: T| is_thousandths(k, f) && is_product(f, h, r)
}

/// Whether `h` is the bandwidth of a fit at `xs` over `nleft..=nright`: the
/// larger of the distances from `xs` to either end, and where the window
/// `len` is longer than the sequence `n`, half the excess more.
pub open spec fn is_bandwidth<T: Scalar>(
    n: usize,
    len: usize,
    xs: T,
    nleft: usize,
    nright: usize,
    h: T,
) -> bool {
    exists|cl: T, dl: T, cr: T, dr: T, h0: T|
        {
            &&& is_count(nleft, cl)
            &&& is_difference(xs, cl, dl)
            &&& is_count(nright, cr)
            &&& is_difference(cr, xs, dr)
            &&& is_larger(dl, dr, h0)
            &&& if len > n {
                exists|e: T| is_count(((len - n) / 2) as usize, e) && is_sum(h0, e, h)
            } else {
                h == h0
            }
        }
}

/// Whether `w` is the tri-cube weight of the distance `r` for the bandwidth
/// `h`: `(1 - (r / h)^3)^3`.
pub open spec fn is_tricube<T: Scalar>(r: T, h: T, one: T, w: T) -> bool {
    exists|q: T, q3: T, d: T|
        is_quotient(r, h, q) && is_int_power(q, 3, q3) && is_difference(one, q3, d)
            && is_int_power(d, 3, w)
}

/// Whether `w` is the kernel weight `base`, times the robustness weight
/// `rwj` where `userw` holds.
pub open spec fn is_weighted<T: Scalar>(base: T, userw: bool, rwj: T, w: T) -> bool {
    if userw {
        is_product(base, rwj, w)
    } else {
        w == base
    }
}

/// Whether `w` is the weight of a neighbour at distance `r` that lies within
/// the bandwidth: 1 within `h1`, else the tri-cube weight; times the
/// robustness weight `rwj` where `userw` holds.
pub open spec fn is_kernel_weight<T: Scalar>(
    r: T,
    h: T,
    h1: T,
    one: T,
    userw: bool,
    rwj: T,
    w: T,
) -> bool {
    exists|close: bool|
        is_le(r, h1, close) && if close {
            is_weighted(one, userw, rwj, w)
        } else {
            exists|base: T| is_tricube(r, h, one, base) && is_weighted(base, userw, rwj, w)
        }
}

/// Whether `w` is the weight of the neighbour at position `pos` in a fit at
/// `xs`, and `t` what it adds to the sum of the weights: beyond `h9` the
/// weight is zero and adds nothing; within, it is the kernel weight.
pub open spec fn is_neighbour_weight<T: Scalar>(
    pos: usize,
    xs: T,
    h: T,
    h9: T,
    h1: T,
    zero: T,
    one: T,
    userw: bool,
    rwj: T,
    w: T,
    t: Option<T>,
) -> bool {
    exists|c: T, d: T, r: T, near: bool|
        {
            &&& is_count(pos, c)
            &&& is_difference(c, xs, d)
            &&& is_abs(d, r)
            &&& is_le(r, h9, near)
            &&& if near {
                t == Some(w) && is_kernel_weight(r, h, h1, one, userw, rwj, w)
            } else {
                t is None && w == zero
            }
        }
}

/// The terms of the sum of the weights `w` of a fit at `xs`.
pub open spec fn weights_of<T: Scalar>(
    xs: T,
    h: T,
    h9: T,
    h1: T,
    zero: T,
    one: T,
    userw: bool,
    rw: Seq<T>,
    w: Seq<T>,
) -> spec_fn(int, Option<T>) -> bool {
    |j: int, t: Option<T>|
        is_neighbour_weight((j + 1) as usize, xs, h, h9, h1, zero, one, userw, rw[j], w[j], t)
}

/// The terms of the weighted centre of the positions: position `j` (counted
/// from 0 here) adds its weight times the number for `j + 1`.
pub open spec fn moments_of<T: Scalar>(w: Seq<T>) -> spec_fn(int, Option<T>) -> bool {
    |j: int, t: Option<T>|
        exists|c: T, p: T| is_count((j + 1) as usize, c) && is_product(w[j], c, p) && t == Some(p)
}

/// The terms of the weighted spread of the positions about `centre`:
/// position `j` adds its weight times the square of its distance from there.
pub open spec fn spreads_of<T: Scalar>(w: Seq<T>, centre: T) -> spec_fn(int, Option<T>) -> bool {
    |j: int, t: Option<T>|
        exists|c: T, d: T, sq: T, p: T|
            {
                &&& is_count((j + 1) as usize, c)
                &&& is_difference(c, centre, d)
                &&& is_int_power(d, 2, sq)
                &&& is_product(w[j], sq, p)
                &&& t == Some(p)
            }
}

/// The terms of the fitted value: position `j` adds its weight times its
/// observation.
pub open spec fn products_of<T: Scalar>(w: Seq<T>, y: Seq<T>) -> spec_fn(int, Option<T>) -> bool {
    |j: int, t: Option<T>| exists|p: T| is_product(w[j], y[j], p) && t == Some(p)
}

/// Whether `w2` is the weight `w1` of position `pos` tilted for a local
/// line of slope factor `b` about `centre`: `w1 * (b * (pos - centre) + 1)`.
pub open spec fn is_tilted<T: Scalar>(w1: T, b: T, pos: usize, centre: T, one: T, w2: T) -> bool {
    exists|c: T, d: T, p: T, f: T|
        {
            &&& is_count(pos, c)
            &&& is_difference(c, centre, d)
            &&& is_product(b, d, p)
            &&& is_sum(p, one, f)
            &&& is_product(w1, f, w2)
        }
}

/// Whether `w2` holds, over the positions `lo..hi`, the weights `w1` as a
/// local line asks for them. With `centre` the weighted centre of the
/// positions and `c` their weighted spread about it: where the root of `c`
/// exceeds a thousandth of `n - 1`, each weight is tilted by
/// `(xs - centre) / c`; where it does not, the weights stay as they are.
pub open spec fn is_line_fit<T: Scalar>(
    n: usize,
    xs: T,
    lo: int,
    hi: int,
    zero: T,
    one: T,
    w1: Seq<T>,
    w2: Seq<T>,
) -> bool {
    exists|centre: T, b: T, c: T, cn: T, range: T, bound: T, root: T, spread: bool|
        {
            &&& sums_to(lo, hi, zero, moments_of(w1), centre)
            &&& is_difference(xs, centre, b)
            &&& sums_to(lo, hi, zero, spreads_of(w1, centre), c)
            &&& is_count(n, cn)
            &&& is_difference(cn, one, range)
            &&& is_scaled(1, range, bound)
            &&& is_root(c, root)
            &&& is_lt(bound, root, spread)
            &&& if spread {
                exists|b2: T|
                    is_quotient(b, c, b2) && forall|j: int|
                        lo <= j < hi ==> is_tilted(
                            w1[j],
                            b2,
                            (j + 1) as usize,
                            centre,
                            one,
                            #[trigger] w2[j],
                        )
            } else {
                forall|j: int| lo <= j < hi ==> #[trigger] w2[j] == w1[j]
            }
        }
}

/// Whether `w2` holds, over the positions `lo..hi`, the final weights of a
/// fit of degree `ideg`: those of [`is_line_fit`] where the degree is above
/// zero and the bandwidth `h` is, and the normalised weights `w1` elsewhere.
pub open spec fn is_slope_correction<T: Scalar>(
    n: usize,
    ideg: i32,
    xs: T,
    lo: int,
    hi: int,
    zero: T,
    one: T,
    h: T,
    w1: Seq<T>,
    w2: Seq<T>,
) -> bool {
    exists|wide: bool|
        is_lt(zero, h, wide) && if wide && ideg > 0 {
            is_line_fit(n, xs, lo, hi, zero, one, w1, w2)
        } else {
            forall|j: int| lo <= j < hi ==> #[trigger] w2[j] == w1[j]
        }
}

/// Whether the witnesses show that `fitted` is a fit at `xs` over
/// `nleft..=nright`: `w0` are the weights of the neighbours and `a` their
/// sum; where `a` is not above zero there is no fit; else `w1` are the
/// weights over `a`, `w2` those after the correction for the slope, and the
/// fit is the sum of the observations, each weighted by `w2`.
pub open spec fn is_fit_by<T: Scalar>(
    y: Seq<T>,
    n: usize,
    len: usize,
    ideg: i32,
    xs: T,
    nleft: usize,
    nright: usize,
    userw: bool,
    rw: Seq<T>,
    fitted: Option<T>,
    zero: T,
    one: T,
    h: T,
    h9: T,
    h1: T,
    w0: Seq<T>,
    a: T,
    none: bool,
    w1: Seq<T>,
    w2: Seq<T>,
) -> bool {
    &&& is_count(0, zero)
    &&& is_count(1, one)
    &&& is_bandwidth(n, len, xs, nleft, nright, h)
    &&& is_scaled(999, h, h9)
    &&& is_scaled(1, h, h1)
    &&& sums_to(
        nleft - 1,
        nright as int,
        zero,
        weights_of(xs, h, h9, h1, zero, one, userw, rw, w0),
        a,
    )
    &&& is_le(a, zero, none)
    &&& if none {
        fitted is None
    } else {
        &&& fitted is Some
        &&& forall|j: int| nleft - 1 <= j < nright ==> is_quotient(w0[j], a, #[trigger] w1[j])
        &&& is_slope_correction(n, ideg, xs, nleft - 1, nright as int, zero, one, h, w1, w2)
        &&& sums_to(nleft - 1, nright as int, zero, products_of(w2, y), fitted.unwrap())
    }
}

/// Whether `fitted` is a fit at `xs` of degree `ideg` to the first `n`
/// values of `y`, over the neighbours at positions `nleft..=nright`, for a
/// window of `len` and, where `userw` holds, the robustness weights `rw`.
pub open spec fn is_fit<T: Scalar>(
    y: Seq<T>,
    n: usize,
    len: usize,
    ideg: i32,
    xs: T,
    nleft: usize,
    nright: usize,
    userw: bool,
    rw: Seq<T>,
    fitted: Option<T>,
) -> bool {
    exists|
        zero: T,
        one: T,
        h: T,
        h9: T,
        h1: T,
        w0: Seq<T>,
        a: T,
        none: bool,
        w1: Seq<T>,
        w2: Seq<T>,
    | #[trigger]
        is_fit_by(
            y,
            n,
            len,
            ideg,
            xs,
            nleft,
            nright,
            userw,
            rw,
            fitted,
            zero,
            one,
            h,
            h9,
            h1,
            w0,
            a,
            none,
            w1,
            w2,
        )
}

/// `k / 1000` in the arithmetic of `T`.
pub(crate) fn thousandths<T: Scalar>(k: usize) -> (r: T)
    ensures
        is_thousandths(k, r),
{
    let c: T = T::from_count(k);
    let d: T = T::from_count(1000);
    let r: T = c.over(d);
    assert(is_count(k, c) && is_count(1000, d) && is_quotient(c, d, r));
    r
}

/// `k` thousandths of `h`.
pub(crate) fn scaled<T: Scalar>(k: usize, h: T) -> (r: T)
    ensures
        is_scaled(k, h, r),
{
    let f: T = thousandths::<T>(k);
    let r: T = f.times(h);
    assert(is_thousandths(k, f) && is_product(f, h, r));
    r
}

/// The bandwidth of a fit: see [`is_bandwidth`].
fn bandwidth<T: Scalar>(n: usize, len: usize, xs: T, nleft: usize, nright: usize) -> (h: T)
    ensures
        is_bandwidth(n, len, xs, nleft, nright, h),
{
    let cl: T = T::from_count(nleft);
    let dl: T = xs.minus(cl);
    let cr: T = T::from_count(nright);
    let dr: T = cr.minus(xs);
    let h0: T = larger(dl, dr);
    if len > n {
        let e: T = T::from_count((len - n) / 2);
        let h: T = h0.plus(e);
        assert(is_count(((len - n) / 2) as usize, e) && is_sum(h0, e, h));
        assert(is_count(nleft, cl) && is_difference(xs, cl, dl) && is_count(nright, cr)
            && is_difference(cr, xs, dr) && is_larger(dl, dr, h0));
        h
    } else {
        assert(is_count(nleft, cl) && is_difference(xs, cl, dl) && is_count(nright, cr)
            && is_difference(cr, xs, dr) && is_larger(dl, dr, h0));
        h0
    }
}

/// The weight of one neighbour and what it adds to the sum of the weights:
/// see [`is_neighbour_weight`].
fn neighbour_weight<T: Scalar>(
    pos: usize,
    xs: T,
    h: T,
    h9: T,
    h1: T,
    zero: T,
    one: T,
    userw: bool,
    rwj: T,
) -> (r: (T, Option<T>))
    ensures
        is_neighbour_weight(pos, xs, h, h9, h1, zero, one, userw, rwj, r.0, r.1),
{
    let c: T = T::from_count(pos);
    let d: T = c.minus(xs);
    let r: T = d.abs();
    let near: bool = r.le(h9);
    if near {
        let close: bool = r.le(h1);
        let base: T = if close {
            one
        } else {
            let q: T = r.over(h);
            let q3: T = q.powi(3);
            let e: T = one.minus(q3);
            let b: T = e.powi(3);
            assert(is_quotient(r, h, q) && is_int_power(q, 3, q3) && is_difference(one, q3, e)
                && is_int_power(e, 3, b));
            assert(is_tricube(r, h, one, b));
            b
        };
        let w: T = if userw {
            base.times(rwj)
        } else {
            base
        };
        assert(is_kernel_weight(r, h, h1, one, userw, rwj, w)) by {
            assert(is_weighted(base, userw, rwj, w));
            if !close {
                assert(is_tricube(r, h, one, base) && is_weighted(base, userw, rwj, w));
            }
            assert(is_le(r, h1, close));
        }
        assert(is_count(pos, c) && is_difference(c, xs, d) && is_abs(d, r) && is_le(r, h9, near)
            && (if near {
            Some(w) == Some(w) && is_kernel_weight(r, h, h1, one, userw, rwj, w)
        } else {
            w == zero
        }));
        (w, Some(w))
    } else {
        assert(is_count(pos, c) && is_difference(c, xs, d) && is_abs(d, r) && is_le(r, h9, near));
        (zero, None)
    }
}

/// The corrected weights of a local line, in place: see [`is_line_fit`].
fn line_fit<T: Scalar>(n: usize, xs: T, lo: usize, hi: usize, zero: T, one: T, w: &mut Vec<T>)
    requires
        lo <= hi <= old(w).len(),
        hi <= n,
    ensures
        final(w)@.len() == old(w)@.len(),
        forall|i: int| 0 <= i < lo || hi <= i < old(w)@.len() ==> final(w)@[i] == old(w)@[i],
        is_line_fit(n, xs, lo as int, hi as int, zero, one, old(w)@, final(w)@),
{
    let ghost w1 = w@;
    let mut centre: T = zero;
    let ghost mut terms: Seq<Option<T>> = Seq::new(lo as nat, |i: int| None);
    let ghost mut acc: Seq<T> = Seq::new((lo + 1) as nat, |i: int| zero);
    proof {
        lemma_summation_start(lo as int, zero, moments_of(w1));
    }
    let mut j: usize = lo;
    while j < hi
        invariant
            lo <= j <= hi <= w.len(),
            hi <= n,
            w@ == w1,
            is_summation(lo as int, j as int, zero, moments_of(w1), terms, acc, centre),
        decreases hi - j,
    {
        let cj: T = T::from_count(j + 1);
        let p: T = w[j].times(cj);
        let next: T = centre.plus(p);
        proof {
            assert(is_count((j + 1) as usize, cj) && is_product(w1[j as int], cj, p) && Some(p)
                == Some(p));
            assert(moments_of(w1)(j as int, Some(p)));
            lemma_summation_step(
                lo as int,
                j as int,
                zero,
                moments_of(w1),
                terms,
                acc,
                centre,
                Some(p),
                next,
            );
            terms = terms.push(Some(p));
            acc = acc.push(next);
        }
        centre = next;
        j += 1;
    }
    assert(sums_to(lo as int, hi as int, zero, moments_of(w1), centre));
    let b: T = xs.minus(centre);
    let mut c: T = zero;
    let ghost mut terms: Seq<Option<T>> = Seq::new(lo as nat, |i: int| None);
    let ghost mut acc: Seq<T> = Seq::new((lo + 1) as nat, |i: int| zero);
    proof {
        lemma_summation_start(lo as int, zero, spreads_of(w1, centre));
    }
    let mut j: usize = lo;
    while j < hi
        invariant
            lo <= j <= hi <= w.len(),
            hi <= n,
            w@ == w1,
            is_summation(lo as int, j as int, zero, spreads_of(w1, centre), terms, acc, c),
        decreases hi - j,
    {
        let cj: T = T::from_count(j + 1);
        let d: T = cj.minus(centre);
        let sq: T = d.powi(2);
        let p: T = w[j].times(sq);
        let next: T = c.plus(p);
        proof {
            assert(is_count((j + 1) as usize, cj) && is_difference(cj, centre, d) && is_int_power(
                d,
                2,
                sq,
            ) && is_product(w1[j as int], sq, p));
            assert(spreads_of(w1, centre)(j as int, Some(p)));
            lemma_summation_step(
                lo as int,
                j as int,
                zero,
                spreads_of(w1, centre),
                terms,
                acc,
                c,
                Some(p),
                next,
            );
            terms = terms.push(Some(p));
            acc = acc.push(next);
        }
        c = next;
        j += 1;
    }
    assert(sums_to(lo as int, hi as int, zero, spreads_of(w1, centre), c));
    let cn: T = T::from_count(n);
    let range: T = cn.minus(one);
    let bound: T = scaled(1, range);
    let root: T = c.sqrt();
    let spread: bool = bound.lt(root);
    if spread {
        let b2: T = b.over(c);
        let mut j: usize = lo;
        while j < hi
            invariant
                lo <= j <= hi <= w.len(),
                hi <= n,
                w@.len() == w1.len(),
                forall|i: int| 0 <= i < lo || j <= i < w1.len() ==> w@[i] == w1[i],
                forall|i: int|
                    lo <= i < j ==> is_tilted(
                        w1[i],
                        b2,
                        (i + 1) as usize,
                        centre,
                        one,
                        #[trigger] w@[i],
                    ),
            decreases hi - j,
        {
            let cj: T = T::from_count(j + 1);
            let d: T = cj.minus(centre);
            let p: T = b2.times(d);
            let f: T = p.plus(one);
            let t: T = w[j].times(f);
            assert(is_count((j + 1) as usize, cj) && is_difference(cj, centre, d) && is_product(
                b2,
                d,
                p,
            ) && is_sum(p, one, f) && is_product(w1[j as int], f, t));
            w[j] = t;
            j += 1;
        }
        assert(is_quotient(b, c, b2) && forall|i: int|
            lo <= i < hi ==> is_tilted(w1[i], b2, (i + 1) as usize, centre, one, #[trigger] w@[i]));
    }
    assert(sums_to(lo as int, hi as int, zero, moments_of(w1), centre));
    assert(sums_to(lo as int, hi as int, zero, spreads_of(w1, centre), c));
    assert(is_difference(xs, centre, b) && is_count(n, cn) && is_difference(cn, one, range)
        && is_scaled(1, range, bound) && is_root(c, root) && is_lt(bound, root, spread));
}

/// Fits one value at position `xs` by weighted least squares over positions
/// `nleft..=nright` of `y`, of degree `ideg`, with tri-cube weights in the
/// distance from `xs` and, where `userw` holds, the robustness weights `rw`.
/// `None` where the weights add up to nothing. `w` is scratch space.
pub fn est<T: Scalar>(
    y: &[T],
    n: usize,
    len: usize,
    ideg: i32,
    xs: T,
    nleft: usize,
    nright: usize,
    w: &mut Vec<T>,
    userw: bool,
    rw: &[T],
) -> (fitted: Option<T>)
    requires
        1 <= nleft <= nright <= n,
        n <= y@.len(),
        n <= old(w)@.len(),
        userw ==> n <= rw@.len(),
    ensures
        final(w)@.len() == old(w)@.len(),
        forall|i: int|
            0 <= i < nleft - 1 || nright <= i < old(w)@.len() ==> final(w)@[i] == old(w)@[i],
        is_fit(y@, n, len, ideg, xs, nleft, nright, userw, rw@, fitted),
{
    let zero: T = T::from_count(0);
    let one: T = T::from_count(1);
    let h: T = bandwidth(n, len, xs, nleft, nright);
    let h9: T = scaled(999, h);
    let h1: T = scaled(1, h);
    let lo: usize = nleft - 1;

    let mut a: T = zero;
    let ghost mut terms: Seq<Option<T>> = Seq::new(lo as nat, |i: int| None);
    let ghost mut acc: Seq<T> = Seq::new((lo + 1) as nat, |i: int| zero);
    let ghost mut w0: Seq<T> = w@;
    proof {
        lemma_summation_start(
            lo as int,
            zero,
            weights_of(xs, h, h9, h1, zero, one, userw, rw@, w0),
        );
    }
    let mut j: usize = lo;
    while j < nright
        invariant
            lo <= j <= nright <= n <= w@.len(),
            w@.len() == old(w)@.len(),
            userw ==> n <= rw@.len(),
            forall|i: int| 0 <= i < lo || nright <= i < old(w)@.len() ==> w@[i] == old(w)@[i],
            w0 == w@,
            terms.len() == j,
            acc.len() == j + 1,
            acc[lo as int] == zero,
            acc[j as int] == a,
            forall|q: int|
                lo <= q < j ==> is_neighbour_weight(
                    (q + 1) as usize,
                    xs,
                    h,
                    h9,
                    h1,
                    zero,
                    one,
                    userw,
                    rw@[q],
                    w@[q],
                    #[trigger] terms[q],
                ) && match terms[q] {
                    Some(t) => is_sum(acc[q], t, acc[q + 1]),
                    None => acc[q + 1] == acc[q],
                },
        decreases nright - j,
    {
        let rwj: T = if userw {
            rw[j]
        } else {
            zero
        };
        let r: (T, Option<T>) = neighbour_weight(j + 1, xs, h, h9, h1, zero, one, userw, rwj);
        let next: T = match r.1 {
            Some(t) => a.plus(t),
            None => a,
        };
        w[j] = r.0;
        proof {
            if !userw {
                lemma_weight_ignores_robustness(
                    (j + 1) as usize,
                    xs,
                    h,
                    h9,
                    h1,
                    zero,
                    one,
                    rwj,
                    rw@[j as int],
                    r.0,
                    r.1,
                );
            }
            terms = terms.push(r.1);
            acc = acc.push(next);
            w0 = w@;
        }
        a = next;
        j += 1;
    }
    assert(is_summation(
        lo as int,
        nright as int,
        zero,
        weights_of(xs, h, h9, h1, zero, one, userw, rw@, w0),
        terms,
        acc,
        a,
    ));

    let none: bool = a.le(zero);
    if none {
        assert(is_fit_by(
            y@,
            n,
            len,
            ideg,
            xs,
            nleft,
            nright,
            userw,
            rw@,
            None,
            zero,
            one,
            h,
            h9,
            h1,
            w0,
            a,
            none,
            w0,
            w0,
        ));
        return None;
    }
    let mut j: usize = lo;
    while j < nright
        invariant
            lo <= j <= nright <= n <= w@.len(),
            w@.len() == old(w)@.len(),
            w@.len() == w0.len(),
            forall|i: int| 0 <= i < lo || nright <= i < old(w)@.len() ==> w@[i] == old(w)@[i],
            forall|i: int| j <= i < nright ==> w@[i] == w0[i],
            forall|i: int| lo <= i < j ==> is_quotient(w0[i], a, #[trigger] w@[i]),
        decreases nright - j,
    {
        w[j] = w[j].over(a);
        j += 1;
    }
    let ghost w1 = w@;

    let wide: bool = zero.lt(h);
    if wide && ideg > 0 {
        line_fit(n, xs, lo, nright, zero, one, w);
    }
    let ghost w2 = w@;
    assert(is_slope_correction(n, ideg, xs, lo as int, nright as int, zero, one, h, w1, w2)) by {
        assert(is_lt(zero, h, wide));
    }

    let mut ys: T = zero;
    let ghost mut terms: Seq<Option<T>> = Seq::new(lo as nat, |i: int| None);
    let ghost mut acc: Seq<T> = Seq::new((lo + 1) as nat, |i: int| zero);
    proof {
        lemma_summation_start(lo as int, zero, products_of(w2, y@));
    }
    let mut j: usize = lo;
    while j < nright
        invariant
            lo <= j <= nright <= n <= w@.len(),
            n <= y@.len(),
            w@ == w2,
            is_summation(lo as int, j as int, zero, products_of(w2, y@), terms, acc, ys),
        decreases nright - j,
    {
        let p: T = w[j].times(y[j]);
        let next: T = ys.plus(p);
        proof {
            assert(is_product(w2[j as int], y@[j as int], p));
            assert(products_of(w2, y@)(j as int, Some(p)));
            lemma_summation_step(
                lo as int,
                j as int,
                zero,
                products_of(w2, y@),
                terms,
                acc,
                ys,
                Some(p),
                next,
            );
            terms = terms.push(Some(p));
            acc = acc.push(next);
        }
        ys = next;
        j += 1;
    }
    assert(sums_to(lo as int, nright as int, zero, products_of(w2, y@), ys));
    assert(is_fit_by(
        y@,
        n,
        len,
        ideg,
        xs,
        nleft,
        nright,
        userw,
        rw@,
        Some(ys),
        zero,
        one,
        h,
        h9,
        h1,
        w0,
        a,
        none,
        w1,
        w2,
    ));
    Some(ys)
}

/// Where no robustness weights are in use, the weight of a neighbour is the
/// same whatever stands in their place.
proof fn lemma_weight_ignores_robustness<T: Scalar>(
    pos: usize,
    xs: T,
    h: T,
    h9: T,
    h1: T,
    zero: T,
    one: T,
    rwj: T,
    other: T,
    w: T,
    t: Option<T>,
)
    requires
        is_neighbour_weight(pos, xs, h, h9, h1, zero, one, false, rwj, w, t),
    ensures
        is_neighbour_weight(pos, xs, h, h9, h1, zero, one, false, other, w, t),
{
    let (c, d, r, near) = choose|c: T, d: T, r: T, near: bool|
        {
            &&& is_count(pos, c)
            &&& is_difference(c, xs, d)
            &&& is_abs(d, r)
            &&& is_le(r, h9, near)
            &&& if near {
                t == Some(w) && is_kernel_weight(r, h, h1, one, false, rwj, w)
            } else {
                t is None && w == zero
            }
        };
    if near {
        let close = choose|close: bool|
            is_le(r, h1, close) && if close {
                is_weighted(one, false, rwj, w)
            } else {
                exists|base: T| is_tricube(r, h, one, base) && is_weighted(base, false, rwj, w)
            };
        if close {
            assert(is_weighted(one, false, other, w));
        } else {
            let base = choose|base: T|
                is_tricube(r, h, one, base) && is_weighted(base, false, rwj, w);
            assert(is_tricube(r, h, one, base) && is_weighted(base, false, other, w));
        }
        assert(is_le(r, h1, close));
        assert(is_kernel_weight(r, h, h1, one, false, other, w));
    }
    assert(is_count(pos, c) && is_difference(c, xs, d) && is_abs(d, r) && is_le(r, h9, near));
}

} // verus!
