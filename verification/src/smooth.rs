//! Smoothing of a whole sequence: fits at the anchors of a stride, straight
//! lines between them.

use crate::loess::est;
use crate::loess::is_fit;
use crate::loess::window_at;
use crate::loess::window_left;
use crate::loess::window_right;
use crate::scalar::is_count;
use crate::scalar::is_difference;
use crate::scalar::is_product;
use crate::scalar::is_quotient;
use crate::scalar::is_sum;
use crate::scalar::Scalar;
use vstd::prelude::*;

verus! {

/// The last position that a walk from 1 in steps of `jump` reaches within a
/// sequence of `n`.
pub open spec fn last_anchor(n: int, jump: int) -> int {
    n - (n - 1) % jump
}

/// The stride in use on a sequence of `n >= 2`: the one asked for, but never
/// beyond the sequence.
pub open spec fn stride(n: int, jump: int) -> int {
    if jump < n - 1 {
        jump
    } else {
        n - 1
    }
}

/// Whether `v` is the smoothed value at position `i` of the first `n`
/// values of `y`: the fit at `i` over the neighbours `l..=r`, or, where
/// there is no fit, the observation itself.
pub open spec fn is_smoothed_at<T: Scalar>(
    y: Seq<T>,
    n: usize,
    len: usize,
    ideg: i32,
    i: usize,
    l: usize,
    r: usize,
    userw: bool,
    rw: Seq<T>,
    v: T,
) -> bool {
    exists|xs: T, fitted: Option<T>|
        {
            &&& is_count(i, xs)
            &&& is_fit(y, n, len, ideg, xs, l, r, userw, rw, fitted)
            &&& v == match fitted {
                Some(f) => f,
                None => y[i - 1],
            }
        }
}

/// Whether `v` lies `steps` places up the line from `base` with the rise
/// `delta` per place: `base + delta * steps`.
pub open spec fn is_on_line<T: Scalar>(base: T, delta: T, steps: usize, v: T) -> bool {
    exists|c: T, inc: T| is_count(steps, c) && is_product(delta, c, inc) && is_sum(base, inc, v)
}

/// Whether the places strictly between positions `lo` and `hi` of the
/// sequence that starts at `ys[at]` lie on the straight line from the value
/// at `lo` to the value at `hi`.
pub open spec fn is_ramp<T: Scalar>(ys: Seq<T>, at: int, lo: int, hi: int) -> bool {
    exists|span: T, d: T, delta: T|
        {
            &&& is_count((hi - lo) as usize, span)
            &&& is_difference(ys[at + hi - 1], ys[at + lo - 1], d)
            &&& is_quotient(d, span, delta)
            &&& forall|k: int|
                at + lo <= k < at + hi - 1 ==> is_on_line(
                    ys[at + lo - 1],
                    delta,
                    (k - at - lo + 1) as usize,
                    #[trigger] ys[k],
                )
        }
}

/// Whether each anchor of the stride `s` among the first `upto` positions
/// holds the smoothed value over its window.
pub open spec fn anchors_smoothed<T: Scalar>(
    y: Seq<T>,
    n: usize,
    len: usize,
    ideg: i32,
    s: int,
    userw: bool,
    rw: Seq<T>,
    ys: Seq<T>,
    at: int,
    upto: int,
) -> bool {
    forall|p: int|
        at <= p < at + upto && (p - at) % s == 0 ==> is_smoothed_at(
            y,
            n,
            len,
            ideg,
            (p - at + 1) as usize,
            window_left(p - at + 1, n as int, len as int) as usize,
            window_right(p - at + 1, n as int, len as int) as usize,
            userw,
            rw,
            #[trigger] ys[p],
        )
}

/// Whether from each anchor of the stride `s` before position `upto` a ramp
/// leads to the next anchor.
pub open spec fn ramps_laid<T: Scalar>(ys: Seq<T>, at: int, s: int, upto: int) -> bool {
    forall|lo: int| 1 <= lo < upto && (lo - 1) % s == 0 ==> #[trigger] is_ramp(ys, at, lo, lo + s)
}

/// Whether `ys[at .. at + n]` holds the first `n` values of `y` smoothed
/// with a window of `len`, degree `ideg` and stride `njump`.
///
/// With `s` the stride in use: each position `1, 1 + s, 1 + 2 s, ...` holds
/// the smoothed value over its window; the places between two of them lie on
/// the line between the two; where the walk does not end on the last
/// position, that one holds the smoothed value over the window of the last
/// anchor, and the places before it lie on the line from there. A sequence
/// of one value is that value.
pub open spec fn is_smooth<T: Scalar>(
    y: Seq<T>,
    n: usize,
    len: usize,
    ideg: i32,
    njump: usize,
    userw: bool,
    rw: Seq<T>,
    ys: Seq<T>,
    at: int,
) -> bool {
    if n < 2 {
        ys[at] == y[0]
    } else {
        let s = stride(n as int, njump as int);
        let k = last_anchor(n as int, s);
        &&& anchors_smoothed(y, n, len, ideg, s, userw, rw, ys, at, n as int)
        &&& k != n ==> is_smoothed_at(
            y,
            n,
            len,
            ideg,
            n,
            window_left(k, n as int, len as int) as usize,
            window_right(k, n as int, len as int) as usize,
            userw,
            rw,
            ys[at + n - 1],
        )
        &&& s != 1 ==> ramps_laid(ys, at, s, n - s + 1)
        &&& k < n - 1 ==> is_ramp(ys, at, k, n as int)
    }
}

/// A position that lies less than a stride beyond an anchor has that
/// distance as its remainder.
pub(crate) proof fn lemma_mod_offset(a: int, t: int, s: int)
    requires
        s > 0,
        a >= 0,
        a % s == 0,
        0 <= t < s,
    ensures
        (a + t) % s == t,
        (a + s) % s == 0,
{
    let q = a / s;
    vstd::arithmetic::div_mod::lemma_fundamental_div_mod(a, s);
    assert(q * s == s * q) by (nonlinear_arith);
    assert((q + 1) * s == s * q + s) by (nonlinear_arith);
    vstd::arithmetic::div_mod::lemma_fundamental_div_mod_converse(a + t, s, q, t);
    vstd::arithmetic::div_mod::lemma_fundamental_div_mod_converse(a + s, s, q + 1, 0);
}

/// Two anchors lie a stride apart or more.
proof fn lemma_anchors_apart(a: int, b: int, s: int)
    requires
        s > 0,
        0 <= a < b,
        a % s == 0,
        b % s == 0,
    ensures
        a + s <= b,
{
    if b < a + s {
        lemma_mod_offset(a, b - a, s);
    }
}

/// No position beyond the last anchor is an anchor.
proof fn lemma_beyond_last_anchor(k: int, n: int, s: int, a: int)
    requires
        s > 0,
        1 <= k < a <= n,
        (k - 1) % s == 0,
        n - k < s,
    ensures
        (a - 1) % s != 0,
{
    lemma_mod_offset(k - 1, a - k, s);
}

/// A ramp stays one where nothing between its two ends changes.
proof fn lemma_ramp_kept<T: Scalar>(ys: Seq<T>, zs: Seq<T>, at: int, lo: int, hi: int)
    requires
        0 <= at,
        1 <= lo < hi,
        is_ramp(ys, at, lo, hi),
        forall|k: int| at + lo - 1 <= k <= at + hi - 1 ==> #[trigger] zs[k] == ys[k],
    ensures
        is_ramp(zs, at, lo, hi),
{
    let (span, d, delta) = choose|span: T, d: T, delta: T|
        {
            &&& is_count((hi - lo) as usize, span)
            &&& is_difference(ys[at + hi - 1], ys[at + lo - 1], d)
            &&& is_quotient(d, span, delta)
            &&& forall|k: int|
                at + lo <= k < at + hi - 1 ==> is_on_line(
                    ys[at + lo - 1],
                    delta,
                    (k - at - lo + 1) as usize,
                    #[trigger] ys[k],
                )
        };
    assert(is_count((hi - lo) as usize, span) && is_difference(zs[at + hi - 1], zs[at + lo - 1], d)
        && is_quotient(d, span, delta));
    assert forall|k: int| at + lo <= k < at + hi - 1 implies is_on_line(
        zs[at + lo - 1],
        delta,
        (k - at - lo + 1) as usize,
        #[trigger] zs[k],
    ) by {
        assert(zs[k] == ys[k]);
    }
}

/// The anchors keep their smoothed values where only places change that
/// lie strictly between the anchor `from` and a position `to` no more than a
/// stride beyond it.
proof fn lemma_anchors_kept<T: Scalar>(
    y: Seq<T>,
    n: usize,
    len: usize,
    ideg: i32,
    s: int,
    userw: bool,
    rw: Seq<T>,
    before: Seq<T>,
    after: Seq<T>,
    at: int,
    upto: int,
    from: int,
    to: int,
)
    requires
        s >= 1,
        1 <= from,
        (from - 1) % s == 0,
        to - from <= s,
        anchors_smoothed(y, n, len, ideg, s, userw, rw, before, at, upto),
        forall|k: int|
            at <= k < at + upto && !(at + from <= k < at + to - 1) ==> #[trigger] after[k]
                == before[k],
    ensures
        anchors_smoothed(y, n, len, ideg, s, userw, rw, after, at, upto),
{
    assert forall|p: int| at <= p < at + upto && (p - at) % s == 0 implies is_smoothed_at(
        y,
        n,
        len,
        ideg,
        (p - at + 1) as usize,
        window_left(p - at + 1, n as int, len as int) as usize,
        window_right(p - at + 1, n as int, len as int) as usize,
        userw,
        rw,
        #[trigger] after[p],
    ) by {
        if at + from <= p < at + to - 1 {
            lemma_mod_offset(from - 1, p - at - (from - 1), s);
        }
        assert(after[p] == before[p]);
    }
}

/// Once the anchor `i` holds its smoothed value, all anchors do up to any
/// position within a stride of it.
proof fn lemma_anchor_added<T: Scalar>(
    y: Seq<T>,
    n: usize,
    len: usize,
    ideg: i32,
    s: int,
    userw: bool,
    rw: Seq<T>,
    before: Seq<T>,
    after: Seq<T>,
    at: int,
    i: int,
    upto: int,
)
    requires
        s >= 1,
        1 <= i <= upto <= i - 1 + s,
        (i - 1) % s == 0,
        anchors_smoothed(y, n, len, ideg, s, userw, rw, before, at, i - 1),
        forall|k: int| at <= k < at + i - 1 ==> #[trigger] after[k] == before[k],
        is_smoothed_at(
            y,
            n,
            len,
            ideg,
            i as usize,
            window_left(i, n as int, len as int) as usize,
            window_right(i, n as int, len as int) as usize,
            userw,
            rw,
            after[at + i - 1],
        ),
    ensures
        anchors_smoothed(y, n, len, ideg, s, userw, rw, after, at, upto),
{
    assert forall|p: int| at <= p < at + upto && (p - at) % s == 0 implies is_smoothed_at(
        y,
        n,
        len,
        ideg,
        (p - at + 1) as usize,
        window_left(p - at + 1, n as int, len as int) as usize,
        window_right(p - at + 1, n as int, len as int) as usize,
        userw,
        rw,
        #[trigger] after[p],
    ) by {
        if p > at + i - 1 {
            lemma_mod_offset(i - 1, p - at - (i - 1), s);
        } else if p < at + i - 1 {
            assert(after[p] == before[p]);
        }
    }
}

/// The ramps before the anchor `from` stay where nothing changes up to it.
proof fn lemma_ramps_kept<T: Scalar>(
    before: Seq<T>,
    after: Seq<T>,
    at: int,
    s: int,
    upto: int,
    from: int,
)
    requires
        0 <= at,
        s >= 1,
        1 <= from,
        (from - 1) % s == 0,
        upto <= from,
        ramps_laid(before, at, s, upto),
        forall|k: int| at <= k < at + from ==> #[trigger] after[k] == before[k],
    ensures
        ramps_laid(after, at, s, upto),
{
    assert forall|lo: int| 1 <= lo < upto && (lo - 1) % s == 0 implies #[trigger] is_ramp(
        after,
        at,
        lo,
        lo + s,
    ) by {
        lemma_anchors_apart(lo - 1, from - 1, s);
        lemma_ramp_kept(before, after, at, lo, lo + s);
    }
}

/// With the ramp from the anchor `i` laid, the ramps are laid up to the
/// next anchor.
proof fn lemma_ramp_added<T: Scalar>(ys: Seq<T>, at: int, s: int, i: int)
    requires
        s >= 1,
        1 <= i,
        (i - 1) % s == 0,
        ramps_laid(ys, at, s, i),
        is_ramp(ys, at, i, i + s),
    ensures
        ramps_laid(ys, at, s, i + s),
        (i + s - 1) % s == 0,
{
    lemma_mod_offset(i - 1, 0, s);
    assert forall|lo: int| 1 <= lo < i + s && (lo - 1) % s == 0 implies #[trigger] is_ramp(
        ys,
        at,
        lo,
        lo + s,
    ) by {
        if lo > i {
            lemma_mod_offset(i - 1, lo - i, s);
        }
    }
}

/// With the ramps laid up to the last anchor `k`, a ramp leads from every
/// anchor that has a next one.
proof fn lemma_ramps_complete<T: Scalar>(ys: Seq<T>, at: int, s: int, k: int, n: int)
    requires
        s >= 1,
        1 <= k <= n,
        (k - 1) % s == 0,
        n - k < s,
        ramps_laid(ys, at, s, k),
    ensures
        ramps_laid(ys, at, s, n - s + 1),
{
    assert forall|lo: int| 1 <= lo < n - s + 1 && (lo - 1) % s == 0 implies #[trigger] is_ramp(
        ys,
        at,
        lo,
        lo + s,
    ) by {
        lemma_mod_offset(lo - 1, 0, s);
        if lo + s > k {
            lemma_beyond_last_anchor(k, n, s, lo + s);
        }
    }
}

/// A smoothed sequence stays one where none of its places changes.
pub(crate) proof fn lemma_smooth_kept<T: Scalar>(
    y: Seq<T>,
    n: usize,
    len: usize,
    ideg: i32,
    njump: usize,
    userw: bool,
    rw: Seq<T>,
    ys: Seq<T>,
    zs: Seq<T>,
    at: int,
)
    requires
        0 <= at,
        1 <= n,
        1 <= njump,
        is_smooth(y, n, len, ideg, njump, userw, rw, ys, at),
        forall|p: int| at <= p < at + n ==> #[trigger] zs[p] == ys[p],
    ensures
        is_smooth(y, n, len, ideg, njump, userw, rw, zs, at),
{
    if n >= 2 {
        let s = stride(n as int, njump as int);
        let k = last_anchor(n as int, s);
        assert(0 <= (n - 1) % s < s) by (nonlinear_arith)
            requires
                s >= 1,
                n >= 1,
        ;
        assert forall|p: int| at <= p < at + n && (p - at) % s == 0 implies is_smoothed_at(
            y,
            n,
            len,
            ideg,
            (p - at + 1) as usize,
            window_left(p - at + 1, n as int, len as int) as usize,
            window_right(p - at + 1, n as int, len as int) as usize,
            userw,
            rw,
            #[trigger] zs[p],
        ) by {
            assert(zs[p] == ys[p]);
        }
        assert(zs[at + n - 1] == ys[at + n - 1]);
        if s != 1 {
            assert forall|lo: int|
                1 <= lo < n - s + 1 && (lo - 1) % s == 0 implies #[trigger] is_ramp(
                zs,
                at,
                lo,
                lo + s,
            ) by {
                lemma_ramp_kept(ys, zs, at, lo, lo + s);
            }
        }
        if k < n - 1 {
            lemma_ramp_kept(ys, zs, at, k, n as int);
        }
    } else {
        assert(zs[at] == ys[at]);
    }
}

/// Fits position `i` of the first `n` values of `y` over the window
/// `nleft..=nright` and stores the result at `ys[at + i - 1]`; where the fit
/// finds no usable neighbour, the observation itself is stored.
fn fit_into<T: Scalar>(
    y: &[T],
    n: usize,
    len: usize,
    ideg: i32,
    i: usize,
    nleft: usize,
    nright: usize,
    res: &mut Vec<T>,
    userw: bool,
    rw: &[T],
    ys: &mut Vec<T>,
    at: usize,
)
    requires
        1 <= i <= n,
        1 <= nleft <= nright <= n,
        n <= y@.len(),
        n <= old(res)@.len(),
        userw ==> n <= rw@.len(),
        at + n <= old(ys).len(),
    ensures
        final(res)@.len() == old(res)@.len(),
        final(ys)@.len() == old(ys)@.len(),
        forall|k: int|
            0 <= k < old(ys)@.len() && k != at + i - 1 ==> final(ys)@[k] == old(ys)@[k],
        is_smoothed_at(y@, n, len, ideg, i, nleft, nright, userw, rw@, final(ys)@[at + i - 1]),
{
    let xs: T = T::from_count(i);
    let fitted: Option<T> = est(y, n, len, ideg, xs, nleft, nright, res, userw, rw);
    let v: T = match fitted {
        Some(f) => f,
        None => y[i - 1],
    };
    ys[at + (i - 1)] = v;
    assert(is_count(i, xs) && is_fit(y@, n, len, ideg, xs, nleft, nright, userw, rw@, fitted));
}

/// Fills `ys[at + lo ..= at + hi - 2]`, the places strictly between positions
/// `lo` and `hi`, with the straight line from the value at `lo` to the value
/// at `hi`.
fn ramp<T: Scalar>(ys: &mut Vec<T>, at: usize, lo: usize, hi: usize)
    requires
        1 <= lo < hi,
        at + hi <= old(ys).len(),
    ensures
        final(ys)@.len() == old(ys)@.len(),
        forall|k: int|
            0 <= k < old(ys)@.len() && !(at + lo <= k < at + hi - 1) ==> final(ys)@[k] == old(
                ys,
            )@[k],
        is_ramp(final(ys)@, at as int, lo as int, hi as int),
{
    let base: T = ys[at + (lo - 1)];
    let span: T = T::from_count(hi - lo);
    let d: T = ys[at + (hi - 1)].minus(base);
    let delta: T = d.over(span);
    let mut j: usize = lo + 1;
    while j < hi
        invariant
            1 <= lo < j <= hi,
            at + hi <= ys.len(),
            ys@.len() == old(ys)@.len(),
            forall|k: int|
                0 <= k < old(ys)@.len() && !(at + lo <= k < at + hi - 1) ==> ys@[k] == old(ys)@[k],
            forall|k: int|
                at + lo <= k < at + j - 1 ==> is_on_line(
                    base,
                    delta,
                    (k - at - lo + 1) as usize,
                    #[trigger] ys@[k],
                ),
        decreases hi - j,
    {
        let c: T = T::from_count(j - lo);
        let inc: T = delta.times(c);
        let v: T = base.plus(inc);
        assert(is_count((j - lo) as usize, c) && is_product(delta, c, inc) && is_sum(base, inc, v));
        ys[at + (j - 1)] = v;
        j += 1;
    }
    assert(is_count((hi - lo) as usize, span) && is_difference(
        ys@[at + hi - 1],
        ys@[at + lo - 1],
        d,
    ) && is_quotient(d, span, delta));
}

/// Smooths the first `n` values of `y` with a window of `len`, degree `ideg`
/// and stride `njump`, into `ys[at .. at + n]`: see [`is_smooth`]. `res` is
/// scratch space.
pub fn ess<T: Scalar>(
    y: &[T],
    n: usize,
    len: usize,
    ideg: i32,
    njump: usize,
    userw: bool,
    rw: &[T],
    ys: &mut Vec<T>,
    at: usize,
    res: &mut Vec<T>,
)
    requires
        1 <= n <= y@.len(),
        1 <= len,
        1 <= njump,
        at + n <= old(ys).len(),
        n <= old(res)@.len(),
        userw ==> n <= rw@.len(),
    ensures
        final(ys)@.len() == old(ys)@.len(),
        final(res)@.len() == old(res)@.len(),
        forall|k: int|
            0 <= k < at || at + n <= k < old(ys)@.len() ==> final(ys)@[k] == old(ys)@[k],
        is_smooth(y@, n, len, ideg, njump, userw, rw@, final(ys)@, at as int),
{
    if n < 2 {
        ys[at] = y[0];
        return ;
    }
    let newnj: usize = if njump < n - 1 { njump } else { n - 1 };
    let ghost s: int = newnj as int;
    let mut nleft: usize = 1;
    let mut nright: usize = n;
    let mut i: usize = 1;
    proof {
        vstd::arithmetic::div_mod::lemma_small_mod(0, newnj as nat);
    }
    if newnj == 1 && len < n {
        let nsh: usize = (len + 1) / 2;
        nright = len;
        loop
            invariant_except_break
                i == 1 ==> nleft == 1 && nright == len,
                i > 1 ==> nleft == window_left(i - 1, n as int, len as int) && nright
                    == window_right(i - 1, n as int, len as int),
                anchors_smoothed(y@, n, len, ideg, s, userw, rw@, ys@, at as int, i - 1),
            invariant
                1 <= i <= n <= y@.len(),
                1 <= len < n,
                s == 1,
                nsh == (len + 1) / 2,
                at + n <= ys.len(),
                n <= res@.len(),
                userw ==> n <= rw@.len(),
                ys@.len() == old(ys)@.len(),
                res@.len() == old(res)@.len(),
                forall|k: int|
                    0 <= k < at || at + n <= k < old(ys)@.len() ==> ys@[k] == old(ys)@[k],
            ensures
                i == n,
                anchors_smoothed(y@, n, len, ideg, s, userw, rw@, ys@, at as int, n as int),
            decreases n - i,
        {
            if i > nsh && nright != n {
                nleft += 1;
                nright += 1;
            }
            assert(nleft == window_left(i as int, n as int, len as int));
            assert(nright == window_right(i as int, n as int, len as int));
            let ghost before = ys@;
            fit_into(y, n, len, ideg, i, nleft, nright, res, userw, rw, ys, at);
            proof {
                lemma_anchor_added(
                    y@,
                    n,
                    len,
                    ideg,
                    s,
                    userw,
                    rw@,
                    before,
                    ys@,
                    at as int,
                    i as int,
                    i as int,
                );
            }
            if i == n {
                break ;
            }
            i += 1;
        }
    } else {
        loop
            invariant_except_break
                anchors_smoothed(y@, n, len, ideg, s, userw, rw@, ys@, at as int, i - 1),
            invariant
                1 <= i <= n <= y@.len(),
                s == newnj,
                (i - 1) % s == 0,
                1 <= len,
                1 <= newnj,
                at + n <= ys.len(),
                n <= res@.len(),
                userw ==> n <= rw@.len(),
                ys@.len() == old(ys)@.len(),
                res@.len() == old(res)@.len(),
                forall|k: int|
                    0 <= k < at || at + n <= k < old(ys)@.len() ==> ys@[k] == old(ys)@[k],
            ensures
                i == last_anchor(n as int, s),
                (i - 1) % s == 0,
                n - i < newnj,
                nleft == window_left(i as int, n as int, len as int),
                nright == window_right(i as int, n as int, len as int),
                1 <= nleft <= nright <= n,
                anchors_smoothed(y@, n, len, ideg, s, userw, rw@, ys@, at as int, n as int),
            decreases n - i,
        {
            let bounds: (usize, usize) = window_at(i, n, len);
            nleft = bounds.0;
            nright = bounds.1;
            let ghost before = ys@;
            fit_into(y, n, len, ideg, i, nleft, nright, res, userw, rw, ys, at);
            if n - i < newnj {
                proof {
                    lemma_anchor_added(
                        y@,
                        n,
                        len,
                        ideg,
                        s,
                        userw,
                        rw@,
                        before,
                        ys@,
                        at as int,
                        i as int,
                        n as int,
                    );
                    lemma_mod_offset(i - 1, n - i, s);
                }
                break ;
            }
            proof {
                lemma_anchor_added(
                    y@,
                    n,
                    len,
                    ideg,
                    s,
                    userw,
                    rw@,
                    before,
                    ys@,
                    at as int,
                    i as int,
                    i - 1 + s,
                );
                lemma_mod_offset(i - 1, 0, s);
            }
            i += newnj;
        }
    }

    if newnj != 1 {
        let k: usize = i;
        let mut i: usize = 1;
        while i <= n - newnj
            invariant
                1 <= i <= k <= n,
                s == newnj,
                (i - 1) % s == 0,
                (k - 1) % s == 0,
                n - k < newnj,
                2 <= newnj < n,
                at + n <= ys.len(),
                ys@.len() == old(ys)@.len(),
                forall|k: int|
                    0 <= k < at || at + n <= k < old(ys)@.len() ==> ys@[k] == old(ys)@[k],
                anchors_smoothed(y@, n, len, ideg, s, userw, rw@, ys@, at as int, n as int),
                ramps_laid(ys@, at as int, s, i as int),
            decreases n - i,
        {
            let ghost before = ys@;
            ramp(ys, at, i, i + newnj);
            proof {
                lemma_anchors_kept(
                    y@,
                    n,
                    len,
                    ideg,
                    s,
                    userw,
                    rw@,
                    before,
                    ys@,
                    at as int,
                    n as int,
                    i as int,
                    i + s,
                );
                lemma_ramps_kept(before, ys@, at as int, s, i as int, i as int);
                lemma_ramp_added(ys@, at as int, s, i as int);
                if i + newnj > k {
                    lemma_beyond_last_anchor(k as int, n as int, s, i + s);
                }
            }
            i += newnj;
        }
        proof {
            if i < k {
                lemma_anchors_apart(i - 1, k - 1, s);
            }
            lemma_ramps_complete(ys@, at as int, s, k as int, n as int);
        }
        if k != n {
            let ghost before = ys@;
            fit_into(y, n, len, ideg, n, nleft, nright, res, userw, rw, ys, at);
            proof {
                lemma_anchors_kept(
                    y@,
                    n,
                    len,
                    ideg,
                    s,
                    userw,
                    rw@,
                    before,
                    ys@,
                    at as int,
                    n as int,
                    k as int,
                    n + 1,
                );
                lemma_ramps_kept(before, ys@, at as int, s, k as int, k as int);
                lemma_ramps_complete(ys@, at as int, s, k as int, n as int);
            }
            if k != n - 1 {
                let ghost before = ys@;
                ramp(ys, at, k, n);
                proof {
                    lemma_anchors_kept(
                        y@,
                        n,
                        len,
                        ideg,
                        s,
                        userw,
                        rw@,
                        before,
                        ys@,
                        at as int,
                        n as int,
                        k as int,
                        n as int,
                    );
                    lemma_ramps_kept(before, ys@, at as int, s, k as int, k as int);
                    lemma_ramps_complete(ys@, at as int, s, k as int, n as int);
                    assert(ys@[at + n - 1] == before[at + n - 1]);
                }
            }
        }
    }
}

} // verus!
