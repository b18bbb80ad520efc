//! The arithmetic that the library is written against, and the relations in
//! which its contracts speak of numbers.

use vstd::prelude::*;

verus! {

/// The arithmetic that the smoothers need from a number type.
///
/// The library assumes nothing of the values that these operations return,
/// not even that the same arguments give the same result twice. Its
/// contracts speak of them through relations such as [`is_sum`], which hold
/// of a result exactly as far as the implementation ensures something of
/// it. Each operation must return for every argument; none may panic.
pub trait Scalar: Copy {
    /// The number that stands for a count or a position.
    fn from_count(n: usize) -> Self;

    /// Sum.
    fn plus(self, rhs: Self) -> Self;

    /// Difference.
    fn minus(self, rhs: Self) -> Self;

    /// Product.
    fn times(self, rhs: Self) -> Self;

    /// Quotient.
    fn over(self, rhs: Self) -> Self;

    /// Absolute value.
    fn abs(self) -> Self;

    /// Square root.
    fn sqrt(self) -> Self;

    /// Natural logarithm.
    fn ln(self) -> Self;

    /// Integer power.
    fn powi(self, exponent: i32) -> Self;

    /// Real power.
    fn powf(self, exponent: Self) -> Self;

    /// Whether `self` is less than or equal to `rhs`.
    fn le(self, rhs: Self) -> bool;

    /// Whether `self` is strictly less than `rhs`.
    fn lt(self, rhs: Self) -> bool;
}

/// Whether `x` is a number that `T` gives for the count `n`: a result of
/// [`Scalar::from_count`] for `n`, of which all holds that the
/// implementation ensures. The relations below say the same of the other
/// operations.
pub open spec fn is_count<T: Scalar>(n: usize, x: T) -> bool {
    call_ensures(T::from_count, (n,), x)
}

/// Whether `r` is a difference `a - b` in the arithmetic of `T`.
pub open spec fn is_difference<T: Scalar>(a: T, b: T, r: T) -> bool {
    call_ensures(T::minus, (a, b), r)
}

/// Whether `r` is a quotient `a / b` in the arithmetic of `T`.
pub open spec fn is_quotient<T: Scalar>(a: T, b: T, r: T) -> bool {
    call_ensures(T::over, (a, b), r)
}

/// Whether `r` is a natural logarithm of `a` in the arithmetic of `T`.
pub open spec fn is_log<T: Scalar>(a: T, r: T) -> bool {
    call_ensures(T::ln, (a,), r)
}

/// Whether `r` is a power `a^e` in the arithmetic of `T`.
pub open spec fn is_power<T: Scalar>(a: T, e: T, r: T) -> bool {
    call_ensures(T::powf, (a, e), r)
}

/// Whether `r` is a sum `a + b` in the arithmetic of `T`.
pub open spec fn is_sum<T: Scalar>(a: T, b: T, r: T) -> bool {
    call_ensures(T::plus, (a, b), r)
}

/// Whether `r` is a product `a * b` in the arithmetic of `T`.
pub open spec fn is_product<T: Scalar>(a: T, b: T, r: T) -> bool {
    call_ensures(T::times, (a, b), r)
}

/// Whether `r` is an absolute value of `a` in the arithmetic of `T`.
pub open spec fn is_abs<T: Scalar>(a: T, r: T) -> bool {
    call_ensures(T::abs, (a,), r)
}

/// Whether `r` is a square root of `a` in the arithmetic of `T`.
pub open spec fn is_root<T: Scalar>(a: T, r: T) -> bool {
    call_ensures(T::sqrt, (a,), r)
}

/// Whether `r` is a power `a^e` with a whole exponent in the arithmetic of `T`.
pub open spec fn is_int_power<T: Scalar>(a: T, e: i32, r: T) -> bool {
    call_ensures(T::powi, (a, e), r)
}

/// Whether `out` is an answer of `T` to `a <= b`.
pub open spec fn is_le<T: Scalar>(a: T, b: T, out: bool) -> bool {
    call_ensures(T::le, (a, b), out)
}

/// Whether `out` is an answer of `T` to `a < b`.
pub open spec fn is_lt<T: Scalar>(a: T, b: T, out: bool) -> bool {
    call_ensures(T::lt, (a, b), out)
}

/// Whether `r` is the larger of `a` and `b`: `b` where `T` says that
/// `a < b`, else `a`.
pub open spec fn is_larger<T: Scalar>(a: T, b: T, r: T) -> bool {
    (is_lt(a, b, true) && r == b) || (is_lt(a, b, false) && r == a)
}

/// Whether `terms` and `acc` show that `r` is the sum from `start` over the
/// positions `lo..hi`, added in ascending order: `terms[j]` is what position
/// `j` adds, a term or nothing, as `term` says, and `acc[j]` is the sum
/// before position `j`.
pub open spec fn is_summation<T: Scalar>(
    lo: int,
    hi: int,
    start: T,
    term: spec_fn(int, Option<T>) -> bool,
    terms: Seq<Option<T>>,
    acc: Seq<T>,
    r: T,
) -> bool {
    &&& 0 <= lo <= hi
    &&& terms.len() == hi
    &&& acc.len() == hi + 1
    &&& acc[lo] == start
    &&& acc[hi] == r
    &&& forall|j: int|
        lo <= j < hi ==> term(j, #[trigger] terms[j]) && match terms[j] {
            Some(t) => is_sum(acc[j], t, acc[j + 1]),
            None => acc[j + 1] == acc[j],
        }
}

/// Whether `r` is the sum from `start` over the positions `lo..hi`, added in
/// ascending order, where `term(j, t)` says that position `j` adds the term
/// `t`, or nothing where `t` is `None`.
pub open spec fn sums_to<T: Scalar>(
    lo: int,
    hi: int,
    start: T,
    term: spec_fn(int, Option<T>) -> bool,
    r: T,
) -> bool {
    exists|terms: Seq<Option<T>>, acc: Seq<T>|
        #[trigger] is_summation(lo, hi, start, term, terms, acc, r)
}

/// A summation that has reached position `j` goes on to `j + 1`: with the
/// term `t` added to give `next`, or unchanged where the position adds
/// nothing.
pub proof fn lemma_summation_step<T: Scalar>(
    lo: int,
    j: int,
    start: T,
    term: spec_fn(int, Option<T>) -> bool,
    terms: Seq<Option<T>>,
    acc: Seq<T>,
    r: T,
    t: Option<T>,
    next: T,
)
    requires
        is_summation(lo, j, start, term, terms, acc, r),
        term(j, t),
        match t {
            Some(v) => is_sum(r, v, next),
            None => next == r,
        },
    ensures
        is_summation(lo, j + 1, start, term, terms.push(t), acc.push(next), next),
{
    let terms2 = terms.push(t);
    let acc2 = acc.push(next);
    assert forall|k: int| lo <= k < j + 1 implies term(k, #[trigger] terms2[k]) && match terms2[k] {
        Some(v) => is_sum(acc2[k], v, acc2[k + 1]),
        None => acc2[k + 1] == acc2[k],
    } by {
        if k < j {
            assert(terms2[k] == terms[k]);
            assert(acc2[k] == acc[k]);
            assert(acc2[k + 1] == acc[k + 1]);
        }
    }
}

/// The summation over no position at all.
pub proof fn lemma_summation_start<T: Scalar>(
    lo: int,
    start: T,
    term: spec_fn(int, Option<T>) -> bool,
)
    requires
        0 <= lo,
    ensures
        is_summation(
            lo,
            lo,
            start,
            term,
            Seq::new(lo as nat, |i: int| None),
            Seq::new((lo + 1) as nat, |i: int| start),
            start,
        ),
{
}

/// Whether every element of `s` is a number that `T` gives for the count `n`.
pub open spec fn all_count<T: Scalar>(n: usize, s: Seq<T>) -> bool {
    forall|i: int| 0 <= i < s.len() ==> is_count(n, #[trigger] s[i])
}

/// Whether every element of `s` is the same value.
pub open spec fn uniform<T>(s: Seq<T>) -> bool {
    forall|i: int, j: int| 0 <= i < s.len() && 0 <= j < s.len() ==> s[i] == s[j]
}

/// A vector of `n` copies of `x`.
pub fn filled<T: Scalar>(n: usize, x: T) -> (v: Vec<T>)
    ensures
        v@.len() == n,
        forall|i: int| 0 <= i < n ==> v@[i] == x,
{
    let mut v: Vec<T> = Vec::with_capacity(n);
    let mut i: usize = 0;
    while i < n
        invariant
            i <= n,
            v@.len() == i,
            forall|j: int| 0 <= j < i ==> v@[j] == x,
        decreases n - i,
    {
        v.push(x);
        i += 1;
    }
    v
}

/// Overwrites every element of `v` with `x`.
pub fn fill<T: Scalar>(v: &mut Vec<T>, x: T)
    ensures
        final(v)@.len() == old(v)@.len(),
        forall|i: int| 0 <= i < final(v)@.len() ==> final(v)@[i] == x,
{
    let n: usize = v.len();
    let mut i: usize = 0;
    while i < n
        invariant
            v@.len() == n,
            i <= n,
            forall|j: int| 0 <= j < i ==> v@[j] == x,
        decreases n - i,
    {
        v[i] = x;
        i += 1;
    }
}

/// An owned copy of `s`.
pub fn copy_of<T: Copy>(s: &[T]) -> (v: Vec<T>)
    ensures
        v@ == s@,
{
    let n: usize = s.len();
    let mut v: Vec<T> = Vec::with_capacity(n);
    let mut i: usize = 0;
    while i < n
        invariant
            n == s@.len(),
            i <= n,
            v@ == s@.subrange(0, i as int),
        decreases n - i,
    {
        v.push(s[i]);
        i += 1;
    }
    assert(s@.subrange(0, n as int) == s@);
    v
}

/// The larger of two numbers; `a` where the comparison does not hold.
pub fn larger<T: Scalar>(a: T, b: T) -> (r: T)
    ensures
        is_larger(a, b, r),
{
    if a.lt(b) {
        b
    } else {
        a
    }
}

} // verus!
