//! The number type that a network computes with.

use vstd::prelude::*;

verus! {

/// Arithmetic that a network needs from its numbers.
///
/// The library is written against this interface and proves what holds for
/// every implementation of it. No method carries a contract, so nothing is
/// assumed about the values that the arithmetic produces: the library's
/// contracts say of each number which operations of this trait, on which
/// arguments, it is an outcome of.
pub trait Scalar: Copy {
    /// The additive identity.
    fn zero() -> Self;

    /// The multiplicative identity.
    fn one() -> Self;

    /// The number nearest to a count.
    fn from_count(n: usize) -> Self;

    /// A fresh draw from the standard normal distribution.
    fn standard_normal() -> Self;

    /// `self + rhs`.
    fn plus(self, rhs: Self) -> Self;

    /// `self - rhs`.
    fn minus(self, rhs: Self) -> Self;

    /// `self * rhs`.
    fn times(self, rhs: Self) -> Self;

    /// `self / rhs`.
    fn over(self, rhs: Self) -> Self;

    /// `-self`.
    fn negated(self) -> Self;

    /// `1 / self`.
    fn recip(self) -> Self;

    /// `e` raised to `self`.
    fn exp(self) -> Self;

    /// The hyperbolic tangent of `self`.
    fn tanh(self) -> Self;

    /// The square root of `self`.
    fn sqrt(self) -> Self;

    /// `self` raised to an integer power.
    fn powi(self, n: i32) -> Self;

    /// `self * a + b`, rounded once where the type can do so.
    fn mul_add(self, a: Self, b: Self) -> Self;

    /// The larger of `self` and `other`.
    fn max(self, other: Self) -> Self;

    /// Whether `self < rhs`.
    fn is_less_than(self, rhs: Self) -> bool;

    /// Whether `self > rhs`.
    fn is_greater_than(self, rhs: Self) -> bool;
}

/// Whether `r` is an outcome of [`Scalar::zero`].
#[verifier::inline]
pub open spec fn is_zero<S: Scalar>(r: S) -> bool {
    call_ensures(S::zero, (), r)
}

/// Whether `r` is an outcome of [`Scalar::one`].
#[verifier::inline]
pub open spec fn is_one<S: Scalar>(r: S) -> bool {
    call_ensures(S::one, (), r)
}

/// Whether `r` is an outcome of [`Scalar::from_count`] on `n`.
#[verifier::inline]
pub open spec fn is_count<S: Scalar>(n: usize, r: S) -> bool {
    call_ensures(S::from_count, (n,), r)
}

/// Whether `r` is an outcome of [`Scalar::standard_normal`].
#[verifier::inline]
pub open spec fn is_standard_normal<S: Scalar>(r: S) -> bool {
    call_ensures(S::standard_normal, (), r)
}

/// Whether `r` is an outcome of `a + b`.
#[verifier::inline]
pub open spec fn is_sum<S: Scalar>(a: S, b: S, r: S) -> bool {
    call_ensures(S::plus, (a, b), r)
}

/// Whether `r` is an outcome of `a - b`.
#[verifier::inline]
pub open spec fn is_difference<S: Scalar>(a: S, b: S, r: S) -> bool {
    call_ensures(S::minus, (a, b), r)
}

/// Whether `r` is an outcome of `a * b`.
#[verifier::inline]
pub open spec fn is_product<S: Scalar>(a: S, b: S, r: S) -> bool {
    call_ensures(S::times, (a, b), r)
}

/// Whether `r` is an outcome of `a / b`.
#[verifier::inline]
pub open spec fn is_quotient<S: Scalar>(a: S, b: S, r: S) -> bool {
    call_ensures(S::over, (a, b), r)
}

/// Whether `r` is an outcome of `-a`.
#[verifier::inline]
pub open spec fn is_negation<S: Scalar>(a: S, r: S) -> bool {
    call_ensures(S::negated, (a,), r)
}

/// Whether `r` is an outcome of `1 / a`.
#[verifier::inline]
pub open spec fn is_reciprocal<S: Scalar>(a: S, r: S) -> bool {
    call_ensures(S::recip, (a,), r)
}

/// Whether `r` is an outcome of `e` raised to `a`.
#[verifier::inline]
pub open spec fn is_exp<S: Scalar>(a: S, r: S) -> bool {
    call_ensures(S::exp, (a,), r)
}

/// Whether `r` is an outcome of the hyperbolic tangent of `a`.
#[verifier::inline]
pub open spec fn is_tanh<S: Scalar>(a: S, r: S) -> bool {
    call_ensures(S::tanh, (a,), r)
}

/// Whether `r` is an outcome of the square root of `a`.
#[verifier::inline]
pub open spec fn is_sqrt<S: Scalar>(a: S, r: S) -> bool {
    call_ensures(S::sqrt, (a,), r)
}

/// Whether `r` is an outcome of `a` raised to the power `n`.
#[verifier::inline]
pub open spec fn is_power<S: Scalar>(a: S, n: i32, r: S) -> bool {
    call_ensures(S::powi, (a, n), r)
}

/// Whether `r` is an outcome of the fused `a * b + c`.
#[verifier::inline]
pub open spec fn is_fused<S: Scalar>(a: S, b: S, c: S, r: S) -> bool {
    call_ensures(S::mul_add, (a, b, c), r)
}

/// Whether `r` is an outcome of the larger of `a` and `b`.
#[verifier::inline]
pub open spec fn is_max<S: Scalar>(a: S, b: S, r: S) -> bool {
    call_ensures(S::max, (a, b), r)
}

/// Whether `r` is an outcome of the test `a < b`.
#[verifier::inline]
pub open spec fn is_less<S: Scalar>(a: S, b: S, r: bool) -> bool {
    call_ensures(S::is_less_than, (a, b), r)
}

/// Whether `r` is an outcome of the test `a > b`.
#[verifier::inline]
pub open spec fn is_greater<S: Scalar>(a: S, b: S, r: bool) -> bool {
    call_ensures(S::is_greater_than, (a, b), r)
}

/// Whether the arithmetic of `S`, the random draw apart, is a function of
/// its arguments: no operation has two different outcomes on the same
/// arguments.
pub open spec fn is_deterministic<S: Scalar>() -> bool {
    &&& forall|r: S, t: S| is_zero(r) && is_zero(t) ==> r == t
    &&& forall|r: S, t: S| is_one(r) && is_one(t) ==> r == t
    &&& forall|n: usize, r: S, t: S| is_count(n, r) && is_count(n, t) ==> r == t
    &&& forall|a: S, b: S, r: S, t: S| is_sum(a, b, r) && is_sum(a, b, t) ==> r == t
    &&& forall|a: S, b: S, r: S, t: S| is_difference(a, b, r) && is_difference(a, b, t) ==> r == t
    &&& forall|a: S, b: S, r: S, t: S| is_product(a, b, r) && is_product(a, b, t) ==> r == t
    &&& forall|a: S, b: S, r: S, t: S| is_quotient(a, b, r) && is_quotient(a, b, t) ==> r == t
    &&& forall|a: S, r: S, t: S| is_negation(a, r) && is_negation(a, t) ==> r == t
    &&& forall|a: S, r: S, t: S| is_reciprocal(a, r) && is_reciprocal(a, t) ==> r == t
    &&& forall|a: S, r: S, t: S| is_exp(a, r) && is_exp(a, t) ==> r == t
    &&& forall|a: S, r: S, t: S| is_tanh(a, r) && is_tanh(a, t) ==> r == t
    &&& forall|a: S, r: S, t: S| is_sqrt(a, r) && is_sqrt(a, t) ==> r == t
    &&& forall|a: S, n: i32, r: S, t: S| is_power(a, n, r) && is_power(a, n, t) ==> r == t
    &&& forall|a: S, b: S, c: S, r: S, t: S| is_fused(a, b, c, r) && is_fused(a, b, c, t) ==> r == t
    &&& forall|a: S, b: S, r: S, t: S| is_max(a, b, r) && is_max(a, b, t) ==> r == t
    &&& forall|a: S, b: S, r: bool, t: bool| is_less(a, b, r) && is_less(a, b, t) ==> r == t
    &&& forall|a: S, b: S, r: bool, t: bool| is_greater(a, b, r) && is_greater(a, b, t) ==> r == t
}

} // verus!
