//! The activation functions that a layer can apply.

use vstd::prelude::*;
use crate::scalar::{
    is_count, is_deterministic, is_difference, is_exp, is_fused, is_greater, is_less, is_max,
    is_negation, is_one, is_power, is_product, is_quotient, is_reciprocal, is_sum, is_tanh,
    is_zero, Scalar,
};

verus! {

/// The activation functions this library supports.
#[derive(Clone, Copy, Debug, PartialEq, Eq, Structural)]
pub enum Activation {
    /// The output is the input.
    Linear,
    /// 0 up to and including 0, 1 above it.
    Step,
    /// The logistic function `1 / (1 + e^-x)`.
    Sigmoid,
    /// The hyperbolic tangent.
    HyperTan,
    /// `x` times the logistic function of `x`.
    SiLU,
    /// The larger of 0 and `x`.
    ReLU,
    /// The larger of `x` and `0.15 * x`.
    LeakyReLU,
}

impl Default for Activation {
    fn default() -> (r: Activation)
        ensures
            r == Activation::Linear,
    {
        Activation::Linear
    }
}

/// Whether `l` is an outcome of the slope of the leaky rectifier below
/// zero: 15 over 100.
pub open spec fn is_leak<S: Scalar>(l: S) -> bool {
    exists|n: S, d: S| is_count(15, n) && is_count(100, d) && is_quotient(n, d, l)
}

/// Whether `y` is an outcome of the logistic function `1 / (1 + e^-x)`.
pub open spec fn is_sigmoid<S: Scalar>(x: S, y: S) -> bool {
    exists|n: S, e: S, o: S, s: S|
        is_negation(x, n) && is_exp(n, e) && is_one(o) && is_sum(o, e, s) && is_reciprocal(s, y)
}

/// Whether `d` is an outcome of `a * (1 - a)`.
pub open spec fn is_logistic_slope<S: Scalar>(a: S, d: S) -> bool {
    exists|o: S, c: S| is_one(o) && is_difference(o, a, c) && is_product(a, c, d)
}

/// The slope of the leaky rectifier below zero: 15 hundredths.
fn leak<S: Scalar>() -> (l: S)
    ensures
        is_leak(l),
{
    S::from_count(15).over(S::from_count(100))
}

impl Activation {
    /// Whether `y` is an outcome of the selected function at `x`:
    ///
    /// | kind | function |
    /// |---|---|
    /// | linear | `x` |
    /// | step | 1 if `x > 0`, else 0 |
    /// | sigmoid | `1 / (1 + e^-x)` |
    /// | hyperbolic tangent | `tanh(x)` |
    /// | SiLU | `x * sigmoid(1 * x)` |
    /// | ReLU | `max(x, 0)` |
    /// | leaky ReLU | `max(x, x * 0.15)` |
    pub open spec fn maps<S: Scalar>(self, x: S, y: S) -> bool {
        match self {
            Activation::Linear => y == x,
            Activation::Step => exists|z: S, above: bool|
                is_zero(z) && is_greater(x, z, above) && (if above {
                    is_one(y)
                } else {
                    is_zero(y)
                }),
            Activation::Sigmoid => is_sigmoid(x, y),
            Activation::HyperTan => is_tanh(x, y),
            Activation::SiLU => exists|beta: S, scaled: S, s: S|
                is_one(beta) && is_product(beta, x, scaled) && is_sigmoid(scaled, s) && is_product(
                    x,
                    s,
                    y,
                ),
            Activation::ReLU => exists|z: S| is_zero(z) && is_max(x, z, y),
            Activation::LeakyReLU => exists|l: S, p: S|
                is_leak(l) && is_product(x, l, p) && is_max(x, p, y),
        }
    }

    /// Whether `d` is an outcome of the derivative of the selected function
    /// at `x`:
    ///
    /// | kind | derivative |
    /// |---|---|
    /// | linear | 1 |
    /// | step | 0 everywhere |
    /// | sigmoid | `s * (1 - s)` with `s = sigmoid(x)` |
    /// | hyperbolic tangent | `1 - tanh(x)^2` |
    /// | SiLU | the fused `x * (s * (1 - s)) + s` with `s = sigmoid(x)` |
    /// | ReLU | 0 if `x < 0`, else 1 |
    /// | leaky ReLU | 0.15 if `x < 0`, else 1 |
    pub open spec fn slopes<S: Scalar>(self, x: S, d: S) -> bool {
        match self {
            Activation::Linear => is_one(d),
            Activation::Step => is_zero(d),
            Activation::Sigmoid => exists|a: S| is_sigmoid(x, a) && is_logistic_slope(a, d),
            Activation::HyperTan => exists|t: S, q: S, o: S|
                is_tanh(x, t) && is_power(t, 2, q) && is_one(o) && is_difference(o, q, d),
            Activation::SiLU => exists|s: S, g: S|
                is_sigmoid(x, s) && is_logistic_slope(s, g) && is_fused(x, g, s, d),
            Activation::ReLU => exists|z: S, below: bool|
                is_zero(z) && is_less(x, z, below) && (if below {
                    is_zero(d)
                } else {
                    is_one(d)
                }),
            Activation::LeakyReLU => exists|z: S, below: bool|
                is_zero(z) && is_less(x, z, below) && (if below {
                    is_leak(d)
                } else {
                    is_one(d)
                }),
        }
    }

    /// Applies the selected function to `x`.
    pub fn call<S: Scalar>(&self, x: S) -> (y: S)
        ensures
            self.maps(x, y),
    {
        match self {
            Activation::Linear => Activation::linear(x),
            Activation::Step => Activation::step(x),
            Activation::Sigmoid => Activation::sigmoid(x),
            Activation::HyperTan => Activation::hypertan(x),
            Activation::SiLU => Activation::si_lu(x),
            Activation::ReLU => Activation::re_lu(x),
            Activation::LeakyReLU => Activation::leaky_re_lu(x),
        }
    }

    /// The derivative of the selected function at the pre-activation value
    /// `x`. By policy it is 0 everywhere for the step, and 1 at 0 for both
    /// rectifiers.
    pub fn derivative<S: Scalar>(&self, x: S) -> (d: S)
        ensures
            self.slopes(x, d),
    {
        match self {
            Activation::Linear => Activation::deriv_linear(x),
            Activation::Step => Activation::deriv_step(x),
            Activation::Sigmoid => Activation::deriv_sigmoid(x),
            Activation::HyperTan => Activation::deriv_hypertan(x),
            Activation::SiLU => Activation::deriv_si_lu(x),
            Activation::ReLU => Activation::deriv_re_lu(x),
            Activation::LeakyReLU => Activation::deriv_leaky_re_lu(x),
        }
    }

    fn deriv_linear<S: Scalar>(_x: S) -> (d: S)
        ensures
            Activation::Linear.slopes(_x, d),
    {
        S::one()
    }

    fn linear<S: Scalar>(x: S) -> (y: S)
        ensures
            Activation::Linear.maps(x, y),
    {
        x
    }

    fn deriv_step<S: Scalar>(_x: S) -> (d: S)
        ensures
            Activation::Step.slopes(_x, d),
    {
        S::zero()
    }

    fn step<S: Scalar>(x: S) -> (y: S)
        ensures
            Activation::Step.maps(x, y),
    {
        if x.is_greater_than(S::zero()) {
            S::one()
        } else {
            S::zero()
        }
    }

    fn deriv_sigmoid<S: Scalar>(x: S) -> (d: S)
        ensures
            Activation::Sigmoid.slopes(x, d),
    {
        let a: S = Activation::sigmoid(x);
        a.times(S::one().minus(a))
    }

    fn sigmoid<S: Scalar>(x: S) -> (y: S)
        ensures
            is_sigmoid(x, y),
            Activation::Sigmoid.maps(x, y),
    {
        S::one().plus(x.negated().exp()).recip()
    }

    fn deriv_hypertan<S: Scalar>(x: S) -> (d: S)
        ensures
            Activation::HyperTan.slopes(x, d),
    {
        S::one().minus(x.tanh().powi(2))
    }

    fn hypertan<S: Scalar>(x: S) -> (y: S)
        ensures
            Activation::HyperTan.maps(x, y),
    {
        x.tanh()
    }

    fn deriv_si_lu<S: Scalar>(x: S) -> (d: S)
        ensures
            Activation::SiLU.slopes(x, d),
    {
        // x * sigmoid'(x) + sigmoid(x), with the sigmoid computed once.
        let sigm: S = Activation::sigmoid(x);
        let slope: S = sigm.times(S::one().minus(sigm));
        assert(is_logistic_slope(sigm, slope));
        x.mul_add(slope, sigm)
    }

    fn si_lu<S: Scalar>(x: S) -> (y: S)
        ensures
            Activation::SiLU.maps(x, y),
    {
        let beta: S = S::one();
        x.times(Activation::sigmoid(beta.times(x)))
    }

    fn deriv_re_lu<S: Scalar>(x: S) -> (d: S)
        ensures
            Activation::ReLU.slopes(x, d),
    {
        if x.is_less_than(S::zero()) {
            S::zero()
        } else {
            S::one()
        }
    }

    fn re_lu<S: Scalar>(x: S) -> (y: S)
        ensures
            Activation::ReLU.maps(x, y),
    {
        x.max(S::zero())
    }

    fn deriv_leaky_re_lu<S: Scalar>(x: S) -> (d: S)
        ensures
            Activation::LeakyReLU.slopes(x, d),
    {
        if x.is_less_than(S::zero()) {
            leak()
        } else {
            S::one()
        }
    }

    fn leaky_re_lu<S: Scalar>(x: S) -> (y: S)
        ensures
            Activation::LeakyReLU.maps(x, y),
    {
        x.max(x.times(leak()))
    }

    /// Where the arithmetic is deterministic, the selected function has one
    /// outcome at each `x`.
    pub proof fn lemma_call_is_a_function<S: Scalar>(self, x: S, y: S, z: S)
        requires
            is_deterministic::<S>(),
            self.maps(x, y),
            self.maps(x, z),
        ensures
            y == z,
    {
    }

    /// Where the arithmetic is deterministic, the derivative of the
    /// selected function has one outcome at each `x`.
    pub proof fn lemma_derivative_is_a_function<S: Scalar>(self, x: S, d: S, e: S)
        requires
            is_deterministic::<S>(),
            self.slopes(x, d),
            self.slopes(x, e),
        ensures
            d == e,
    {
    }
}

} // verus!
