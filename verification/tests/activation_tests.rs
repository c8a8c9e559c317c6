use neuralib::activation::Activation;
use neuralib::scalar::Scalar;
use rand::Rng;
use rand_distr::StandardNormal;

/// The double-precision numbers, as the number type of the networks under test.
#[derive(Clone, Copy, Debug, PartialEq, PartialOrd)]
struct F(f64);

impl Scalar for F {
    fn zero() -> Self {
        F(0.0)
    }
    fn one() -> Self {
        F(1.0)
    }
    fn from_count(n: usize) -> Self {
        F(n as f64)
    }
    fn standard_normal() -> Self {
        F(rand::rng().sample(StandardNormal))
    }
    fn plus(self, rhs: Self) -> Self {
        F(self.0 + rhs.0)
    }
    fn minus(self, rhs: Self) -> Self {
        F(self.0 - rhs.0)
    }
    fn times(self, rhs: Self) -> Self {
        F(self.0 * rhs.0)
    }
    fn over(self, rhs: Self) -> Self {
        F(self.0 / rhs.0)
    }
    fn negated(self) -> Self {
        F(-self.0)
    }
    fn recip(self) -> Self {
        F(self.0.recip())
    }
    fn exp(self) -> Self {
        F(self.0.exp())
    }
    fn tanh(self) -> Self {
        F(self.0.tanh())
    }
    fn sqrt(self) -> Self {
        F(self.0.sqrt())
    }
    fn powi(self, n: i32) -> Self {
        F(self.0.powi(n))
    }
    fn mul_add(self, a: Self, b: Self) -> Self {
        F(self.0.mul_add(a.0, b.0))
    }
    fn max(self, other: Self) -> Self {
        F(self.0.max(other.0))
    }
    fn is_less_than(self, rhs: Self) -> bool {
        self.0 < rhs.0
    }
    fn is_greater_than(self, rhs: Self) -> bool {
        self.0 > rhs.0
    }
}

fn floating_equal(a: f64, b: f64) -> bool {
    let tolerance = 0.0001;
    (a - b).abs() < tolerance
}

fn call(act: Activation, x: f64) -> f64 {
    act.call(F(x)).0
}

fn derivative(act: Activation, x: f64) -> f64 {
    act.derivative(F(x)).0
}

#[test]
fn linear() {
    let act = Activation::Linear;

    for i in -100..=100 {
        assert_eq!(call(act, i as f64), i as f64);
    }
}

#[test]
fn step() {
    let act = Activation::Step;

    for i in -100..0 {
        assert_eq!(call(act, i as f64), 0.0);
    }

    for i in 1..=100 {
        assert_eq!(call(act, i as f64), 1.0);
    }
}

#[test]
fn sigmoid() {
    let act = Activation::Sigmoid;
    assert_eq!(call(act, 0.0), 0.5);
    // The S shape is there.
    assert!(call(act, 9999.0) > 0.999);
    assert!(call(act, -9999.0) < 0.001);
}

#[test]
fn hypertan() {
    let act = Activation::HyperTan;
    assert_eq!(call(act, 0.0), 0.0);

    assert!(call(act, 9999.0) > 0.999);
    assert!(call(act, -9999.0) < -0.999);
}

#[test]
fn si_lu() {
    let act = Activation::SiLU;
    // The low point in the dip.
    let si_lu_point = (-1.278465, -0.278465);

    assert!(floating_equal(call(act, -15.0), 0.0));
    assert!(floating_equal(call(act, 100.0), 100.0));
    assert!(floating_equal(call(act, si_lu_point.0), si_lu_point.1));
}

#[test]
fn re_lu() {
    let act = Activation::ReLU;

    for i in -100..=0 {
        assert_eq!(call(act, i as f64), 0.0);
    }
    for i in 0..=100 {
        assert_eq!(call(act, i as f64), i as f64);
    }
}

#[test]
fn leaky_re_lu() {
    let act = Activation::LeakyReLU;

    for i in -100..=0 {
        assert_eq!(call(act, i as f64), (i as f64) * 0.15);
    }
    for i in 0..=100 {
        assert_eq!(call(act, i as f64), i as f64);
    }
}

#[test]
fn step_is_zero_at_zero() {
    assert_eq!(call(Activation::Step, 0.0), 0.0);
    assert_eq!(call(Activation::Step, 1e-300), 1.0);
}

#[test]
fn default_activation_is_linear() {
    assert_eq!(Activation::default(), Activation::Linear);
}

#[test]
fn derivative_of_linear_is_one() {
    for i in -10..=10 {
        assert_eq!(derivative(Activation::Linear, i as f64), 1.0);
    }
}

#[test]
fn derivative_of_step_is_zero_everywhere() {
    for i in -10..=10 {
        assert_eq!(derivative(Activation::Step, i as f64), 0.0);
    }
}

#[test]
fn derivative_of_sigmoid() {
    assert_eq!(derivative(Activation::Sigmoid, 0.0), 0.25);
    let s = call(Activation::Sigmoid, 1.5);
    assert_eq!(derivative(Activation::Sigmoid, 1.5), s * (1.0 - s));
}

#[test]
fn derivative_of_hypertan() {
    assert_eq!(derivative(Activation::HyperTan, 0.0), 1.0);
    let t = 0.75f64.tanh();
    assert!(floating_equal(derivative(Activation::HyperTan, 0.75), 1.0 - t * t));
}

#[test]
fn derivative_of_si_lu() {
    assert_eq!(derivative(Activation::SiLU, 0.0), 0.5);
    let x = 2.0;
    let s = call(Activation::Sigmoid, x);
    assert!(floating_equal(derivative(Activation::SiLU, x), s + x * s * (1.0 - s)));
}

#[test]
fn derivative_of_re_lu_is_one_at_zero() {
    assert_eq!(derivative(Activation::ReLU, -3.0), 0.0);
    assert_eq!(derivative(Activation::ReLU, 0.0), 1.0);
    assert_eq!(derivative(Activation::ReLU, 3.0), 1.0);
}

#[test]
fn derivative_of_leaky_re_lu() {
    assert_eq!(derivative(Activation::LeakyReLU, -3.0), 0.15);
    assert_eq!(derivative(Activation::LeakyReLU, 0.0), 1.0);
    assert_eq!(derivative(Activation::LeakyReLU, 3.0), 1.0);
}

#[test]
fn derivatives_match_finite_differences() {
    let kinds = [
        Activation::Linear,
        Activation::Sigmoid,
        Activation::HyperTan,
        Activation::SiLU,
        Activation::ReLU,
        Activation::LeakyReLU,
    ];
    let h = 1e-5;
    for kind in kinds {
        for x in [-2.0, -0.5, 0.3, 1.7] {
            let estimate = (call(kind, x + h) - call(kind, x - h)) / (2.0 * h);
            assert!((derivative(kind, x) - estimate).abs() < 1e-6);
        }
    }
}
