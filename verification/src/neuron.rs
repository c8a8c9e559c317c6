//! A single processing unit.

use vstd::prelude::*;
use crate::activation::Activation;
use crate::error::{neuron_name, size_mismatch, NetworkError};
use crate::layer::Layer;
use crate::scalar::{
    is_count, is_deterministic, is_difference, is_power, is_product, is_quotient, is_sqrt,
    is_standard_normal, is_sum, is_zero, Scalar,
};

verus! {

/// A copy of a slice.
pub fn copy_of<S: Scalar>(values: &[S]) -> (r: Vec<S>)
    ensures
        r@ == values@,
{
    let mut r: Vec<S> = Vec::with_capacity(values.len());
    let mut i: usize = 0;
    while i < values.len()
        invariant
            i <= values.len(),
            r@ == values@.take(i as int),
        decreases values.len() - i,
    {
        r.push(values[i]);
        i += 1;
    }
    r
}

/// Whether `acc` is an outcome of adding up, from zero and in order, the
/// products of the first `n` inputs with their weights.
pub open spec fn is_weighted_sum<S: Scalar>(inputs: Seq<S>, weights: Seq<S>, n: nat, acc: S) -> bool
    decreases n,
{
    if n == 0 {
        is_zero(acc)
    } else {
        exists|before: S, term: S|
            is_weighted_sum(inputs, weights, (n - 1) as nat, before) && is_product(
                inputs[n - 1],
                weights[n - 1],
                term,
            ) && is_sum(before, term, acc)
    }
}

/// Where the arithmetic is deterministic, the weighted sum of the first `n`
/// inputs has one outcome.
pub proof fn lemma_weighted_sum_is_a_function<S: Scalar>(
    inputs: Seq<S>,
    weights: Seq<S>,
    n: nat,
    acc: S,
    other: S,
)
    requires
        is_deterministic::<S>(),
        is_weighted_sum(inputs, weights, n, acc),
        is_weighted_sum(inputs, weights, n, other),
    ensures
        acc == other,
    decreases n,
{
    if n > 0 {
        let (before, term) = choose|before: S, term: S|
            is_weighted_sum(inputs, weights, (n - 1) as nat, before) && is_product(
                inputs[n - 1],
                weights[n - 1],
                term,
            ) && is_sum(before, term, acc);
        let (before2, term2) = choose|before: S, term: S|
            is_weighted_sum(inputs, weights, (n - 1) as nat, before) && is_product(
                inputs[n - 1],
                weights[n - 1],
                term,
            ) && is_sum(before, term, other);
        lemma_weighted_sum_is_a_function(inputs, weights, (n - 1) as nat, before, before2);
    }
}

/// Whether `sum` is an outcome of the weighted sum of all inputs, plus the
/// bias.
pub open spec fn is_pre_activation<S: Scalar>(inputs: Seq<S>, weights: Seq<S>, bias: S, sum: S) -> bool {
    exists|weighted: S|
        is_weighted_sum(inputs, weights, inputs.len(), weighted) && is_sum(weighted, bias, sum)
}

/// Whether `loss` is an outcome of the squared difference of `output` and
/// `expected`.
pub open spec fn is_loss<S: Scalar>(output: S, expected: S, loss: S) -> bool {
    exists|d: S| is_difference(output, expected, d) && is_power(d, 2, loss)
}

/// Whether `slope` is an outcome of twice the difference of `output` and
/// `expected`.
pub open spec fn is_loss_slope<S: Scalar>(output: S, expected: S, slope: S) -> bool {
    exists|two: S, d: S| is_count(2, two) && is_difference(output, expected, d) && is_product(
        two,
        d,
        slope,
    )
}

/// Whether `after` is an outcome of `before + input * error`.
pub open spec fn is_accumulated<S: Scalar>(before: S, input: S, error: S, after: S) -> bool {
    exists|share: S| is_product(input, error, share) && is_sum(before, share, after)
}

/// Whether `after` is an outcome of `value - gradient * rate`.
pub open spec fn is_descent<S: Scalar>(value: S, gradient: S, rate: S, after: S) -> bool {
    exists|step: S| is_product(gradient, rate, step) && is_difference(value, step, after)
}

/// Whether `scale` is an outcome of `sqrt(2 / input_size)`.
pub open spec fn is_initial_scale<S: Scalar>(input_size: usize, scale: S) -> bool {
    exists|two: S, n: S, q: S|
        is_count(2, two) && is_count(input_size, n) && is_quotient(two, n, q) && is_sqrt(q, scale)
}

/// Whether `weight` is an outcome of a standard normal draw times `scale`.
pub open spec fn is_initial_weight<S: Scalar>(scale: S, weight: S) -> bool {
    exists|draw: S| is_standard_normal(draw) && is_product(draw, scale, weight)
}

/// The gradient that a unit has accumulated since its last update.
#[derive(Debug)]
pub struct LossGradient<S> {
    /// One entry per weight.
    pub loss_gradient_weight: Vec<S>,
    /// The entry of the bias.
    pub loss_gradient_bias: S,
}

/// What a unit remembers of its last forward and backward pass.
#[derive(Debug)]
pub struct DataCache<S> {
    last_output: S,
    last_bias: S,
    last_inputs: Vec<S>,
    last_deriv: S,
}

/// A processing unit: weights, a bias and an activation.
#[derive(Debug)]
pub struct Neuron<S> {
    weights: Vec<S>,
    bias: S,
    input_size: usize,
    activation: Activation,
    loss_gradient: LossGradient<S>,
    cache: DataCache<S>,
}

impl<S: Scalar> Neuron<S> {
    /// The weights, one per input.
    pub closed spec fn weights(self) -> Seq<S> {
        self.weights@
    }

    /// The bias.
    pub closed spec fn bias(self) -> S {
        self.bias
    }

    /// The number of inputs that the unit takes.
    pub closed spec fn input_size(self) -> nat {
        self.input_size as nat
    }

    /// The activation that the unit applies.
    pub closed spec fn activation(self) -> Activation {
        self.activation
    }

    /// The accumulated gradient of the weights.
    pub closed spec fn weight_gradients(self) -> Seq<S> {
        self.loss_gradient.loss_gradient_weight@
    }

    /// The accumulated gradient of the bias.
    pub closed spec fn bias_gradient(self) -> S {
        self.loss_gradient.loss_gradient_bias
    }

    /// The input of the last forward pass.
    pub closed spec fn cached_inputs(self) -> Seq<S> {
        self.cache.last_inputs@
    }

    /// The weighted sum plus bias of the last forward pass.
    pub closed spec fn cached_sum(self) -> S {
        self.cache.last_bias
    }

    /// The output of the last forward pass.
    pub closed spec fn cached_output(self) -> S {
        self.cache.last_output
    }

    /// The error term of the last backward pass.
    pub closed spec fn cached_error(self) -> S {
        self.cache.last_deriv
    }

    /// A unit is well formed when its weights, its accumulated weight
    /// gradients and its cached input all have the unit's input size.
    pub open spec fn wf(self) -> bool {
        &&& self.weights().len() == self.input_size()
        &&& self.weight_gradients().len() == self.input_size()
        &&& self.cached_inputs().len() == self.input_size()
    }

    /// Whether two units have the same weights, bias, activation and width.
    pub open spec fn same_parameters(self, other: Self) -> bool {
        &&& self.weights() == other.weights()
        &&& self.bias() == other.bias()
        &&& self.input_size() == other.input_size()
        &&& self.activation() == other.activation()
    }

    /// Whether two units have accumulated the same gradient.
    pub open spec fn same_gradients(self, other: Self) -> bool {
        &&& self.weight_gradients() == other.weight_gradients()
        &&& self.bias_gradient() == other.bias_gradient()
    }

    /// Whether two units remember the same forward pass.
    pub open spec fn same_forward_cache(self, other: Self) -> bool {
        &&& self.cached_inputs() == other.cached_inputs()
        &&& self.cached_sum() == other.cached_sum()
        &&& self.cached_output() == other.cached_output()
    }

    /// Whether the unit has accumulated no gradient: every entry is an
    /// outcome of zero.
    pub open spec fn has_no_gradient(self) -> bool {
        &&& is_zero(self.bias_gradient())
        &&& forall|i: int|
            0 <= i < self.weight_gradients().len() ==> is_zero(#[trigger] self.weight_gradients()[i])
    }

    /// Whether what the unit remembers of its forward pass is explained by
    /// its parameters: the cached sum is an outcome of the weighted sum of
    /// the cached inputs plus the bias, and the cached output an outcome of
    /// the activation at the cached sum.
    pub open spec fn remembers_pass(self) -> bool {
        &&& is_pre_activation(self.cached_inputs(), self.weights(), self.bias(), self.cached_sum())
        &&& self.activation().maps(self.cached_sum(), self.cached_output())
    }

    /// Whether `error` is an outcome of the error term of an output unit
    /// in this state: the activation's derivative at the cached sum, times
    /// the slope of the loss at the cached output.
    pub open spec fn is_output_error(self, expected: S, error: S) -> bool {
        exists|loss_slope: S, slope: S|
            is_loss_slope(self.cached_output(), expected, loss_slope) && self.activation().slopes(
                self.cached_sum(),
                slope,
            ) && is_product(slope, loss_slope, error)
    }

    /// Whether `error` is an outcome of the error term of a hidden unit in
    /// this state, at index `idx` of its layer and before the units `next`:
    /// the error that comes back from `next`, times the activation's
    /// derivative at the cached sum.
    pub open spec fn is_hidden_error(self, next: Seq<Self>, idx: int, error: S) -> bool {
        exists|back: S, slope: S|
            is_back_sum(next, idx, next.len(), back) && self.activation().slopes(
                self.cached_sum(),
                slope,
            ) && is_product(back, slope, error)
    }

    /// Whether `self` has added one sample's gradient to what `before` had
    /// accumulated: to each weight's entry the cached input times the error
    /// term, to the bias's entry the error term.
    pub open spec fn accumulated_from(self, before: Self) -> bool {
        &&& self.weight_gradients().len() == before.weight_gradients().len()
        &&& is_sum(before.bias_gradient(), self.cached_error(), self.bias_gradient())
        &&& forall|i: int|
            0 <= i < self.weight_gradients().len() ==> is_accumulated(
                before.weight_gradients()[i],
                self.cached_inputs()[i],
                self.cached_error(),
                #[trigger] self.weight_gradients()[i],
            )
    }

    /// Whether `self` has taken the backward step of an output unit from
    /// where `before` stood: its error term is that of an output unit with
    /// the expected output `expected`, and it has added the sample's
    /// gradient to what `before` had accumulated.
    pub open spec fn took_output_step(self, before: Self, expected: S) -> bool {
        &&& self.is_output_error(expected, self.cached_error())
        &&& self.accumulated_from(before)
    }

    /// Whether `self` has taken the backward step of a hidden unit from
    /// where `before` stood: its error term is that of the hidden unit of
    /// index `idx` before the units `next`, and it has added the sample's
    /// gradient to what `before` had accumulated.
    pub open spec fn took_hidden_step(self, before: Self, next: Seq<Self>, idx: int) -> bool {
        &&& self.is_hidden_error(next, idx, self.cached_error())
        &&& self.accumulated_from(before)
    }

    /// Whether the unit is as [`Neuron::new`] makes it: no accumulated
    /// gradient, a zero bias, and weights that are standard normal draws
    /// times `sqrt(2 / input_size)`.
    pub open spec fn is_initial(self) -> bool {
        &&& self.has_no_gradient()
        &&& is_zero(self.bias())
        &&& exists|size: usize, scale: S| #[trigger]
            is_initial_scale(size, scale) && size == self.input_size() && forall|i: int|
                0 <= i < self.weights().len() ==> is_initial_weight(
                    scale,
                    #[trigger] self.weights()[i],
                )
    }

    /// Whether `self` has taken `rate` times what `before` had accumulated
    /// off the weights and the bias of `before`.
    pub open spec fn descended_from(self, before: Self, rate: S) -> bool {
        &&& self.weights().len() == before.weights().len()
        &&& is_descent(before.bias(), before.bias_gradient(), rate, self.bias())
        &&& forall|i: int|
            0 <= i < self.weights().len() ==> is_descent(
                before.weights()[i],
                before.weight_gradients()[i],
                rate,
                #[trigger] self.weights()[i],
            )
    }

    /// Where the arithmetic is deterministic, a forward pass is a function
    /// of the input and the parameters: two units of the same parameters
    /// that remember passes on the same input remember the same sum and
    /// the same output.
    pub proof fn lemma_pass_is_a_function(self, other: Self)
        requires
            is_deterministic::<S>(),
            self.same_parameters(other),
            self.cached_inputs() == other.cached_inputs(),
            self.remembers_pass(),
            other.remembers_pass(),
        ensures
            self.cached_sum() == other.cached_sum(),
            self.cached_output() == other.cached_output(),
    {
        let inputs = self.cached_inputs();
        let weighted = choose|weighted: S|
            is_weighted_sum(inputs, self.weights(), inputs.len(), weighted) && is_sum(
                weighted,
                self.bias(),
                self.cached_sum(),
            );
        let weighted2 = choose|weighted: S|
            is_weighted_sum(inputs, self.weights(), inputs.len(), weighted) && is_sum(
                weighted,
                self.bias(),
                other.cached_sum(),
            );
        lemma_weighted_sum_is_a_function(inputs, self.weights(), inputs.len(), weighted, weighted2);
        self.activation().lemma_call_is_a_function(
            self.cached_sum(),
            self.cached_output(),
            other.cached_output(),
        );
    }

    /// Runs the unit on `inputs` and remembers the pass.
    pub fn activate(&mut self, inputs: &[S]) -> (r: Result<S, NetworkError>)
        requires
            old(self).wf(),
        ensures
            final(self).wf(),
            final(self).same_parameters(*old(self)),
            final(self).same_gradients(*old(self)),
            final(self).cached_error() == old(self).cached_error(),
            inputs@.len() != old(self).input_size() ==> r is Err && r->Err_0.is_size_mismatch(
                neuron_name(),
                inputs@.len(),
                old(self).input_size(),
            ) && *final(self) == *old(self),
            inputs@.len() == old(self).input_size() ==> r is Ok && final(self).cached_inputs()
                == inputs@ && final(self).cached_output() == r->Ok_0 && final(self).remembers_pass(),
    {
        if inputs.len() != self.input_size {
            return Err(size_mismatch("Neuron", inputs.len(), self.input_size));
        }
        self.cache.last_inputs = copy_of(inputs);
        let mut weighted: S = S::zero();
        let mut i: usize = 0;
        while i < inputs.len()
            invariant
                i <= inputs.len(),
                inputs.len() == self.weights.len(),
                is_weighted_sum(inputs@, self.weights@, i as nat, weighted),
            decreases inputs.len() - i,
        {
            weighted = weighted.plus(inputs[i].times(self.weights[i]));
            i += 1;
        }
        let biased: S = weighted.plus(self.bias);
        self.cache.last_bias = biased;
        let activated: S = self.activation.call(biased);
        self.cache.last_output = activated;
        Ok(activated)
    }

    /// A unit with the given weights and bias, no accumulated gradient and
    /// an empty memory.
    pub fn with_parameters(weights: Vec<S>, bias: S, activation: Activation) -> (r: Neuron<S>)
        ensures
            r.wf(),
            r.weights() == weights@,
            r.bias() == bias,
            r.input_size() == weights@.len(),
            r.activation() == activation,
            r.has_no_gradient(),
    {
        let input_size: usize = weights.len();
        Neuron {
            weights,
            bias,
            input_size,
            activation,
            loss_gradient: LossGradient {
                loss_gradient_weight: filled(S::zero(), input_size),
                loss_gradient_bias: S::zero(),
            },
            cache: DataCache {
                last_output: S::zero(),
                last_bias: S::zero(),
                last_inputs: filled(S::zero(), input_size),
                last_deriv: S::zero(),
            },
        }
    }

    /// A unit of `input_size` inputs whose weights are drawn from a normal
    /// distribution scaled by `sqrt(2 / input_size)`, and whose bias is zero.
    pub fn new(input_size: usize, activation: Activation) -> (r: Neuron<S>)
        ensures
            r.wf(),
            r.input_size() == input_size,
            r.activation() == activation,
            r.is_initial(),
    {
        let divi: S = S::from_count(2).over(S::from_count(input_size)).sqrt();
        let mut weights: Vec<S> = Vec::with_capacity(input_size);
        let mut i: usize = 0;
        while i < input_size
            invariant
                i <= input_size,
                weights@.len() == i,
                forall|k: int| 0 <= k < i ==> is_initial_weight(divi, #[trigger] weights@[k]),
            decreases input_size - i,
        {
            weights.push(S::standard_normal().times(divi));
            i += 1;
        }
        assert(is_initial_scale(input_size, divi));
        Neuron::with_parameters(weights, S::zero(), activation)
    }

    /// Replaces one weight. Fails, and changes nothing, where the unit has
    /// no weight of that index.
    pub fn set_weight(&mut self, weight_idx: usize, new_weight: &S) -> (r: Result<(), ()>)
        ensures
            final(self).only_weights_differ(*old(self)),
            weight_idx < old(self).weights().len() ==> r is Ok && final(self).weights() == old(
                self,
            ).weights().update(weight_idx as int, *new_weight),
            weight_idx >= old(self).weights().len() ==> r is Err && *final(self) == *old(self),
    {
        if weight_idx < self.weights.len() {
            self.weights[weight_idx] = *new_weight;
            Ok(())
        } else {
            Err(())
        }
    }

    /// Whether `self` differs from `before` in its weights at most.
    pub open spec fn only_weights_differ(self, before: Self) -> bool {
        &&& self.bias() == before.bias()
        &&& self.input_size() == before.input_size()
        &&& self.activation() == before.activation()
        &&& self.same_gradients(before)
        &&& self.same_forward_cache(before)
        &&& self.cached_error() == before.cached_error()
    }

    /// Loss of a single output: the squared difference.
    pub fn loss(output: &S, expected_output: &S) -> (loss: S)
        ensures
            is_loss(*output, *expected_output, loss),
    {
        output.minus(*expected_output).powi(2)
    }

    /// The partial derivative of [`Neuron::loss`] by the output: twice the
    /// difference.
    pub fn deriv_loss(output: &S, expected_output: &S) -> (slope: S)
        ensures
            is_loss_slope(*output, *expected_output, slope),
    {
        S::from_count(2).times(output.minus(*expected_output))
    }

    /// Whether `self` differs from `before` in its error term at most.
    pub open spec fn only_error_differs(self, before: Self) -> bool {
        &&& self.same_parameters(before)
        &&& self.same_gradients(before)
        &&& self.same_forward_cache(before)
    }

    /// Error term of an output unit: the activation's derivative at the
    /// cached sum, times the derivative of the loss at the cached output.
    pub fn calculate_deriv_output(&mut self, expected_output: &S)
        ensures
            final(self).only_error_differs(*old(self)),
            final(self).is_output_error(*expected_output, final(self).cached_error()),
    {
        let loss_deriv: S = Neuron::deriv_loss(&self.cache.last_output, expected_output);
        let activation_deriv: S = self.activation.derivative(self.cache.last_bias);
        let deriv: S = activation_deriv.times(loss_deriv);
        // Kept for the previous layer to read.
        self.cache.last_deriv = deriv;
    }

    /// Error term of a hidden unit: the activation's derivative at the
    /// cached sum, times the sum over the next layer's units of their error
    /// term times the weight that they give to this unit's output.
    pub fn calculate_deriv_hidden(&mut self, next_layer: &Layer<S>, self_idx: usize)
        requires
            next_layer.wf(),
            self_idx < next_layer.input_size(),
        ensures
            final(self).only_error_differs(*old(self)),
            final(self).is_hidden_error(
                next_layer.units(),
                self_idx as int,
                final(self).cached_error(),
            ),
    {
        let mut deriv: S = S::zero();
        let count: usize = next_layer.get_neuron_count();
        let mut next_neuron_idx: usize = 0;
        while next_neuron_idx < count
            invariant
                next_layer.wf(),
                self_idx < next_layer.input_size(),
                count == next_layer.units().len(),
                next_neuron_idx <= count,
                is_back_sum(next_layer.units(), self_idx as int, next_neuron_idx as nat, deriv),
            decreases count - next_neuron_idx,
        {
            match next_layer.get_neuron(next_neuron_idx) {
                Some(next_neuron) => {
                    let next_neuron_deriv: S = next_neuron.cache.last_deriv;
                    deriv = deriv.plus(next_neuron_deriv.times(next_neuron.weights[self_idx]));
                },
                // The index is below the number of units.
                None => unreached(),
            }
            next_neuron_idx += 1;
        }
        deriv = deriv.times(self.activation.derivative(self.cache.last_bias));
        self.cache.last_deriv = deriv;
    }

    /// The weight of one input, where the unit has it.
    pub fn get_weight(&self, weight_idx: usize) -> (r: Option<&S>)
        ensures
            weight_idx < self.weights().len() ==> r == Some(&self.weights()[weight_idx as int]),
            weight_idx >= self.weights().len() ==> r is None,
    {
        if weight_idx < self.weights.len() {
            Some(&self.weights[weight_idx])
        } else {
            None
        }
    }

    /// Replaces the bias.
    pub fn set_bias(&mut self, new_bias: &S)
        ensures
            final(self).bias() == *new_bias,
            final(self).only_bias_differs(*old(self)),
    {
        self.bias = *new_bias;
    }

    /// Whether `self` differs from `before` in its bias at most.
    pub open spec fn only_bias_differs(self, before: Self) -> bool {
        &&& self.weights() == before.weights()
        &&& self.input_size() == before.input_size()
        &&& self.activation() == before.activation()
        &&& self.same_gradients(before)
        &&& self.same_forward_cache(before)
        &&& self.cached_error() == before.cached_error()
    }

    /// The bias.
    pub fn get_bias(&self) -> (r: &S)
        ensures
            *r == self.bias(),
    {
        &self.bias
    }

    /// The bias, to be changed in place.
    pub fn get_bias_mut(&mut self) -> (r: &mut S)
        ensures
            *r == old(self).bias(),
            final(self).bias() == *final(r),
            final(self).only_bias_differs(*old(self)),
    {
        &mut self.bias
    }

    /// The weight of one input, to be changed in place, where the unit has
    /// it.
    pub fn get_weight_mut(&mut self, weight_idx: usize) -> (r: Option<&mut S>)
        ensures
            final(self).only_weights_differ(*old(self)),
            weight_idx >= old(self).weights().len() ==> r is None && *final(self) == *old(self),
            weight_idx < old(self).weights().len() ==> r is Some && *r->Some_0 == old(
                self,
            ).weights()[weight_idx as int] && final(self).weights() == old(self).weights().update(
                weight_idx as int,
                *final(r->Some_0),
            ),
    {
        if weight_idx < self.weights.len() {
            Some(&mut self.weights[weight_idx])
        } else {
            None
        }
    }

    /// The accumulated gradient, to be changed in place. The unit stays
    /// well formed as long as the gradient keeps one entry per weight.
    pub fn get_loss_gradient_mut(&mut self) -> (r: &mut LossGradient<S>)
        ensures
            r.loss_gradient_weight@ == old(self).weight_gradients(),
            r.loss_gradient_bias == old(self).bias_gradient(),
            final(self).weight_gradients() == final(r).loss_gradient_weight@,
            final(self).bias_gradient() == final(r).loss_gradient_bias,
            final(self).same_parameters(*old(self)),
            final(self).same_forward_cache(*old(self)),
            final(self).cached_error() == old(self).cached_error(),
    {
        &mut self.loss_gradient
    }

    /// The activation that the unit applies.
    pub fn get_activation(&self) -> (r: Activation)
        ensures
            r == self.activation(),
    {
        self.activation
    }

    /// The number of weights, which is the unit's input size.
    pub fn get_weight_count(&self) -> (r: usize)
        ensures
            r == self.input_size(),
    {
        self.input_size
    }

    /// Whether `self` differs from `before` in its weights' and bias's
    /// values and in its accumulated gradient's values at most.
    pub open spec fn only_values_differ(self, before: Self) -> bool {
        &&& self.input_size() == before.input_size()
        &&& self.activation() == before.activation()
        &&& self.weights().len() == before.weights().len()
        &&& self.weight_gradients().len() == before.weight_gradients().len()
        &&& self.same_forward_cache(before)
        &&& self.cached_error() == before.cached_error()
    }

    /// Takes `learn_rate` times the accumulated gradient off the weights and
    /// the bias, and resets the accumulated gradient.
    pub fn apply_gradients(&mut self, learn_rate: S)
        requires
            old(self).wf(),
        ensures
            final(self).wf(),
            final(self).only_values_differ(*old(self)),
            final(self).descended_from(*old(self), learn_rate),
            final(self).has_no_gradient(),
    {
        self.bias = self.bias.minus(self.loss_gradient.loss_gradient_bias.times(learn_rate));
        self.loss_gradient.loss_gradient_bias = S::zero();
        let count: usize = self.get_weight_count();
        let mut idx: usize = 0;
        while idx < count
            invariant
                idx <= count,
                count == old(self).input_size(),
                old(self).wf(),
                self.wf(),
                self.only_values_differ(*old(self)),
                is_descent(old(self).bias(), old(self).bias_gradient(), learn_rate, self.bias()),
                is_zero(self.bias_gradient()),
                forall|i: int|
                    0 <= i < idx ==> is_descent(
                        old(self).weights()[i],
                        old(self).weight_gradients()[i],
                        learn_rate,
                        #[trigger] self.weights()[i],
                    ),
                forall|i: int| 0 <= i < idx ==> is_zero(#[trigger] self.weight_gradients()[i]),
                forall|i: int|
                    idx <= i < count ==> self.weights()[i] == old(self).weights()[i]
                        && self.weight_gradients()[i] == old(self).weight_gradients()[i],
            decreases count - idx,
        {
            let step: S = self.loss_gradient.loss_gradient_weight[idx].times(learn_rate);
            self.weights[idx] = self.weights[idx].minus(step);
            self.loss_gradient.loss_gradient_weight[idx] = S::zero();
            idx += 1;
        }
    }

    /// Whether `self` differs from `before` in its accumulated gradient's
    /// values at most.
    pub open spec fn only_gradients_differ(self, before: Self) -> bool {
        &&& self.same_parameters(before)
        &&& self.weight_gradients().len() == before.weight_gradients().len()
        &&& self.same_forward_cache(before)
        &&& self.cached_error() == before.cached_error()
    }

    /// Adds this sample's gradient to the accumulated one: for each weight
    /// the cached input times the error term, for the bias the error term.
    pub fn update_gradients(&mut self)
        requires
            old(self).wf(),
        ensures
            final(self).wf(),
            final(self).only_gradients_differ(*old(self)),
            final(self).accumulated_from(*old(self)),
    {
        let neuron_deriv: S = self.cache.last_deriv;
        let count: usize = self.get_weight_count();
        let mut inputidx: usize = 0;
        while inputidx < count
            invariant
                inputidx <= count,
                count == old(self).input_size(),
                neuron_deriv == old(self).cached_error(),
                old(self).wf(),
                self.wf(),
                self.only_gradients_differ(*old(self)),
                self.bias_gradient() == old(self).bias_gradient(),
                forall|i: int|
                    0 <= i < inputidx ==> is_accumulated(
                        old(self).weight_gradients()[i],
                        self.cached_inputs()[i],
                        self.cached_error(),
                        #[trigger] self.weight_gradients()[i],
                    ),
                forall|i: int|
                    inputidx <= i < count ==> self.weight_gradients()[i] == old(
                        self,
                    ).weight_gradients()[i],
            decreases count - inputidx,
        {
            let share: S = self.cache.last_inputs[inputidx].times(neuron_deriv);
            self.loss_gradient.loss_gradient_weight[inputidx] =
                self.loss_gradient.loss_gradient_weight[inputidx].plus(share);
            inputidx += 1;
        }
        // The learn rate is divided by the batch size, which averages this.
        self.loss_gradient.loss_gradient_bias = self.loss_gradient.loss_gradient_bias.plus(
            neuron_deriv,
        );
    }
}

/// Whether `acc` is an outcome of adding up, from zero and in order, over
/// the first `n` units of `next`, the unit's error term times the weight
/// that it gives to input `idx`.
pub open spec fn is_back_sum<S: Scalar>(next: Seq<Neuron<S>>, idx: int, n: nat, acc: S) -> bool
    decreases n,
{
    if n == 0 {
        is_zero(acc)
    } else {
        exists|before: S, term: S|
            is_back_sum(next, idx, (n - 1) as nat, before) && is_product(
                next[n - 1].cached_error(),
                next[n - 1].weights()[idx],
                term,
            ) && is_sum(before, term, acc)
    }
}

/// `n` copies of `value`.
pub fn filled<S: Scalar>(value: S, n: usize) -> (r: Vec<S>)
    ensures
        r@ == Seq::new(n as nat, |i: int| value),
{
    let mut r: Vec<S> = Vec::with_capacity(n);
    let mut i: usize = 0;
    while i < n
        invariant
            i <= n,
            r@ == Seq::new(i as nat, |k: int| value),
        decreases n - i,
    {
        r.push(value);
        i += 1;
        assert(r@ =~= Seq::new(i as nat, |k: int| value));
    }
    r
}

} // verus!
