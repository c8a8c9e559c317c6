//! An ordered collection of units that share one input.

use vstd::prelude::*;
use crate::activation::Activation;
use crate::error::{layer_name, size_mismatch, NetworkError};
use crate::neuron::Neuron;
use crate::scalar::{is_deterministic, Scalar};

verus! {

/// A layer of units of one input size.
#[derive(Debug)]
pub struct Layer<S> {
    neurons: Vec<Neuron<S>>,
    neuron_count: usize,
    input_size: usize,
}

impl<S: Scalar> Layer<S> {
    /// The units, in order.
    pub closed spec fn units(self) -> Seq<Neuron<S>> {
        self.neurons@
    }

    /// The number of inputs that the layer takes.
    pub closed spec fn input_size(self) -> nat {
        self.input_size as nat
    }

    /// The number of units that the layer was made with.
    pub closed spec fn neuron_count(self) -> nat {
        self.neuron_count as nat
    }

    /// A layer is well formed when it has as many units as it was made
    /// with, and each is well formed and takes the layer's input size.
    pub open spec fn wf(self) -> bool {
        &&& self.units().len() == self.neuron_count()
        &&& forall|i: int|
            0 <= i < self.units().len() ==> (#[trigger] self.units()[i]).wf()
                && self.units()[i].input_size() == self.input_size()
    }

    /// The outputs that the units remember, in order.
    pub open spec fn cached_outputs(self) -> Seq<S> {
        Seq::new(self.units().len(), |i: int| self.units()[i].cached_output())
    }

    /// Whether every unit remembers `inputs` as its last input.
    pub open spec fn fed_with(self, inputs: Seq<S>) -> bool {
        forall|i: int|
            0 <= i < self.units().len() ==> (#[trigger] self.units()[i]).cached_inputs() == inputs
    }

    /// Whether the two layers have the same widths, and unit by unit the
    /// same activation.
    pub open spec fn same_shape(self, other: Self) -> bool {
        &&& self.input_size() == other.input_size()
        &&& self.neuron_count() == other.neuron_count()
        &&& self.units().len() == other.units().len()
        &&& forall|i: int|
            0 <= i < self.units().len() ==> (#[trigger] self.units()[i]).activation()
                == other.units()[i].activation()
    }

    /// Whether the two layers have the same shape, and unit by unit the
    /// same weights and bias.
    pub open spec fn same_parameters(self, other: Self) -> bool {
        &&& self.same_shape(other)
        &&& forall|i: int|
            0 <= i < self.units().len() ==> (#[trigger] self.units()[i]).same_parameters(
                other.units()[i],
            )
    }

    /// Whether the two layers have, unit by unit, accumulated the same
    /// gradient.
    pub open spec fn same_gradients(self, other: Self) -> bool {
        &&& self.units().len() == other.units().len()
        &&& forall|i: int|
            0 <= i < self.units().len() ==> (#[trigger] self.units()[i]).same_gradients(
                other.units()[i],
            )
    }

    /// Whether the two layers remember, unit by unit, the same forward
    /// pass.
    pub open spec fn same_forward_cache(self, other: Self) -> bool {
        &&& self.units().len() == other.units().len()
        &&& forall|i: int|
            0 <= i < self.units().len() ==> (#[trigger] self.units()[i]).same_forward_cache(
                other.units()[i],
            )
    }

    /// Whether the two layers remember, unit by unit, the same error term.
    pub open spec fn same_errors(self, other: Self) -> bool {
        &&& self.units().len() == other.units().len()
        &&& forall|i: int|
            0 <= i < self.units().len() ==> (#[trigger] self.units()[i]).cached_error()
                == other.units()[i].cached_error()
    }

    /// Whether every unit's memory of its forward pass is explained by its
    /// parameters.
    pub open spec fn remembers_pass(self) -> bool {
        forall|i: int| 0 <= i < self.units().len() ==> (#[trigger] self.units()[i]).remembers_pass()
    }

    /// Whether every unit is as [`Neuron::new`] makes it.
    pub open spec fn is_initial(self) -> bool {
        forall|i: int| 0 <= i < self.units().len() ==> (#[trigger] self.units()[i]).is_initial()
    }

    /// Whether `self` has taken the backward step of the output layer from
    /// where `before` stood: each unit that has a partner in `expected`
    /// has taken its step with it, and each other unit has the error term
    /// and the accumulated gradient that it had.
    pub open spec fn took_output_step(self, before: Self, expected: Seq<S>) -> bool {
        &&& self.units().len() == before.units().len()
        &&& forall|i: int|
            0 <= i < self.units().len() && i < expected.len() ==> (
            #[trigger] self.units()[i]).took_output_step(before.units()[i], expected[i])
        &&& forall|i: int|
            expected.len() <= i < self.units().len() ==> (#[trigger] self.units()[i]).same_gradients(
                before.units()[i],
            ) && self.units()[i].cached_error() == before.units()[i].cached_error()
    }

    /// Whether `self` has taken the backward step of a hidden layer from
    /// where `before` stood, with the units `next` behind it.
    pub open spec fn took_hidden_step(self, before: Self, next: Seq<Neuron<S>>) -> bool {
        &&& self.units().len() == before.units().len()
        &&& forall|i: int|
            0 <= i < self.units().len() ==> (#[trigger] self.units()[i]).took_hidden_step(
                before.units()[i],
                next,
                i,
            )
    }

    /// Whether every unit of `self` has taken `rate` times what the unit of
    /// `before` had accumulated off the weights and the bias of that unit,
    /// and has reset what it had accumulated.
    pub open spec fn descended_from(self, before: Self, rate: S) -> bool {
        &&& self.units().len() == before.units().len()
        &&& forall|i: int|
            0 <= i < self.units().len() ==> (#[trigger] self.units()[i]).descended_from(
                before.units()[i],
                rate,
            ) && self.units()[i].has_no_gradient()
    }

    /// A backward step of the output layer from where `mid` stood is one
    /// from where `was` stood, if `mid` had the accumulated gradients and
    /// the error terms of `was`.
    pub proof fn lemma_output_step_from(self, mid: Self, was: Self, expected: Seq<S>)
        requires
            self.took_output_step(mid, expected),
            mid.same_gradients(was),
            mid.same_errors(was),
        ensures
            self.took_output_step(was, expected),
    {
        assert forall|i: int| 0 <= i < self.units().len() && i < expected.len() implies (
        #[trigger] self.units()[i]).took_output_step(was.units()[i], expected[i]) by {
            assert(self.units()[i].took_output_step(mid.units()[i], expected[i]));
            assert(mid.units()[i].same_gradients(was.units()[i]));
        }
        assert forall|i: int| expected.len() <= i < self.units().len() implies (
        #[trigger] self.units()[i]).same_gradients(was.units()[i]) && self.units()[i].cached_error()
            == was.units()[i].cached_error() by {
            assert(self.units()[i].same_gradients(mid.units()[i]));
            assert(mid.units()[i].same_gradients(was.units()[i]));
        }
    }

    /// A backward step of a hidden layer from where `mid` stood is one from
    /// where `was` stood, if `mid` had the accumulated gradients of `was`.
    pub proof fn lemma_hidden_step_from(self, mid: Self, was: Self, next: Seq<Neuron<S>>)
        requires
            self.took_hidden_step(mid, next),
            mid.same_gradients(was),
        ensures
            self.took_hidden_step(was, next),
    {
        assert forall|i: int| 0 <= i < self.units().len() implies (
        #[trigger] self.units()[i]).took_hidden_step(was.units()[i], next, i) by {
            assert(self.units()[i].took_hidden_step(mid.units()[i], next, i));
            assert(mid.units()[i].same_gradients(was.units()[i]));
        }
    }

    /// Where the arithmetic is deterministic, a forward pass is a function
    /// of the input and the parameters: two layers of the same parameters
    /// that remember passes on the same input remember the same outputs.
    pub proof fn lemma_pass_is_a_function(self, other: Self, inputs: Seq<S>)
        requires
            is_deterministic::<S>(),
            self.same_parameters(other),
            self.fed_with(inputs),
            other.fed_with(inputs),
            self.remembers_pass(),
            other.remembers_pass(),
        ensures
            self.cached_outputs() == other.cached_outputs(),
    {
        assert forall|i: int| 0 <= i < self.units().len() implies self.cached_outputs()[i]
            == other.cached_outputs()[i] by {
            let a = self.units()[i];
            let b = other.units()[i];
            assert(a.same_parameters(b));
            assert(a.cached_inputs() == inputs && b.cached_inputs() == inputs);
            assert(a.remembers_pass() && b.remembers_pass());
            a.lemma_pass_is_a_function(b);
        }
        assert(self.cached_outputs() =~= other.cached_outputs());
    }

    /// A layer of `layer_size` fresh units of `input_size` inputs each.
    pub fn new(input_size: usize, layer_size: usize, activation: Activation) -> (r: Layer<S>)
        ensures
            r.wf(),
            r.input_size() == input_size,
            r.neuron_count() == layer_size,
            r.is_initial(),
            forall|i: int|
                0 <= i < layer_size ==> (#[trigger] r.units()[i]).activation() == activation,
    {
        let mut neurons: Vec<Neuron<S>> = Vec::with_capacity(layer_size);
        let mut i: usize = 0;
        while i < layer_size
            invariant
                i <= layer_size,
                neurons@.len() == i,
                forall|k: int|
                    0 <= k < i ==> (#[trigger] neurons@[k]).wf() && neurons@[k].input_size()
                        == input_size && neurons@[k].activation() == activation
                        && neurons@[k].is_initial(),
            decreases layer_size - i,
        {
            neurons.push(Neuron::new(input_size, activation));
            i += 1;
        }
        Layer { neuron_count: layer_size, neurons, input_size }
    }

    /// Runs every unit on `inputs` and returns their outputs in order.
    pub fn activate(&mut self, inputs: &[S]) -> (r: Result<Vec<S>, NetworkError>)
        requires
            old(self).wf(),
        ensures
            final(self).wf(),
            final(self).same_parameters(*old(self)),
            final(self).same_gradients(*old(self)),
            final(self).same_errors(*old(self)),
            inputs@.len() != old(self).input_size() ==> r is Err && r->Err_0.is_size_mismatch(
                layer_name(),
                inputs@.len(),
                old(self).input_size(),
            ) && *final(self) == *old(self),
            inputs@.len() == old(self).input_size() ==> r is Ok && final(self).fed_with(inputs@)
                && final(self).remembers_pass() && r->Ok_0@ == final(self).cached_outputs(),
    {
        if inputs.len() != self.input_size {
            return Err(size_mismatch("Layer", inputs.len(), self.input_size));
        }
        let count: usize = self.neurons.len();
        let mut outputs: Vec<S> = Vec::with_capacity(count);
        let mut i: usize = 0;
        while i < count
            invariant
                i <= count,
                count == self.units().len(),
                inputs@.len() == self.input_size(),
                self.wf(),
                self.same_parameters(*old(self)),
                self.same_gradients(*old(self)),
                self.same_errors(*old(self)),
                outputs@.len() == i,
                forall|k: int|
                    0 <= k < i ==> (#[trigger] self.units()[k]).cached_inputs() == inputs@
                        && self.units()[k].cached_output() == outputs@[k]
                        && self.units()[k].remembers_pass(),
            decreases count - i,
        {
            let neuron = &mut self.neurons[i];
            match neuron.activate(inputs) {
                Ok(output) => {
                    outputs.push(output);
                },
                // Each unit takes the layer's input size.
                Err(_) => unreached(),
            }
            i += 1;
        }
        assert(outputs@ =~= self.cached_outputs());
        Ok(outputs)
    }

    /// The number of units.
    pub fn get_neuron_count(&self) -> (r: usize)
        ensures
            r == self.neuron_count(),
    {
        self.neuron_count
    }

    /// The unit at `idx`, where the layer has it.
    pub fn get_neuron(&self, idx: usize) -> (r: Option<&Neuron<S>>)
        ensures
            idx < self.units().len() ==> r == Some(&self.units()[idx as int]),
            idx >= self.units().len() ==> r is None,
    {
        if idx < self.neurons.len() {
            Some(&self.neurons[idx])
        } else {
            None
        }
    }

    /// The unit at `idx`, to be changed in place, where the layer has it.
    /// The layer stays well formed as long as the unit stays well formed
    /// and keeps its input size.
    pub fn get_neuron_mut(&mut self, idx: usize) -> (r: Option<&mut Neuron<S>>)
        ensures
            final(self).input_size() == old(self).input_size(),
            final(self).neuron_count() == old(self).neuron_count(),
            idx >= old(self).units().len() ==> r is None && *final(self) == *old(self),
            idx < old(self).units().len() ==> r is Some && *r->Some_0 == old(self).units()[idx as int]
                && final(self).units() == old(self).units().update(idx as int, *final(r->Some_0)),
    {
        if idx < self.neurons.len() {
            Some(&mut self.neurons[idx])
        } else {
            None
        }
    }

    /// Whether `self` differs from `before` in its units' error terms and
    /// accumulated gradients' values at most.
    pub open spec fn only_backward_state_differs(self, before: Self) -> bool {
        &&& self.same_parameters(before)
        &&& self.same_forward_cache(before)
    }

    /// Backward step of the output layer: pairs the units with
    /// `expected_outputs` one to one, and has each paired unit compute its
    /// error term from its expected output and add its gradient to what it
    /// has accumulated. A unit without a partner is left as it is.
    pub fn update_gradients_output(&mut self, expected_outputs: &[S])
        requires
            old(self).wf(),
        ensures
            final(self).wf(),
            final(self).only_backward_state_differs(*old(self)),
            final(self).took_output_step(*old(self), expected_outputs@),
    {
        let count: usize = if self.neurons.len() < expected_outputs.len() {
            self.neurons.len()
        } else {
            expected_outputs.len()
        };
        let mut i: usize = 0;
        while i < count
            invariant
                i <= count,
                count <= self.units().len(),
                count <= expected_outputs@.len(),
                self.wf(),
                self.only_backward_state_differs(*old(self)),
                forall|k: int|
                    0 <= k < i ==> (#[trigger] self.units()[k]).took_output_step(
                        old(self).units()[k],
                        expected_outputs@[k],
                    ),
                forall|k: int|
                    i <= k < self.units().len() ==> self.units()[k] == old(self).units()[k],
            decreases count - i,
        {
            let neuron = &mut self.neurons[i];
            neuron.calculate_deriv_output(&expected_outputs[i]);
            neuron.update_gradients();
            i += 1;
        }
    }

    /// Backward step of a hidden layer: has each unit compute its error
    /// term from the error terms and weights of `next_layer`, and add its
    /// gradient to what it has accumulated.
    pub fn update_gradients_hidden(&mut self, next_layer: &Layer<S>)
        requires
            old(self).wf(),
            next_layer.wf(),
            old(self).units().len() <= next_layer.input_size(),
        ensures
            final(self).wf(),
            final(self).only_backward_state_differs(*old(self)),
            final(self).took_hidden_step(*old(self), next_layer.units()),
    {
        let count: usize = self.neurons.len();
        let mut neuronidx: usize = 0;
        while neuronidx < count
            invariant
                neuronidx <= count,
                count == self.units().len(),
                count <= next_layer.input_size(),
                next_layer.wf(),
                self.wf(),
                self.only_backward_state_differs(*old(self)),
                forall|k: int|
                    0 <= k < neuronidx ==> (#[trigger] self.units()[k]).took_hidden_step(
                        old(self).units()[k],
                        next_layer.units(),
                        k,
                    ),
                forall|k: int|
                    neuronidx <= k < count ==> self.units()[k] == old(self).units()[k],
            decreases count - neuronidx,
        {
            let neuron = &mut self.neurons[neuronidx];
            neuron.calculate_deriv_hidden(next_layer, neuronidx);
            neuron.update_gradients();
            neuronidx += 1;
        }
    }

    /// Whether `self` differs from `before` in its units' weights, biases
    /// and accumulated gradients at most, and in their values only.
    pub open spec fn only_values_differ(self, before: Self) -> bool {
        &&& self.same_shape(before)
        &&& self.same_forward_cache(before)
        &&& self.same_errors(before)
    }

    /// Has every unit take `learn_rate` times its accumulated gradient off
    /// its weights and bias, and reset what it has accumulated.
    pub fn apply_gradients(&mut self, learn_rate: S)
        requires
            old(self).wf(),
        ensures
            final(self).wf(),
            final(self).only_values_differ(*old(self)),
            final(self).descended_from(*old(self), learn_rate),
    {
        let count: usize = self.neurons.len();
        let mut neuronidx: usize = 0;
        while neuronidx < count
            invariant
                neuronidx <= count,
                count == self.units().len(),
                self.wf(),
                self.only_values_differ(*old(self)),
                forall|k: int|
                    0 <= k < neuronidx ==> (#[trigger] self.units()[k]).descended_from(
                        old(self).units()[k],
                        learn_rate,
                    ) && self.units()[k].has_no_gradient(),
                forall|k: int|
                    neuronidx <= k < count ==> self.units()[k] == old(self).units()[k],
            decreases count - neuronidx,
        {
            let neuron = &mut self.neurons[neuronidx];
            neuron.apply_gradients(learn_rate);
            neuronidx += 1;
        }
    }
}

} // verus!
