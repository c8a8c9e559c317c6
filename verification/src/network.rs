//! A network of layers: inference, loss and training.

use vstd::prelude::*;
use crate::activation::Activation;
use crate::error::{network_name, size_mismatch, NetworkError, NoLayersError};
use crate::layer::Layer;
use crate::neuron::{copy_of, is_loss, Neuron};
use crate::sampling::{draw_batch, is_permutation, is_selection, lemma_selection};
use crate::scalar::{is_count, is_deterministic, is_quotient, is_sum, is_zero, Scalar};
use crate::training::{selection_of, views_of, DataValue};

verus! {

/// A neural network.
#[derive(Debug)]
pub struct NeuralNetwork<S> {
    layers: Vec<Layer<S>>,
    layer_count: usize,
    input_size: usize,
}

impl<S: Scalar> NeuralNetwork<S> {
    /// The layers, from the input side to the output side.
    pub closed spec fn layers(self) -> Seq<Layer<S>> {
        self.layers@
    }

    /// The number of inputs that the network takes.
    pub closed spec fn input_size(self) -> nat {
        self.input_size as nat
    }

    /// The number of layers that the network was made with.
    pub closed spec fn layer_count(self) -> nat {
        self.layer_count as nat
    }

    /// A network is well formed when it has at least one layer, each layer
    /// is well formed, the first takes the network's input size, and each
    /// other layer takes as many inputs as the layer before it has units.
    pub open spec fn wf(self) -> bool {
        &&& self.layers().len() == self.layer_count()
        &&& self.layers().len() >= 1
        &&& forall|i: int| 0 <= i < self.layers().len() ==> (#[trigger] self.layers()[i]).wf()
        &&& self.layers()[0].input_size() == self.input_size()
        &&& forall|i: int|
            1 <= i < self.layers().len() ==> (#[trigger] self.layers()[i]).input_size()
                == self.layers()[i - 1].neuron_count()
    }

    /// Whether the network has the topology that `layer_sizes`,
    /// `input_size` and `activations` describe.
    pub open spec fn has_topology(
        self,
        layer_sizes: Seq<usize>,
        input_size: nat,
        activations: Seq<Activation>,
    ) -> bool {
        &&& self.wf()
        &&& self.input_size() == input_size
        &&& self.layers().len() == layer_sizes.len()
        &&& self.layers().len() == activations.len()
        &&& forall|i: int|
            0 <= i < self.layers().len() ==> (#[trigger] self.layers()[i]).neuron_count()
                == layer_sizes[i]
        &&& forall|i: int, j: int|
            0 <= i < self.layers().len() && 0 <= j < self.layers()[i].units().len() ==> (
            #[trigger] self.layers()[i].units()[j]).activation() == activations[i]
    }

    /// What layer `k` is fed when the network is fed `inputs`: the inputs
    /// themselves for the first layer, and for each other layer the outputs
    /// that the layer before it remembers.
    pub open spec fn input_of_layer(self, k: int, inputs: Seq<S>) -> Seq<S> {
        if k == 0 {
            inputs
        } else {
            self.layers()[k - 1].cached_outputs()
        }
    }

    /// Whether the network remembers a forward pass on `inputs`: every
    /// layer remembers as its input what it is fed when the network is fed
    /// `inputs`.
    pub open spec fn fed_forward(self, inputs: Seq<S>) -> bool {
        forall|k: int|
            0 <= k < self.layers().len() ==> (#[trigger] self.layers()[k]).fed_with(
                self.input_of_layer(k, inputs),
            )
    }

    /// The outputs that the last layer remembers.
    pub open spec fn cached_outputs(self) -> Seq<S> {
        self.layers().last().cached_outputs()
    }

    /// Whether the two networks have the same widths, and unit by unit the
    /// same activation.
    pub open spec fn same_shape(self, other: Self) -> bool {
        &&& self.input_size() == other.input_size()
        &&& self.layer_count() == other.layer_count()
        &&& self.layers().len() == other.layers().len()
        &&& forall|i: int|
            0 <= i < self.layers().len() ==> (#[trigger] self.layers()[i]).same_shape(
                other.layers()[i],
            )
    }

    /// Whether the two networks have the same shape, and unit by unit the
    /// same weights and bias.
    pub open spec fn same_parameters(self, other: Self) -> bool {
        &&& self.same_shape(other)
        &&& forall|i: int|
            0 <= i < self.layers().len() ==> (#[trigger] self.layers()[i]).same_parameters(
                other.layers()[i],
            )
    }

    /// Whether the two networks have, unit by unit, accumulated the same
    /// gradient.
    pub open spec fn same_gradients(self, other: Self) -> bool {
        &&& self.layers().len() == other.layers().len()
        &&& forall|i: int|
            0 <= i < self.layers().len() ==> (#[trigger] self.layers()[i]).same_gradients(
                other.layers()[i],
            )
    }

    /// Whether the two networks remember, unit by unit, the same forward
    /// pass.
    pub open spec fn same_forward_cache(self, other: Self) -> bool {
        &&& self.layers().len() == other.layers().len()
        &&& forall|i: int|
            0 <= i < self.layers().len() ==> (#[trigger] self.layers()[i]).same_forward_cache(
                other.layers()[i],
            )
    }

    /// Whether the two networks remember, unit by unit, the same error
    /// term.
    pub open spec fn same_errors(self, other: Self) -> bool {
        &&& self.layers().len() == other.layers().len()
        &&& forall|i: int|
            0 <= i < self.layers().len() ==> (#[trigger] self.layers()[i]).same_errors(
                other.layers()[i],
            )
    }

    /// Whether every unit's memory of its forward pass is explained by its
    /// parameters.
    pub open spec fn remembers_pass(self) -> bool {
        forall|i: int|
            0 <= i < self.layers().len() ==> (#[trigger] self.layers()[i]).remembers_pass()
    }

    /// Whether every unit is as [`Neuron::new`] makes it.
    pub open spec fn is_initial(self) -> bool {
        forall|i: int| 0 <= i < self.layers().len() ==> (#[trigger] self.layers()[i]).is_initial()
    }

    /// Whether `self` remembers a forward pass on `inputs` that its
    /// parameters explain, with the outputs `outputs`.
    pub open spec fn passed(self, inputs: Seq<S>, outputs: Seq<S>) -> bool {
        &&& self.fed_forward(inputs)
        &&& self.remembers_pass()
        &&& self.cached_outputs() == outputs
    }

    /// Whether `loss` is an outcome of the loss of a network with these
    /// parameters on a sample: the sum, from zero and in order, of
    /// [`Neuron::loss`] over the outputs of a forward pass on the sample's
    /// input, paired one to one with the expected outputs.
    pub open spec fn is_loss_of(self, sample: (Seq<S>, Seq<S>), loss: S) -> bool {
        exists|pass: Self| #[trigger]
            pass.same_parameters(self) && pass.passed(sample.0, pass.cached_outputs())
                && is_loss_sum(
                pass.cached_outputs(),
                sample.1,
                shorter(pass.cached_outputs().len(), sample.1.len()),
                loss,
            )
    }

    /// Whether `total` is an outcome of adding up, from zero and in order,
    /// the losses of a network with these parameters on the first `n`
    /// samples.
    pub open spec fn is_total_loss(self, samples: Seq<(Seq<S>, Seq<S>)>, n: nat, total: S) -> bool
        decreases n,
    {
        if n == 0 {
            is_zero(total)
        } else {
            exists|before: S, term: S|
                self.is_total_loss(samples, (n - 1) as nat, before) && self.is_loss_of(
                    samples[n - 1],
                    term,
                ) && is_sum(before, term, total)
        }
    }

    /// Whether `mean` is an outcome of the total loss on all samples over
    /// their number.
    pub open spec fn is_mean_loss(self, samples: Seq<(Seq<S>, Seq<S>)>, mean: S) -> bool {
        exists|total: S, number: S|
            self.is_total_loss(samples, samples.len(), total) && is_count(
                samples.len() as usize,
                number,
            ) && is_quotient(total, number, mean)
    }

    /// Whether `self` has taken one sample's forward and backward pass
    /// from where `before` stood: with the parameters of `before` it
    /// remembers a forward pass on the sample's input, the last layer has
    /// taken the backward step of the output layer with the sample's
    /// expected output, and each other layer that of a hidden layer with
    /// the layer after it as that layer now stands.
    pub open spec fn took_sample_step(self, before: Self, sample: (Seq<S>, Seq<S>)) -> bool {
        &&& self.wf()
        &&& self.same_parameters(before)
        &&& self.fed_forward(sample.0)
        &&& self.remembers_pass()
        &&& self.layers().last().took_output_step(before.layers().last(), sample.1)
        &&& forall|l: int|
            0 <= l < self.layers().len() - 1 ==> (#[trigger] self.layers()[l]).took_hidden_step(
                before.layers()[l],
                self.layers()[l + 1].units(),
            )
    }

    /// Whether `self` has taken the passes of the first `n` samples, in
    /// order, from where `start` stood.
    pub open spec fn trained_through(self, start: Self, samples: Seq<(Seq<S>, Seq<S>)>, n: nat) -> bool
        decreases n,
    {
        if n == 0 {
            self == start
        } else {
            let prior = (n - 1) as nat;
            let sample = samples[prior as int];
            exists|mid: Self|
                mid.trained_through(start, samples, prior) && #[trigger] self.took_sample_step(
                    mid,
                    sample,
                )
        }
    }

    /// Whether every unit of `self` has taken `rate` times what the unit of
    /// `before` had accumulated off the weights and the bias of that unit,
    /// and has reset what it had accumulated.
    pub open spec fn descended_from(self, before: Self, rate: S) -> bool {
        &&& self.only_values_differ(before)
        &&& forall|l: int|
            0 <= l < self.layers().len() ==> (#[trigger] self.layers()[l]).descended_from(
                before.layers()[l],
                rate,
            )
    }

    /// Whether `self` has learned `samples` from where `start` stood: it
    /// has taken the passes of all samples in order, and then one descent
    /// at `learn_rate` over the number of samples.
    pub open spec fn learned_from(self, start: Self, samples: Seq<(Seq<S>, Seq<S>)>, learn_rate: S) -> bool {
        exists|mid: Self, number: S, rate: S|
            mid.trained_through(start, samples, samples.len()) && is_count(
                samples.len() as usize,
                number,
            ) && is_quotient(learn_rate, number, rate) && self.descended_from(mid, rate)
    }

    /// Where the arithmetic is deterministic, two networks of the same
    /// parameters that remember passes on the same input remember the same
    /// outputs in each of the first `upto` layers.
    pub proof fn lemma_layers_pass_alike(self, other: Self, inputs: Seq<S>, upto: nat)
        requires
            is_deterministic::<S>(),
            self.same_parameters(other),
            self.fed_forward(inputs),
            other.fed_forward(inputs),
            self.remembers_pass(),
            other.remembers_pass(),
            upto <= self.layers().len(),
        ensures
            forall|k: int|
                0 <= k < upto ==> (#[trigger] self.layers()[k]).cached_outputs()
                    == other.layers()[k].cached_outputs(),
        decreases upto,
    {
        if upto > 0 {
            self.lemma_layers_pass_alike(other, inputs, (upto - 1) as nat);
            let k = upto - 1;
            let a = self.layers()[k];
            let b = other.layers()[k];
            assert(a.same_parameters(b));
            assert(a.remembers_pass() && b.remembers_pass());
            assert(a.fed_with(self.input_of_layer(k, inputs)));
            assert(b.fed_with(other.input_of_layer(k, inputs)));
            if k > 0 {
                assert(self.layers()[k - 1].cached_outputs() == other.layers()[k
                    - 1].cached_outputs());
            }
            a.lemma_pass_is_a_function(b, self.input_of_layer(k, inputs));
        }
    }

    /// Where the arithmetic is deterministic, a forward pass is a function
    /// of the input and the parameters: two networks of the same
    /// parameters that have passed the same input have the same outputs.
    pub proof fn lemma_pass_is_a_function(
        self,
        other: Self,
        inputs: Seq<S>,
        outputs: Seq<S>,
        other_outputs: Seq<S>,
    )
        requires
            is_deterministic::<S>(),
            self.layers().len() > 0,
            self.same_parameters(other),
            self.passed(inputs, outputs),
            other.passed(inputs, other_outputs),
        ensures
            outputs == other_outputs,
    {
        self.lemma_layers_pass_alike(other, inputs, self.layers().len());
        let last = self.layers().len() - 1;
        assert(self.layers().last() == self.layers()[last]);
        assert(other.layers().last() == other.layers()[last]);
    }

    /// Create a new neural network.
    ///
    /// * `layer_sizes` - the size of each layer
    /// * `input_size` - how many inputs the first layer accepts
    /// * `activation_functions` - the activation function of each layer
    ///
    /// Fails where no layer is asked for, and where the two lists differ in
    /// length.
    pub fn new(layer_sizes: &[usize], input_size: usize, activation_functions: Vec<Activation>) -> (r:
        Result<NeuralNetwork<S>, NetworkError>)
        ensures
            layer_sizes@.len() == 0 || layer_sizes@.len() != activation_functions@.len() ==> r is Err
                && r->Err_0.is_no_layers(),
            layer_sizes@.len() > 0 && layer_sizes@.len() == activation_functions@.len() ==> r is Ok
                && r->Ok_0.has_topology(layer_sizes@, input_size as nat, activation_functions@)
                && r->Ok_0.is_initial(),
    {
        if layer_sizes.len() == 0 {
            return Err(NetworkError::NoLayers(NoLayersError {  }));
        }
        if layer_sizes.len() != activation_functions.len() {
            return Err(NetworkError::NoLayers(NoLayersError {  }));
        }
        let count: usize = layer_sizes.len();
        let mut layers: Vec<Layer<S>> = Vec::with_capacity(count);
        let mut previous_size: usize = input_size;
        let mut i: usize = 0;
        while i < count
            invariant
                i <= count,
                count == layer_sizes@.len(),
                count == activation_functions@.len(),
                layers@.len() == i,
                previous_size == (if i == 0 {
                    input_size
                } else {
                    layer_sizes@[i - 1]
                }),
                forall|k: int| 0 <= k < i ==> (#[trigger] layers@[k]).wf(),
                forall|k: int| 0 <= k < i ==> (#[trigger] layers@[k]).is_initial(),
                forall|k: int|
                    0 <= k < i ==> (#[trigger] layers@[k]).neuron_count() == layer_sizes@[k],
                forall|k: int|
                    0 <= k < i ==> (#[trigger] layers@[k]).input_size() == (if k == 0 {
                        input_size
                    } else {
                        layer_sizes@[k - 1]
                    }),
                forall|k: int, j: int|
                    0 <= k < i && 0 <= j < layers@[k].units().len() ==> (
                    #[trigger] layers@[k].units()[j]).activation() == activation_functions@[k],
            decreases count - i,
        {
            layers.push(Layer::new(previous_size, layer_sizes[i], activation_functions[i]));
            previous_size = layer_sizes[i];
            i += 1;
        }
        Ok(NeuralNetwork { layer_count: layers.len(), layers, input_size })
    }

    /// Run the neural network with specific inputs.
    ///
    /// Threads `inputs` through every layer in order and returns the
    /// outputs of the last one. Every unit remembers the pass.
    pub fn activate(&mut self, inputs: &[S]) -> (r: Result<Vec<S>, NetworkError>)
        requires
            old(self).wf(),
        ensures
            final(self).wf(),
            final(self).same_parameters(*old(self)),
            final(self).same_gradients(*old(self)),
            final(self).same_errors(*old(self)),
            inputs@.len() != old(self).input_size() ==> r is Err && r->Err_0.is_size_mismatch(
                network_name(),
                inputs@.len(),
                old(self).input_size(),
            ) && *final(self) == *old(self),
            inputs@.len() == old(self).input_size() ==> r is Ok && final(self).passed(
                inputs@,
                r->Ok_0@,
            ),
    {
        if inputs.len() != self.input_size {
            return Err(size_mismatch("NeuralNetwork", inputs.len(), self.input_size));
        }
        // Each layer's output is the next layer's input.
        let mut next_in: Vec<S> = copy_of(inputs);
        let count: usize = self.layers.len();
        let mut i: usize = 0;
        while i < count
            invariant
                i <= count,
                count == self.layers().len(),
                self.wf(),
                self.same_parameters(*old(self)),
                self.same_gradients(*old(self)),
                self.same_errors(*old(self)),
                inputs@.len() == self.input_size(),
                next_in@ == self.input_of_layer(i as int, inputs@),
                forall|k: int|
                    0 <= k < i ==> (#[trigger] self.layers()[k]).fed_with(
                        self.input_of_layer(k, inputs@),
                    ) && self.layers()[k].remembers_pass(),
            decreases count - i,
        {
            let layer = &mut self.layers[i];
            match layer.activate(next_in.as_slice()) {
                Ok(outputs) => {
                    next_in = outputs;
                },
                // Each layer takes what the layer before it gives.
                Err(_) => unreached(),
            }
            i += 1;
        }
        Ok(next_in)
    }

    /// Get the number of inputs that this neural network takes.
    pub fn get_input_size(&self) -> (r: usize)
        ensures
            r == self.input_size(),
    {
        self.input_size
    }

    /// Get the number of layers in this neural network.
    pub fn get_layer_count(&self) -> (r: usize)
        ensures
            r == self.layer_count(),
    {
        self.layer_count
    }

    /// The layer at `idx`, where the network has it.
    pub fn get_layer(&self, idx: usize) -> (r: Option<&Layer<S>>)
        ensures
            idx < self.layers().len() ==> r == Some(&self.layers()[idx as int]),
            idx >= self.layers().len() ==> r is None,
    {
        if idx < self.layers.len() {
            Some(&self.layers[idx])
        } else {
            None
        }
    }

    /// The layer at `idx`, to be changed in place, where the network has
    /// it. The network stays well formed as long as the layer stays well
    /// formed and keeps its widths.
    pub fn get_layer_mut(&mut self, idx: usize) -> (r: Option<&mut Layer<S>>)
        ensures
            final(self).input_size() == old(self).input_size(),
            final(self).layer_count() == old(self).layer_count(),
            idx >= old(self).layers().len() ==> r is None && *final(self) == *old(self),
            idx < old(self).layers().len() ==> r is Some && *r->Some_0 == old(self).layers()[idx as int]
                && final(self).layers() == old(self).layers().update(idx as int, *final(r->Some_0)),
    {
        if idx < self.layers.len() {
            Some(&mut self.layers[idx])
        } else {
            None
        }
    }

    /// Whether `self` differs from `before` in what its units remember of
    /// the forward pass at most.
    pub open spec fn only_forward_cache_differs(self, before: Self) -> bool {
        &&& self.same_parameters(before)
        &&& self.same_gradients(before)
        &&& self.same_errors(before)
    }

    /// Calculate the loss of the network with a DataValue: the sum over the
    /// outputs, paired one to one with the expected outputs, of
    /// [`Neuron::loss`].
    pub fn loss_with_value(&mut self, value: &DataValue<S>) -> (r: Result<S, NetworkError>)
        requires
            old(self).wf(),
        ensures
            final(self).wf(),
            final(self).only_forward_cache_differs(*old(self)),
            value.input@.len() != old(self).input_size() ==> r is Err
                && r->Err_0.is_size_mismatch(
                network_name(),
                value.input@.len(),
                old(self).input_size(),
            ) && *final(self) == *old(self),
            value.input@.len() == old(self).input_size() ==> r is Ok && final(self).passed(
                value.input@,
                final(self).cached_outputs(),
            ) && is_loss_sum(
                final(self).cached_outputs(),
                value.expected_output@,
                shorter(final(self).cached_outputs().len(), value.expected_output@.len()),
                r->Ok_0,
            ) && old(self).is_loss_of(value@, r->Ok_0),
    {
        let output: Vec<S> = match self.activate(value.input.as_slice()) {
            Ok(output) => output,
            Err(e) => {
                return Err(e);
            },
        };
        let count: usize = if output.len() < value.expected_output.len() {
            output.len()
        } else {
            value.expected_output.len()
        };
        let mut loss: S = S::zero();
        let mut i: usize = 0;
        while i < count
            invariant
                i <= count,
                count <= output@.len(),
                count <= value.expected_output@.len(),
                is_loss_sum(output@, value.expected_output@, i as nat, loss),
            decreases count - i,
        {
            loss = loss.plus(Neuron::loss(&output[i], &value.expected_output[i]));
            i += 1;
        }
        assert(self.same_parameters(*old(self)));
        Ok(loss)
    }

    /// Calculate the average loss for a slice of DataValues.
    ///
    /// Stops at the first value whose input the network does not take, and
    /// then remembers the pass of the value before it.
    pub fn loss(&mut self, values: &[DataValue<S>]) -> (r: Result<S, NetworkError>)
        requires
            old(self).wf(),
        ensures
            final(self).wf(),
            final(self).only_forward_cache_differs(*old(self)),
            first_misfit(values@, old(self).input_size()) == values@.len() ==> r is Ok && old(
                self,
            ).is_mean_loss(views_of(values@), r->Ok_0),
            first_misfit(values@, old(self).input_size()) == 0 ==> *final(self) == *old(self),
            first_misfit(values@, old(self).input_size()) > 0 ==> final(self).passed(
                values@[first_misfit(values@, old(self).input_size()) - 1].input@,
                final(self).cached_outputs(),
            ),
            first_misfit(values@, old(self).input_size()) < values@.len() ==> r is Err
                && r->Err_0.is_size_mismatch(
                network_name(),
                values@[first_misfit(values@, old(self).input_size()) as int].input@.len(),
                old(self).input_size(),
            ),
    {
        let mut total_loss: S = S::zero();
        let value_length: usize = values.len();
        let mut i: usize = 0;
        while i < value_length
            invariant
                i <= value_length,
                value_length == values@.len(),
                self.wf(),
                self.only_forward_cache_differs(*old(self)),
                self.input_size() == old(self).input_size(),
                first_misfit(values@, self.input_size()) >= i,
                old(self).is_total_loss(views_of(values@), i as nat, total_loss),
                i == 0 ==> *self == *old(self),
                i > 0 ==> self.passed(values@[i - 1].input@, self.cached_outputs()),
            decreases value_length - i,
        {
            proof {
                lemma_first_misfit(values@, self.input_size());
            }
            let ghost before = *self;
            match self.loss_with_value(&values[i]) {
                Ok(loss) => {
                    proof {
                        before.lemma_loss_is_of_parameters(*old(self), values@[i as int]@, loss);
                        assert(views_of(values@)[i as int] == values@[i as int]@);
                    }
                    total_loss = total_loss.plus(loss);
                },
                Err(e) => {
                    return Err(e);
                },
            }
            i += 1;
        }
        proof {
            lemma_first_misfit(values@, self.input_size());
        }
        let number: S = S::from_count(value_length);
        let mean: S = total_loss.over(number);
        proof {
            let samples = views_of(values@);
            assert(samples.len() as usize == value_length);
            assert(old(self).is_total_loss(samples, samples.len(), total_loss));
        }
        Ok(mean)
    }

    /// The loss on a sample is a matter of the parameters alone: what is an
    /// outcome of it for one network is one for every network of the same
    /// parameters.
    pub proof fn lemma_loss_is_of_parameters(self, other: Self, sample: (Seq<S>, Seq<S>), loss: S)
        requires
            self.same_parameters(other),
            self.is_loss_of(sample, loss),
        ensures
            other.is_loss_of(sample, loss),
    {
        let pass = choose|pass: Self| #[trigger]
            pass.same_parameters(self) && pass.passed(sample.0, pass.cached_outputs())
                && is_loss_sum(
                pass.cached_outputs(),
                sample.1,
                shorter(pass.cached_outputs().len(), sample.1.len()),
                loss,
            );
        pass.lemma_same_parameters_chain(self, other);
    }

    /// Having the same parameters carries over from one network to the
    /// next.
    pub proof fn lemma_same_parameters_chain(self, second: Self, third: Self)
        requires
            self.same_parameters(second),
            second.same_parameters(third),
        ensures
            self.same_parameters(third),
    {
        assert forall|i: int| 0 <= i < self.layers().len() implies (
        #[trigger] self.layers()[i]).same_parameters(third.layers()[i]) by {
            let a = self.layers()[i];
            let b = second.layers()[i];
            let c = third.layers()[i];
            assert(a.same_parameters(b) && b.same_parameters(c));
            assert(a.same_shape(b) && b.same_shape(c));
            assert forall|j: int| 0 <= j < a.units().len() implies (
            #[trigger] a.units()[j]).same_parameters(c.units()[j]) && a.units()[j].activation()
                == c.units()[j].activation() by {
                assert(a.units()[j].same_parameters(b.units()[j]));
                assert(b.units()[j].same_parameters(c.units()[j]));
            }
        }
        assert forall|i: int| 0 <= i < self.layers().len() implies (
        #[trigger] self.layers()[i]).same_shape(third.layers()[i]) by {
            assert(self.layers()[i].same_parameters(third.layers()[i]));
        }
    }

    /// Whether `self` differs from `before` in its units' weights, biases
    /// and accumulated gradients at most, and in their values only.
    pub open spec fn only_values_differ(self, before: Self) -> bool {
        &&& self.same_shape(before)
        &&& self.same_forward_cache(before)
        &&& self.same_errors(before)
    }

    /// A network that remembers the same forward pass as one that was fed
    /// `inputs` was fed `inputs` too.
    pub proof fn lemma_feed_is_kept(self, before: Self, inputs: Seq<S>)
        requires
            self.same_forward_cache(before),
            before.fed_forward(inputs),
        ensures
            self.fed_forward(inputs),
            self.layers().len() > 0 ==> self.cached_outputs() == before.cached_outputs(),
    {
        assert forall|k: int| 0 <= k < self.layers().len() implies (
        #[trigger] self.layers()[k]).cached_outputs() == before.layers()[k].cached_outputs() by {
            assert(self.layers()[k].same_forward_cache(before.layers()[k]));
            assert(self.layers()[k].cached_outputs() =~= before.layers()[k].cached_outputs());
        }
        assert forall|k: int| 0 <= k < self.layers().len() implies (
        #[trigger] self.layers()[k]).fed_with(self.input_of_layer(k, inputs)) by {
            assert(before.layers()[k].fed_with(before.input_of_layer(k, inputs)));
            assert(self.layers()[k].same_forward_cache(before.layers()[k]));
            if k > 0 {
                assert(self.layers()[k - 1].cached_outputs() == before.layers()[k
                    - 1].cached_outputs());
            }
            assert forall|i: int| 0 <= i < self.layers()[k].units().len() implies (
            #[trigger] self.layers()[k].units()[i]).cached_inputs() == self.input_of_layer(
                k,
                inputs,
            ) by {
                assert(self.layers()[k].units()[i].same_forward_cache(
                    before.layers()[k].units()[i],
                ));
            }
        }
        if self.layers().len() > 0 {
            assert(self.layers().last() == self.layers()[self.layers().len() - 1]);
            assert(before.layers().last() == before.layers()[self.layers().len() - 1]);
        }
    }

    /// A network with the parameters and the memory of one whose memory its
    /// parameters explain has a memory that its parameters explain.
    pub proof fn lemma_pass_is_kept(self, before: Self)
        requires
            self.same_forward_cache(before),
            self.same_parameters(before),
            before.remembers_pass(),
        ensures
            self.remembers_pass(),
    {
        assert forall|k: int| 0 <= k < self.layers().len() implies (
        #[trigger] self.layers()[k]).remembers_pass() by {
            let a = self.layers()[k];
            let b = before.layers()[k];
            assert(a.same_forward_cache(b) && a.same_parameters(b) && b.remembers_pass());
            assert forall|i: int| 0 <= i < a.units().len() implies (
            #[trigger] a.units()[i]).remembers_pass() by {
                assert(a.units()[i].same_forward_cache(b.units()[i]));
                assert(a.units()[i].same_parameters(b.units()[i]));
                assert(b.units()[i].remembers_pass());
            }
        }
    }

    /// Has every unit take `learn_rate` times its accumulated gradient off
    /// its weights and bias, and reset what it has accumulated.
    fn apply_gradients(&mut self, learn_rate: S)
        requires
            old(self).wf(),
        ensures
            final(self).wf(),
            final(self).descended_from(*old(self), learn_rate),
    {
        let count: usize = self.layers.len();
        let mut layeridx: usize = 0;
        while layeridx < count
            invariant
                layeridx <= count,
                count == self.layers().len(),
                self.wf(),
                self.only_values_differ(*old(self)),
                forall|l: int|
                    0 <= l < layeridx ==> (#[trigger] self.layers()[l]).descended_from(
                        old(self).layers()[l],
                        learn_rate,
                    ),
                forall|l: int| layeridx <= l < count ==> self.layers()[l] == old(self).layers()[l],
            decreases count - layeridx,
        {
            let layer = &mut self.layers[layeridx];
            layer.apply_gradients(learn_rate);
            layeridx += 1;
        }
    }

    /// Whether `self` differs from `before` in the layer at `at` at most,
    /// and there in the units' error terms and accumulated gradients'
    /// values only.
    pub open spec fn only_layer_stepped(self, before: Self, at: int) -> bool {
        &&& self.input_size() == before.input_size()
        &&& self.layer_count() == before.layer_count()
        &&& self.layers().len() == before.layers().len()
        &&& 0 <= at < self.layers().len()
        &&& forall|l: int|
            0 <= l < self.layers().len() && l != at ==> self.layers()[l] == before.layers()[l]
        &&& self.layers()[at].wf()
        &&& self.layers()[at].only_backward_state_differs(before.layers()[at])
    }

    /// A well-formed network of which one layer takes a backward step
    /// stays well formed, and keeps its parameters and its memory of the
    /// forward pass.
    pub proof fn lemma_layer_stepped(self, before: Self, at: int)
        requires
            before.wf(),
            self.only_layer_stepped(before, at),
        ensures
            self.wf(),
            self.same_parameters(before),
            self.same_forward_cache(before),
    {
        assert forall|l: int| 0 <= l < self.layers().len() implies (
        #[trigger] self.layers()[l]).same_parameters(before.layers()[l])
            && self.layers()[l].same_forward_cache(before.layers()[l]) && self.layers()[l].wf() by {
            assert(before.layers()[l].wf());
        }
        assert forall|l: int| 0 <= l < self.layers().len() implies (
        #[trigger] self.layers()[l]).same_shape(before.layers()[l]) by {
            assert(self.layers()[l].same_parameters(before.layers()[l]));
        }
        assert forall|l: int| 1 <= l < self.layers().len() implies (
        #[trigger] self.layers()[l]).input_size() == self.layers()[l - 1].neuron_count() by {
            assert(before.layers()[l].input_size() == before.layers()[l - 1].neuron_count());
            assert(self.layers()[l].same_shape(before.layers()[l]));
            assert(self.layers()[l - 1].same_shape(before.layers()[l - 1]));
        }
        assert(self.layers()[0].same_shape(before.layers()[0]));
    }

    /// Has the last layer take the backward step of the output layer.
    fn update_output_layer(&mut self, expected_outputs: &[S])
        requires
            old(self).wf(),
        ensures
            final(self).only_layer_stepped(*old(self), old(self).layers().len() - 1),
            final(self).layers().last().took_output_step(
                old(self).layers().last(),
                expected_outputs@,
            ),
    {
        let last: usize = self.layers.len() - 1;
        let output_layer = &mut self.layers[last];
        output_layer.update_gradients_output(expected_outputs);
    }

    /// Has the layer at `at` take the backward step of a hidden layer, with
    /// the layer after it behind it.
    #[verifier::rlimit(50)]
    fn update_hidden_layer(&mut self, at: usize)
        requires
            old(self).wf(),
            at + 1 < old(self).layers().len(),
        ensures
            final(self).only_layer_stepped(*old(self), at as int),
            final(self).layers()[at as int].took_hidden_step(
                old(self).layers()[at as int],
                old(self).layers()[at + 1].units(),
            ),
    {
        let ghost before = self.layers@;
        // The layers up to and with this one on one side, the next layer
        // on the other: the one is written while the other is read.
        let (up_to_current, past_current) = self.layers.as_mut_slice().split_at_mut(at + 1);
        assert(up_to_current@[at as int] == before[at as int]);
        assert(past_current@[0] == before[at + 1]);
        let current_layer = &mut up_to_current[at];
        let next_layer = &past_current[0];
        current_layer.update_gradients_hidden(next_layer);
        assert(self.layers@ =~= before.update(at as int, self.layers@[at as int]));
    }

    /// One sample's forward and backward pass: runs the network on the
    /// sample's input, has the output layer compute its error terms from
    /// the expected output, then each hidden layer, from the last one back
    /// to the first, compute its own from the layer after it. Every unit
    /// adds the sample's gradient to what it has accumulated.
    fn update_all_gradients(&mut self, value: &DataValue<S>)
        requires
            old(self).wf(),
            value.input@.len() == old(self).input_size(),
        ensures
            final(self).took_sample_step(*old(self), value@),
    {
        match self.activate(value.input.as_slice()) {
            Ok(_) => {},
            // The sample fits the network.
            Err(_) => unreached(),
        }
        let ghost activated = *self;
        let last: usize = self.layers.len() - 1;
        self.update_output_layer(value.expected_output.as_slice());
        proof {
            self.lemma_layer_stepped(activated, last as int);
            self.lemma_feed_is_kept(activated, value.input@);
            self.lemma_pass_is_kept(activated);
            self.lemma_same_parameters_chain(activated, *old(self));
            assert(self.layers().last() == self.layers()[last as int]);
            assert(activated.layers().last() == activated.layers()[last as int]);
            self.layers()[last as int].lemma_output_step_from(
                activated.layers()[last as int],
                old(self).layers()[last as int],
                value.expected_output@,
            );
        }
        let mut layeridx: usize = last;
        while layeridx > 0
            invariant
                layeridx <= last,
                last + 1 == self.layers().len(),
                activated.layers().len() == self.layers().len(),
                old(self).layers().len() == self.layers().len(),
                activated.same_gradients(*old(self)),
                self.wf(),
                self.same_parameters(*old(self)),
                self.fed_forward(value.input@),
                self.remembers_pass(),
                self.layers()[last as int].took_output_step(
                    old(self).layers()[last as int],
                    value.expected_output@,
                ),
                forall|l: int|
                    layeridx <= l < last ==> (#[trigger] self.layers()[l]).took_hidden_step(
                        old(self).layers()[l],
                        self.layers()[l + 1].units(),
                    ),
                forall|l: int| 0 <= l < layeridx ==> self.layers()[l] == activated.layers()[l],
            decreases layeridx,
        {
            let ghost before = *self;
            self.update_hidden_layer(layeridx - 1);
            proof {
                self.lemma_layer_stepped(before, layeridx - 1);
                self.lemma_feed_is_kept(before, value.input@);
                self.lemma_pass_is_kept(before);
                self.lemma_same_parameters_chain(before, *old(self));
                let at = layeridx - 1;
                assert(before.layers()[at] == activated.layers()[at]);
                assert(self.layers()[at + 1] == before.layers()[at + 1]);
                self.layers()[at].lemma_hidden_step_from(
                    activated.layers()[at],
                    old(self).layers()[at],
                    self.layers()[at + 1].units(),
                );
                assert forall|l: int| layeridx <= l < last implies (
                #[trigger] self.layers()[l]).took_hidden_step(
                    old(self).layers()[l],
                    self.layers()[l + 1].units(),
                ) by {
                    assert(self.layers()[l] == before.layers()[l]);
                    assert(self.layers()[l + 1] == before.layers()[l + 1]);
                }
            }
            layeridx -= 1;
        }
        proof {
            assert(self.layers().last() == self.layers()[last as int]);
            assert(old(self).layers().last() == old(self).layers()[last as int]);
        }
    }

    /// Train the network on some data.
    ///
    /// Runs the forward and backward pass of every sample in turn, each
    /// adding to the accumulated gradients, then takes the accumulated
    /// gradients, scaled by `learn_rate` over the number of samples, off
    /// the weights and biases, and resets them.
    ///
    /// * `training_data` - the data to train the network on
    /// * `learn_rate` - how fast the network should try to learn
    pub fn learn(&mut self, training_data: &[DataValue<S>], learn_rate: S)
        requires
            old(self).wf(),
            forall|k: int|
                0 <= k < training_data@.len() ==> (#[trigger] training_data@[k]).input@.len()
                    == old(self).input_size(),
        ensures
            final(self).wf(),
            final(self).same_shape(*old(self)),
            final(self).learned_from(*old(self), views_of(training_data@), learn_rate),
    {
        let count: usize = training_data.len();
        let ghost samples = views_of(training_data@);
        let mut i: usize = 0;
        while i < count
            invariant
                i <= count,
                count == training_data@.len(),
                samples == views_of(training_data@),
                forall|k: int|
                    0 <= k < training_data@.len() ==> (#[trigger] training_data@[k]).input@.len()
                        == self.input_size(),
                self.wf(),
                self.same_parameters(*old(self)),
                self.trained_through(*old(self), samples, i as nat),
            decreases count - i,
        {
            let ghost before = *self;
            self.update_all_gradients(&training_data[i]);
            proof {
                assert(samples[i as int] == training_data@[i as int]@);
                self.lemma_same_parameters_chain(before, *old(self));
                let prior = ((i + 1) as nat - 1) as nat;
                assert(prior == i);
                assert(before.trained_through(*old(self), samples, prior));
                assert(self.took_sample_step(before, samples[prior as int]));
                assert(self.trained_through(*old(self), samples, (i + 1) as nat));
            }
            i += 1;
        }
        let ghost mid = *self;
        let number: S = S::from_count(count);
        let rate: S = learn_rate.over(number);
        self.apply_gradients(rate);
        proof {
            assert(mid.trained_through(*old(self), samples, samples.len()));
            assert(self.descended_from(mid, rate));
            assert forall|l: int| 0 <= l < self.layers().len() implies (
            #[trigger] self.layers()[l]).same_shape(old(self).layers()[l]) by {
                assert(self.layers()[l].same_shape(mid.layers()[l]));
                assert(mid.layers()[l].same_parameters(old(self).layers()[l]));
            }
        }
    }

    /// Trains the network on the samples that `order` selects from
    /// `training_data`, in that order, as [`NeuralNetwork::learn`] does on a
    /// slice that holds them.
    pub fn learn_selected(&mut self, training_data: &[DataValue<S>], order: &[usize], learn_rate: S)
        requires
            old(self).wf(),
            forall|k: int|
                0 <= k < training_data@.len() ==> (#[trigger] training_data@[k]).input@.len()
                    == old(self).input_size(),
            forall|k: int| 0 <= k < order@.len() ==> #[trigger] order@[k] < training_data@.len(),
        ensures
            final(self).wf(),
            final(self).same_shape(*old(self)),
            final(self).learned_from(
                *old(self),
                selection_of(training_data@, order@),
                learn_rate,
            ),
    {
        let count: usize = order.len();
        let mut batch: Vec<DataValue<S>> = Vec::with_capacity(count);
        let mut i: usize = 0;
        while i < count
            invariant
                i <= count,
                count == order@.len(),
                batch@.len() == i,
                forall|k: int| 0 <= k < order@.len() ==> #[trigger] order@[k] < training_data@.len(),
                forall|k: int|
                    0 <= k < i ==> (#[trigger] batch@[k])@ == training_data@[order@[k] as int]@,
            decreases count - i,
        {
            batch.push(training_data[order[i]].duplicate());
            i += 1;
        }
        assert(views_of(batch@) =~= selection_of(training_data@, order@));
        self.learn(batch.as_slice(), learn_rate);
    }

    /// Trains the network on a random mini-batch: `amount` of the samples,
    /// drawn without repetition, in the order in which they were drawn.
    pub fn learn_randomly(&mut self, training_data: &[DataValue<S>], learn_rate: S, amount: usize)
        requires
            old(self).wf(),
            forall|k: int|
                0 <= k < training_data@.len() ==> (#[trigger] training_data@[k]).input@.len()
                    == old(self).input_size(),
            amount <= training_data@.len(),
        ensures
            final(self).wf(),
            final(self).same_shape(*old(self)),
            exists|order: Seq<usize>|
                order.len() == amount && is_selection(order, training_data@.len()) && (amount
                    == training_data@.len() ==> is_permutation(order, training_data@.len()))
                    && #[trigger] final(self).learned_from(
                    *old(self),
                    selection_of(training_data@, order),
                    learn_rate,
                ),
    {
        let order: Vec<usize> = draw_batch(training_data.len(), amount);
        proof {
            lemma_selection(order@, training_data@.len());
        }
        self.learn_selected(training_data, order.as_slice(), learn_rate);
    }
}

/// The smaller of two lengths.
pub open spec fn shorter(a: nat, b: nat) -> nat {
    if a < b {
        a
    } else {
        b
    }
}

/// Whether `acc` is an outcome of adding up, from zero and in order, the
/// losses of the first `n` outputs against their expected outputs.
pub open spec fn is_loss_sum<S: Scalar>(outputs: Seq<S>, expected: Seq<S>, n: nat, acc: S) -> bool
    decreases n,
{
    if n == 0 {
        is_zero(acc)
    } else {
        exists|before: S, term: S|
            is_loss_sum(outputs, expected, (n - 1) as nat, before) && is_loss(
                outputs[n - 1],
                expected[n - 1],
                term,
            ) && is_sum(before, term, acc)
    }
}

/// The index of the first value whose input is not `input_size` long, or the
/// number of values where there is none.
pub open spec fn first_misfit<S>(values: Seq<DataValue<S>>, input_size: nat) -> nat
    decreases values.len(),
{
    if values.len() == 0 {
        0
    } else if values.first().input@.len() != input_size {
        0
    } else {
        1 + first_misfit(values.drop_first(), input_size)
    }
}

/// [`first_misfit`] is at most the number of values, every value before it
/// fits, and the value at it, if there is one, does not.
pub proof fn lemma_first_misfit<S>(values: Seq<DataValue<S>>, input_size: nat)
    ensures
        first_misfit(values, input_size) <= values.len(),
        forall|k: int|
            0 <= k < first_misfit(values, input_size) ==> (#[trigger] values[k]).input@.len()
                == input_size,
        first_misfit(values, input_size) < values.len() ==> values[first_misfit(
            values,
            input_size,
        ) as int].input@.len() != input_size,
    decreases values.len(),
{
    if values.len() > 0 && values.first().input@.len() == input_size {
        let rest = values.drop_first();
        lemma_first_misfit(rest, input_size);
        let at = first_misfit(values, input_size);
        assert(at == 1 + first_misfit(rest, input_size));
        assert forall|k: int| 0 <= k < at implies (#[trigger] values[k]).input@.len()
            == input_size by {
            if k > 0 {
                assert(values[k] == rest[k - 1]);
            }
        }
        if at < values.len() {
            assert(values[at as int] == rest[at - 1]);
        }
    }
}

} // verus!
