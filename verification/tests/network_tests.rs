use neuralib::activation::Activation;
use neuralib::error::{size_mismatch, InputSizeError, NetworkError, NoLayersError};
use neuralib::network::NeuralNetwork;
use neuralib::sampling::{ascending_order, draw_batch};
use neuralib::scalar::Scalar;
use neuralib::training::{largest_label, one_hot, DataValue};
use rand::Rng;
use rand_distr::StandardNormal;

/// The double-precision numbers, as the number type of the networks under test.
#[derive(Clone, Copy, Debug, PartialEq, PartialOrd)]
struct F(f64);

impl Scalar for F {
    fn zero() -> Self {
        F(0.0)
    }
    fn one() -> Self {
        F(1.0)
    }
    fn from_count(n: usize) -> Self {
        F(n as f64)
    }
    fn standard_normal() -> Self {
        F(rand::rng().sample(StandardNormal))
    }
    fn plus(self, rhs: Self) -> Self {
        F(self.0 + rhs.0)
    }
    fn minus(self, rhs: Self) -> Self {
        F(self.0 - rhs.0)
    }
    fn times(self, rhs: Self) -> Self {
        F(self.0 * rhs.0)
    }
    fn over(self, rhs: Self) -> Self {
        F(self.0 / rhs.0)
    }
    fn negated(self) -> Self {
        F(-self.0)
    }
    fn recip(self) -> Self {
        F(self.0.recip())
    }
    fn exp(self) -> Self {
        F(self.0.exp())
    }
    fn tanh(self) -> Self {
        F(self.0.tanh())
    }
    fn sqrt(self) -> Self {
        F(self.0.sqrt())
    }
    fn powi(self, n: i32) -> Self {
        F(self.0.powi(n))
    }
    fn mul_add(self, a: Self, b: Self) -> Self {
        F(self.0.mul_add(a.0, b.0))
    }
    fn max(self, other: Self) -> Self {
        F(self.0.max(other.0))
    }
    fn is_less_than(self, rhs: Self) -> bool {
        self.0 < rhs.0
    }
    fn is_greater_than(self, rhs: Self) -> bool {
        self.0 > rhs.0
    }
}

fn fs(values: &[f64]) -> Vec<F> {
    values.iter().map(|x| F(*x)).collect()
}

fn sample(input: &[f64], expected_output: &[f64]) -> DataValue<F> {
    DataValue { input: fs(input), expected_output: fs(expected_output) }
}

fn get_weight(network: &NeuralNetwork<F>, layer: usize, unit: usize, weight: usize) -> f64 {
    network.get_layer(layer).unwrap().get_neuron(unit).unwrap().get_weight(weight).unwrap().0
}

fn set_weight(network: &mut NeuralNetwork<F>, layer: usize, unit: usize, weight: usize, value: f64) {
    let unit = network.get_layer_mut(layer).unwrap().get_neuron_mut(unit).unwrap();
    unit.set_weight(weight, &F(value)).unwrap();
}

fn get_bias(network: &NeuralNetwork<F>, layer: usize, unit: usize) -> f64 {
    network.get_layer(layer).unwrap().get_neuron(unit).unwrap().get_bias().0
}

fn set_bias(network: &mut NeuralNetwork<F>, layer: usize, unit: usize, value: f64) {
    network.get_layer_mut(layer).unwrap().get_neuron_mut(unit).unwrap().set_bias(&F(value));
}

/// A 2-3-2 network of sigmoid and hyperbolic tangent units with fixed parameters.
fn small_network() -> NeuralNetwork<F> {
    let mut network: NeuralNetwork<F> =
        NeuralNetwork::new(&[3, 2], 2, vec![Activation::Sigmoid, Activation::HyperTan]).unwrap();
    let first = [[0.3, -0.2], [0.5, 0.1], [-0.4, 0.6]];
    let second = [[0.2, -0.3, 0.7], [-0.6, 0.4, 0.1]];
    for (unit, weights) in first.iter().enumerate() {
        for (idx, weight) in weights.iter().enumerate() {
            set_weight(&mut network, 0, unit, idx, *weight);
        }
        set_bias(&mut network, 0, unit, 0.1 * (unit as f64));
    }
    for (unit, weights) in second.iter().enumerate() {
        for (idx, weight) in weights.iter().enumerate() {
            set_weight(&mut network, 1, unit, idx, *weight);
        }
        set_bias(&mut network, 1, unit, -0.05);
    }
    network
}

/// Every weight and bias of the small network, as (layer, unit, weight index or none).
fn small_network_parameters() -> Vec<(usize, usize, Option<usize>)> {
    let mut all = Vec::new();
    for (layer, (units, width)) in [(3, 2), (2, 3)].iter().enumerate() {
        for unit in 0..*units {
            for idx in 0..*width {
                all.push((layer, unit, Some(idx)));
            }
            all.push((layer, unit, None));
        }
    }
    all
}

fn read(network: &NeuralNetwork<F>, at: (usize, usize, Option<usize>)) -> f64 {
    match at.2 {
        Some(idx) => get_weight(network, at.0, at.1, idx),
        None => get_bias(network, at.0, at.1),
    }
}

fn write(network: &mut NeuralNetwork<F>, at: (usize, usize, Option<usize>), value: f64) {
    match at.2 {
        Some(idx) => set_weight(network, at.0, at.1, idx, value),
        None => set_bias(network, at.0, at.1, value),
    }
}

#[test]
fn network_methods() {
    let mut network: NeuralNetwork<F> =
        NeuralNetwork::new(&[2, 2], 2, vec![Activation::Sigmoid, Activation::Step]).unwrap();

    network.activate(&[F(0.0), F(0.0)]).unwrap();

    assert_eq!(network.get_layer_count(), 2);
}

#[test]
fn errors() {
    assert!(NeuralNetwork::<F>::new(&[], 0, vec![]).is_err());
    assert!(NeuralNetwork::<F>::new(&[1], 0, vec![]).is_err());

    let mut network: NeuralNetwork<F> =
        NeuralNetwork::new(&[1], 1, vec![Activation::Linear]).unwrap();
    assert!(network.activate(&[]).is_err());
}

#[test]
fn invalid_topologies_are_rejected() {
    assert!(matches!(NeuralNetwork::<F>::new(&[], 3, vec![]), Err(NetworkError::NoLayers(_))));
    assert!(matches!(
        NeuralNetwork::<F>::new(&[], 3, vec![Activation::Linear]),
        Err(NetworkError::NoLayers(_))
    ));
    assert!(matches!(
        NeuralNetwork::<F>::new(&[2, 2], 3, vec![Activation::Linear]),
        Err(NetworkError::NoLayers(_))
    ));
    assert!(matches!(
        NeuralNetwork::<F>::new(&[2], 3, vec![Activation::Linear, Activation::Step]),
        Err(NetworkError::NoLayers(_))
    ));
    let e = NeuralNetwork::<F>::new(&[], 3, vec![]).unwrap_err();
    assert!(!e.is_input_size());
}

#[test]
fn network_size_mismatch_names_the_network() {
    let mut network: NeuralNetwork<F> =
        NeuralNetwork::new(&[4, 1], 3, vec![Activation::ReLU, Activation::Linear]).unwrap();
    match network.activate(&fs(&[1.0, 2.0])) {
        Err(e) => {
            assert!(e.is_input_size());
            match e {
                NetworkError::InputSize(e) => {
                    assert_eq!(e.inputted, 2);
                    assert_eq!(e.expected, 3);
                    assert_eq!(e.chain_depth, "NeuralNetwork");
                }
                _ => panic!("expected a size mismatch"),
            }
        }
        Ok(_) => panic!("expected a size mismatch"),
    }
    assert!(network.activate(&fs(&[1.0, 2.0, 3.0, 4.0])).is_err());
    assert!(network.activate(&fs(&[1.0, 2.0, 3.0])).is_ok());
}

#[test]
fn single_linear_unit_maps_three_to_five() {
    let mut network: NeuralNetwork<F> =
        NeuralNetwork::new(&[1], 1, vec![Activation::Linear]).unwrap();
    set_weight(&mut network, 0, 0, 0, 2.0);
    set_bias(&mut network, 0, 0, -1.0);
    assert_eq!(network.activate(&fs(&[3.0])).unwrap(), fs(&[5.0]));
    assert_eq!(network.activate(&fs(&[0.0])).unwrap(), fs(&[-1.0]));
}

#[test]
fn two_layer_network_has_two_outputs() {
    let mut network: NeuralNetwork<F> =
        NeuralNetwork::new(&[2, 2], 2, vec![Activation::Sigmoid, Activation::Step]).unwrap();
    assert_eq!(network.get_layer_count(), 2);
    for input in [[0.0, 0.0], [1.0, -1.0], [123.0, 0.5], [-7.0, -9.0]] {
        let output = network.activate(&fs(&input)).unwrap();
        assert_eq!(output.len(), 2);
        for value in output {
            assert!(value == F(0.0) || value == F(1.0));
        }
    }
}

#[test]
fn layers_are_chained() {
    let network: NeuralNetwork<F> = NeuralNetwork::new(
        &[5, 3, 4],
        7,
        vec![Activation::Sigmoid, Activation::ReLU, Activation::Linear],
    ).unwrap();
    assert_eq!(network.get_layer_count(), 3);
    assert_eq!(network.get_input_size(), 7);
    let widths = [(7, 5, Activation::Sigmoid), (5, 3, Activation::ReLU), (3, 4, Activation::Linear)];
    for (idx, (input, units, activation)) in widths.iter().enumerate() {
        let layer = network.get_layer(idx).unwrap();
        assert_eq!(layer.get_neuron_count(), *units);
        for unit in 0..*units {
            assert_eq!(layer.get_neuron(unit).unwrap().get_weight_count(), *input);
            assert_eq!(layer.get_neuron(unit).unwrap().get_activation(), *activation);
        }
        assert!(layer.get_neuron(*units).is_none());
    }
    assert!(network.get_layer(3).is_none());
}

#[test]
fn network_activate_is_repeatable() {
    let mut network = small_network();
    let before: Vec<f64> =
        small_network_parameters().iter().map(|at| read(&network, *at)).collect();
    let first = network.activate(&fs(&[0.7, -0.3])).unwrap();
    let second = network.activate(&fs(&[0.7, -0.3])).unwrap();
    assert_eq!(first, second);
    let after: Vec<f64> =
        small_network_parameters().iter().map(|at| read(&network, *at)).collect();
    assert_eq!(before, after);
}

#[test]
fn forward_pass_of_the_small_network() {
    let mut network = small_network();
    let input = [0.7, -0.3];
    let first = [[0.3, -0.2], [0.5, 0.1], [-0.4, 0.6]];
    let second = [[0.2, -0.3, 0.7], [-0.6, 0.4, 0.1]];
    let mut hidden = [0.0; 3];
    for unit in 0..3 {
        let sum = 0.0 + input[0] * first[unit][0] + input[1] * first[unit][1] + 0.1 * (unit as f64);
        hidden[unit] = 1.0 / (1.0 + (-sum).exp());
    }
    let mut expected = Vec::new();
    for unit in 0..2 {
        let sum = 0.0
            + hidden[0] * second[unit][0]
            + hidden[1] * second[unit][1]
            + hidden[2] * second[unit][2]
            + -0.05;
        expected.push(F(sum.tanh()));
    }
    assert_eq!(network.activate(&fs(&input)).unwrap(), expected);
}

#[test]
fn loss_of_a_linear_unit() {
    let mut network: NeuralNetwork<F> =
        NeuralNetwork::new(&[1], 1, vec![Activation::Linear]).unwrap();
    set_weight(&mut network, 0, 0, 0, 2.0);
    set_bias(&mut network, 0, 0, -1.0);
    // Outputs 5 and -1 against 3 and 1: squared errors 4 and 4.
    assert_eq!(network.loss_with_value(&sample(&[3.0], &[3.0])).unwrap(), F(4.0));
    assert_eq!(network.loss_with_value(&sample(&[0.0], &[1.0])).unwrap(), F(4.0));
    // Outputs 5 and 1 against 3 and 1: squared errors 4 and 0, mean 2.
    let samples = [sample(&[3.0], &[3.0]), sample(&[1.0], &[1.0])];
    assert_eq!(network.loss(&samples).unwrap(), F(2.0));
}

#[test]
fn loss_sums_over_the_outputs() {
    let mut network: NeuralNetwork<F> =
        NeuralNetwork::new(&[2], 1, vec![Activation::Linear]).unwrap();
    set_weight(&mut network, 0, 0, 0, 1.0);
    set_weight(&mut network, 0, 1, 0, -1.0);
    set_bias(&mut network, 0, 0, 0.0);
    set_bias(&mut network, 0, 1, 0.0);
    // Outputs 2 and -2 against 0 and 1: 4 + 9.
    assert_eq!(network.loss_with_value(&sample(&[2.0], &[0.0, 1.0])).unwrap(), F(13.0));
}

#[test]
fn loss_rejects_a_misfit_sample() {
    let mut network = small_network();
    let samples = [sample(&[0.1, 0.2], &[0.0, 0.0]), sample(&[0.1], &[0.0, 0.0])];
    match network.loss(&samples) {
        Err(NetworkError::InputSize(e)) => {
            assert_eq!(e.inputted, 1);
            assert_eq!(e.expected, 2);
            assert_eq!(e.chain_depth, "NeuralNetwork");
        }
        _ => panic!("expected a size mismatch"),
    }
    assert!(network.loss_with_value(&samples[1]).is_err());
    assert!(network.loss_with_value(&samples[0]).is_ok());
}

#[test]
fn learn_takes_one_gradient_step() {
    let mut network: NeuralNetwork<F> =
        NeuralNetwork::new(&[1], 1, vec![Activation::Linear]).unwrap();
    set_weight(&mut network, 0, 0, 0, 2.0);
    set_bias(&mut network, 0, 0, -1.0);
    // Output 5 against 4: error term 2, weight gradient 6, bias gradient 2.
    network.learn(&[sample(&[3.0], &[4.0])], F(0.5));
    assert_eq!(get_weight(&network, 0, 0, 0), -1.0);
    assert_eq!(get_bias(&network, 0, 0), -2.0);
}

#[test]
fn learn_averages_over_the_batch() {
    let mut network: NeuralNetwork<F> =
        NeuralNetwork::new(&[1], 1, vec![Activation::Linear]).unwrap();
    set_weight(&mut network, 0, 0, 0, 2.0);
    set_bias(&mut network, 0, 0, -1.0);
    // Error terms 2 and -4; weight gradients 6 and 0; bias gradients 2 and -4.
    network.learn(&[sample(&[3.0], &[4.0]), sample(&[0.0], &[1.0])], F(0.5));
    assert_eq!(get_weight(&network, 0, 0, 0), 2.0 - 0.25 * 6.0);
    assert_eq!(get_bias(&network, 0, 0), -1.0 - 0.25 * -2.0);
    // The accumulated gradient was reset: a second step starts from nothing.
    network.learn(&[sample(&[0.0], &[-0.5])], F(0.5));
    assert_eq!(get_weight(&network, 0, 0, 0), 0.5);
    assert_eq!(get_bias(&network, 0, 0), -0.5);
}

#[test]
fn analytic_gradient_matches_finite_differences() {
    let samples = [sample(&[0.7, -0.3], &[0.2, -0.4]), sample(&[-0.5, 0.9], &[0.6, 0.1])];
    let h = 1e-4;
    let learn_rate = 0.5;
    let mut trained = small_network();
    trained.learn(&samples, F(learn_rate));
    for at in small_network_parameters() {
        let mut probe = small_network();
        let value = read(&probe, at);
        write(&mut probe, at, value + h);
        let above = probe.loss(&samples).unwrap().0;
        write(&mut probe, at, value - h);
        let below = probe.loss(&samples).unwrap().0;
        let estimate = (above - below) / (2.0 * h);
        let analytic = (value - read(&trained, at)) / learn_rate;
        assert!((analytic - estimate).abs() < 1e-3);
    }
}

#[test]
fn training_on_one_sample_overfits_it() {
    let samples = [sample(&[0.7, -0.3], &[0.2, -0.4])];
    let mut network = small_network();
    let mut loss = network.loss(&samples).unwrap().0;
    let mut steps = 0;
    while loss >= 0.01 {
        network.learn(&samples, F(0.5));
        let next = network.loss(&samples).unwrap().0;
        assert!(next < loss);
        loss = next;
        steps += 1;
        assert!(steps < 1000);
    }
    for _ in 0..150 {
        network.learn(&samples, F(0.5));
    }
    assert!(network.loss(&samples).unwrap().0 < 0.01);
}

#[test]
fn full_random_batch_updates_like_the_full_set() {
    let samples = [
        sample(&[0.7, -0.3], &[0.2, -0.4]),
        sample(&[-0.5, 0.9], &[0.6, 0.1]),
        sample(&[0.1, 0.4], &[-0.3, 0.8]),
    ];
    let mut whole = small_network();
    whole.learn(&samples, F(0.5));
    for _ in 0..20 {
        let mut random = small_network();
        random.learn_randomly(&samples, F(0.5), 3);
        for at in small_network_parameters() {
            assert!((read(&whole, at) - read(&random, at)).abs() < 1e-12);
        }
    }
}

#[test]
fn random_batch_of_one_is_one_of_the_samples() {
    let samples = [sample(&[3.0], &[4.0]), sample(&[0.0], &[1.0])];
    let mut seen = [false, false];
    for _ in 0..200 {
        let mut network: NeuralNetwork<F> =
            NeuralNetwork::new(&[1], 1, vec![Activation::Linear]).unwrap();
        set_weight(&mut network, 0, 0, 0, 2.0);
        set_bias(&mut network, 0, 0, -1.0);
        network.learn_randomly(&samples, F(0.5), 1);
        let weight = get_weight(&network, 0, 0, 0);
        let bias = get_bias(&network, 0, 0);
        if (weight, bias) == (-1.0, -2.0) {
            seen[0] = true;
        } else {
            assert_eq!((weight, bias), (2.0, 1.0));
            seen[1] = true;
        }
    }
    assert!(seen[0] && seen[1]);
}

#[test]
fn learn_selected_follows_the_order() {
    let samples = [sample(&[3.0], &[4.0]), sample(&[0.0], &[1.0]), sample(&[1.0], &[1.0])];
    let mut selected: NeuralNetwork<F> =
        NeuralNetwork::new(&[1], 1, vec![Activation::Linear]).unwrap();
    set_weight(&mut selected, 0, 0, 0, 2.0);
    set_bias(&mut selected, 0, 0, -1.0);
    selected.learn_selected(&samples, &[1, 0], F(0.5));
    assert_eq!(get_weight(&selected, 0, 0, 0), 0.5);
    assert_eq!(get_bias(&selected, 0, 0), -0.5);
}

#[test]
fn drawn_batches_are_selections() {
    assert_eq!(ascending_order(4), vec![0, 1, 2, 3]);
    assert_eq!(ascending_order(0), Vec::<usize>::new());
    let mut moved = false;
    for _ in 0..50 {
        for amount in 0..=6 {
            let batch = draw_batch(6, amount);
            assert_eq!(batch.len(), amount);
            let mut sorted = batch.clone();
            sorted.sort();
            sorted.dedup();
            assert_eq!(sorted.len(), amount);
            assert!(batch.iter().all(|idx| *idx < 6));
            if amount == 6 {
                assert_eq!(sorted, vec![0, 1, 2, 3, 4, 5]);
                if batch != sorted {
                    moved = true;
                }
            }
        }
    }
    assert!(moved);
}

#[test]
fn samples_from_labels_are_one_hot() {
    assert_eq!(one_hot(1, 3, F(0.0), F(1.0)), fs(&[0.0, 1.0, 0.0]));
    assert_eq!(one_hot(5, 3, F(0.0), F(1.0)), fs(&[0.0, 0.0, 0.0]));
    assert_eq!(one_hot(0, 0, F(0.0), F(1.0)), fs(&[]));
    assert_eq!(largest_label(&[2, 0, 3, 1]), 3);
    assert_eq!(largest_label(&[]), 0);

    let inputs = [fs(&[0.1, 0.2]), fs(&[0.3, 0.4]), fs(&[0.5, 0.6])];
    let samples = DataValue::from_data_labels(&inputs, &[2, 0, 3, 1]);
    assert_eq!(samples.len(), 3);
    assert_eq!(samples[0].input, fs(&[0.1, 0.2]));
    assert_eq!(samples[0].expected_output, fs(&[0.0, 0.0, 1.0, 0.0]));
    assert_eq!(samples[1].input, fs(&[0.3, 0.4]));
    assert_eq!(samples[1].expected_output, fs(&[1.0, 0.0, 0.0, 0.0]));
    assert_eq!(samples[2].input, fs(&[0.5, 0.6]));
    assert_eq!(samples[2].expected_output, fs(&[0.0, 0.0, 0.0, 1.0]));
    let copy = samples[2].duplicate();
    assert_eq!(copy.input, samples[2].input);
    assert_eq!(copy.expected_output, samples[2].expected_output);
}

#[test]
fn errors_say_what_went_wrong() {
    let e = InputSizeError { inputted: 3, expected: 2, chain_depth: "Layer".to_owned() };
    assert_eq!(e.message(), "Incorrect size passed to Layer. Expected 2 inputs, got 3.");
    let e = InputSizeError { inputted: 0, expected: 1050, chain_depth: "Neuron".to_owned() };
    assert_eq!(e.message(), "Incorrect size passed to Neuron. Expected 1050 inputs, got 0.");
    let e = InputSizeError { inputted: usize::MAX, expected: 10, chain_depth: String::new() };
    assert_eq!(
        e.message(),
        format!("Incorrect size passed to . Expected 10 inputs, got {}.", usize::MAX)
    );
    assert_eq!(NoLayersError {}.message(), "No layer sizes given.");

    let mut network: NeuralNetwork<F> =
        NeuralNetwork::new(&[1], 784, vec![Activation::Linear]).unwrap();
    let e = network.activate(&fs(&[1.0; 99])).unwrap_err();
    assert_eq!(e.message(), "Incorrect size passed to NeuralNetwork. Expected 784 inputs, got 99.");
    let e = NeuralNetwork::<F>::new(&[1], 1, vec![]).unwrap_err();
    assert_eq!(e.message(), "No layer sizes given.");
    let e = size_mismatch("Layer", 7, 8);
    assert!(e.is_input_size());
    assert_eq!(e.message(), "Incorrect size passed to Layer. Expected 8 inputs, got 7.");
}
