//! Training data.

use vstd::prelude::*;
use crate::neuron::copy_of;
use crate::sampling::ascending;
use crate::scalar::{is_one, is_zero, Scalar};

verus! {

/// One training sample.
#[derive(Debug)]
pub struct DataValue<S> {
    /// The input value for the neural network.
    pub input: Vec<S>,
    /// The expected output for that input value.
    pub expected_output: Vec<S>,
}

impl<S> View for DataValue<S> {
    type V = (Seq<S>, Seq<S>);

    /// The input and the expected output, as sequences.
    open spec fn view(&self) -> (Seq<S>, Seq<S>) {
        (self.input@, self.expected_output@)
    }
}

/// The samples as pairs of sequences, in order.
pub open spec fn views_of<S>(samples: Seq<DataValue<S>>) -> Seq<(Seq<S>, Seq<S>)> {
    Seq::new(samples.len(), |k: int| samples[k]@)
}

/// The samples that `order` selects, as pairs of sequences, in that order.
pub open spec fn selection_of<S>(samples: Seq<DataValue<S>>, order: Seq<usize>) -> Seq<
    (Seq<S>, Seq<S>),
> {
    Seq::new(order.len(), |k: int| samples[order[k] as int]@)
}

/// The ascending order selects every sample, in the order of the samples:
/// to learn the samples that it selects is to learn them all.
pub proof fn lemma_ascending_selects_all<S>(samples: Seq<DataValue<S>>)
    requires
        samples.len() <= usize::MAX,
    ensures
        selection_of(samples, ascending(samples.len())) == views_of(samples),
{
    assert(selection_of(samples, ascending(samples.len())) =~= views_of(samples));
}

/// The one-hot encoding of `label` over `width` classes with the values
/// `off` and `on`.
pub open spec fn one_hot_encoding<S>(label: int, width: nat, off: S, on: S) -> Seq<S> {
    Seq::new(
        width,
        |j: int|
            if j == label {
                on
            } else {
                off
            },
    )
}

/// Whether the expected output of each sample is the one-hot encoding of
/// the label of the same index over `width` classes, with the values `off`
/// and `on`.
pub open spec fn labelled_with<S>(
    samples: Seq<DataValue<S>>,
    labels: Seq<usize>,
    width: nat,
    off: S,
    on: S,
) -> bool {
    &&& samples.len() <= labels.len()
    &&& forall|i: int|
        0 <= i < samples.len() ==> (#[trigger] samples[i]).expected_output@ == one_hot_encoding(
            labels[i] as int,
            width,
            off,
            on,
        )
}

/// The largest of `labels`, or 0 where there is none.
pub open spec fn largest(labels: Seq<usize>) -> nat
    decreases labels.len(),
{
    if labels.len() == 0 {
        0
    } else if labels.last() >= largest(labels.drop_last()) {
        labels.last() as nat
    } else {
        largest(labels.drop_last())
    }
}

/// A vector of `width` entries that holds `on` at `label` and `off`
/// everywhere else.
pub fn one_hot<S: Scalar>(label: usize, width: usize, off: S, on: S) -> (r: Vec<S>)
    ensures
        r@ == one_hot_encoding(label as int, width as nat, off, on),
{
    let mut r: Vec<S> = Vec::with_capacity(width);
    let mut j: usize = 0;
    while j < width
        invariant
            j <= width,
            r@ == one_hot_encoding(label as int, j as nat, off, on),
        decreases width - j,
    {
        r.push(if j == label { on } else { off });
        j += 1;
        assert(r@ =~= one_hot_encoding(label as int, j as nat, off, on));
    }
    r
}

/// The largest of `labels`.
pub fn largest_label(labels: &[usize]) -> (r: usize)
    ensures
        r == largest(labels@),
{
    let mut r: usize = 0;
    let mut i: usize = 0;
    while i < labels.len()
        invariant
            i <= labels@.len(),
            r == largest(labels@.take(i as int)),
        decreases labels.len() - i,
    {
        assert(labels@.take(i + 1).drop_last() =~= labels@.take(i as int));
        if labels[i] >= r {
            r = labels[i];
        }
        i += 1;
    }
    assert(labels@.take(i as int) =~= labels@);
    r
}

impl<S: Scalar> DataValue<S> {
    /// Pairs recorded inputs with their labels, one to one and in order,
    /// and turns each pair into a sample whose expected output is the
    /// label's one-hot encoding over the labels up to the largest one: one
    /// at the label, zero elsewhere.
    pub fn from_data_labels(inputs: &[Vec<S>], labels: &[usize]) -> (r: Vec<DataValue<S>>)
        requires
            labels@.len() > 0,
            largest(labels@) < usize::MAX,
        ensures
            r@.len() == (if inputs@.len() <= labels@.len() {
                inputs@.len()
            } else {
                labels@.len()
            }),
            forall|i: int| 0 <= i < r@.len() ==> (#[trigger] r@[i]).input@ == inputs@[i]@,
            exists|off: S, on: S|
                is_zero(off) && is_one(on) && #[trigger] labelled_with(
                    r@,
                    labels@,
                    (largest(labels@) + 1) as nat,
                    off,
                    on,
                ),
    {
        let width: usize = largest_label(labels) + 1;
        let off: S = S::zero();
        let on: S = S::one();
        let count: usize = if inputs.len() <= labels.len() {
            inputs.len()
        } else {
            labels.len()
        };
        let mut r: Vec<DataValue<S>> = Vec::with_capacity(count);
        let mut i: usize = 0;
        while i < count
            invariant
                i <= count,
                count <= inputs@.len(),
                count <= labels@.len(),
                width == largest(labels@) + 1,
                r@.len() == i,
                forall|k: int| 0 <= k < i ==> (#[trigger] r@[k]).input@ == inputs@[k]@,
                forall|k: int|
                    0 <= k < i ==> (#[trigger] r@[k]).expected_output@ == one_hot_encoding(
                        labels@[k] as int,
                        width as nat,
                        off,
                        on,
                    ),
            decreases count - i,
        {
            r.push(
                DataValue {
                    input: copy_of(inputs[i].as_slice()),
                    expected_output: one_hot(labels[i], width, off, on),
                },
            );
            i += 1;
        }
        assert(labelled_with(r@, labels@, (largest(labels@) + 1) as nat, off, on));
        r
    }

    /// A copy of the sample.
    pub fn duplicate(&self) -> (r: DataValue<S>)
        ensures
            r@ == self@,
    {
        DataValue {
            input: copy_of(self.input.as_slice()),
            expected_output: copy_of(self.expected_output.as_slice()),
        }
    }
}

} // verus!
