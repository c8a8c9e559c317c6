//! Feedforward multilayer perceptron: layered units, forward inference and
//! training by backpropagation.
//!
//! The library is generic over the number type that a network computes
//! with, [`scalar::Scalar`], and assumes nothing about its arithmetic. Its
//! contracts say of every number that it produces which operations of the
//! number type, on which arguments, it is an outcome of: the formulas of the
//! forward pass, the loss, the backward pass and the update are stated in
//! full, and hold for every number type.

pub mod scalar;
pub mod error;
pub mod activation;
pub mod neuron;
pub mod layer;
pub mod training;
pub mod sampling;
pub mod network;
