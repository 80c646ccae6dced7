//! Inference: recurrent caches, sampling, and generation.
//!
//! The point of a state-space model is that decoding costs the same at position 100,000
//! as at position 1. That only holds if the recurrent state is carried explicitly, which
//! is what [`cache::StateCache`] does: one entry per layer, holding the recurrent state
//! and convolution history of a state-space layer and the key/value cache of an
//! attention layer.

pub mod cache;
pub mod generator;
pub mod sampler;
