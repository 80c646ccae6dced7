//! The model zoo.
//!
//! Every model here is assembled from the same layers and the same scan, so a feature
//! added at the layer level reaches all of them at once.
//!
//! * [`mamba3`] - the token mixer and its residual block.
//! * [`hybrid`] - stacks that interleave mixers with attention.
//! * [`lm`] - a causal language model over a hybrid stack.
//! * [`pattern`] - which layers of a stack use which mixer.
//! * [`vision`] - mixers in both directions over images.

pub mod hybrid;
pub mod lm;
pub mod mamba3;
pub mod pattern;
pub mod vision;
pub mod mixer_laws;
pub mod lm_laws;
pub mod projection_laws;
pub mod scan_input_laws;
pub mod pooling_laws;
