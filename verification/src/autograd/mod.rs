//! Reverse-mode automatic differentiation.
//!
//! 1. **Increasing node ids.** A node is always created after its inputs, so walking
//!    ids downwards is already a reverse topological order.
//! 2. **Optional tracking.** A value without a tape is a bare tensor, so inference
//!    runs the same code with no graph at all.
//! 3. **Composition over fusion.** Only a few dozen primitives carry an adjoint;
//!    every higher-level operation is expressed in terms of them.

pub mod adjoint;
pub mod backward;
pub mod expansion;
pub mod fused;
pub mod grad_mode;
pub mod grads;
pub mod graph;
pub mod laws;
pub mod ops;
pub mod reduce;
pub mod rule;
pub mod var;
pub mod broadcast_laws;
pub mod rms_laws;
pub mod gradient_laws;
pub mod fused_laws;
pub mod movement_laws;
