//! Neural-network building blocks.
//!
//! Every layer follows the same three conventions:
//!
//! * a configuration describes the layer and its `init` builds it;
//! * `visit` is the single place a layer declares its parameters and children; named
//!   parameters, freezing, mode switching and checkpoints all fall out of it;
//! * a `Param` names a weight of the store, so optimizers, adapter merging and weight
//!   tying never need mutable access to the model tree.

pub mod attention;
pub mod conv;
pub mod dropout;
pub mod embedding;
pub mod flow;
pub mod init;
pub mod linear;
pub mod lora;
pub mod mlp;
pub mod module;
pub mod module_laws;
pub mod norm;
pub mod param;
pub mod quant;
pub mod rope;
pub mod sequential;
pub mod state;
pub mod store;
pub mod conv_laws;
pub mod value_readings;
pub mod layer_laws;
pub mod attention_laws;
pub mod block_laws;
pub mod merge_laws;
pub mod quant_laws;
pub mod window_laws;
pub mod rope_laws;
pub mod attention_flow_laws;
