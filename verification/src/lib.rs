//! The host side of a state-space-model library: shapes, the differentiation
//! tape, probability distributions, layers and models, with every decision they
//! make stated as a contract and proved.
//!
//! A tensor here is a description: its shape and the term that computes it. The
//! functions of this crate check shapes, build terms, record adjoints and walk
//! tapes; an executor evaluates the terms on whatever device it drives.
#![allow(unused_imports)]

pub mod autograd;
pub mod backend;
pub mod buffer;
pub mod distributions;
pub mod error;
pub mod infer;
pub mod ledger;
pub mod meaning;
pub mod meta_cache;
pub mod models;
pub mod nn;
pub mod shape;
pub mod single;
pub mod splitting;
pub mod ssm;
pub mod tensor;
pub mod term;
pub mod text;
pub mod layer_kernels;
