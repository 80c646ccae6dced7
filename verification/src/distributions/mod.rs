//! Probability distributions.

pub mod algebra;
pub mod base;
pub mod categorical;
pub mod combinator;
pub mod compound;
pub mod densities;
pub mod divergence;
pub mod draws;
pub mod elementwise;
pub mod entropies;
pub mod families;
pub mod formula;
pub mod kernels;
pub mod kl;
pub mod launches;
pub mod multivariate;
pub mod quantiles;
pub mod readings;
pub mod rng;
pub mod rows;
pub mod scalar;
pub mod search;
pub mod simplex;
pub mod simplex_rows;
pub mod slopes;
pub mod transform_laws;
pub mod triangular;
pub mod univariate;
pub mod gaussian_rows;
pub mod kl_shapes;
pub mod change_of_variables;
pub mod combined_laws;
