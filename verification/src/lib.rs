//! Low-level building blocks for an arithmetization toolkit: derivation of
//! sound parameters for algebraic permutations (an exponent, its modular
//! inverse, and deterministic round-constant byte expansion), a flattening
//! view over matrices of extension-field elements, and a fixed-width
//! diffusion-matrix permutation over the BN254 scalar field.

pub mod bn254;
pub mod extension;
pub mod mds;
pub mod util;
