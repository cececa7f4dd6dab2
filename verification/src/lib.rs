//! Verified core of the SpeedySpartan folding prover and of the native
//! counterparts of its verifier gadgets, over the scalar field of BLS12-381.
pub mod field;
pub mod nexus_spartan;
pub mod mle;
pub mod sumcheck_utils;
pub mod curve;
pub mod transcript;
pub mod unipoly;
pub mod sumchecks;
pub mod plonkish;
pub mod folding;
pub mod rerandomization;
pub mod snark;
pub mod circuit;
pub mod coefficients;
pub mod interpolation;
pub mod completeness;
pub mod evaluation_sums;
