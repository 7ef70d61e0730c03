//! Evolution strategies at scale.
//!
//! Parameters are perturbed with seedable noise, a fitness is measured for each
//! perturbation, and the parameters move by the noise weighted by the fitnesses.
//! The library holds the rules: which noise belongs to which parameter and sample,
//! how fitnesses are normalised, how gradients of chunks add up, in which order the
//! models apply their weights, and the formats of data, vocabularies and command
//! lines. Arithmetic on floating-point numbers and tensors is handed in by the
//! caller; see [`ops`].
//!
//! The modules whose names end in `_laws` state what the operations are for: what
//! their results satisfy where the arithmetic is exact, and how calls relate.

use vstd::prelude::*;

pub mod accumulate;
pub mod common;
pub mod config;
pub mod config_laws;
pub mod einsum;
pub mod einsum_check;
pub mod einsum_laws;
pub mod epoch;
pub mod epoch_laws;
pub mod equivalence;
pub mod fitness;
pub mod fitness_laws;
pub mod kernel_laws;
pub mod kernels;
pub mod launch;
pub mod linearity;
pub mod llm_bandits;
pub mod lora_cache;
pub mod mixer_laws;
pub mod mixers;
pub mod network_laws;
pub mod noise;
pub mod noiser;
pub mod ops;
pub mod perturb;
pub mod prng;
pub mod reals;
pub mod recurrent;
pub mod rl;
pub mod scan_laws;
pub mod single;
pub mod smoke;
pub mod smoke_laws;
pub mod snn;
pub mod snn_attention;
pub mod snn_laws;
pub mod snn_mnist;
pub mod snn_transformer;
pub mod solver;
pub mod solver_laws;
pub mod split;
pub mod text;
pub mod text_laws;
pub mod tokenizer;
pub mod train;
pub mod transformer_forward;
pub mod transformer_laws;
pub mod update;
pub mod update_laws;

verus! {

/// Whether the library drives a CUDA backend.
pub fn is_gpu() -> (gpu: bool)
    ensures
        !gpu,
{
    false
}

} // verus!
