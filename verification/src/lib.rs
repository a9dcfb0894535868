//! Deterministic INT8 transformer-layer reference for a verifiable-inference
//! puzzle: integer quantization, matmul, norms, softmax, RoPE, LUT
//! activations, attention / DeltaNet / SSM blocks, the forward driver, the
//! model commitment, the wire formats, the synthetic prompt and the
//! puzzle's prover and verifier logic, each with a machine-checked
//! contract.
use vstd::prelude::*;

pub mod arith;
pub mod quant;
pub mod matmul_int8;
pub mod rmsnorm;
pub mod layernorm;
pub mod bytes;
pub mod hashing;
pub mod activation_lut;
pub mod softmax;
pub mod rope;
pub mod ffn;
pub mod attention;
pub mod deltanet;
pub mod ssm;
pub mod layer;
pub mod model;
pub mod layout;
pub mod merkle;
pub mod comm_w;
pub mod activations;
pub mod tile_hash;
pub mod forward;
pub mod vi_proof;
pub mod streaming;
pub mod determinism;
pub mod vi_eval;
pub mod io;
pub mod reload;
pub mod prompt;
pub mod mining;
pub mod causal;
pub mod block_laws;
