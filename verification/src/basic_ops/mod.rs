//! Traces of the basic operations: decomposition, row permutation, polynomials and RLWE
//! ciphertexts, Hadamard products and number-theoretic transforms.
pub mod decomp_trace;
pub mod row_perm_trace;
pub mod rlwe_trace;
pub mod hadamard_trace;
pub mod ntt_trace;
