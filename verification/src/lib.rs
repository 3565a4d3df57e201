use vstd::prelude::*;

pub mod field;
pub mod basis;
pub mod mle;
pub mod comparison;
pub mod lookup_trace;
pub mod basic_ops;
pub mod random;
pub mod modulus_switching_trace;
pub mod profiling;
pub mod snarks;
pub mod packing;
pub mod acc_trace;
pub mod blind_rotation_trace;
pub mod key_switching_trace;
pub mod pbs_trace;
