# zkfhe_trace

Execution traces of TFHE bootstrapping operations, laid out as multilinear
extensions for SNARK proofs, with their lookup witnesses, written in Verus and
verified against their contracts.

## Layout

- `src/field.rs`, `src/basis.rs`, `src/mle.rs`: prime-field elements with a
  compile-time modulus, decomposition bases, dense multilinear extensions and
  their evaluation.
- `src/lookup_trace/`: range checks against small, normal and large tables and
  indexed lookups, their LogUp helper columns, and the proofs that these columns
  balance (`logup.rs`, `range_balance.rs`).
- `src/comparison/`: equality and less-than traces over limb decompositions.
- `src/basic_ops/`: decomposition, row permutation, polynomial and RLWE traces,
  Hadamard products and NTT traces.
- `src/modulus_switching_trace.rs`, `src/acc_trace.rs`,
  `src/blind_rotation_trace.rs`, `src/key_switching_trace.rs`,
  `src/pbs_trace.rs`: the traces of the steps of a bootstrapping.
- `src/packing.rs`: packing the oracles of a trace into one.
- `src/profiling.rs`: the state machine of the blind-rotation profiler.
- `src/snarks.rs`: prover statistics and parameters.
- `app/`: the process-wide profiler (its lock and clock), serializable copies
  of reports and evaluations, and statistics kept as durations.
- `tests/`: tests of the library on concrete values.
