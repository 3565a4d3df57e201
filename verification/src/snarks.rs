//! Bookkeeping shared by the proof systems over the traces: time spent in polynomial
//! commitments, and the parameters of the modulus-switching proof.
use vstd::prelude::*;

verus! {

/// The largest duration, in nanoseconds: `u64::MAX` seconds and 999,999,999 nanoseconds.
pub open spec fn max_duration_nanos() -> nat {
    u64::MAX as nat * 1_000_000_000 + 999_999_999
}

/// Time spent by the prover and by the verifier in polynomial commitments, in nanoseconds.
#[derive(Debug)]
pub struct SnarkStatistics {
    pub prover_pcs_time: u128,
    pub verifier_pcs_time: u128,
}

impl Default for SnarkStatistics {
    fn default() -> (r: Self)
        ensures
            r.prover_pcs_time == 0,
            r.verifier_pcs_time == 0,
    {
        SnarkStatistics { prover_pcs_time: 0, verifier_pcs_time: 0 }
    }
}

impl SnarkStatistics {
    /// Adds `dur` nanoseconds to the prover's time; the total stays a valid duration.
    pub fn add_prover_pcs_time(&mut self, dur: u128)
        requires
            old(self).prover_pcs_time + dur <= max_duration_nanos(),
        ensures
            final(self).prover_pcs_time == old(self).prover_pcs_time + dur,
            final(self).verifier_pcs_time == old(self).verifier_pcs_time,
    {
        self.prover_pcs_time = self.prover_pcs_time + dur;
    }

    /// Adds `dur` nanoseconds to the verifier's time; the total stays a valid duration.
    pub fn add_verifier_pcs_time(&mut self, dur: u128)
        requires
            old(self).verifier_pcs_time + dur <= max_duration_nanos(),
        ensures
            final(self).verifier_pcs_time == old(self).verifier_pcs_time + dur,
            final(self).prover_pcs_time == old(self).prover_pcs_time,
    {
        self.verifier_pcs_time = self.verifier_pcs_time + dur;
    }
}

/// The parameters of the modulus-switching proof: the specification of the code of the
/// polynomial commitment scheme.
pub struct ModulusSwitchingParams<'a, S> {
    pub code_spec: &'a S,
}

impl<'a, S: Clone> ModulusSwitchingParams<'a, S> {
    pub fn new(code_spec: &'a S) -> (r: Self)
        ensures
            r.code_spec == code_spec,
    {
        ModulusSwitchingParams { code_spec }
    }
}

} // verus!
