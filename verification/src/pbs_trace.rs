//! The trace of a programmable bootstrapping: modulus switching, blind rotation, key
//! switching and sample extraction.
use crate::basic_ops::row_perm_trace::RowPermTrace;
use crate::blind_rotation_trace::BlindRotationTrace;
use crate::key_switching_trace::KeySwitchingTrace;
use crate::modulus_switching_trace::ModulusSwitchingTrace;
use vstd::prelude::*;

verus! {

/// The traces of the four steps of a programmable bootstrapping.
pub struct PBSTrace<const P: u64> {
    pub modulus_switching_trace: ModulusSwitchingTrace<P>,
    pub blind_rotation_trace: BlindRotationTrace<P>,
    pub key_switching_trace: KeySwitchingTrace<P>,
    pub sample_extraction_trace: RowPermTrace<P>,
}

} // verus!
