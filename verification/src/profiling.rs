//! Wall-clock profile of the blind-rotation prover.
//!
//! The profile is a state machine: a stack of open scopes and, for every phase, the number
//! of calls, the time spent inside the phase (inclusive of the scopes nested in it, and
//! exclusive of them) and named work counters. The clock belongs to the caller, which hands
//! every transition the current time in nanoseconds.
use vstd::prelude::*;
use vstd::string::StringSliceAdditionalSpecFns;

verus! {

/// The phases of the blind-rotation prover, in their order of definition.
#[derive(Clone, Copy, Debug, PartialEq, Eq, Structural)]
pub enum BrPhase {
    Total,
    InputPreparation,
    BitOracle,
    TraceMle,
    MainCommit,
    Hadamard,
    HadamardToEf,
    HadamardInstances,
    HadamardBatching,
    HadamardSumcheck,
    HadamardFastEvaluate,
    HadamardTerminal,
    Ntt,
    NttSparseInstance,
    NttBitPackEval,
    NttKeyPackEval,
    NttSumcheck,
    TraceOpening,
    KeyOpening,
    Sparse,
    SparseInstance,
    SparseLookup,
    SparseLookupWitnessCommit,
    SparseLookupHelperCommit,
    SparseLookupSumcheck,
    SparseProof,
    Accumulator,
    AccumulatorTrace,
    AccumulatorLookup,
    AccumulatorLookupWitnessCommit,
    AccumulatorLookupHelperCommit,
    AccumulatorLookupSumcheck,
    AccumulatorPermutation,
    Decomposition,
    DecompositionTrace,
    DecompositionParams,
    DecompositionInputMaterialize,
    DecompositionInputCommit,
    DecompositionLookupTrace,
    DecompositionLookupParams,
    DecompositionLookupWitnessMaterialize,
    DecompositionLookupBaseCommit,
    DecompositionLookupHelperCompute,
    DecompositionLookupHelperMaterialize,
    DecompositionLookupHelperCommit,
    DecompositionLookupSumcheck,
    DecompositionLookupEvalPack,
    DecompositionLookupBaseOpen,
    DecompositionLookupHelperOpen,
    DecompositionInputEvals,
    DecompositionInputOpen,
    Finalize,
}

/// The number of phases.
pub const BR_PHASE_COUNT: usize = 52;

/// The position of `phase` in the order of definition.
pub open spec fn phase_index(phase: BrPhase) -> nat {
    match phase {
        BrPhase::Total => 0,
        BrPhase::InputPreparation => 1,
        BrPhase::BitOracle => 2,
        BrPhase::TraceMle => 3,
        BrPhase::MainCommit => 4,
        BrPhase::Hadamard => 5,
        BrPhase::HadamardToEf => 6,
        BrPhase::HadamardInstances => 7,
        BrPhase::HadamardBatching => 8,
        BrPhase::HadamardSumcheck => 9,
        BrPhase::HadamardFastEvaluate => 10,
        BrPhase::HadamardTerminal => 11,
        BrPhase::Ntt => 12,
        BrPhase::NttSparseInstance => 13,
        BrPhase::NttBitPackEval => 14,
        BrPhase::NttKeyPackEval => 15,
        BrPhase::NttSumcheck => 16,
        BrPhase::TraceOpening => 17,
        BrPhase::KeyOpening => 18,
        BrPhase::Sparse => 19,
        BrPhase::SparseInstance => 20,
        BrPhase::SparseLookup => 21,
        BrPhase::SparseLookupWitnessCommit => 22,
        BrPhase::SparseLookupHelperCommit => 23,
        BrPhase::SparseLookupSumcheck => 24,
        BrPhase::SparseProof => 25,
        BrPhase::Accumulator => 26,
        BrPhase::AccumulatorTrace => 27,
        BrPhase::AccumulatorLookup => 28,
        BrPhase::AccumulatorLookupWitnessCommit => 29,
        BrPhase::AccumulatorLookupHelperCommit => 30,
        BrPhase::AccumulatorLookupSumcheck => 31,
        BrPhase::AccumulatorPermutation => 32,
        BrPhase::Decomposition => 33,
        BrPhase::DecompositionTrace => 34,
        BrPhase::DecompositionParams => 35,
        BrPhase::DecompositionInputMaterialize => 36,
        BrPhase::DecompositionInputCommit => 37,
        BrPhase::DecompositionLookupTrace => 38,
        BrPhase::DecompositionLookupParams => 39,
        BrPhase::DecompositionLookupWitnessMaterialize => 40,
        BrPhase::DecompositionLookupBaseCommit => 41,
        BrPhase::DecompositionLookupHelperCompute => 42,
        BrPhase::DecompositionLookupHelperMaterialize => 43,
        BrPhase::DecompositionLookupHelperCommit => 44,
        BrPhase::DecompositionLookupSumcheck => 45,
        BrPhase::DecompositionLookupEvalPack => 46,
        BrPhase::DecompositionLookupBaseOpen => 47,
        BrPhase::DecompositionLookupHelperOpen => 48,
        BrPhase::DecompositionInputEvals => 49,
        BrPhase::DecompositionInputOpen => 50,
        BrPhase::Finalize => 51,
    }
}

/// The phase at position `i` of the order of definition (`Finalize` past the end).
pub open spec fn phase_at(i: nat) -> BrPhase {
    if i == 0 {
        BrPhase::Total
    } else if i == 1 {
        BrPhase::InputPreparation
    } else if i == 2 {
        BrPhase::BitOracle
    } else if i == 3 {
        BrPhase::TraceMle
    } else if i == 4 {
        BrPhase::MainCommit
    } else if i == 5 {
        BrPhase::Hadamard
    } else if i == 6 {
        BrPhase::HadamardToEf
    } else if i == 7 {
        BrPhase::HadamardInstances
    } else if i == 8 {
        BrPhase::HadamardBatching
    } else if i == 9 {
        BrPhase::HadamardSumcheck
    } else if i == 10 {
        BrPhase::HadamardFastEvaluate
    } else if i == 11 {
        BrPhase::HadamardTerminal
    } else if i == 12 {
        BrPhase::Ntt
    } else if i == 13 {
        BrPhase::NttSparseInstance
    } else if i == 14 {
        BrPhase::NttBitPackEval
    } else if i == 15 {
        BrPhase::NttKeyPackEval
    } else if i == 16 {
        BrPhase::NttSumcheck
    } else if i == 17 {
        BrPhase::TraceOpening
    } else if i == 18 {
        BrPhase::KeyOpening
    } else if i == 19 {
        BrPhase::Sparse
    } else if i == 20 {
        BrPhase::SparseInstance
    } else if i == 21 {
        BrPhase::SparseLookup
    } else if i == 22 {
        BrPhase::SparseLookupWitnessCommit
    } else if i == 23 {
        BrPhase::SparseLookupHelperCommit
    } else if i == 24 {
        BrPhase::SparseLookupSumcheck
    } else if i == 25 {
        BrPhase::SparseProof
    } else if i == 26 {
        BrPhase::Accumulator
    } else if i == 27 {
        BrPhase::AccumulatorTrace
    } else if i == 28 {
        BrPhase::AccumulatorLookup
    } else if i == 29 {
        BrPhase::AccumulatorLookupWitnessCommit
    } else if i == 30 {
        BrPhase::AccumulatorLookupHelperCommit
    } else if i == 31 {
        BrPhase::AccumulatorLookupSumcheck
    } else if i == 32 {
        BrPhase::AccumulatorPermutation
    } else if i == 33 {
        BrPhase::Decomposition
    } else if i == 34 {
        BrPhase::DecompositionTrace
    } else if i == 35 {
        BrPhase::DecompositionParams
    } else if i == 36 {
        BrPhase::DecompositionInputMaterialize
    } else if i == 37 {
        BrPhase::DecompositionInputCommit
    } else if i == 38 {
        BrPhase::DecompositionLookupTrace
    } else if i == 39 {
        BrPhase::DecompositionLookupParams
    } else if i == 40 {
        BrPhase::DecompositionLookupWitnessMaterialize
    } else if i == 41 {
        BrPhase::DecompositionLookupBaseCommit
    } else if i == 42 {
        BrPhase::DecompositionLookupHelperCompute
    } else if i == 43 {
        BrPhase::DecompositionLookupHelperMaterialize
    } else if i == 44 {
        BrPhase::DecompositionLookupHelperCommit
    } else if i == 45 {
        BrPhase::DecompositionLookupSumcheck
    } else if i == 46 {
        BrPhase::DecompositionLookupEvalPack
    } else if i == 47 {
        BrPhase::DecompositionLookupBaseOpen
    } else if i == 48 {
        BrPhase::DecompositionLookupHelperOpen
    } else if i == 49 {
        BrPhase::DecompositionInputEvals
    } else if i == 50 {
        BrPhase::DecompositionInputOpen
    } else {
        BrPhase::Finalize
    }
}

/// The identifier under which `phase` is reported.
pub open spec fn phase_id(phase: BrPhase) -> &'static str {
    match phase {
        BrPhase::Total => "br.total",
        BrPhase::InputPreparation => "br.input-preparation",
        BrPhase::BitOracle => "br.input-preparation.bit-oracle",
        BrPhase::TraceMle => "br.input-preparation.trace-mle",
        BrPhase::MainCommit => "br.main-commit",
        BrPhase::Hadamard => "br.hadamard",
        BrPhase::HadamardToEf => "br.hadamard.base-to-extension",
        BrPhase::HadamardInstances => "br.hadamard.instances",
        BrPhase::HadamardBatching => "br.hadamard.batch-coefficients-kernel",
        BrPhase::HadamardSumcheck => "br.hadamard.sumcheck",
        BrPhase::HadamardFastEvaluate => "br.hadamard.fast-evaluate",
        BrPhase::HadamardTerminal => "br.hadamard.terminal-evaluations",
        BrPhase::Ntt => "br.ntt-equality",
        BrPhase::NttSparseInstance => "br.ntt-equality.sparse-instance",
        BrPhase::NttBitPackEval => "br.ntt-equality.bit-pack-evaluate",
        BrPhase::NttKeyPackEval => "br.ntt-equality.key-pack-evaluate",
        BrPhase::NttSumcheck => "br.ntt-equality.batched-sumcheck-terminal",
        BrPhase::TraceOpening => "br.open.trace",
        BrPhase::KeyOpening => "br.open.preprocessed-bsk",
        BrPhase::Sparse => "br.sparse",
        BrPhase::SparseInstance => "br.sparse.instance",
        BrPhase::SparseLookup => "br.sparse.lookup",
        BrPhase::SparseLookupWitnessCommit => "br.sparse.lookup.witness-commit",
        BrPhase::SparseLookupHelperCommit => "br.sparse.lookup.helper-commit",
        BrPhase::SparseLookupSumcheck => "br.sparse.lookup.sumcheck",
        BrPhase::SparseProof => "br.sparse.sumcheck",
        BrPhase::Accumulator => "br.accumulator",
        BrPhase::AccumulatorTrace => "br.accumulator.trace",
        BrPhase::AccumulatorLookup => "br.accumulator.lookup",
        BrPhase::AccumulatorLookupWitnessCommit => "br.accumulator.lookup.witness-commit",
        BrPhase::AccumulatorLookupHelperCommit => "br.accumulator.lookup.helper-commit",
        BrPhase::AccumulatorLookupSumcheck => "br.accumulator.lookup.sumcheck",
        BrPhase::AccumulatorPermutation => "br.accumulator.permutation-sumcheck",
        BrPhase::Decomposition => "br.decomposition",
        BrPhase::DecompositionTrace => "br.decomposition.trace",
        BrPhase::DecompositionParams => "br.decomposition.params",
        BrPhase::DecompositionInputMaterialize => "br.decomposition.input-materialize",
        BrPhase::DecompositionInputCommit => "br.decomposition.input-recommit",
        BrPhase::DecompositionLookupTrace => "br.decomposition.lookup-trace",
        BrPhase::DecompositionLookupParams => "br.decomposition.lookup-params",
        BrPhase::DecompositionLookupWitnessMaterialize => "br.decomposition.lookup.witness-materialize",
        BrPhase::DecompositionLookupBaseCommit => "br.decomposition.lookup.base-commit",
        BrPhase::DecompositionLookupHelperCompute => "br.decomposition.lookup.helper-compute",
        BrPhase::DecompositionLookupHelperMaterialize => "br.decomposition.lookup.helper-materialize",
        BrPhase::DecompositionLookupHelperCommit => "br.decomposition.lookup.helper-commit",
        BrPhase::DecompositionLookupSumcheck => "br.decomposition.lookup.sumcheck",
        BrPhase::DecompositionLookupEvalPack => "br.decomposition.lookup.eval-pack",
        BrPhase::DecompositionLookupBaseOpen => "br.decomposition.lookup.base-open",
        BrPhase::DecompositionLookupHelperOpen => "br.decomposition.lookup.helper-open",
        BrPhase::DecompositionInputEvals => "br.decomposition.input-evaluations",
        BrPhase::DecompositionInputOpen => "br.decomposition.input-open",
        BrPhase::Finalize => "br.finalize",
    }
}

/// The phase that `phase` is nested in; only `Total` has none.
pub open spec fn phase_parent(phase: BrPhase) -> Option<BrPhase> {
    match phase {
        BrPhase::Total => None,
        BrPhase::InputPreparation => Some(BrPhase::Total),
        BrPhase::BitOracle => Some(BrPhase::InputPreparation),
        BrPhase::TraceMle => Some(BrPhase::InputPreparation),
        BrPhase::MainCommit => Some(BrPhase::Total),
        BrPhase::Hadamard => Some(BrPhase::Total),
        BrPhase::HadamardToEf => Some(BrPhase::Hadamard),
        BrPhase::HadamardInstances => Some(BrPhase::Hadamard),
        BrPhase::HadamardBatching => Some(BrPhase::Hadamard),
        BrPhase::HadamardSumcheck => Some(BrPhase::Hadamard),
        BrPhase::HadamardFastEvaluate => Some(BrPhase::Hadamard),
        BrPhase::HadamardTerminal => Some(BrPhase::Hadamard),
        BrPhase::Ntt => Some(BrPhase::Total),
        BrPhase::NttSparseInstance => Some(BrPhase::Ntt),
        BrPhase::NttBitPackEval => Some(BrPhase::Ntt),
        BrPhase::NttKeyPackEval => Some(BrPhase::Ntt),
        BrPhase::NttSumcheck => Some(BrPhase::Ntt),
        BrPhase::TraceOpening => Some(BrPhase::Total),
        BrPhase::KeyOpening => Some(BrPhase::Total),
        BrPhase::Sparse => Some(BrPhase::Total),
        BrPhase::SparseInstance => Some(BrPhase::Sparse),
        BrPhase::SparseLookup => Some(BrPhase::Sparse),
        BrPhase::SparseLookupWitnessCommit => Some(BrPhase::SparseLookup),
        BrPhase::SparseLookupHelperCommit => Some(BrPhase::SparseLookup),
        BrPhase::SparseLookupSumcheck => Some(BrPhase::SparseLookup),
        BrPhase::SparseProof => Some(BrPhase::Sparse),
        BrPhase::Accumulator => Some(BrPhase::Total),
        BrPhase::AccumulatorTrace => Some(BrPhase::Accumulator),
        BrPhase::AccumulatorLookup => Some(BrPhase::Accumulator),
        BrPhase::AccumulatorLookupWitnessCommit => Some(BrPhase::AccumulatorLookup),
        BrPhase::AccumulatorLookupHelperCommit => Some(BrPhase::AccumulatorLookup),
        BrPhase::AccumulatorLookupSumcheck => Some(BrPhase::AccumulatorLookup),
        BrPhase::AccumulatorPermutation => Some(BrPhase::Accumulator),
        BrPhase::Decomposition => Some(BrPhase::Total),
        BrPhase::DecompositionTrace => Some(BrPhase::Decomposition),
        BrPhase::DecompositionParams => Some(BrPhase::Decomposition),
        BrPhase::DecompositionInputMaterialize => Some(BrPhase::Decomposition),
        BrPhase::DecompositionInputCommit => Some(BrPhase::Decomposition),
        BrPhase::DecompositionLookupTrace => Some(BrPhase::Decomposition),
        BrPhase::DecompositionLookupParams => Some(BrPhase::Decomposition),
        BrPhase::DecompositionLookupWitnessMaterialize => Some(BrPhase::Decomposition),
        BrPhase::DecompositionLookupBaseCommit => Some(BrPhase::Decomposition),
        BrPhase::DecompositionLookupHelperCompute => Some(BrPhase::Decomposition),
        BrPhase::DecompositionLookupHelperMaterialize => Some(BrPhase::Decomposition),
        BrPhase::DecompositionLookupHelperCommit => Some(BrPhase::Decomposition),
        BrPhase::DecompositionLookupSumcheck => Some(BrPhase::Decomposition),
        BrPhase::DecompositionLookupEvalPack => Some(BrPhase::Decomposition),
        BrPhase::DecompositionLookupBaseOpen => Some(BrPhase::Decomposition),
        BrPhase::DecompositionLookupHelperOpen => Some(BrPhase::Decomposition),
        BrPhase::DecompositionInputEvals => Some(BrPhase::Decomposition),
        BrPhase::DecompositionInputOpen => Some(BrPhase::Decomposition),
        BrPhase::Finalize => Some(BrPhase::Total),
    }
}

/// The identifier of the parent of `phase`, if it has one.
pub open spec fn phase_parent_id(phase: BrPhase) -> Option<&'static str> {
    match phase_parent(phase) {
        Some(q) => Some(phase_id(q)),
        None => None,
    }
}

impl BrPhase {
    /// The position of the phase in the order of definition.
    pub fn index(self) -> (r: usize)
        ensures
            r == phase_index(self),
            r < BR_PHASE_COUNT,
    {
        match self {
            BrPhase::Total => 0,
            BrPhase::InputPreparation => 1,
            BrPhase::BitOracle => 2,
            BrPhase::TraceMle => 3,
            BrPhase::MainCommit => 4,
            BrPhase::Hadamard => 5,
            BrPhase::HadamardToEf => 6,
            BrPhase::HadamardInstances => 7,
            BrPhase::HadamardBatching => 8,
            BrPhase::HadamardSumcheck => 9,
            BrPhase::HadamardFastEvaluate => 10,
            BrPhase::HadamardTerminal => 11,
            BrPhase::Ntt => 12,
            BrPhase::NttSparseInstance => 13,
            BrPhase::NttBitPackEval => 14,
            BrPhase::NttKeyPackEval => 15,
            BrPhase::NttSumcheck => 16,
            BrPhase::TraceOpening => 17,
            BrPhase::KeyOpening => 18,
            BrPhase::Sparse => 19,
            BrPhase::SparseInstance => 20,
            BrPhase::SparseLookup => 21,
            BrPhase::SparseLookupWitnessCommit => 22,
            BrPhase::SparseLookupHelperCommit => 23,
            BrPhase::SparseLookupSumcheck => 24,
            BrPhase::SparseProof => 25,
            BrPhase::Accumulator => 26,
            BrPhase::AccumulatorTrace => 27,
            BrPhase::AccumulatorLookup => 28,
            BrPhase::AccumulatorLookupWitnessCommit => 29,
            BrPhase::AccumulatorLookupHelperCommit => 30,
            BrPhase::AccumulatorLookupSumcheck => 31,
            BrPhase::AccumulatorPermutation => 32,
            BrPhase::Decomposition => 33,
            BrPhase::DecompositionTrace => 34,
            BrPhase::DecompositionParams => 35,
            BrPhase::DecompositionInputMaterialize => 36,
            BrPhase::DecompositionInputCommit => 37,
            BrPhase::DecompositionLookupTrace => 38,
            BrPhase::DecompositionLookupParams => 39,
            BrPhase::DecompositionLookupWitnessMaterialize => 40,
            BrPhase::DecompositionLookupBaseCommit => 41,
            BrPhase::DecompositionLookupHelperCompute => 42,
            BrPhase::DecompositionLookupHelperMaterialize => 43,
            BrPhase::DecompositionLookupHelperCommit => 44,
            BrPhase::DecompositionLookupSumcheck => 45,
            BrPhase::DecompositionLookupEvalPack => 46,
            BrPhase::DecompositionLookupBaseOpen => 47,
            BrPhase::DecompositionLookupHelperOpen => 48,
            BrPhase::DecompositionInputEvals => 49,
            BrPhase::DecompositionInputOpen => 50,
            BrPhase::Finalize => 51,
        }
    }

    /// The phase at position `i` of the order of definition.
    pub fn from_index(i: usize) -> (r: BrPhase)
        requires
            i < BR_PHASE_COUNT,
        ensures
            r == phase_at(i as nat),
            phase_index(r) == i,
    {
        match i {
            0 => BrPhase::Total,
            1 => BrPhase::InputPreparation,
            2 => BrPhase::BitOracle,
            3 => BrPhase::TraceMle,
            4 => BrPhase::MainCommit,
            5 => BrPhase::Hadamard,
            6 => BrPhase::HadamardToEf,
            7 => BrPhase::HadamardInstances,
            8 => BrPhase::HadamardBatching,
            9 => BrPhase::HadamardSumcheck,
            10 => BrPhase::HadamardFastEvaluate,
            11 => BrPhase::HadamardTerminal,
            12 => BrPhase::Ntt,
            13 => BrPhase::NttSparseInstance,
            14 => BrPhase::NttBitPackEval,
            15 => BrPhase::NttKeyPackEval,
            16 => BrPhase::NttSumcheck,
            17 => BrPhase::TraceOpening,
            18 => BrPhase::KeyOpening,
            19 => BrPhase::Sparse,
            20 => BrPhase::SparseInstance,
            21 => BrPhase::SparseLookup,
            22 => BrPhase::SparseLookupWitnessCommit,
            23 => BrPhase::SparseLookupHelperCommit,
            24 => BrPhase::SparseLookupSumcheck,
            25 => BrPhase::SparseProof,
            26 => BrPhase::Accumulator,
            27 => BrPhase::AccumulatorTrace,
            28 => BrPhase::AccumulatorLookup,
            29 => BrPhase::AccumulatorLookupWitnessCommit,
            30 => BrPhase::AccumulatorLookupHelperCommit,
            31 => BrPhase::AccumulatorLookupSumcheck,
            32 => BrPhase::AccumulatorPermutation,
            33 => BrPhase::Decomposition,
            34 => BrPhase::DecompositionTrace,
            35 => BrPhase::DecompositionParams,
            36 => BrPhase::DecompositionInputMaterialize,
            37 => BrPhase::DecompositionInputCommit,
            38 => BrPhase::DecompositionLookupTrace,
            39 => BrPhase::DecompositionLookupParams,
            40 => BrPhase::DecompositionLookupWitnessMaterialize,
            41 => BrPhase::DecompositionLookupBaseCommit,
            42 => BrPhase::DecompositionLookupHelperCompute,
            43 => BrPhase::DecompositionLookupHelperMaterialize,
            44 => BrPhase::DecompositionLookupHelperCommit,
            45 => BrPhase::DecompositionLookupSumcheck,
            46 => BrPhase::DecompositionLookupEvalPack,
            47 => BrPhase::DecompositionLookupBaseOpen,
            48 => BrPhase::DecompositionLookupHelperOpen,
            49 => BrPhase::DecompositionInputEvals,
            50 => BrPhase::DecompositionInputOpen,
            _ => BrPhase::Finalize,
        }
    }
}

/// Every phase but `Total` is nested in a phase defined before it.
pub proof fn lemma_phase_tree(phase: BrPhase)
    ensures
        phase_index(phase) < BR_PHASE_COUNT,
        phase_at(phase_index(phase)) == phase,
        phase_parent(phase) is None <==> phase == BrPhase::Total,
        phase_parent(phase) matches Some(q) ==> phase_index(q) < phase_index(phase),
{
}

/// The identifier of a phase and that of the phase it is nested in.
#[derive(Clone, Copy, Debug)]
pub struct BrPhaseDefinition {
    pub id: &'static str,
    pub parent_id: Option<&'static str>,
}

/// The definition with identifier `id` and parent identifier `parent_id`.
pub fn definition(id: &'static str, parent_id: Option<&'static str>) -> (r: BrPhaseDefinition)
    ensures
        r.id == id,
        r.parent_id == parent_id,
{
    BrPhaseDefinition { id, parent_id }
}

/// The definition of `phase`: its identifier and the identifier of its parent.
pub fn phase_definition(phase: BrPhase) -> (r: BrPhaseDefinition)
    ensures
        r.id == phase_id(phase),
        r.parent_id == phase_parent_id(phase),
{
    match phase {
        BrPhase::Total => definition("br.total", None),
        BrPhase::InputPreparation => definition("br.input-preparation", Some("br.total")),
        BrPhase::BitOracle => definition("br.input-preparation.bit-oracle", Some("br.input-preparation")),
        BrPhase::TraceMle => definition("br.input-preparation.trace-mle", Some("br.input-preparation")),
        BrPhase::MainCommit => definition("br.main-commit", Some("br.total")),
        BrPhase::Hadamard => definition("br.hadamard", Some("br.total")),
        BrPhase::HadamardToEf => definition("br.hadamard.base-to-extension", Some("br.hadamard")),
        BrPhase::HadamardInstances => definition("br.hadamard.instances", Some("br.hadamard")),
        BrPhase::HadamardBatching => definition("br.hadamard.batch-coefficients-kernel", Some("br.hadamard")),
        BrPhase::HadamardSumcheck => definition("br.hadamard.sumcheck", Some("br.hadamard")),
        BrPhase::HadamardFastEvaluate => definition("br.hadamard.fast-evaluate", Some("br.hadamard")),
        BrPhase::HadamardTerminal => definition("br.hadamard.terminal-evaluations", Some("br.hadamard")),
        BrPhase::Ntt => definition("br.ntt-equality", Some("br.total")),
        BrPhase::NttSparseInstance => definition("br.ntt-equality.sparse-instance", Some("br.ntt-equality")),
        BrPhase::NttBitPackEval => definition("br.ntt-equality.bit-pack-evaluate", Some("br.ntt-equality")),
        BrPhase::NttKeyPackEval => definition("br.ntt-equality.key-pack-evaluate", Some("br.ntt-equality")),
        BrPhase::NttSumcheck => definition("br.ntt-equality.batched-sumcheck-terminal", Some("br.ntt-equality")),
        BrPhase::TraceOpening => definition("br.open.trace", Some("br.total")),
        BrPhase::KeyOpening => definition("br.open.preprocessed-bsk", Some("br.total")),
        BrPhase::Sparse => definition("br.sparse", Some("br.total")),
        BrPhase::SparseInstance => definition("br.sparse.instance", Some("br.sparse")),
        BrPhase::SparseLookup => definition("br.sparse.lookup", Some("br.sparse")),
        BrPhase::SparseLookupWitnessCommit => definition("br.sparse.lookup.witness-commit", Some("br.sparse.lookup")),
        BrPhase::SparseLookupHelperCommit => definition("br.sparse.lookup.helper-commit", Some("br.sparse.lookup")),
        BrPhase::SparseLookupSumcheck => definition("br.sparse.lookup.sumcheck", Some("br.sparse.lookup")),
        BrPhase::SparseProof => definition("br.sparse.sumcheck", Some("br.sparse")),
        BrPhase::Accumulator => definition("br.accumulator", Some("br.total")),
        BrPhase::AccumulatorTrace => definition("br.accumulator.trace", Some("br.accumulator")),
        BrPhase::AccumulatorLookup => definition("br.accumulator.lookup", Some("br.accumulator")),
        BrPhase::AccumulatorLookupWitnessCommit => definition("br.accumulator.lookup.witness-commit", Some("br.accumulator.lookup")),
        BrPhase::AccumulatorLookupHelperCommit => definition("br.accumulator.lookup.helper-commit", Some("br.accumulator.lookup")),
        BrPhase::AccumulatorLookupSumcheck => definition("br.accumulator.lookup.sumcheck", Some("br.accumulator.lookup")),
        BrPhase::AccumulatorPermutation => definition("br.accumulator.permutation-sumcheck", Some("br.accumulator")),
        BrPhase::Decomposition => definition("br.decomposition", Some("br.total")),
        BrPhase::DecompositionTrace => definition("br.decomposition.trace", Some("br.decomposition")),
        BrPhase::DecompositionParams => definition("br.decomposition.params", Some("br.decomposition")),
        BrPhase::DecompositionInputMaterialize => definition("br.decomposition.input-materialize", Some("br.decomposition")),
        BrPhase::DecompositionInputCommit => definition("br.decomposition.input-recommit", Some("br.decomposition")),
        BrPhase::DecompositionLookupTrace => definition("br.decomposition.lookup-trace", Some("br.decomposition")),
        BrPhase::DecompositionLookupParams => definition("br.decomposition.lookup-params", Some("br.decomposition")),
        BrPhase::DecompositionLookupWitnessMaterialize => definition("br.decomposition.lookup.witness-materialize", Some("br.decomposition")),
        BrPhase::DecompositionLookupBaseCommit => definition("br.decomposition.lookup.base-commit", Some("br.decomposition")),
        BrPhase::DecompositionLookupHelperCompute => definition("br.decomposition.lookup.helper-compute", Some("br.decomposition")),
        BrPhase::DecompositionLookupHelperMaterialize => definition("br.decomposition.lookup.helper-materialize", Some("br.decomposition")),
        BrPhase::DecompositionLookupHelperCommit => definition("br.decomposition.lookup.helper-commit", Some("br.decomposition")),
        BrPhase::DecompositionLookupSumcheck => definition("br.decomposition.lookup.sumcheck", Some("br.decomposition")),
        BrPhase::DecompositionLookupEvalPack => definition("br.decomposition.lookup.eval-pack", Some("br.decomposition")),
        BrPhase::DecompositionLookupBaseOpen => definition("br.decomposition.lookup.base-open", Some("br.decomposition")),
        BrPhase::DecompositionLookupHelperOpen => definition("br.decomposition.lookup.helper-open", Some("br.decomposition")),
        BrPhase::DecompositionInputEvals => definition("br.decomposition.input-evaluations", Some("br.decomposition")),
        BrPhase::DecompositionInputOpen => definition("br.decomposition.input-open", Some("br.decomposition")),
        BrPhase::Finalize => definition("br.finalize", Some("br.total")),
    }
}

/// The definitions of all phases, in their order of definition.
pub fn br_phase_definitions() -> (r: Vec<BrPhaseDefinition>)
    ensures
        r@.len() == BR_PHASE_COUNT,
        forall|i: int|
            0 <= i < BR_PHASE_COUNT ==> {
                &&& (#[trigger] r@[i]).id == phase_id(phase_at(i as nat))
                &&& r@[i].parent_id == phase_parent_id(phase_at(i as nat))
            },
{
    let mut r: Vec<BrPhaseDefinition> = Vec::with_capacity(BR_PHASE_COUNT);
    let mut i: usize = 0;
    while i < BR_PHASE_COUNT
        invariant
            i <= BR_PHASE_COUNT,
            r@.len() == i,
            forall|t: int|
                0 <= t < i ==> {
                    &&& (#[trigger] r@[t]).id == phase_id(phase_at(t as nat))
                    &&& r@[t].parent_id == phase_parent_id(phase_at(t as nat))
                },
        decreases BR_PHASE_COUNT - i,
    {
        r.push(phase_definition(BrPhase::from_index(i)));
        i = i + 1;
    }
    r
}

/// The bit of `phase` in a mask of phases.
pub open spec fn phase_bit(phase: BrPhase) -> u64 {
    1u64 << (phase_index(phase) as u64)
}

/// The mask of the phases of the frames on `stack`.
pub open spec fn stack_mask(stack: Seq<Frame>) -> u64
    decreases stack.len(),
{
    if stack.len() == 0 {
        0
    } else {
        stack_mask(stack.drop_last()) | phase_bit(stack.last().phase)
    }
}

/// A frame of `phase` is on `stack`.
pub open spec fn stack_has(stack: Seq<Frame>, phase: BrPhase) -> bool {
    exists|i: int| 0 <= i < stack.len() && (#[trigger] stack[i]).phase == phase
}

proof fn lemma_or_bit(a: u64, x: u64, y: u64)
    by (bit_vector)
    requires
        x < 64,
        y < 64,
    ensures
        ((a | (1u64 << x)) & (1u64 << y)) != 0 <==> ((a & (1u64 << y)) != 0 || x == y),
{
}

proof fn lemma_zero_and(y: u64)
    by (bit_vector)
    ensures
        (0u64 & y) == 0,
{
}

/// The mask of a stack has the bit of a phase set exactly when a frame of that phase is
/// on the stack.
pub proof fn lemma_stack_mask_bit(stack: Seq<Frame>, phase: BrPhase)
    ensures
        (stack_mask(stack) & phase_bit(phase)) != 0 <==> stack_has(stack, phase),
    decreases stack.len(),
{
    lemma_phase_tree(phase);
    if stack.len() == 0 {
        lemma_zero_and(phase_bit(phase));
    } else {
        let init = stack.drop_last();
        let last = stack.last();
        lemma_stack_mask_bit(init, phase);
        lemma_phase_tree(last.phase);
        lemma_or_bit(stack_mask(init), phase_index(last.phase) as u64, phase_index(phase) as u64);
        if stack_has(init, phase) {
            let i = choose|i: int| 0 <= i < init.len() && (#[trigger] init[i]).phase == phase;
            assert(stack[i].phase == phase);
        }
        if stack_has(stack, phase) {
            let i = choose|i: int| 0 <= i < stack.len() && (#[trigger] stack[i]).phase == phase;
            if i < init.len() {
                assert(init[i].phase == phase);
            }
        }
        if last.phase == phase {
            assert(stack[stack.len() - 1].phase == phase);
        }
    }
}

/// An open scope: its phase, when it started, and the time spent in the scopes nested in it.
#[derive(Clone, Copy, Debug)]
pub struct Frame {
    pub phase: BrPhase,
    pub started_ns: u128,
    pub child_ns: u128,
}

/// What the profile records of one phase. Each key occurs at most once in `work`.
#[derive(Debug)]
pub struct Aggregate {
    pub calls: u64,
    pub inclusive_ns: u128,
    pub exclusive_ns: u128,
    pub work: Vec<(&'static str, u64)>,
}

/// Two keys are the same key when their bytes are.
pub open spec fn same_key(a: &str, b: &str) -> bool {
    a.spec_bytes() == b.spec_bytes()
}

/// No key occurs twice among the work counters.
pub open spec fn keys_distinct(work: Seq<(&'static str, u64)>) -> bool {
    forall|i: int, j: int|
        0 <= i < work.len() && 0 <= j < work.len() && i != j ==> !same_key(
            #[trigger] work[i].0,
            #[trigger] work[j].0,
        )
}

/// The counter of `key` among `work`, zero when there is none.
pub open spec fn work_value(work: Seq<(&'static str, u64)>, key: &str) -> nat {
    if exists|i: int| 0 <= i < work.len() && same_key(#[trigger] work[i].0, key) {
        let i = choose|i: int| 0 <= i < work.len() && same_key(#[trigger] work[i].0, key);
        work[i].1 as nat
    } else {
        0
    }
}

/// The work counters after adding `value` to the counter of `key`; a key seen for the
/// first time is appended.
pub open spec fn work_added(work: Seq<(&'static str, u64)>, key: &'static str, value: u64) -> Seq<
    (&'static str, u64),
> {
    if exists|i: int| 0 <= i < work.len() && same_key(#[trigger] work[i].0, key) {
        let i = choose|i: int| 0 <= i < work.len() && same_key(#[trigger] work[i].0, key);
        work.update(i, (work[i].0, (work[i].1 + value) as u64))
    } else {
        work.push((key, value))
    }
}

impl Aggregate {
    /// The record of a phase that has not run.
    pub fn new() -> (r: Self)
        ensures
            r.calls == 0,
            r.inclusive_ns == 0,
            r.exclusive_ns == 0,
            r.work@.len() == 0,
    {
        Aggregate { calls: 0, inclusive_ns: 0, exclusive_ns: 0, work: Vec::new() }
    }

    /// The exclusive time never exceeds the inclusive time; keys are distinct.
    pub open spec fn wf(&self) -> bool {
        &&& self.exclusive_ns <= self.inclusive_ns
        &&& keys_distinct(self.work@)
    }

    /// The phase ran, or did work.
    pub open spec fn is_measured(&self) -> bool {
        self.calls != 0 || self.work@.len() != 0
    }
}

/// The profiler: whether it records, its open scopes, what it recorded of every phase, and
/// the mask of the phases with an open scope.
#[derive(Debug)]
pub struct State {
    pub enabled: bool,
    pub stack: Vec<Frame>,
    pub aggregates: Vec<Aggregate>,
    pub active_mask: u64,
}

impl State {
    /// One record per phase; the mask is that of the stack; a disabled profiler has no open
    /// scope.
    pub open spec fn wf(&self) -> bool {
        &&& self.aggregates@.len() == BR_PHASE_COUNT
        &&& forall|i: int| 0 <= i < BR_PHASE_COUNT ==> (#[trigger] self.aggregates@[i]).wf()
        &&& self.active_mask == stack_mask(self.stack@)
        &&& !self.enabled ==> self.stack@.len() == 0
    }

    /// Nothing recorded, no scope open, recording off.
    pub open spec fn is_fresh(&self) -> bool {
        &&& self.wf()
        &&& !self.enabled
        &&& self.stack@.len() == 0
        &&& self.active_mask == 0
        &&& forall|i: int|
            0 <= i < BR_PHASE_COUNT ==> {
                &&& (#[trigger] self.aggregates@[i]).calls == 0
                &&& self.aggregates@[i].inclusive_ns == 0
                &&& self.aggregates@[i].exclusive_ns == 0
                &&& self.aggregates@[i].work@.len() == 0
            }
    }
}

impl Default for State {
    fn default() -> (r: Self)
        ensures
            r.is_fresh(),
    {
        let mut aggregates: Vec<Aggregate> = Vec::with_capacity(BR_PHASE_COUNT);
        let mut i: usize = 0;
        while i < BR_PHASE_COUNT
            invariant
                i <= BR_PHASE_COUNT,
                aggregates@.len() == i,
                forall|t: int|
                    0 <= t < i ==> {
                        &&& (#[trigger] aggregates@[t]).calls == 0
                        &&& aggregates@[t].inclusive_ns == 0
                        &&& aggregates@[t].exclusive_ns == 0
                        &&& aggregates@[t].work@.len() == 0
                    },
            decreases BR_PHASE_COUNT - i,
        {
            aggregates.push(Aggregate::new());
            i = i + 1;
        }
        State { enabled: false, stack: Vec::new(), aggregates, active_mask: 0 }
    }
}

/// Resets the profiler, recording from now on when `enabled`.
pub fn begin(state: &mut State, enabled: bool)
    ensures
        final(state).wf(),
        final(state).enabled == enabled,
        final(state).stack@.len() == 0,
        final(state).active_mask == 0,
        forall|i: int|
            0 <= i < BR_PHASE_COUNT ==> {
                &&& (#[trigger] final(state).aggregates@[i]).calls == 0
                &&& final(state).aggregates@[i].inclusive_ns == 0
                &&& final(state).aggregates@[i].exclusive_ns == 0
                &&& final(state).aggregates@[i].work@.len() == 0
            },
{
    *state = State::default();
    state.enabled = enabled;
}

/// The mask of the phases with an open scope.
pub fn active_phase_mask(state: &State) -> (r: u64)
    requires
        state.wf(),
    ensures
        r == state.active_mask,
        forall|phase: BrPhase| (r & #[trigger] phase_bit(phase)) != 0 <==> stack_has(state.stack@, phase),
{
    proof {
        assert forall|phase: BrPhase| (state.active_mask & #[trigger] phase_bit(phase)) != 0 <==> stack_has(
            state.stack@,
            phase,
        ) by {
            lemma_stack_mask_bit(state.stack@, phase);
        }
    }
    state.active_mask
}

/// `a - b`, or zero when `b` exceeds `a`.
pub open spec fn saturating_diff(a: u128, b: u128) -> u128 {
    if a >= b {
        (a - b) as u128
    } else {
        0
    }
}

/// After opening a scope of `phase` at time `now_ns`: a new frame on the stack, its bit
/// in the mask, the records unchanged.
pub open spec fn scope_opened(old: State, new: State, phase: BrPhase, now_ns: u128) -> bool {
    &&& new.enabled == old.enabled
    &&& new.stack@ == old.stack@.push(Frame { phase, started_ns: now_ns, child_ns: 0 })
    &&& new.aggregates@ == old.aggregates@
    &&& new.active_mask == (old.active_mask | phase_bit(phase))
}

/// The phase that a lookup inside the sparse or the accumulator lookup is charged to:
/// `sparse` within a sparse lookup, otherwise `accumulator` within an accumulator lookup.
pub open spec fn lookup_target(stack: Seq<Frame>, sparse: BrPhase, accumulator: BrPhase) -> Option<
    BrPhase,
> {
    if stack_has(stack, BrPhase::SparseLookup) {
        Some(sparse)
    } else if stack_has(stack, BrPhase::AccumulatorLookup) {
        Some(accumulator)
    } else {
        None
    }
}

/// After adding `value` to the counter `key` of `phase`: only that counter changed.
pub open spec fn work_recorded(
    old: State,
    new: State,
    phase: BrPhase,
    key: &'static str,
    value: u64,
) -> bool {
    let i = phase_index(phase) as int;
    &&& new.enabled == old.enabled
    &&& new.stack@ == old.stack@
    &&& new.active_mask == old.active_mask
    &&& new.aggregates@.len() == old.aggregates@.len()
    &&& forall|j: int|
        0 <= j < old.aggregates@.len() && j != i ==> #[trigger] new.aggregates@[j] == old.aggregates@[j]
    &&& new.aggregates@[i].calls == old.aggregates@[i].calls
    &&& new.aggregates@[i].inclusive_ns == old.aggregates@[i].inclusive_ns
    &&& new.aggregates@[i].exclusive_ns == old.aggregates@[i].exclusive_ns
    &&& new.aggregates@[i].work@ == work_added(old.aggregates@[i].work@, key, value)
}

/// The time the innermost scope has run at `now_ns`.
pub open spec fn innermost_elapsed(s: State, now_ns: u128) -> u128 {
    saturating_diff(now_ns, s.stack@.last().started_ns)
}

/// Closing the innermost scope at `now_ns` overflows no counter.
pub open spec fn close_fits(s: State, now_ns: u128) -> bool {
    let f = s.stack@.last();
    let elapsed = innermost_elapsed(s, now_ns);
    let a = s.aggregates@[phase_index(f.phase) as int];
    &&& s.stack@.len() > 0
    &&& a.calls + 1 <= u64::MAX
    &&& a.inclusive_ns + elapsed <= u128::MAX
    &&& a.exclusive_ns + saturating_diff(elapsed, f.child_ns) <= u128::MAX
    &&& s.stack@.len() > 1 ==> s.stack@[s.stack@.len() - 2].child_ns + elapsed <= u128::MAX
}

/// After closing the innermost scope at `now_ns`: its frame left the stack and its time
/// was charged to its phase (all of it inclusively, less the time of the scopes nested in
/// it exclusively) and to the enclosing frame as time of a nested scope.
pub open spec fn scope_closed(old: State, new: State, now_ns: u128) -> bool {
    let f = old.stack@.last();
    let rest = old.stack@.drop_last();
    let elapsed = innermost_elapsed(old, now_ns);
    let i = phase_index(f.phase) as int;
    let a = old.aggregates@[i];
    &&& new.enabled == old.enabled
    &&& new.stack@ == (if rest.len() > 0 {
        rest.update(
            rest.len() - 1,
            Frame {
                phase: rest.last().phase,
                started_ns: rest.last().started_ns,
                child_ns: (rest.last().child_ns + elapsed) as u128,
            },
        )
    } else {
        rest
    })
    &&& new.active_mask == stack_mask(new.stack@)
    &&& new.aggregates@.len() == old.aggregates@.len()
    &&& forall|j: int|
        0 <= j < old.aggregates@.len() && j != i ==> #[trigger] new.aggregates@[j] == old.aggregates@[j]
    &&& new.aggregates@[i] == Aggregate {
        calls: (a.calls + 1) as u64,
        inclusive_ns: (a.inclusive_ns + elapsed) as u128,
        exclusive_ns: (a.exclusive_ns + saturating_diff(elapsed, f.child_ns)) as u128,
        work: a.work,
    }
}

/// A scope handed out by `scope` or `lookup_scope`; an active one is closed with `close`.
#[derive(Debug)]
pub struct BrScope {
    active: bool,
}

impl BrScope {
    /// The scope opened a frame.
    pub closed spec fn is_active(self) -> bool {
        self.active
    }

    pub fn active(&self) -> (r: bool)
        ensures
            r == self.is_active(),
    {
        self.active
    }
}

/// The key `a` is the key `b`.
pub fn keys_equal(a: &str, b: &str) -> (r: bool)
    ensures
        r == same_key(a, b),
{
    let x = a.as_bytes();
    let y = b.as_bytes();
    if x.len() != y.len() {
        return false;
    }
    let mut i: usize = 0;
    while i < x.len()
        invariant
            x@ == a.spec_bytes(),
            y@ == b.spec_bytes(),
            x@.len() == y@.len(),
            i <= x@.len(),
            forall|t: int| 0 <= t < i ==> x@[t] == y@[t],
        decreases x@.len() - i,
    {
        if x[i] != y[i] {
            return false;
        }
        i = i + 1;
    }
    proof {
        assert(x@ =~= y@);
    }
    true
}

/// The position of the counter of `key` among `work`.
fn find_key(work: &Vec<(&'static str, u64)>, key: &'static str) -> (r: Option<usize>)
    ensures
        r matches Some(i) ==> i < work@.len() && same_key(work@[i as int].0, key),
        r is None ==> forall|i: int| 0 <= i < work@.len() ==> !same_key(#[trigger] work@[i].0, key),
{
    let mut i: usize = 0;
    while i < work.len()
        invariant
            i <= work@.len(),
            forall|t: int| 0 <= t < i ==> !same_key(#[trigger] work@[t].0, key),
        decreases work@.len() - i,
    {
        if keys_equal(work[i].0, key) {
            return Some(i);
        }
        i = i + 1;
    }
    None
}

/// The work counter `key` of `phase`, zero when there is none.
pub fn work_counter(state: &State, phase: BrPhase, key: &'static str) -> (r: u64)
    requires
        state.wf(),
    ensures
        r == work_value(state.aggregates@[phase_index(phase) as int].work@, key),
{
    let idx = phase.index();
    let work = &state.aggregates[idx].work;
    let ghost w = work@;
    proof {
        assert(state.aggregates@[idx as int].wf());
    }
    match find_key(work, key) {
        Some(i) => {
            proof {
                let c = choose|c: int| 0 <= c < w.len() && same_key(#[trigger] w[c].0, key);
                if c != i {
                    assert(same_key(w[c].0, w[i as int].0));
                }
            }
            work[i].1
        },
        None => 0,
    }
}

/// Opens a scope of `phase` at time `now_ns`, when the profiler records.
pub fn scope(state: &mut State, phase: BrPhase, now_ns: u128) -> (r: BrScope)
    requires
        old(state).wf(),
    ensures
        final(state).wf(),
        r.is_active() == old(state).enabled,
        !old(state).enabled ==> *final(state) == *old(state),
        old(state).enabled ==> scope_opened(*old(state), *final(state), phase, now_ns),
{
    if !state.enabled {
        return BrScope { active: false };
    }
    let ghost old_stack = state.stack@;
    state.stack.push(Frame { phase, started_ns: now_ns, child_ns: 0 });
    let bit = 1u64 << (phase.index() as u64);
    state.active_mask = state.active_mask | bit;
    proof {
        assert(state.stack@.drop_last() =~= old_stack);
    }
    BrScope { active: true }
}

/// A frame of `phase` is on `stack`.
fn stack_contains(stack: &Vec<Frame>, phase: BrPhase) -> (r: bool)
    ensures
        r == stack_has(stack@, phase),
{
    let mut i: usize = 0;
    while i < stack.len()
        invariant
            i <= stack@.len(),
            forall|t: int| 0 <= t < i ==> (#[trigger] stack@[t]).phase != phase,
        decreases stack@.len() - i,
    {
        if stack[i].phase == phase {
            return true;
        }
        i = i + 1;
    }
    false
}

/// The phase of `lookup_target` for the stack of `state`.
pub fn find_lookup_target(state: &State, sparse: BrPhase, accumulator: BrPhase) -> (r: Option<BrPhase>)
    ensures
        r == lookup_target(state.stack@, sparse, accumulator),
{
    if stack_contains(&state.stack, BrPhase::SparseLookup) {
        Some(sparse)
    } else if stack_contains(&state.stack, BrPhase::AccumulatorLookup) {
        Some(accumulator)
    } else {
        None
    }
}

/// Opens a scope of `sparse` inside a sparse lookup, or of `accumulator` inside an
/// accumulator lookup; outside both, opens nothing.
pub fn lookup_scope(state: &mut State, sparse: BrPhase, accumulator: BrPhase, now_ns: u128) -> (r:
    BrScope)
    requires
        old(state).wf(),
    ensures
        final(state).wf(),
        (!old(state).enabled || lookup_target(old(state).stack@, sparse, accumulator) is None) ==> (
        *final(state) == *old(state) && !r.is_active()),
        old(state).enabled ==> (lookup_target(old(state).stack@, sparse, accumulator) matches Some(p)
            ==> scope_opened(*old(state), *final(state), p, now_ns) && r.is_active()),
{
    if !state.enabled {
        return BrScope { active: false };
    }
    match find_lookup_target(state, sparse, accumulator) {
        Some(phase) => scope(state, phase, now_ns),
        None => BrScope { active: false },
    }
}

/// Adds `value` to the work counter `key` of `phase`, when the profiler records.
pub fn add_work(state: &mut State, phase: BrPhase, key: &'static str, value: u64)
    requires
        old(state).wf(),
        old(state).enabled ==> work_value(
            old(state).aggregates@[phase_index(phase) as int].work@,
            key,
        ) + value <= u64::MAX,
    ensures
        final(state).wf(),
        !old(state).enabled ==> *final(state) == *old(state),
        old(state).enabled ==> work_recorded(*old(state), *final(state), phase, key, value),
{
    if !state.enabled {
        return;
    }
    let idx = phase.index();
    let ghost old_aggs = state.aggregates@;
    let mut agg = Aggregate::new();
    state.aggregates.set_and_swap(idx, &mut agg);
    let ghost w = agg.work@;
    proof {
        assert(old_aggs[idx as int].wf());
    }
    match find_key(&agg.work, key) {
        Some(i) => {
            let (k0, v0) = agg.work[i];
            proof {
                let c = choose|c: int| 0 <= c < w.len() && same_key(#[trigger] w[c].0, key);
                if c != i {
                    assert(same_key(w[c].0, w[i as int].0));
                }
            }
            agg.work.set(i, (k0, v0 + value));
            proof {
                assert forall|a: int, b: int|
                    0 <= a < agg.work@.len() && 0 <= b < agg.work@.len() && a != b implies !same_key(
                    #[trigger] agg.work@[a].0,
                    #[trigger] agg.work@[b].0,
                ) by {
                    assert(w[a].0 == agg.work@[a].0 && w[b].0 == agg.work@[b].0);
                }
            }
        },
        None => {
            agg.work.push((key, value));
            proof {
                assert forall|a: int, b: int|
                    0 <= a < agg.work@.len() && 0 <= b < agg.work@.len() && a != b implies !same_key(
                    #[trigger] agg.work@[a].0,
                    #[trigger] agg.work@[b].0,
                ) by {
                    if a < w.len() && b < w.len() {
                        assert(w[a].0 == agg.work@[a].0 && w[b].0 == agg.work@[b].0);
                    } else if a < w.len() {
                        assert(!same_key(w[a].0, key));
                    } else {
                        assert(!same_key(w[b].0, key));
                    }
                }
            }
        },
    }
    state.aggregates.set(idx, agg);
    proof {
        assert forall|j: int| 0 <= j < BR_PHASE_COUNT implies (#[trigger] state.aggregates@[j]).wf() by {
            if j != idx {
                assert(old_aggs[j].wf());
            }
        }
    }
}

/// Adds `value` to the work counter `key` of `sparse` inside a sparse lookup, or of
/// `accumulator` inside an accumulator lookup; outside both, records nothing.
pub fn add_lookup_work(
    state: &mut State,
    sparse: BrPhase,
    accumulator: BrPhase,
    key: &'static str,
    value: u64,
)
    requires
        old(state).wf(),
        old(state).enabled ==> (lookup_target(old(state).stack@, sparse, accumulator) matches Some(p)
            ==> work_value(old(state).aggregates@[phase_index(p) as int].work@, key) + value
            <= u64::MAX),
    ensures
        final(state).wf(),
        (!old(state).enabled || lookup_target(old(state).stack@, sparse, accumulator) is None)
            ==> *final(state) == *old(state),
        old(state).enabled ==> (lookup_target(old(state).stack@, sparse, accumulator) matches Some(p)
            ==> work_recorded(*old(state), *final(state), p, key, value)),
{
    if !state.enabled {
        return;
    }
    match find_lookup_target(state, sparse, accumulator) {
        Some(phase) => add_work(state, phase, key, value),
        None => {},
    }
}

/// The mask of the phases of the frames on `stack`.
fn mask_of(stack: &Vec<Frame>) -> (r: u64)
    ensures
        r == stack_mask(stack@),
{
    let mut m: u64 = 0;
    let mut i: usize = 0;
    while i < stack.len()
        invariant
            i <= stack@.len(),
            m == stack_mask(stack@.take(i as int)),
        decreases stack@.len() - i,
    {
        let ghost prefix = stack@.take(i as int);
        m = m | (1u64 << (stack[i].phase.index() as u64));
        proof {
            assert(stack@.take(i + 1).drop_last() =~= prefix);
        }
        i = i + 1;
    }
    proof {
        assert(stack@.take(stack@.len() as int) =~= stack@);
    }
    m
}

/// Whether the innermost scope can be closed at `now_ns` without overflowing a counter.
pub fn can_close(state: &State, now_ns: u128) -> (r: bool)
    requires
        state.wf(),
    ensures
        r == close_fits(*state, now_ns),
{
    let n = state.stack.len();
    if n == 0 {
        return false;
    }
    let f = state.stack[n - 1];
    let elapsed = now_ns.saturating_sub(f.started_ns);
    let exclusive = elapsed.saturating_sub(f.child_ns);
    let a = &state.aggregates[f.phase.index()];
    if a.calls == u64::MAX || a.inclusive_ns > u128::MAX - elapsed || a.exclusive_ns > u128::MAX
        - exclusive {
        return false;
    }
    if n > 1 && state.stack[n - 2].child_ns > u128::MAX - elapsed {
        return false;
    }
    true
}

impl BrScope {
    /// Closes the scope at time `now_ns`: an active scope pops the innermost frame, charges
    /// its time to its phase and to the enclosing frame, and recomputes the mask.
    pub fn close(self, state: &mut State, now_ns: u128)
        requires
            old(state).wf(),
            self.is_active() ==> close_fits(*old(state), now_ns),
        ensures
            final(state).wf(),
            !self.is_active() ==> *final(state) == *old(state),
            self.is_active() ==> scope_closed(*old(state), *final(state), now_ns),
    {
        if !self.active {
            return;
        }
        let ghost old_state = *state;
        let frame = state.stack.pop().unwrap();
        let elapsed = now_ns.saturating_sub(frame.started_ns);
        let exclusive = elapsed.saturating_sub(frame.child_ns);
        let idx = frame.phase.index();
        let mut agg = Aggregate::new();
        state.aggregates.set_and_swap(idx, &mut agg);
        proof {
            assert(old_state.aggregates@[idx as int].wf());
        }
        let updated = Aggregate {
            calls: agg.calls + 1,
            inclusive_ns: agg.inclusive_ns + elapsed,
            exclusive_ns: agg.exclusive_ns + exclusive,
            work: agg.work,
        };
        state.aggregates.set(idx, updated);
        let n = state.stack.len();
        if n > 0 {
            let parent = state.stack[n - 1];
            state.stack.set(
                n - 1,
                Frame {
                    phase: parent.phase,
                    started_ns: parent.started_ns,
                    child_ns: parent.child_ns + elapsed,
                },
            );
        }
        state.active_mask = mask_of(&state.stack);
        proof {
            assert forall|j: int| 0 <= j < BR_PHASE_COUNT implies (#[trigger] state.aggregates@[j]).wf() by {
                if j != idx {
                    assert(old_state.aggregates@[j].wf());
                }
            }
        }
    }
}

/// What the profile reports of one phase.
#[derive(Debug)]
pub struct BrPhaseMeasurement {
    pub phase_id: &'static str,
    pub parent_id: Option<&'static str>,
    pub calls: u64,
    pub inclusive_ns: u128,
    pub exclusive_ns: u128,
    pub work: Vec<(&'static str, u64)>,
}

/// The profile: whether it was recording, and a measurement per phase that ran or did work.
#[derive(Debug)]
pub struct BrProfile {
    pub enabled: bool,
    pub phases: Vec<BrPhaseMeasurement>,
}

/// The positions of the records that show calls or work, in order.
pub open spec fn measured_indices(aggs: Seq<Aggregate>) -> Seq<int>
    decreases aggs.len(),
{
    if aggs.len() == 0 {
        seq![]
    } else {
        let init = measured_indices(aggs.drop_last());
        if aggs.last().is_measured() {
            init.push(aggs.len() - 1)
        } else {
            init
        }
    }
}

/// `m` reports the record `a` of the phase at position `i`.
pub open spec fn reports(m: BrPhaseMeasurement, i: int, a: Aggregate) -> bool {
    &&& m.phase_id == phase_id(phase_at(i as nat))
    &&& m.parent_id == phase_parent_id(phase_at(i as nat))
    &&& m.calls == a.calls
    &&& m.inclusive_ns == a.inclusive_ns
    &&& m.exclusive_ns == a.exclusive_ns
    &&& m.work@ == a.work@
}

/// A copy of the work counters.
fn copy_work(work: &Vec<(&'static str, u64)>) -> (r: Vec<(&'static str, u64)>)
    ensures
        r@ == work@,
{
    let mut r: Vec<(&'static str, u64)> = Vec::with_capacity(work.len());
    let mut i: usize = 0;
    while i < work.len()
        invariant
            i <= work@.len(),
            r@ == work@.take(i as int),
        decreases work@.len() - i,
    {
        r.push(work[i]);
        i = i + 1;
        proof {
            assert(r@ =~= work@.take(i as int));
        }
    }
    proof {
        assert(work@.take(work@.len() as int) =~= work@);
    }
    r
}

/// Stops recording and reports every phase that ran or did work, in order of definition.
/// Every scope must have been closed.
pub fn finish(state: &mut State) -> (r: BrProfile)
    requires
        old(state).wf(),
        old(state).stack@.len() == 0,
    ensures
        final(state).wf(),
        !final(state).enabled,
        final(state).active_mask == 0,
        final(state).stack@ == old(state).stack@,
        final(state).aggregates@ == old(state).aggregates@,
        r.enabled == old(state).enabled,
        ({
            let idx = measured_indices(old(state).aggregates@);
            &&& r.phases@.len() == idx.len()
            &&& forall|j: int|
                0 <= j < idx.len() ==> reports(
                    #[trigger] r.phases@[j],
                    idx[j],
                    old(state).aggregates@[idx[j]],
                )
        }),
{
    let enabled = state.enabled;
    state.enabled = false;
    state.active_mask = 0;
    let ghost aggs = state.aggregates@;
    let mut phases: Vec<BrPhaseMeasurement> = Vec::new();
    let mut i: usize = 0;
    while i < BR_PHASE_COUNT
        invariant
            aggs == state.aggregates@,
            aggs.len() == BR_PHASE_COUNT,
            i <= BR_PHASE_COUNT,
            phases@.len() == measured_indices(aggs.take(i as int)).len(),
            forall|j: int|
                0 <= j < phases@.len() ==> reports(
                    #[trigger] phases@[j],
                    measured_indices(aggs.take(i as int))[j],
                    aggs[measured_indices(aggs.take(i as int))[j]],
                ),
        decreases BR_PHASE_COUNT - i,
    {
        let ghost before = measured_indices(aggs.take(i as int));
        proof {
            assert(aggs.take(i + 1).drop_last() =~= aggs.take(i as int));
        }
        let a = &state.aggregates[i];
        if a.calls != 0 || a.work.len() != 0 {
            let definition = phase_definition(BrPhase::from_index(i));
            phases.push(
                BrPhaseMeasurement {
                    phase_id: definition.id,
                    parent_id: definition.parent_id,
                    calls: a.calls,
                    inclusive_ns: a.inclusive_ns,
                    exclusive_ns: a.exclusive_ns,
                    work: copy_work(&a.work),
                },
            );
        }
        i = i + 1;
        proof {
            let after = measured_indices(aggs.take(i as int));
            assert forall|j: int| 0 <= j < phases@.len() implies reports(
                #[trigger] phases@[j],
                after[j],
                aggs[after[j]],
            ) by {
                if j < before.len() {
                    assert(after[j] == before[j]);
                }
            }
        }
    }
    proof {
        assert(aggs.take(BR_PHASE_COUNT as int) =~= aggs);
    }
    BrProfile { enabled, phases }
}

/// Stacks with the same phases, frame by frame, have the same mask.
pub proof fn lemma_stack_mask_phases(a: Seq<Frame>, b: Seq<Frame>)
    requires
        a.len() == b.len(),
        forall|i: int| 0 <= i < a.len() ==> (#[trigger] a[i]).phase == b[i].phase,
    ensures
        stack_mask(a) == stack_mask(b),
    decreases a.len(),
{
    if a.len() > 0 {
        lemma_stack_mask_phases(a.drop_last(), b.drop_last());
    }
}

/// Opening a scope and closing it again restores the stack and the mask, charges the time
/// between the two to the phase, as one more call, inclusively and exclusively, and to the
/// enclosing frame as time of a nested scope.
pub proof fn lemma_scope_roundtrip(
    s0: State,
    s1: State,
    s2: State,
    phase: BrPhase,
    start_ns: u128,
    end_ns: u128,
)
    requires
        s0.wf(),
        s0.enabled,
        scope_opened(s0, s1, phase, start_ns),
        close_fits(s1, end_ns),
        scope_closed(s1, s2, end_ns),
    ensures
        s2.enabled == s0.enabled,
        s2.stack@.len() == s0.stack@.len(),
        forall|i: int| 0 <= i < s0.stack@.len() - 1 ==> #[trigger] s2.stack@[i] == s0.stack@[i],
        s0.stack@.len() > 0 ==> {
            let last = s0.stack@.len() - 1;
            &&& s2.stack@[last].phase == s0.stack@[last].phase
            &&& s2.stack@[last].started_ns == s0.stack@[last].started_ns
            &&& s2.stack@[last].child_ns == s0.stack@[last].child_ns + saturating_diff(end_ns, start_ns)
        },
        s2.active_mask == s0.active_mask,
        s2.aggregates@.len() == s0.aggregates@.len(),
        forall|j: int|
            0 <= j < s0.aggregates@.len() && j != phase_index(phase) ==> #[trigger] s2.aggregates@[j]
                == s0.aggregates@[j],
        ({
            let i = phase_index(phase) as int;
            &&& s2.aggregates@[i].calls == s0.aggregates@[i].calls + 1
            &&& s2.aggregates@[i].inclusive_ns == s0.aggregates@[i].inclusive_ns + saturating_diff(end_ns, start_ns)
            &&& s2.aggregates@[i].exclusive_ns == s0.aggregates@[i].exclusive_ns + saturating_diff(end_ns, start_ns)
            &&& s2.aggregates@[i].work == s0.aggregates@[i].work
        }),
{
    lemma_phase_tree(phase);
    let frame = Frame { phase, started_ns: start_ns, child_ns: 0 };
    assert(s1.stack@.drop_last() =~= s0.stack@);
    assert(s1.stack@.last() == frame);
    assert(s1.aggregates@ == s0.aggregates@);
    if s0.stack@.len() > 1 {
        assert(s1.stack@[s1.stack@.len() - 2] == s0.stack@.last());
    }
    lemma_stack_mask_phases(s2.stack@, s0.stack@);
}

/// Adding `a` and then `b` to the counter `key` leaves the counters as adding `a + b` once.
pub proof fn lemma_work_added_twice(work: Seq<(&'static str, u64)>, key: &'static str, a: u64, b: u64)
    requires
        keys_distinct(work),
        work_value(work, key) + a + b <= u64::MAX,
    ensures
        keys_distinct(work_added(work, key, a)),
        work_value(work_added(work, key, a), key) == work_value(work, key) + a,
        work_added(work_added(work, key, a), key, b) == work_added(work, key, (a + b) as u64),
{
    let w1 = work_added(work, key, a);
    if exists|i: int| 0 <= i < work.len() && same_key(#[trigger] work[i].0, key) {
        let i = choose|i: int| 0 <= i < work.len() && same_key(#[trigger] work[i].0, key);
        assert(w1 == work.update(i, (work[i].0, (work[i].1 + a) as u64)));
        assert(same_key(w1[i].0, key));
        let c = choose|c: int| 0 <= c < w1.len() && same_key(#[trigger] w1[c].0, key);
        if c != i {
            assert(same_key(work[c].0, work[i].0));
        }
        assert forall|x: int, y: int| 0 <= x < w1.len() && 0 <= y < w1.len() && x != y implies !same_key(
            #[trigger] w1[x].0,
            #[trigger] w1[y].0,
        ) by {
            assert(w1[x].0 == work[x].0 && w1[y].0 == work[y].0);
        }
        assert(work_added(w1, key, b) =~= work_added(work, key, (a + b) as u64));
    } else {
        assert(w1 == work.push((key, a)));
        let n = work.len() as int;
        assert(same_key(w1[n].0, key));
        let c = choose|c: int| 0 <= c < w1.len() && same_key(#[trigger] w1[c].0, key);
        if c != n {
            assert(w1[c] == work[c]);
        }
        assert forall|x: int, y: int| 0 <= x < w1.len() && 0 <= y < w1.len() && x != y implies !same_key(
            #[trigger] w1[x].0,
            #[trigger] w1[y].0,
        ) by {
            if x < n && y < n {
                assert(w1[x] == work[x] && w1[y] == work[y]);
            } else if x < n {
                assert(w1[x] == work[x]);
            } else {
                assert(w1[y] == work[y]);
            }
        }
        assert(work_added(w1, key, b) =~= work_added(work, key, (a + b) as u64));
    }
}

/// Two calls of `add_work` on one phase and key, with `a` and then with `b`, have the effect
/// of one call with `a + b`: on a recording profiler only that counter changes, by `a + b`;
/// on a profiler that does not record nothing changes. The second call's precondition holds
/// whenever the sum fits.
pub proof fn lemma_add_work_twice(
    s0: State,
    s1: State,
    s2: State,
    phase: BrPhase,
    key: &'static str,
    a: u64,
    b: u64,
)
    requires
        s0.wf(),
        work_value(s0.aggregates@[phase_index(phase) as int].work@, key) + a + b <= u64::MAX,
        !s0.enabled ==> s1 == s0,
        s0.enabled ==> work_recorded(s0, s1, phase, key, a),
        !s1.enabled ==> s2 == s1,
        s1.enabled ==> work_recorded(s1, s2, phase, key, b),
    ensures
        s1.enabled ==> work_value(s1.aggregates@[phase_index(phase) as int].work@, key) + b <= u64::MAX,
        !s0.enabled ==> s2 == s0,
        s0.enabled ==> work_recorded(s0, s2, phase, key, (a + b) as u64),
{
    lemma_phase_tree(phase);
    let i = phase_index(phase) as int;
    if s0.enabled {
        assert(s0.aggregates@[i].wf());
        lemma_work_added_twice(s0.aggregates@[i].work@, key, a, b);
    }
}

/// The time from `starts[k]` to `ends[k]`, summed over the first `n` rounds.
pub open spec fn total_elapsed(starts: Seq<u128>, ends: Seq<u128>, n: nat) -> nat
    decreases n,
{
    if n == 0 {
        0
    } else {
        total_elapsed(starts, ends, (n - 1) as nat) + saturating_diff(ends[n - 1], starts[n - 1]) as nat
    }
}

/// `n` rounds of opening a scope of `phase` at `starts[k]` and closing it at `ends[k]`: the
/// state is `before[k]` before round `k`, `during[k]` while its scope is open, and
/// `before[n]` at the end.
pub open spec fn scope_rounds(
    before: Seq<State>,
    during: Seq<State>,
    phase: BrPhase,
    starts: Seq<u128>,
    ends: Seq<u128>,
    n: nat,
) -> bool {
    &&& before.len() == n + 1
    &&& during.len() == n
    &&& starts.len() == n
    &&& ends.len() == n
    &&& forall|k: int|
        0 <= k < n ==> {
            &&& scope_opened(before[k], #[trigger] during[k], phase, starts[k])
            &&& close_fits(during[k], ends[k])
            &&& scope_closed(during[k], before[k + 1], ends[k])
        }
}

/// The profiler just begun with recording on: nothing recorded, no scope open.
pub open spec fn begun_recording(s: State) -> bool {
    &&& s.wf()
    &&& s.enabled
    &&& s.stack@.len() == 0
    &&& forall|i: int|
        0 <= i < BR_PHASE_COUNT ==> {
            &&& (#[trigger] s.aggregates@[i]).calls == 0
            &&& s.aggregates@[i].inclusive_ns == 0
            &&& s.aggregates@[i].exclusive_ns == 0
            &&& s.aggregates@[i].work@.len() == 0
        }
}

proof fn lemma_scope_rounds_prefix(
    before: Seq<State>,
    during: Seq<State>,
    phase: BrPhase,
    starts: Seq<u128>,
    ends: Seq<u128>,
    n: nat,
    k: nat,
)
    requires
        begun_recording(before[0]),
        scope_rounds(before, during, phase, starts, ends, n),
        k <= n,
    ensures
        before[k as int].wf(),
        before[k as int].enabled,
        before[k as int].stack@.len() == 0,
        before[k as int].aggregates@.len() == BR_PHASE_COUNT,
        forall|j: int|
            0 <= j < BR_PHASE_COUNT && j != phase_index(phase) ==> #[trigger] before[k as int].aggregates@[j]
                == before[0].aggregates@[j],
        before[k as int].aggregates@[phase_index(phase) as int].calls == k,
        before[k as int].aggregates@[phase_index(phase) as int].inclusive_ns == total_elapsed(starts, ends, k),
        before[k as int].aggregates@[phase_index(phase) as int].exclusive_ns == total_elapsed(starts, ends, k),
        before[k as int].aggregates@[phase_index(phase) as int].work@.len() == 0,
    decreases k,
{
    lemma_phase_tree(phase);
    let i = phase_index(phase) as int;
    if k == 0 {
        assert(before[0].aggregates@[i].calls == 0);
    } else {
        let m = (k - 1) as int;
        lemma_scope_rounds_prefix(before, during, phase, starts, ends, n, (k - 1) as nat);
        let s0 = before[m];
        let s1 = during[m];
        let s2 = before[m + 1];
        assert(scope_opened(s0, s1, phase, starts[m]));
        lemma_scope_roundtrip(s0, s1, s2, phase, starts[m], ends[m]);
        assert(s2.stack@ =~= Seq::<Frame>::empty());
        assert forall|j: int| 0 <= j < BR_PHASE_COUNT implies (#[trigger] s2.aggregates@[j]).wf() by {
            if j != i {
                assert(s0.aggregates@[j].wf());
            }
        }
    }
}

proof fn lemma_measured_none(aggs: Seq<Aggregate>)
    requires
        forall|j: int| 0 <= j < aggs.len() ==> !(#[trigger] aggs[j]).is_measured(),
    ensures
        measured_indices(aggs) == Seq::<int>::empty(),
    decreases aggs.len(),
{
    if aggs.len() > 0 {
        lemma_measured_none(aggs.drop_last());
    }
}

proof fn lemma_measured_only(aggs: Seq<Aggregate>, i: int)
    requires
        0 <= i < aggs.len(),
        aggs[i].is_measured(),
        forall|j: int| 0 <= j < aggs.len() && j != i ==> !(#[trigger] aggs[j]).is_measured(),
    ensures
        measured_indices(aggs) == seq![i],
    decreases aggs.len(),
{
    if i == aggs.len() - 1 {
        lemma_measured_none(aggs.drop_last());
        assert(Seq::<int>::empty().push(i) =~= seq![i]);
    } else {
        lemma_measured_only(aggs.drop_last(), i);
    }
}

/// On a profiler just begun with recording on, `n` rounds of opening and closing a scope of
/// one phase, with no other call between them, leave no scope open and count `n` calls of
/// that phase, with its inclusive and its exclusive time both the sum of the rounds' times
/// and no work; every other phase keeps its empty record, so that, for `n > 0`, `finish`
/// reports exactly that one phase.
pub proof fn lemma_scope_rounds(
    before: Seq<State>,
    during: Seq<State>,
    phase: BrPhase,
    starts: Seq<u128>,
    ends: Seq<u128>,
    n: nat,
)
    requires
        begun_recording(before[0]),
        scope_rounds(before, during, phase, starts, ends, n),
    ensures
        ({
            let s = before[n as int];
            let a = s.aggregates@[phase_index(phase) as int];
            &&& s.wf()
            &&& s.enabled
            &&& s.stack@.len() == 0
            &&& a.calls == n
            &&& a.inclusive_ns == total_elapsed(starts, ends, n)
            &&& a.exclusive_ns == a.inclusive_ns
            &&& a.work@.len() == 0
            &&& forall|j: int|
                0 <= j < BR_PHASE_COUNT && j != phase_index(phase) ==> {
                    &&& (#[trigger] s.aggregates@[j]).calls == 0
                    &&& s.aggregates@[j].inclusive_ns == 0
                    &&& s.aggregates@[j].exclusive_ns == 0
                    &&& s.aggregates@[j].work@.len() == 0
                }
            &&& n > 0 ==> measured_indices(s.aggregates@) == seq![phase_index(phase) as int]
        }),
{
    lemma_phase_tree(phase);
    lemma_scope_rounds_prefix(before, during, phase, starts, ends, n, n);
    let s = before[n as int];
    let i = phase_index(phase) as int;
    assert forall|j: int| 0 <= j < BR_PHASE_COUNT && j != i implies {
        &&& (#[trigger] s.aggregates@[j]).calls == 0
        &&& s.aggregates@[j].inclusive_ns == 0
        &&& s.aggregates@[j].exclusive_ns == 0
        &&& s.aggregates@[j].work@.len() == 0
    } by {
        assert(s.aggregates@[j] == before[0].aggregates@[j]);
    }
    if n > 0 {
        assert forall|j: int| 0 <= j < s.aggregates@.len() && j != i implies !(
        #[trigger] s.aggregates@[j]).is_measured() by {
            assert(s.aggregates@[j] == before[0].aggregates@[j]);
        }
        lemma_measured_only(s.aggregates@, i);
    }
}

} // verus!
