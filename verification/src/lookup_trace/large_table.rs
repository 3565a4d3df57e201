//! Range checks against a table too large to build: `x < 2^range_bits` is checked by
//! splitting `x` into limbs of `basis_bits` bits and range checking every limb against the
//! small table `[0, 2^basis_bits)`.
use super::normal_table::LookupTraceMLE;
use crate::basis::{decompose_all, digit, lemma_shift_step, lemma_shift_zero, mask};
use crate::field::Fp;
use crate::mle::DenseMultilinearExtension;
use std::rc::Rc;
use vstd::arithmetic::power2::*;
use vstd::bits::*;
use vstd::prelude::*;

verus! {

/// Values to be range checked against `[0, range)`, `range = 2^num_range_bits`.
#[derive(Clone, Debug)]
pub struct LookupLargeTableTrace<const P: u64> {
    pub num_input_vars: usize,
    pub input: Vec<Fp<P>>,
    pub range: usize,
    pub num_range_bits: usize,
}

/// The values of a large range check as a multilinear extension.
#[derive(Clone, Debug)]
pub struct LookupLargeTableTraceMLE<const P: u64> {
    pub num_input_vars: usize,
    pub input: Rc<DenseMultilinearExtension<P>>,
    pub range: usize,
    pub range_bits: usize,
}

/// The limbs of the values, one column per limb.
#[derive(Clone, Debug)]
pub struct LookupLargeTableWitness<const P: u64> {
    pub input_bits: Vec<Rc<DenseMultilinearExtension<P>>>,
    pub basis_bits: usize,
    pub decompose_len: usize,
}

impl<const P: u64> LookupLargeTableTraceMLE<P> {
    /// Splits every value into `ceil(range_bits / basis_bits) + 1` limbs of `basis_bits`
    /// bits, least significant first.
    pub fn compute_lookup_large_table_witness(&self, basis_bits: usize) -> (r: LookupLargeTableWitness<P>)
        requires
            0 < basis_bits < 64,
            self.input.wf(),
            self.range_bits + basis_bits <= usize::MAX,
        ensures
            r.basis_bits == basis_bits,
            r.decompose_len == (self.range_bits + basis_bits - 1) / (basis_bits as int) + 1,
            r.input_bits@.len() == r.decompose_len,
            forall|j: int|
                0 <= j < r.decompose_len ==> {
                    &&& (#[trigger] r.input_bits@[j]).wf()
                    &&& r.input_bits@[j].num_vars == self.input.num_vars
                },
            forall|j: int, i: int|
                0 <= j < r.decompose_len && 0 <= i < self.input.evaluations@.len() ==> (
                #[trigger] r.input_bits@[j].evaluations@[i])@ == digit(
                    self.input.evaluations@[i]@,
                    basis_bits as nat,
                    j as nat,
                ),
    {
        let decompose_len = (self.range_bits + basis_bits - 1) / basis_bits + 1;
        let bits = basis_bits as u32;
        let m = mask(bits);
        let num_vars = self.input.num_vars;
        let ghost xs = self.input.evaluations@;
        let n = self.input.evaluations.len();
        let mut rest = self.input.evaluations.clone();
        proof {
            assert(rest@ == xs);
            assert forall|i: int| 0 <= i < n implies (#[trigger] rest@[i])@ == xs[i]@ / pow2(
                bits as nat * 0nat,
            ) by {
                lemma_shift_zero(xs[i]@, bits as nat);
            }
        }
        let mut input_bits: Vec<Rc<DenseMultilinearExtension<P>>> = Vec::with_capacity(decompose_len);
        let mut j: usize = 0;
        while j < decompose_len
            invariant
                0 < bits < 64,
                bits == basis_bits,
                m == low_bits_mask(bits as nat),
                xs == self.input.evaluations@,
                n == xs.len(),
                n == pow2(num_vars as nat),
                j <= decompose_len,
                rest@.len() == n,
                forall|i: int| 0 <= i < n ==> (#[trigger] rest@[i])@ == xs[i]@ / pow2(bits as nat * j as nat),
                input_bits@.len() == j,
                forall|t: int|
                    0 <= t < j ==> {
                        &&& (#[trigger] input_bits@[t]).wf()
                        &&& input_bits@[t].num_vars == num_vars
                    },
                forall|t: int, i: int|
                    0 <= t < j && 0 <= i < n ==> (#[trigger] input_bits@[t].evaluations@[i])@ == digit(
                        xs[i]@,
                        bits as nat,
                        t as nat,
                    ),
            decreases decompose_len - j,
        {
            let ghost before = rest@;
            let col = decompose_all(&mut rest, m, bits);
            proof {
                assert forall|i: int| #![trigger col@[i]] #![trigger rest@[i]] 0 <= i < n implies {
                    &&& col@[i]@ == digit(xs[i]@, bits as nat, j as nat)
                    &&& rest@[i]@ == xs[i]@ / pow2(bits as nat * (j + 1) as nat)
                } by {
                    lemma_shift_step(xs[i]@, bits as nat, j as nat);
                    assert(before[i]@ == xs[i]@ / pow2(bits as nat * j as nat));
                    assert(col@[i]@ == before[i]@ % pow2(bits as nat));
                    assert(rest@[i]@ == before[i]@ / pow2(bits as nat));
                }
            }
            input_bits.push(Rc::new(DenseMultilinearExtension::from_evaluations_vec(num_vars, col)));
            j = j + 1;
        }
        LookupLargeTableWitness { input_bits, basis_bits, decompose_len }
    }

    /// The range check of the limbs against `[0, 2^basis_bits)`.
    pub fn extract_lookup_trace(&self, witness: &LookupLargeTableWitness<P>) -> (r: LookupTraceMLE<P>)
        requires
            witness.basis_bits < usize::BITS,
        ensures
            r.num_vars == self.num_input_vars,
            r.range == pow2(witness.basis_bits as nat),
            r.vec_input@ == witness.input_bits@,
    {
        proof {
            lemma_usize_pow2_no_overflow(witness.basis_bits as nat);
        }
        let range = crate::basis::pow2_usize(witness.basis_bits);
        let mut vec_input: Vec<Rc<DenseMultilinearExtension<P>>> = Vec::with_capacity(witness.input_bits.len());
        let mut j: usize = 0;
        while j < witness.input_bits.len()
            invariant
                j <= witness.input_bits@.len(),
                vec_input@ == witness.input_bits@.take(j as int),
            decreases witness.input_bits@.len() - j,
        {
            vec_input.push(Rc::clone(&witness.input_bits[j]));
            j = j + 1;
            proof {
                assert(vec_input@ =~= witness.input_bits@.take(j as int));
            }
        }
        proof {
            assert(witness.input_bits@.take(witness.input_bits@.len() as int) =~= witness.input_bits@);
        }
        LookupTraceMLE { num_vars: self.num_input_vars, range, vec_input }
    }
}

} // verus!
