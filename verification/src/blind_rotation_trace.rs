//! The trace of a blind rotation: the accumulator trace and the external products of its
//! rounds, a sum of Hadamard products of decomposed bits and key ciphertexts.
use crate::acc_trace::{rlwe_evaluates_to, AccTrace, AccTraceEval, AccTraceMLE};
use crate::basic_ops::hadamard_trace::{
    all_eval_ntt_values, all_eval_poly_values, HadamardTrace, SumHadamardTrace, SumHadamardTraceEval,
    SumHadamardTraceMLE,
};
use crate::basic_ops::rlwe_trace::{extend_values, RLWEEval};
use crate::field::Fp;
use crate::packing::PackableTrace;
use vstd::prelude::*;

verus! {

/// The sizes of a blind rotation.
#[derive(Clone, Copy, Debug)]
pub struct BlindRotationParams {
    /// `N = 2^log_coeff_count` coefficients per polynomial
    pub log_coeff_count: usize,
    /// `M = 2^log_num_round` rounds
    pub log_num_round: usize,
    /// the number of limbs of a decomposed gadget
    pub decomposed_len: usize,
    /// the number of all decomposed gadgets
    pub num_bit_poly: usize,
    /// the number of key polynomials in NTT form
    pub num_key_ntt: usize,
    /// the basis of the decomposition
    pub basis: usize,
}

impl BlindRotationParams {
    /// Two decomposed polynomials and four key polynomials per limb.
    pub fn new(log_coeff_count: usize, log_num_round: usize, decomposed_len: usize, basis: usize) -> (r: Self)
        requires
            decomposed_len * 4 <= usize::MAX,
        ensures
            r.log_coeff_count == log_coeff_count,
            r.log_num_round == log_num_round,
            r.decomposed_len == decomposed_len,
            r.num_bit_poly == decomposed_len * 2,
            r.num_key_ntt == decomposed_len * 4,
            r.basis == basis,
    {
        BlindRotationParams {
            log_coeff_count,
            log_num_round,
            decomposed_len,
            num_bit_poly: decomposed_len * 2,
            num_key_ntt: decomposed_len * 4,
            basis,
        }
    }
}

/// The accumulator and the external products of a blind rotation.
#[derive(Debug)]
pub struct BlindRotationTrace<const P: u64> {
    pub log_coeff_count: usize,
    pub log_num_round: usize,
    pub acc_trace: AccTrace<P>,
    pub hadamard_trace: SumHadamardTrace<P>,
}

/// The columns of a blind rotation trace as multilinear extensions.
#[derive(Debug)]
pub struct BlindRotationTraceMLE<const P: u64> {
    pub log_coeff_count: usize,
    pub log_num_round: usize,
    pub acc_trace: AccTraceMLE<P>,
    pub hadamard_trace: SumHadamardTraceMLE<P>,
}

/// The values of the columns of a blind rotation trace at a point, and the output
/// accumulator `input_acc + sum_prod` they give.
#[derive(Clone, Debug)]
pub struct BlindRotationTraceEval<const P: u64> {
    pub acc_trace: AccTraceEval<P>,
    pub hadamard_trace: SumHadamardTraceEval<P>,
    pub output_acc: RLWEEval<P>,
}

impl<const P: u64> BlindRotationTrace<P> {
    /// Finalizes the accumulator and the external products for `num_round` rounds.
    pub fn finalize(&mut self, num_round: usize)
        requires
            P > 1,
            old(self).acc_trace.can_finalize(num_round as nat),
            forall|i: int|
                0 <= i < old(self).hadamard_trace.vec_hadamard@.len() ==> (#[trigger] old(
                    self,
                ).hadamard_trace.vec_hadamard@[i]).can_finalize(num_round as nat),
            old(self).hadamard_trace.sum_prod.can_finalize(num_round as nat),
        ensures
            final(self).log_coeff_count == old(self).log_coeff_count,
            final(self).log_num_round == old(self).log_num_round,
            final(self).hadamard_trace.vec_hadamard@.len() == old(self).hadamard_trace.vec_hadamard@.len(),
            forall|i: int|
                0 <= i < old(self).hadamard_trace.vec_hadamard@.len() ==> HadamardTrace::finalized(
                    #[trigger] old(self).hadamard_trace.vec_hadamard@[i],
                    final(self).hadamard_trace.vec_hadamard@[i],
                    num_round as nat,
                ),
            crate::basic_ops::hadamard_trace::rlwe_finalized(
                old(self).hadamard_trace.sum_prod,
                final(self).hadamard_trace.sum_prod,
                num_round as nat,
            ),
            final(self).hadamard_trace.log_coeff_count == old(self).hadamard_trace.log_coeff_count,
            final(self).hadamard_trace.log_num_poly == old(self).hadamard_trace.log_num_poly,
            final(self).hadamard_trace.num_hadamard == old(self).hadamard_trace.num_hadamard,
            final(self).acc_trace.permutation_info.log_num == old(self).acc_trace.log_num_round,
            forall|x: int|
                0 <= x < vstd::arithmetic::power2::pow2(old(self).acc_trace.log_num_round as nat)
                    ==> #[trigger] final(self).acc_trace.permutation_info.permutation_table@[x]
                    == crate::basic_ops::row_perm_trace::rotation_left(num_round as nat, 1, x as nat),
    {
        self.acc_trace.finalize(num_round);
        self.hadamard_trace.finalize(num_round);
    }
}

impl<const P: u64> BlindRotationTraceMLE<P> {
    /// Wraps the columns of a blind rotation trace into multilinear extensions; the sizes
    /// are those of the accumulator.
    pub fn from_trace(trace: BlindRotationTrace<P>) -> (r: Self)
        requires
            trace.acc_trace.complete(),
            forall|i: int|
                0 <= i < trace.hadamard_trace.vec_hadamard@.len() ==> (
                #[trigger] trace.hadamard_trace.vec_hadamard@[i]).complete(),
            trace.hadamard_trace.sum_prod.complete(),
        ensures
            r.log_coeff_count == trace.acc_trace.log_coeff_count,
            r.log_num_round == trace.acc_trace.log_num_round,
            r.acc_trace.wf(),
            r.acc_trace.represents(trace.acc_trace),
            r.hadamard_trace.log_coeff_count == trace.hadamard_trace.log_coeff_count,
            r.hadamard_trace.log_num_poly == trace.hadamard_trace.log_num_poly,
            r.hadamard_trace.num_hadamard == trace.hadamard_trace.num_hadamard,
            r.hadamard_trace.vec_hadamard@.len() == trace.hadamard_trace.vec_hadamard@.len(),
            forall|i: int|
                0 <= i < trace.hadamard_trace.vec_hadamard@.len() ==> {
                    &&& (#[trigger] r.hadamard_trace.vec_hadamard@[i]).wf()
                    &&& r.hadamard_trace.vec_hadamard@[i].represents(trace.hadamard_trace.vec_hadamard@[i])
                },
            r.hadamard_trace.sum_prod.wf(),
            r.hadamard_trace.sum_prod.represents(trace.hadamard_trace.sum_prod),
    {
        let BlindRotationTrace { log_coeff_count: _, log_num_round: _, acc_trace, hadamard_trace } = trace;
        let log_coeff_count = acc_trace.log_coeff_count;
        let log_num_round = acc_trace.log_num_round;
        BlindRotationTraceMLE {
            log_coeff_count,
            log_num_round,
            acc_trace: AccTraceMLE::from_trace(acc_trace),
            hadamard_trace: SumHadamardTraceMLE::from_trace(hadamard_trace),
        }
    }

    /// The values of the accumulator and of the external products at `point`, and the
    /// output accumulator `input_acc + sum_prod`.
    pub fn evaluate(&self, point: &[Fp<P>]) -> (r: BlindRotationTraceEval<P>)
        requires
            P > 1,
            self.acc_trace.fits(point@),
            forall|i: int|
                0 <= i < self.hadamard_trace.vec_hadamard@.len() ==> (
                #[trigger] self.hadamard_trace.vec_hadamard@[i]).fits(point@),
            self.hadamard_trace.sum_prod.wf(),
            self.hadamard_trace.sum_prod.log_coeff_count + self.hadamard_trace.sum_prod.log_num_poly
                == point@.len(),
        ensures
            rlwe_evaluates_to(self.acc_trace.input_acc, point@, r.acc_trace.input_acc),
            rlwe_evaluates_to(self.hadamard_trace.sum_prod, point@, r.hadamard_trace.sum_prod),
            r.hadamard_trace.vec_hadamard@.len() == self.hadamard_trace.vec_hadamard@.len(),
            forall|i: int|
                0 <= i < self.hadamard_trace.vec_hadamard@.len() ==> (
                #[trigger] self.hadamard_trace.vec_hadamard@[i]).evaluates_to(point@, r.hadamard_trace.vec_hadamard@[i]),
            rlwe_evaluates_to(self.acc_trace.monomial_times_acc, point@, r.acc_trace.monomial_times_acc),
            r.acc_trace.monomial.poly@ == self.acc_trace.monomial.poly.spec_evaluate(point@),
            r.acc_trace.monomial.ntt@ == self.acc_trace.monomial.ntt.spec_evaluate(point@),
            rlwe_evaluates_to(
                self.acc_trace.initial_acc,
                point@.take(self.acc_trace.log_coeff_count as int),
                r.acc_trace.initial_acc,
            ),
            rlwe_evaluates_to(
                self.acc_trace.final_acc,
                point@.take(self.acc_trace.log_coeff_count as int),
                r.acc_trace.final_acc,
            ),
            r.output_acc.poly.0@ == (r.acc_trace.input_acc.poly.0@ + r.hadamard_trace.sum_prod.poly.0@) % (P as nat),
            r.output_acc.poly.1@ == (r.acc_trace.input_acc.poly.1@ + r.hadamard_trace.sum_prod.poly.1@) % (P as nat),
            r.output_acc.ntt.0@ == (r.acc_trace.input_acc.ntt.0@ + r.hadamard_trace.sum_prod.ntt.0@) % (P as nat),
            r.output_acc.ntt.1@ == (r.acc_trace.input_acc.ntt.1@ + r.hadamard_trace.sum_prod.ntt.1@) % (P as nat),
    {
        let acc_trace = self.acc_trace.evaluate(point);
        let hadamard_trace = self.hadamard_trace.evaluate(point);
        let a = acc_trace.input_acc;
        let s = hadamard_trace.sum_prod;
        let output_acc = RLWEEval {
            poly: (a.poly.0.add(s.poly.0), a.poly.1.add(s.poly.1)),
            ntt: (a.ntt.0.add(s.ntt.0), a.ntt.1.add(s.ntt.1)),
        };
        BlindRotationTraceEval { acc_trace, hadamard_trace, output_acc }
    }
}

impl<const P: u64> PackableTrace<P> for BlindRotationTraceMLE<P> {
    open spec fn packable(&self) -> bool {
        &&& self.log_coeff_count + self.log_num_round <= usize::MAX
        &&& self.hadamard_trace.packable()
        &&& self.acc_trace.packable()
        &&& self.hadamard_trace.spec_num_oracles() + 4 <= usize::MAX
    }

    open spec fn spec_num_vars(&self) -> nat {
        (self.log_coeff_count + self.log_num_round) as nat
    }

    /// The oracles of the external products, then those of the accumulator.
    open spec fn spec_num_oracles(&self) -> nat {
        self.hadamard_trace.spec_num_oracles() + self.acc_trace.spec_num_oracles()
    }

    open spec fn spec_packed(&self) -> Seq<Fp<P>> {
        self.hadamard_trace.spec_packed() + self.acc_trace.spec_packed()
    }

    fn num_vars(&self) -> (r: usize) {
        self.log_coeff_count + self.log_num_round
    }

    fn num_oracles(&self) -> (r: usize) {
        self.hadamard_trace.num_oracles() + self.acc_trace.num_oracles()
    }

    fn pack_to_vec(&self) -> (r: Vec<Fp<P>>) {
        let mut r = self.hadamard_trace.pack_to_vec();
        let tail = self.acc_trace.pack_to_vec();
        extend_values(&mut r, tail.as_slice());
        r
    }
}

impl<const P: u64> PackableTrace<P> for BlindRotationTrace<P> {
    open spec fn packable(&self) -> bool {
        &&& self.log_coeff_count + self.log_num_round <= usize::MAX
        &&& self.hadamard_trace.packable()
        &&& self.acc_trace.packable()
        &&& self.hadamard_trace.spec_num_oracles() + 4 <= usize::MAX
    }

    open spec fn spec_num_vars(&self) -> nat {
        (self.log_coeff_count + self.log_num_round) as nat
    }

    /// The oracles of the external products, then those of the accumulator.
    open spec fn spec_num_oracles(&self) -> nat {
        self.hadamard_trace.spec_num_oracles() + self.acc_trace.spec_num_oracles()
    }

    open spec fn spec_packed(&self) -> Seq<Fp<P>> {
        self.hadamard_trace.spec_packed() + self.acc_trace.spec_packed()
    }

    fn num_vars(&self) -> (r: usize) {
        self.log_coeff_count + self.log_num_round
    }

    fn num_oracles(&self) -> (r: usize) {
        self.hadamard_trace.num_oracles() + self.acc_trace.num_oracles()
    }

    fn pack_to_vec(&self) -> (r: Vec<Fp<P>>) {
        let mut r = self.hadamard_trace.pack_to_vec();
        let tail = self.acc_trace.pack_to_vec();
        extend_values(&mut r, tail.as_slice());
        r
    }
}

impl<const P: u64> BlindRotationTraceEval<P> {
    /// The number of values: those of the external products, then of the accumulator.
    pub fn num_evals(&self) -> (r: usize)
        requires
            self.hadamard_trace.vec_hadamard@.len() > 0,
            3 * self.hadamard_trace.vec_hadamard@.len() + 6 <= usize::MAX,
        ensures
            r == 3 * self.hadamard_trace.vec_hadamard@.len() + 6,
    {
        self.hadamard_trace.num_evals() + self.acc_trace.num_evals()
    }

    /// The NTT-form values of the external products, then of the accumulator.
    pub fn pack_ntt_to_vec(&self) -> (r: Vec<Fp<P>>)
        ensures
            r@ == all_eval_ntt_values(self.hadamard_trace.vec_hadamard@).push(self.hadamard_trace.sum_prod.ntt.0).push(
                self.hadamard_trace.sum_prod.ntt.1,
            ) + seq![
                self.acc_trace.input_acc.ntt.0,
                self.acc_trace.input_acc.ntt.1,
                self.acc_trace.monomial_times_acc.ntt.0,
                self.acc_trace.monomial_times_acc.ntt.1,
            ],
    {
        let mut r = self.hadamard_trace.pack_ntt_to_vec();
        let tail = self.acc_trace.pack_ntt_to_vec();
        extend_values(&mut r, tail.as_slice());
        r
    }

    /// The coefficient-form values of the external products, then of the accumulator.
    pub fn pack_poly_to_vec(&self) -> (r: Vec<Fp<P>>)
        ensures
            r@ == all_eval_poly_values(self.hadamard_trace.vec_hadamard@).push(self.hadamard_trace.sum_prod.poly.0).push(
                self.hadamard_trace.sum_prod.poly.1,
            ) + seq![
                self.acc_trace.input_acc.poly.0,
                self.acc_trace.input_acc.poly.1,
                self.acc_trace.monomial_times_acc.poly.0,
                self.acc_trace.monomial_times_acc.poly.1,
            ],
    {
        let mut r = self.hadamard_trace.pack_poly_to_vec();
        let tail = self.acc_trace.pack_poly_to_vec();
        extend_values(&mut r, tail.as_slice());
        r
    }
}

} // verus!
