//! The trace of the accumulator of a blind rotation.
//!
//! Round `i` takes the accumulator `input_acc[i]`, multiplies it by a monomial and
//! outputs `output_acc[i]`; the first input is the initial accumulator, each later input
//! is the previous output, and the last output is the final accumulator. The permuted
//! accumulator `output_acc`, with its last row corrected by `initial - final`, is then
//! the input accumulator rotated up by one row.
use crate::basic_ops::hadamard_trace::{HadamardTraceEval, HadamardTraceMLE, SumHadamardTraceEval, SumHadamardTraceMLE};
use crate::basic_ops::rlwe_trace::{
    MonomialTrace, MonomialTraceMLE, PolynomialEval, PolynomialTrace, PolynomialTraceMLE, RLWEEval, RLWETrace,
    RLWETraceMLE, extend_values, padding_len, zero_padded,
};
use crate::basic_ops::hadamard_trace::{polynomial_finalized, rlwe_finalized};
use crate::basic_ops::row_perm_trace::{rotation_left, PermutationInfo};
use crate::field::{lemma_fp_view_injective, Fp};
use crate::packing::PackableTrace;
use vstd::arithmetic::div_mod::*;
use vstd::arithmetic::power2::*;
use vstd::prelude::*;

verus! {

/// The accumulators, monomials and products of the rounds of a blind rotation.
#[derive(Debug)]
pub struct AccTrace<const P: u64> {
    pub log_coeff_count: usize,
    pub log_num_round: usize,
    /// the accumulator input into the blind rotation
    pub initial_acc: RLWETrace<P>,
    /// the accumulator output from the blind rotation
    pub final_acc: RLWETrace<P>,
    /// the monomial of every round
    pub monomial: PolynomialTrace<P>,
    pub monomial_representation: MonomialTrace<P>,
    /// the accumulator input into every round
    pub input_acc: RLWETrace<P>,
    /// the accumulator output from every round
    pub output_acc: RLWETrace<P>,
    /// `output_acc` with its last row corrected by `initial_acc - final_acc`
    pub input_acc_permuted: RLWETrace<P>,
    pub permutation_info: PermutationInfo<P>,
    /// `monomial * input_acc` for every round
    pub monomial_times_acc: RLWETrace<P>,
    /// `monomial_times_acc - input_acc` for every round
    pub external_product_input: RLWETrace<P>,
}

/// The columns of an accumulator trace as multilinear extensions.
#[derive(Debug)]
pub struct AccTraceMLE<const P: u64> {
    pub log_coeff_count: usize,
    pub log_num_round: usize,
    pub initial_acc: RLWETraceMLE<P>,
    pub final_acc: RLWETraceMLE<P>,
    pub input_acc: RLWETraceMLE<P>,
    pub output_acc: RLWETraceMLE<P>,
    pub input_acc_permuted: RLWETraceMLE<P>,
    pub permutation_info: PermutationInfo<P>,
    pub monomial: PolynomialTraceMLE<P>,
    pub monomial_representation: MonomialTraceMLE<P>,
    pub monomial_times_acc: RLWETraceMLE<P>,
    pub external_product_input: RLWETraceMLE<P>,
}

/// The values of the columns of an accumulator trace at a point.
#[derive(Clone, Copy, Debug)]
pub struct AccTraceEval<const P: u64> {
    pub log_coeff_count: usize,
    pub log_num_round: usize,
    pub initial_acc: RLWEEval<P>,
    pub final_acc: RLWEEval<P>,
    pub input_acc: RLWEEval<P>,
    pub monomial: PolynomialEval<P>,
    pub monomial_times_acc: RLWEEval<P>,
    pub external_product_input: RLWEEval<P>,
}

/// Entry `c` of row `i` of `s`, in rows of `size` entries.
pub open spec fn at_row<const P: u64>(s: Seq<Fp<P>>, size: int, i: int, c: int) -> Fp<P> {
    s[i * size + c]
}

/// Entry `x` of `acc` after the row at `start` is corrected by `initial - fin`, as far as
/// the three rows reach.
pub open spec fn adjusted_value<const P: u64>(
    acc: Seq<Fp<P>>,
    initial: Seq<Fp<P>>,
    fin: Seq<Fp<P>>,
    start: int,
    size: int,
    x: int,
) -> nat {
    if start <= x < start + size && x - start < initial.len() && x - start < fin.len() {
        ((acc[x]@ + ((initial[x - start]@ - fin[x - start]@) % (P as int))) % (P as int)) as nat
    } else {
        acc[x]@
    }
}

/// `out` is `acc` with the row at `start` corrected by `initial - fin`, then padded with
/// `extra` zeros.
pub open spec fn adjusted_then_padded<const P: u64>(
    acc: Seq<Fp<P>>,
    initial: Seq<Fp<P>>,
    fin: Seq<Fp<P>>,
    start: int,
    size: int,
    extra: nat,
    out: Seq<Fp<P>>,
) -> bool {
    &&& out.len() == acc.len() + extra
    &&& forall|x: int| 0 <= x < acc.len() ==> (#[trigger] out[x])@ == adjusted_value(acc, initial, fin, start, size, x)
    &&& forall|x: int| acc.len() <= x < out.len() ==> (#[trigger] out[x])@ == 0
}

/// Adds `initial - fin` to the row of `acc` at `start`, as far as the three rows reach.
fn adjust_last_row<const P: u64>(
    acc: &mut Vec<Fp<P>>,
    initial: &Vec<Fp<P>>,
    fin: &Vec<Fp<P>>,
    start: usize,
    size: usize,
)
    requires
        start + size <= old(acc)@.len(),
    ensures
        final(acc)@.len() == old(acc)@.len(),
        forall|x: int|
            0 <= x < old(acc)@.len() ==> (#[trigger] final(acc)@[x])@ == adjusted_value(
                old(acc)@,
                initial@,
                fin@,
                start as int,
                size as int,
                x,
            ),
{
    let ghost before = acc@;
    let n = acc.len();
    let mut i: usize = 0;
    while i < size && i < initial.len() && i < fin.len()
        invariant
            n == before.len(),
            start + size <= before.len(),
            acc@.len() == before.len(),
            i <= size,
            forall|x: int|
                0 <= x < before.len() ==> (#[trigger] acc@[x])@ == if start <= x < start + i {
                    adjusted_value(before, initial@, fin@, start as int, size as int, x)
                } else {
                    before[x]@
                },
        decreases size - i,
    {
        let v = acc[start + i].add(initial[i].sub(fin[i]));
        acc.set(start + i, v);
        i = i + 1;
    }
}

impl<const P: u64> AccTrace<P> {
    /// An empty trace of `2^log_num_round` rounds on polynomials of `2^log_coeff_count`
    /// coefficients.
    pub fn new(log_coeff_count: usize, log_num_round: usize) -> (r: Self)
        ensures
            r.log_coeff_count == log_coeff_count,
            r.log_num_round == log_num_round,
            r.initial_acc.log_coeff_count == log_coeff_count,
            r.initial_acc.log_num_poly == 0,
            r.final_acc.log_coeff_count == log_coeff_count,
            r.final_acc.log_num_poly == 0,
            r.monomial.log_coeff_count == log_coeff_count,
            r.monomial.log_num_poly == log_num_round,
            r.monomial_representation.log_num_poly == log_num_round,
            r.input_acc.log_coeff_count == log_coeff_count,
            r.input_acc.log_num_poly == log_num_round,
            r.output_acc.log_coeff_count == log_coeff_count,
            r.output_acc.log_num_poly == log_num_round,
            r.input_acc_permuted.log_coeff_count == log_coeff_count,
            r.input_acc_permuted.log_num_poly == log_num_round,
            r.monomial_times_acc.log_coeff_count == log_coeff_count,
            r.monomial_times_acc.log_num_poly == log_num_round,
            r.external_product_input.log_coeff_count == log_coeff_count,
            r.external_product_input.log_num_poly == log_num_round,
            r.initial_acc.poly.0@.len() == 0 && r.initial_acc.poly.1@.len() == 0,
            r.initial_acc.ntt.0@.len() == 0 && r.initial_acc.ntt.1@.len() == 0,
            r.final_acc.poly.0@.len() == 0 && r.final_acc.poly.1@.len() == 0,
            r.final_acc.ntt.0@.len() == 0 && r.final_acc.ntt.1@.len() == 0,
            r.monomial.poly@.len() == 0 && r.monomial.ntt@.len() == 0,
            r.monomial_representation.degree@.len() == 0,
            r.monomial_representation.coefficient@.len() == 0,
            r.input_acc.poly.0@.len() == 0 && r.input_acc.poly.1@.len() == 0,
            r.input_acc.ntt.0@.len() == 0 && r.input_acc.ntt.1@.len() == 0,
            r.output_acc.poly.0@.len() == 0 && r.output_acc.poly.1@.len() == 0,
            r.output_acc.ntt.0@.len() == 0 && r.output_acc.ntt.1@.len() == 0,
            r.input_acc_permuted.poly.0@.len() == 0 && r.input_acc_permuted.poly.1@.len() == 0,
            r.input_acc_permuted.ntt.0@.len() == 0 && r.input_acc_permuted.ntt.1@.len() == 0,
            r.monomial_times_acc.poly.0@.len() == 0 && r.monomial_times_acc.poly.1@.len() == 0,
            r.monomial_times_acc.ntt.0@.len() == 0 && r.monomial_times_acc.ntt.1@.len() == 0,
            r.external_product_input.poly.0@.len() == 0 && r.external_product_input.poly.1@.len() == 0,
            r.external_product_input.ntt.0@.len() == 0 && r.external_product_input.ntt.1@.len() == 0,
            r.permutation_info.log_num == 0,
            r.permutation_info.permutation_table@.len() == 0,
            r.permutation_info.signed is None,
    {
        AccTrace {
            log_coeff_count,
            log_num_round,
            initial_acc: RLWETrace::new(log_coeff_count, 0),
            final_acc: RLWETrace::new(log_coeff_count, 0),
            monomial: PolynomialTrace::new(log_coeff_count, log_num_round),
            monomial_representation: MonomialTrace::new(log_num_round),
            input_acc: RLWETrace::new(log_coeff_count, log_num_round),
            output_acc: RLWETrace::new(log_coeff_count, log_num_round),
            input_acc_permuted: RLWETrace::new(log_coeff_count, log_num_round),
            permutation_info: PermutationInfo { log_num: 0, permutation_table: Vec::new(), signed: None },
            monomial_times_acc: RLWETrace::new(log_coeff_count, log_num_round),
            external_product_input: RLWETrace::new(log_coeff_count, log_num_round),
        }
    }

    /// The first round: the accumulator is both the initial accumulator and the input of
    /// the round.
    pub fn append_acc_initial(&mut self, acc_poly: (&[Fp<P>], &[Fp<P>]), acc_ntt: (&[Fp<P>], &[Fp<P>]))
        ensures
            final(self).initial_acc.poly.0@ == old(self).initial_acc.poly.0@ + acc_poly.0@,
            final(self).initial_acc.poly.1@ == old(self).initial_acc.poly.1@ + acc_poly.1@,
            final(self).initial_acc.ntt.0@ == old(self).initial_acc.ntt.0@ + acc_ntt.0@,
            final(self).initial_acc.ntt.1@ == old(self).initial_acc.ntt.1@ + acc_ntt.1@,
            final(self).initial_acc.log_coeff_count == old(self).initial_acc.log_coeff_count,
            final(self).initial_acc.log_num_poly == old(self).initial_acc.log_num_poly,
            final(self).input_acc.poly.0@ == old(self).input_acc.poly.0@ + acc_poly.0@,
            final(self).input_acc.poly.1@ == old(self).input_acc.poly.1@ + acc_poly.1@,
            final(self).input_acc.ntt.0@ == old(self).input_acc.ntt.0@ + acc_ntt.0@,
            final(self).input_acc.ntt.1@ == old(self).input_acc.ntt.1@ + acc_ntt.1@,
            final(self).input_acc.log_coeff_count == old(self).input_acc.log_coeff_count,
            final(self).input_acc.log_num_poly == old(self).input_acc.log_num_poly,
            final(self).log_coeff_count == old(self).log_coeff_count,
            final(self).log_num_round == old(self).log_num_round,
            final(self).final_acc == old(self).final_acc,
            final(self).monomial == old(self).monomial,
            final(self).monomial_representation == old(self).monomial_representation,
            final(self).output_acc == old(self).output_acc,
            final(self).input_acc_permuted == old(self).input_acc_permuted,
            final(self).permutation_info == old(self).permutation_info,
            final(self).monomial_times_acc == old(self).monomial_times_acc,
            final(self).external_product_input == old(self).external_product_input,
    {
        self.initial_acc.append(acc_poly, acc_ntt);
        self.input_acc.append(acc_poly, acc_ntt);
    }

    /// The last round: the accumulator is both the output of the round and the final
    /// accumulator.
    pub fn append_acc_output(&mut self, acc_poly: (&[Fp<P>], &[Fp<P>]), acc_ntt: (&[Fp<P>], &[Fp<P>]))
        ensures
            final(self).final_acc.poly.0@ == old(self).final_acc.poly.0@ + acc_poly.0@,
            final(self).final_acc.poly.1@ == old(self).final_acc.poly.1@ + acc_poly.1@,
            final(self).final_acc.ntt.0@ == old(self).final_acc.ntt.0@ + acc_ntt.0@,
            final(self).final_acc.ntt.1@ == old(self).final_acc.ntt.1@ + acc_ntt.1@,
            final(self).final_acc.log_coeff_count == old(self).final_acc.log_coeff_count,
            final(self).final_acc.log_num_poly == old(self).final_acc.log_num_poly,
            final(self).output_acc.poly.0@ == old(self).output_acc.poly.0@ + acc_poly.0@,
            final(self).output_acc.poly.1@ == old(self).output_acc.poly.1@ + acc_poly.1@,
            final(self).output_acc.ntt.0@ == old(self).output_acc.ntt.0@ + acc_ntt.0@,
            final(self).output_acc.ntt.1@ == old(self).output_acc.ntt.1@ + acc_ntt.1@,
            final(self).output_acc.log_coeff_count == old(self).output_acc.log_coeff_count,
            final(self).output_acc.log_num_poly == old(self).output_acc.log_num_poly,
            final(self).log_coeff_count == old(self).log_coeff_count,
            final(self).log_num_round == old(self).log_num_round,
            final(self).initial_acc == old(self).initial_acc,
            final(self).monomial == old(self).monomial,
            final(self).monomial_representation == old(self).monomial_representation,
            final(self).input_acc == old(self).input_acc,
            final(self).input_acc_permuted == old(self).input_acc_permuted,
            final(self).permutation_info == old(self).permutation_info,
            final(self).monomial_times_acc == old(self).monomial_times_acc,
            final(self).external_product_input == old(self).external_product_input,
    {
        self.final_acc.append(acc_poly, acc_ntt);
        self.output_acc.append(acc_poly, acc_ntt);
    }

    /// An intermediate round: the accumulator is the output of this round and the input
    /// of the next.
    pub fn append_acc_round(&mut self, acc_poly: (&[Fp<P>], &[Fp<P>]), acc_ntt: (&[Fp<P>], &[Fp<P>]))
        ensures
            final(self).input_acc.poly.0@ == old(self).input_acc.poly.0@ + acc_poly.0@,
            final(self).input_acc.poly.1@ == old(self).input_acc.poly.1@ + acc_poly.1@,
            final(self).input_acc.ntt.0@ == old(self).input_acc.ntt.0@ + acc_ntt.0@,
            final(self).input_acc.ntt.1@ == old(self).input_acc.ntt.1@ + acc_ntt.1@,
            final(self).input_acc.log_coeff_count == old(self).input_acc.log_coeff_count,
            final(self).input_acc.log_num_poly == old(self).input_acc.log_num_poly,
            final(self).output_acc.poly.0@ == old(self).output_acc.poly.0@ + acc_poly.0@,
            final(self).output_acc.poly.1@ == old(self).output_acc.poly.1@ + acc_poly.1@,
            final(self).output_acc.ntt.0@ == old(self).output_acc.ntt.0@ + acc_ntt.0@,
            final(self).output_acc.ntt.1@ == old(self).output_acc.ntt.1@ + acc_ntt.1@,
            final(self).output_acc.log_coeff_count == old(self).output_acc.log_coeff_count,
            final(self).output_acc.log_num_poly == old(self).output_acc.log_num_poly,
            final(self).log_coeff_count == old(self).log_coeff_count,
            final(self).log_num_round == old(self).log_num_round,
            final(self).initial_acc == old(self).initial_acc,
            final(self).final_acc == old(self).final_acc,
            final(self).monomial == old(self).monomial,
            final(self).monomial_representation == old(self).monomial_representation,
            final(self).input_acc_permuted == old(self).input_acc_permuted,
            final(self).permutation_info == old(self).permutation_info,
            final(self).monomial_times_acc == old(self).monomial_times_acc,
            final(self).external_product_input == old(self).external_product_input,
    {
        self.input_acc.append(acc_poly, acc_ntt);
        self.output_acc.append(acc_poly, acc_ntt);
    }

    /// The monomial `coefficient * X^degree` of a round, as a polynomial in both forms
    /// and by its representation.
    pub fn append_monomial(
        &mut self,
        monomial: &[Fp<P>],
        monomial_ntt: &[Fp<P>],
        degree: Fp<P>,
        coefficient: Fp<P>,
    )
        ensures
            final(self).monomial.poly@ == old(self).monomial.poly@ + monomial@,
            final(self).monomial.ntt@ == old(self).monomial.ntt@ + monomial_ntt@,
            final(self).monomial.log_coeff_count == old(self).monomial.log_coeff_count,
            final(self).monomial.log_num_poly == old(self).monomial.log_num_poly,
            final(self).monomial_representation.degree@ == old(self).monomial_representation.degree@.push(degree),
            final(self).monomial_representation.coefficient@
                == old(self).monomial_representation.coefficient@.push(coefficient),
            final(self).monomial_representation.log_num_poly == old(self).monomial_representation.log_num_poly,
            final(self).log_coeff_count == old(self).log_coeff_count,
            final(self).log_num_round == old(self).log_num_round,
            final(self).initial_acc == old(self).initial_acc,
            final(self).final_acc == old(self).final_acc,
            final(self).input_acc == old(self).input_acc,
            final(self).output_acc == old(self).output_acc,
            final(self).input_acc_permuted == old(self).input_acc_permuted,
            final(self).permutation_info == old(self).permutation_info,
            final(self).monomial_times_acc == old(self).monomial_times_acc,
            final(self).external_product_input == old(self).external_product_input,
    {
        self.monomial.append_poly(monomial, monomial_ntt);
        self.monomial_representation.append(degree, coefficient);
    }

    /// The product `monomial * input_acc` of a round.
    pub fn append_product(&mut self, product: (&[Fp<P>], &[Fp<P>]), product_ntt: (&[Fp<P>], &[Fp<P>]))
        ensures
            final(self).monomial_times_acc.poly.0@ == old(self).monomial_times_acc.poly.0@ + product.0@,
            final(self).monomial_times_acc.poly.1@ == old(self).monomial_times_acc.poly.1@ + product.1@,
            final(self).monomial_times_acc.ntt.0@ == old(self).monomial_times_acc.ntt.0@ + product_ntt.0@,
            final(self).monomial_times_acc.ntt.1@ == old(self).monomial_times_acc.ntt.1@ + product_ntt.1@,
            final(self).monomial_times_acc.log_coeff_count == old(self).monomial_times_acc.log_coeff_count,
            final(self).monomial_times_acc.log_num_poly == old(self).monomial_times_acc.log_num_poly,
            final(self).log_coeff_count == old(self).log_coeff_count,
            final(self).log_num_round == old(self).log_num_round,
            final(self).initial_acc == old(self).initial_acc,
            final(self).final_acc == old(self).final_acc,
            final(self).monomial == old(self).monomial,
            final(self).monomial_representation == old(self).monomial_representation,
            final(self).input_acc == old(self).input_acc,
            final(self).output_acc == old(self).output_acc,
            final(self).input_acc_permuted == old(self).input_acc_permuted,
            final(self).permutation_info == old(self).permutation_info,
            final(self).external_product_input == old(self).external_product_input,
    {
        self.monomial_times_acc.append(product, product_ntt);
    }

    /// The input `monomial_times_acc - input_acc` of the external product of a round.
    pub fn append_external_product_input(
        &mut self,
        ext_prod_input: (&[Fp<P>], &[Fp<P>]),
        ext_prod_input_ntt: (&[Fp<P>], &[Fp<P>]),
    )
        ensures
            final(self).external_product_input.poly.0@ == old(self).external_product_input.poly.0@
                + ext_prod_input.0@,
            final(self).external_product_input.poly.1@ == old(self).external_product_input.poly.1@
                + ext_prod_input.1@,
            final(self).external_product_input.ntt.0@ == old(self).external_product_input.ntt.0@
                + ext_prod_input_ntt.0@,
            final(self).external_product_input.ntt.1@ == old(self).external_product_input.ntt.1@
                + ext_prod_input_ntt.1@,
            final(self).external_product_input.log_coeff_count
                == old(self).external_product_input.log_coeff_count,
            final(self).external_product_input.log_num_poly == old(self).external_product_input.log_num_poly,
            final(self).log_coeff_count == old(self).log_coeff_count,
            final(self).log_num_round == old(self).log_num_round,
            final(self).initial_acc == old(self).initial_acc,
            final(self).final_acc == old(self).final_acc,
            final(self).monomial == old(self).monomial,
            final(self).monomial_representation == old(self).monomial_representation,
            final(self).input_acc == old(self).input_acc,
            final(self).output_acc == old(self).output_acc,
            final(self).input_acc_permuted == old(self).input_acc_permuted,
            final(self).permutation_info == old(self).permutation_info,
            final(self).monomial_times_acc == old(self).monomial_times_acc,
    {
        self.external_product_input.append(ext_prod_input, ext_prod_input_ntt);
    }
}


impl<const P: u64> AccTrace<P> {
    /// `finalize` may be called for `num_round` rounds: at least one round, every column
    /// can be padded, and the output accumulator holds the rounds.
    pub open spec fn can_finalize(&self, num_round: nat) -> bool {
        &&& num_round >= 1
        &&& self.log_coeff_count < usize::BITS
        &&& self.log_num_round < usize::BITS
        &&& num_round <= pow2(self.log_num_round as nat)
        &&& num_round * pow2(self.log_coeff_count as nat) <= self.output_acc.poly.0@.len()
        &&& num_round * pow2(self.log_coeff_count as nat) <= self.output_acc.poly.1@.len()
        &&& self.initial_acc.can_finalize(1)
        &&& self.final_acc.can_finalize(1)
        &&& self.monomial.can_finalize(num_round)
        &&& self.monomial_representation.log_num_poly < usize::BITS
        &&& num_round <= pow2(self.monomial_representation.log_num_poly as nat)
        &&& self.input_acc.can_finalize(num_round)
        &&& self.output_acc.can_finalize(num_round)
        &&& self.monomial_times_acc.can_finalize(num_round)
        &&& self.external_product_input.can_finalize(num_round)
    }

    /// Builds the permuted accumulator, pads every column for `num_round` rounds and sets
    /// the permutation to the rotation of the rounds up by one.
    pub fn finalize(&mut self, num_round: usize)
        requires
            P > 1,
            old(self).can_finalize(num_round as nat),
        ensures
            final(self).log_coeff_count == old(self).log_coeff_count,
            final(self).log_num_round == old(self).log_num_round,
            rlwe_finalized(old(self).initial_acc, final(self).initial_acc, 1),
            rlwe_finalized(old(self).final_acc, final(self).final_acc, 1),
            polynomial_finalized(old(self).monomial, final(self).monomial, num_round as nat),
            final(self).monomial_representation.log_num_poly == old(self).monomial_representation.log_num_poly,
            zero_padded(
                old(self).monomial_representation.degree@,
                final(self).monomial_representation.degree@,
                padding_len(0, old(self).monomial_representation.log_num_poly as nat, num_round as nat),
            ),
            zero_padded(
                old(self).monomial_representation.coefficient@,
                final(self).monomial_representation.coefficient@,
                padding_len(0, old(self).monomial_representation.log_num_poly as nat, num_round as nat),
            ),
            rlwe_finalized(old(self).input_acc, final(self).input_acc, num_round as nat),
            rlwe_finalized(old(self).output_acc, final(self).output_acc, num_round as nat),
            rlwe_finalized(old(self).monomial_times_acc, final(self).monomial_times_acc, num_round as nat),
            rlwe_finalized(old(self).external_product_input, final(self).external_product_input, num_round as nat),
            ({
                let size = pow2(old(self).log_coeff_count as nat) as int;
                let start = (num_round - 1) * size;
                let out = old(self).output_acc;
                let permuted = final(self).input_acc_permuted;
                let extra = padding_len(out.log_coeff_count as nat, out.log_num_poly as nat, num_round as nat);
                &&& permuted.log_coeff_count == out.log_coeff_count
                &&& permuted.log_num_poly == out.log_num_poly
                &&& adjusted_then_padded(
                    out.poly.0@,
                    old(self).initial_acc.poly.0@,
                    old(self).final_acc.poly.0@,
                    start,
                    size,
                    extra,
                    permuted.poly.0@,
                )
                &&& adjusted_then_padded(
                    out.poly.1@,
                    old(self).initial_acc.poly.1@,
                    old(self).final_acc.poly.1@,
                    start,
                    size,
                    extra,
                    permuted.poly.1@,
                )
                &&& zero_padded(out.ntt.0@, permuted.ntt.0@, extra)
                &&& zero_padded(out.ntt.1@, permuted.ntt.1@, extra)
            }),
            final(self).permutation_info.log_num == old(self).log_num_round,
            final(self).permutation_info.signed is None,
            final(self).permutation_info.permutation_table@.len() == pow2(old(self).log_num_round as nat),
            forall|x: int|
                0 <= x < pow2(old(self).log_num_round as nat) ==> #[trigger] final(self).permutation_info.permutation_table@[x]
                    == rotation_left(num_round as nat, 1, x as nat),
    {
        let one_poly_size = crate::basis::pow2_usize(self.log_coeff_count);
        proof {
            vstd::arithmetic::mul::lemma_mul_is_commutative(num_round as int, one_poly_size as int);
            vstd::arithmetic::mul::lemma_mul_inequality(1, num_round as int, one_poly_size as int);
        }
        let n0 = self.output_acc.poly.0.len();
        let poly_size = one_poly_size * num_round;
        let start = poly_size - one_poly_size;
        proof {
            assert(start == (num_round - 1) * one_poly_size) by (nonlinear_arith)
                requires
                    start == poly_size - one_poly_size,
                    poly_size == one_poly_size * num_round,
            ;
        }
        let mut permuted = self.output_acc.clone();
        adjust_last_row(&mut permuted.poly.0, &self.initial_acc.poly.0, &self.final_acc.poly.0, start, one_poly_size);
        adjust_last_row(&mut permuted.poly.1, &self.initial_acc.poly.1, &self.final_acc.poly.1, start, one_poly_size);
        let ghost mid = permuted;
        self.input_acc_permuted = permuted;
        proof {
            lemma_pow2_pos(self.initial_acc.log_num_poly as nat);
            lemma_pow2_pos(self.final_acc.log_num_poly as nat);
        }
        self.initial_acc.finalize(1);
        self.final_acc.finalize(1);
        self.monomial.finalize(num_round);
        self.input_acc.finalize(num_round);
        self.output_acc.finalize(num_round);
        self.input_acc_permuted.finalize(num_round);
        self.monomial_times_acc.finalize(num_round);
        self.external_product_input.finalize(num_round);
        self.monomial_representation.finalize(num_round);
        self.permutation_info = PermutationInfo::new_rotation_left(self.log_num_round, num_round, 1);
        proof {
            let permuted = self.input_acc_permuted;
            assert forall|x: int| 0 <= x < mid.poly.0@.len() implies (#[trigger] permuted.poly.0@[x])@
                == mid.poly.0@[x]@ by {
                assert(permuted.poly.0@.subrange(0, mid.poly.0@.len() as int)[x] == permuted.poly.0@[x]);
            }
            assert forall|x: int| 0 <= x < mid.poly.1@.len() implies (#[trigger] permuted.poly.1@[x])@
                == mid.poly.1@[x]@ by {
                assert(permuted.poly.1@.subrange(0, mid.poly.1@.len() as int)[x] == permuted.poly.1@[x]);
            }
        }
    }
}


/// When the rounds chain (the first input is the initial accumulator, every later input
/// is the previous output, the last output is the final accumulator), the accumulator
/// that `finalize` builds from the output, with its last row corrected by
/// `initial - final`, is the input accumulator with its rows rotated up by one: row `i`
/// is input row `rotation_left(num_round, 1, i)`, the permutation `finalize` sets.
pub proof fn lemma_permuted_acc_is_rotated_input<const P: u64>(
    input: Seq<Fp<P>>,
    output: Seq<Fp<P>>,
    initial: Seq<Fp<P>>,
    fin: Seq<Fp<P>>,
    permuted: Seq<Fp<P>>,
    size: int,
    num_round: int,
    extra: nat,
)
    requires
        P > 1,
        size > 0,
        num_round >= 1,
        input.len() >= num_round * size,
        output.len() >= num_round * size,
        initial.len() >= size,
        fin.len() >= size,
        forall|c: int| 0 <= c < size ==> (#[trigger] initial[c])@ < P,
        forall|c: int| 0 <= c < size ==> #[trigger] at_row(input, size, 0, c) == initial[c],
        forall|i: int, c: int|
            1 <= i < num_round && 0 <= c < size ==> #[trigger] at_row(input, size, i, c) == at_row(
                output,
                size,
                i - 1,
                c,
            ),
        forall|c: int| 0 <= c < size ==> #[trigger] at_row(output, size, num_round - 1, c) == fin[c],
        adjusted_then_padded(output, initial, fin, (num_round - 1) * size, size, extra, permuted),
    ensures
        forall|i: int, c: int|
            0 <= i < num_round && 0 <= c < size ==> (#[trigger] at_row(permuted, size, i, c))@ == at_row(
                input,
                size,
                rotation_left(num_round as nat, 1, i as nat) as int,
                c,
            )@,
{
    let start = (num_round - 1) * size;
    assert forall|i: int, c: int| 0 <= i < num_round && 0 <= c < size implies (#[trigger] at_row(
        permuted,
        size,
        i,
        c,
    ))@ == at_row(input, size, rotation_left(num_round as nat, 1, i as nat) as int, c)@ by {
        let x = i * size + c;
        assert(0 <= x < num_round * size) by (nonlinear_arith)
            requires
                0 <= i < num_round,
                0 <= c < size,
                x == i * size + c,
        ;
        assert(permuted[x]@ == adjusted_value(output, initial, fin, start, size, x));
        if i < num_round - 1 {
            assert(x < start) by (nonlinear_arith)
                requires
                    0 <= i < num_round - 1,
                    0 <= c < size,
                    start == (num_round - 1) * size,
                    x == i * size + c,
            ;
            lemma_small_mod((i + 1) as nat, num_round as nat);
            assert(at_row(input, size, i + 1, c) == at_row(output, size, i, c));
        } else {
            let a = initial[c]@;
            let f = fin[c]@;
            assert(at_row(output, size, num_round - 1, c) == fin[c]);
            lemma_add_mod_noop_right(f as int, a - f, P as int);
            lemma_small_mod(a, P as nat);
            lemma_mod_self_0(num_round);
            assert(at_row(input, size, 0, c) == initial[c]);
        }
    }
}


impl<const P: u64> MonomialTrace<P> {
    /// Both columns hold all `2^log_num_poly` monomials.
    pub open spec fn complete(&self) -> bool {
        &&& self.degree@.len() == pow2(self.log_num_poly as nat)
        &&& self.coefficient@.len() == pow2(self.log_num_poly as nat)
    }
}

impl<const P: u64> AccTrace<P> {
    /// Every column holds all its polynomials.
    pub open spec fn complete(&self) -> bool {
        &&& self.initial_acc.complete()
        &&& self.final_acc.complete()
        &&& self.input_acc.complete()
        &&& self.output_acc.complete()
        &&& self.input_acc_permuted.complete()
        &&& self.monomial.complete()
        &&& self.monomial_representation.complete()
        &&& self.monomial_times_acc.complete()
        &&& self.external_product_input.complete()
    }
}

impl<const P: u64> AccTraceMLE<P> {
    /// The columns are those of `trace`.
    pub open spec fn represents(&self, trace: AccTrace<P>) -> bool {
        &&& self.log_coeff_count == trace.log_coeff_count
        &&& self.log_num_round == trace.log_num_round
        &&& self.initial_acc.represents(trace.initial_acc)
        &&& self.final_acc.represents(trace.final_acc)
        &&& self.input_acc.represents(trace.input_acc)
        &&& self.output_acc.represents(trace.output_acc)
        &&& self.input_acc_permuted.represents(trace.input_acc_permuted)
        &&& self.permutation_info == trace.permutation_info
        &&& self.monomial.represents(trace.monomial)
        &&& self.monomial_representation.log_num_poly == trace.monomial_representation.log_num_poly
        &&& self.monomial_representation.degree.evaluations@ == trace.monomial_representation.degree@
        &&& self.monomial_representation.coefficient.evaluations@ == trace.monomial_representation.coefficient@
        &&& self.monomial_times_acc.represents(trace.monomial_times_acc)
        &&& self.external_product_input.represents(trace.external_product_input)
    }

    /// Every column has the size its parameters give.
    pub open spec fn wf(&self) -> bool {
        &&& self.initial_acc.wf()
        &&& self.final_acc.wf()
        &&& self.input_acc.wf()
        &&& self.output_acc.wf()
        &&& self.input_acc_permuted.wf()
        &&& self.monomial.wf()
        &&& self.monomial_representation.wf()
        &&& self.monomial_times_acc.wf()
        &&& self.external_product_input.wf()
    }

    /// Wraps every column of an accumulator trace into a multilinear extension.
    pub fn from_trace(trace: AccTrace<P>) -> (r: Self)
        requires
            trace.complete(),
        ensures
            r.wf(),
            r.represents(trace),
    {
        let AccTrace {
            log_coeff_count,
            log_num_round,
            initial_acc,
            final_acc,
            monomial,
            monomial_representation,
            input_acc,
            output_acc,
            input_acc_permuted,
            permutation_info,
            monomial_times_acc,
            external_product_input,
        } = trace;
        AccTraceMLE {
            log_coeff_count,
            log_num_round,
            initial_acc: RLWETraceMLE::from_trace(initial_acc),
            final_acc: RLWETraceMLE::from_trace(final_acc),
            input_acc: RLWETraceMLE::from_trace(input_acc),
            output_acc: RLWETraceMLE::from_trace(output_acc),
            input_acc_permuted: RLWETraceMLE::from_trace(input_acc_permuted),
            permutation_info,
            monomial: PolynomialTraceMLE::from_trace(monomial),
            monomial_representation: MonomialTraceMLE::from_trace(monomial_representation),
            monomial_times_acc: RLWETraceMLE::from_trace(monomial_times_acc),
            external_product_input: RLWETraceMLE::from_trace(external_product_input),
        }
    }

    /// The product of the monomials with the input accumulators, as a sum of one
    /// Hadamard trace: the monomial is the bit polynomial, the input accumulator the
    /// ciphertext and `monomial_times_acc` the sum.
    pub fn extract_hadamard_trace(&self) -> (r: SumHadamardTraceMLE<P>)
        ensures
            r.log_coeff_count == self.log_coeff_count,
            r.log_num_poly == self.log_num_round,
            r.num_hadamard == 1,
            r.vec_hadamard@.len() == 1,
            r.vec_hadamard@[0].log_coeff_count == self.log_coeff_count,
            r.vec_hadamard@[0].log_num_poly == self.log_num_round,
            r.vec_hadamard@[0].bit == self.monomial,
            r.vec_hadamard@[0].rlwe == self.input_acc,
            r.sum_prod == self.monomial_times_acc,
    {
        let product = HadamardTraceMLE {
            log_coeff_count: self.log_coeff_count,
            log_num_poly: self.log_num_round,
            bit: self.monomial.clone(),
            rlwe: self.input_acc.clone(),
        };
        let mut vec_hadamard: Vec<HadamardTraceMLE<P>> = Vec::with_capacity(1);
        vec_hadamard.push(product);
        SumHadamardTraceMLE {
            log_coeff_count: self.log_coeff_count,
            log_num_poly: self.log_num_round,
            num_hadamard: 1,
            vec_hadamard,
            sum_prod: self.monomial_times_acc.clone(),
        }
    }

    /// The columns have the numbers of variables that evaluating at `point` needs: the
    /// initial and final accumulators the first `log_coeff_count`, the others all.
    pub open spec fn fits(&self, point: Seq<Fp<P>>) -> bool {
        &&& self.log_coeff_count <= point.len()
        &&& self.initial_acc.wf()
        &&& self.initial_acc.log_coeff_count + self.initial_acc.log_num_poly == self.log_coeff_count
        &&& self.final_acc.wf()
        &&& self.final_acc.log_coeff_count + self.final_acc.log_num_poly == self.log_coeff_count
        &&& self.input_acc.wf()
        &&& self.input_acc.log_coeff_count + self.input_acc.log_num_poly == point.len()
        &&& self.monomial.wf()
        &&& self.monomial.log_coeff_count + self.monomial.log_num_poly == point.len()
        &&& self.monomial_times_acc.wf()
        &&& self.monomial_times_acc.log_coeff_count + self.monomial_times_acc.log_num_poly == point.len()
    }

    /// The values of the columns at `point`; the initial and final accumulators at its
    /// first `log_coeff_count` coordinates, and the input of the external product as
    /// `monomial_times_acc - input_acc`.
    pub fn evaluate(&self, point: &[Fp<P>]) -> (r: AccTraceEval<P>)
        requires
            P > 1,
            self.fits(point@),
        ensures
            r.log_coeff_count == self.log_coeff_count,
            r.log_num_round == self.log_num_round,
            rlwe_evaluates_to(self.initial_acc, point@.take(self.log_coeff_count as int), r.initial_acc),
            rlwe_evaluates_to(self.final_acc, point@.take(self.log_coeff_count as int), r.final_acc),
            rlwe_evaluates_to(self.input_acc, point@, r.input_acc),
            r.monomial.poly@ == self.monomial.poly.spec_evaluate(point@),
            r.monomial.ntt@ == self.monomial.ntt.spec_evaluate(point@),
            rlwe_evaluates_to(self.monomial_times_acc, point@, r.monomial_times_acc),
            r.external_product_input.poly.0@ == (r.monomial_times_acc.poly.0@ - r.input_acc.poly.0@) % (P as int),
            r.external_product_input.poly.1@ == (r.monomial_times_acc.poly.1@ - r.input_acc.poly.1@) % (P as int),
            r.external_product_input.ntt.0@ == (r.monomial_times_acc.ntt.0@ - r.input_acc.ntt.0@) % (P as int),
            r.external_product_input.ntt.1@ == (r.monomial_times_acc.ntt.1@ - r.input_acc.ntt.1@) % (P as int),
    {
        let prefix = prefix_of(point, self.log_coeff_count);
        let initial_acc = self.initial_acc.evaluate(prefix.as_slice());
        let final_acc = self.final_acc.evaluate(prefix.as_slice());
        let input_acc = self.input_acc.evaluate(point);
        let monomial = self.monomial.evaluate(point);
        let monomial_times_acc = self.monomial_times_acc.evaluate(point);
        let external_product_input = rlwe_sub(&monomial_times_acc, &input_acc);
        AccTraceEval {
            log_coeff_count: self.log_coeff_count,
            log_num_round: self.log_num_round,
            initial_acc,
            final_acc,
            input_acc,
            monomial,
            monomial_times_acc,
            external_product_input,
        }
    }
}

/// `eval` holds the values of the four columns of `trace` at `point`.
pub open spec fn rlwe_evaluates_to<const P: u64>(trace: RLWETraceMLE<P>, point: Seq<Fp<P>>, eval: RLWEEval<P>) -> bool {
    &&& eval.poly.0@ == trace.poly.0.spec_evaluate(point)
    &&& eval.poly.1@ == trace.poly.1.spec_evaluate(point)
    &&& eval.ntt.0@ == trace.ntt.0.spec_evaluate(point)
    &&& eval.ntt.1@ == trace.ntt.1.spec_evaluate(point)
}

/// The first `k` coordinates of `point`.
fn prefix_of<const P: u64>(point: &[Fp<P>], k: usize) -> (r: Vec<Fp<P>>)
    requires
        k <= point@.len(),
    ensures
        r@ == point@.take(k as int),
{
    let mut r: Vec<Fp<P>> = Vec::with_capacity(k);
    let mut i: usize = 0;
    while i < k
        invariant
            k <= point@.len(),
            i <= k,
            r@ == point@.take(i as int),
        decreases k - i,
    {
        r.push(point[i]);
        i = i + 1;
        proof {
            assert(r@ =~= point@.take(i as int));
        }
    }
    r
}

/// `a - b`, value by value.
fn rlwe_sub<const P: u64>(a: &RLWEEval<P>, b: &RLWEEval<P>) -> (r: RLWEEval<P>)
    ensures
        r.poly.0@ == (a.poly.0@ - b.poly.0@) % (P as int),
        r.poly.1@ == (a.poly.1@ - b.poly.1@) % (P as int),
        r.ntt.0@ == (a.ntt.0@ - b.ntt.0@) % (P as int),
        r.ntt.1@ == (a.ntt.1@ - b.ntt.1@) % (P as int),
{
    RLWEEval {
        poly: (a.poly.0.sub(b.poly.0), a.poly.1.sub(b.poly.1)),
        ntt: (a.ntt.0.sub(b.ntt.0), a.ntt.1.sub(b.ntt.1)),
    }
}

impl<const P: u64> AccTraceEval<P> {
    /// The product of the monomial with the input accumulator, as a sum of one Hadamard
    /// evaluation.
    pub fn extract_hadamard_eval(&self) -> (r: SumHadamardTraceEval<P>)
        ensures
            r.vec_hadamard@.len() == 1,
            r.vec_hadamard@[0].bit == self.monomial,
            r.vec_hadamard@[0].rlwe == self.input_acc,
            r.sum_prod == self.monomial_times_acc,
    {
        let mut vec_hadamard: Vec<HadamardTraceEval<P>> = Vec::with_capacity(1);
        vec_hadamard.push(HadamardTraceEval { bit: self.monomial, rlwe: self.input_acc });
        SumHadamardTraceEval { vec_hadamard, sum_prod: self.monomial_times_acc }
    }

    /// The number of values: the two polynomials of the input accumulator and of the
    /// product.
    pub fn num_evals(&self) -> (r: usize)
        ensures
            r == 4,
    {
        4
    }

    /// The NTT-form values of the input accumulator, then of the product.
    pub fn pack_ntt_to_vec(&self) -> (r: Vec<Fp<P>>)
        ensures
            r@ == seq![self.input_acc.ntt.0, self.input_acc.ntt.1, self.monomial_times_acc.ntt.0, self.monomial_times_acc.ntt.1],
    {
        let mut r: Vec<Fp<P>> = Vec::with_capacity(4);
        r.push(self.input_acc.ntt.0);
        r.push(self.input_acc.ntt.1);
        r.push(self.monomial_times_acc.ntt.0);
        r.push(self.monomial_times_acc.ntt.1);
        proof {
            assert(r@ =~= seq![self.input_acc.ntt.0, self.input_acc.ntt.1, self.monomial_times_acc.ntt.0, self.monomial_times_acc.ntt.1]);
        }
        r
    }

    /// The coefficient-form values of the input accumulator, then of the product.
    pub fn pack_poly_to_vec(&self) -> (r: Vec<Fp<P>>)
        ensures
            r@ == seq![self.input_acc.poly.0, self.input_acc.poly.1, self.monomial_times_acc.poly.0, self.monomial_times_acc.poly.1],
    {
        let mut r: Vec<Fp<P>> = Vec::with_capacity(4);
        r.push(self.input_acc.poly.0);
        r.push(self.input_acc.poly.1);
        r.push(self.monomial_times_acc.poly.0);
        r.push(self.monomial_times_acc.poly.1);
        proof {
            assert(r@ =~= seq![self.input_acc.poly.0, self.input_acc.poly.1, self.monomial_times_acc.poly.0, self.monomial_times_acc.poly.1]);
        }
        r
    }
}

impl<const P: u64> PackableTrace<P> for AccTraceMLE<P> {
    open spec fn packable(&self) -> bool {
        self.log_coeff_count + self.log_num_round <= usize::MAX
    }

    open spec fn spec_num_vars(&self) -> nat {
        (self.log_coeff_count + self.log_num_round) as nat
    }

    /// The input accumulator and the product; the other columns follow from these.
    open spec fn spec_num_oracles(&self) -> nat {
        4
    }

    open spec fn spec_packed(&self) -> Seq<Fp<P>> {
        self.input_acc.poly.0.evaluations@ + self.input_acc.poly.1.evaluations@
            + self.monomial_times_acc.poly.0.evaluations@ + self.monomial_times_acc.poly.1.evaluations@
    }

    fn num_vars(&self) -> (r: usize) {
        self.log_coeff_count + self.log_num_round
    }

    fn num_oracles(&self) -> (r: usize) {
        4
    }

    fn pack_to_vec(&self) -> (r: Vec<Fp<P>>) {
        let mut r: Vec<Fp<P>> = Vec::new();
        extend_values(&mut r, self.input_acc.poly.0.evaluations.as_slice());
        extend_values(&mut r, self.input_acc.poly.1.evaluations.as_slice());
        extend_values(&mut r, self.monomial_times_acc.poly.0.evaluations.as_slice());
        extend_values(&mut r, self.monomial_times_acc.poly.1.evaluations.as_slice());
        r
    }
}

impl<const P: u64> PackableTrace<P> for AccTrace<P> {
    open spec fn packable(&self) -> bool {
        self.log_coeff_count + self.log_num_round <= usize::MAX
    }

    open spec fn spec_num_vars(&self) -> nat {
        (self.log_coeff_count + self.log_num_round) as nat
    }

    /// The input accumulator and the product; the other columns follow from these.
    open spec fn spec_num_oracles(&self) -> nat {
        4
    }

    open spec fn spec_packed(&self) -> Seq<Fp<P>> {
        self.input_acc.poly.0@ + self.input_acc.poly.1@ + self.monomial_times_acc.poly.0@
            + self.monomial_times_acc.poly.1@
    }

    fn num_vars(&self) -> (r: usize) {
        self.log_coeff_count + self.log_num_round
    }

    fn num_oracles(&self) -> (r: usize) {
        4
    }

    fn pack_to_vec(&self) -> (r: Vec<Fp<P>>) {
        let mut r: Vec<Fp<P>> = Vec::new();
        extend_values(&mut r, self.input_acc.poly.0.as_slice());
        extend_values(&mut r, self.input_acc.poly.1.as_slice());
        extend_values(&mut r, self.monomial_times_acc.poly.0.as_slice());
        extend_values(&mut r, self.monomial_times_acc.poly.1.as_slice());
        r
    }
}

} // verus!
