//! Traces of products of bit polynomials with RLWE ciphertexts, and of sums of such
//! products: `sum_prod = sum_i bit_i * rlwe_i`.
use super::rlwe_trace::{
    PolynomialEval, PolynomialTrace, PolynomialTraceMLE, RLWEEval, RLWETrace, RLWETraceMLE, padding_len,
    zero_padded,
};
use crate::comparison::lt_trace::LTTablesMLE;
use crate::field::Fp;
use crate::lookup_trace::indexed_table::IndexedLookupTraceMLE;
use crate::mle::DenseMultilinearExtension;
use crate::packing::{PackableTrace, SeparatelyPackableEval, SeparatelyPackableTrace};
use std::rc::Rc;
use vstd::arithmetic::power2::*;
use vstd::prelude::*;

verus! {

/// The products of a bit polynomial and an RLWE ciphertext, for each round.
#[derive(Debug)]
pub struct HadamardTrace<const P: u64> {
    pub log_coeff_count: usize,
    pub log_num_poly: usize,
    /// the bit polynomial, a small polynomial
    pub bit: PolynomialTrace<P>,
    /// the RLWE ciphertext
    pub rlwe: RLWETrace<P>,
}

/// Several Hadamard traces and the sum of their products.
#[derive(Debug)]
pub struct SumHadamardTrace<const P: u64> {
    pub log_coeff_count: usize,
    pub log_num_poly: usize,
    pub num_hadamard: usize,
    pub vec_hadamard: Vec<HadamardTrace<P>>,
    /// `sum_prod = sum bit * rlwe`
    pub sum_prod: RLWETrace<P>,
}

/// The columns of a Hadamard trace as multilinear extensions.
#[derive(Debug)]
pub struct HadamardTraceMLE<const P: u64> {
    pub log_coeff_count: usize,
    pub log_num_poly: usize,
    pub bit: PolynomialTraceMLE<P>,
    pub rlwe: RLWETraceMLE<P>,
}

/// The values of the columns of a Hadamard trace at a point.
#[derive(Clone, Copy, Debug)]
pub struct HadamardTraceEval<const P: u64> {
    pub bit: PolynomialEval<P>,
    pub rlwe: RLWEEval<P>,
}

/// The columns of a sum of Hadamard traces as multilinear extensions.
#[derive(Debug)]
pub struct SumHadamardTraceMLE<const P: u64> {
    pub log_coeff_count: usize,
    pub log_num_poly: usize,
    pub num_hadamard: usize,
    pub vec_hadamard: Vec<HadamardTraceMLE<P>>,
    pub sum_prod: RLWETraceMLE<P>,
}

/// The values of the columns of a sum of Hadamard traces at a point.
#[derive(Clone, Debug)]
pub struct SumHadamardTraceEval<const P: u64> {
    pub vec_hadamard: Vec<HadamardTraceEval<P>>,
    pub sum_prod: RLWEEval<P>,
}

/// `after` is `before` with the polynomials of `num_round` rounds padded with zeros as
/// `finalize` does.
pub open spec fn rlwe_finalized<const P: u64>(before: RLWETrace<P>, after: RLWETrace<P>, num_round: nat) -> bool {
    let extra = padding_len(before.log_coeff_count as nat, before.log_num_poly as nat, num_round);
    &&& after.log_coeff_count == before.log_coeff_count
    &&& after.log_num_poly == before.log_num_poly
    &&& zero_padded(before.poly.0@, after.poly.0@, extra)
    &&& zero_padded(before.poly.1@, after.poly.1@, extra)
    &&& zero_padded(before.ntt.0@, after.ntt.0@, extra)
    &&& zero_padded(before.ntt.1@, after.ntt.1@, extra)
}

/// `after` is `before` with its polynomials padded with zeros as `finalize` does.
pub open spec fn polynomial_finalized<const P: u64>(
    before: PolynomialTrace<P>,
    after: PolynomialTrace<P>,
    num_round: nat,
) -> bool {
    let extra = padding_len(before.log_coeff_count as nat, before.log_num_poly as nat, num_round);
    &&& after.log_coeff_count == before.log_coeff_count
    &&& after.log_num_poly == before.log_num_poly
    &&& zero_padded(before.poly@, after.poly@, extra)
    &&& zero_padded(before.ntt@, after.ntt@, extra)
}

impl<const P: u64> HadamardTrace<P> {
    /// `finalize` may be called: the sizes fit and `num_round` rounds fit in both traces.
    pub open spec fn can_finalize(&self, num_round: nat) -> bool {
        &&& self.bit.log_coeff_count + self.bit.log_num_poly < usize::BITS
        &&& num_round <= pow2(self.bit.log_num_poly as nat)
        &&& self.rlwe.log_coeff_count + self.rlwe.log_num_poly < usize::BITS
        &&& num_round <= pow2(self.rlwe.log_num_poly as nat)
    }

    /// `after` is `before` finalized for `num_round` rounds.
    pub open spec fn finalized(before: Self, after: Self, num_round: nat) -> bool {
        &&& after.log_coeff_count == before.log_coeff_count
        &&& after.log_num_poly == before.log_num_poly
        &&& polynomial_finalized(before.bit, after.bit, num_round)
        &&& rlwe_finalized(before.rlwe, after.rlwe, num_round)
    }

    /// An empty trace.
    pub fn new(log_coeff_count: usize, log_num_poly: usize) -> (r: Self)
        ensures
            r.log_coeff_count == log_coeff_count,
            r.log_num_poly == log_num_poly,
            r.bit.log_coeff_count == log_coeff_count,
            r.bit.log_num_poly == log_num_poly,
            r.bit.poly@.len() == 0,
            r.bit.ntt@.len() == 0,
            r.rlwe.log_coeff_count == log_coeff_count,
            r.rlwe.log_num_poly == log_num_poly,
            r.rlwe.poly.0@.len() == 0,
            r.rlwe.poly.1@.len() == 0,
            r.rlwe.ntt.0@.len() == 0,
            r.rlwe.ntt.1@.len() == 0,
    {
        HadamardTrace {
            log_coeff_count,
            log_num_poly,
            bit: PolynomialTrace::new(log_coeff_count, log_num_poly),
            rlwe: RLWETrace::new(log_coeff_count, log_num_poly),
        }
    }

    /// Appends a bit polynomial in coefficient form.
    pub fn append_bit_poly(&mut self, poly: &[Fp<P>])
        ensures
            final(self).log_coeff_count == old(self).log_coeff_count,
            final(self).log_num_poly == old(self).log_num_poly,
            final(self).bit.log_coeff_count == old(self).bit.log_coeff_count,
            final(self).bit.log_num_poly == old(self).bit.log_num_poly,
            final(self).bit.poly@ == old(self).bit.poly@ + poly@,
            final(self).bit.ntt@ == old(self).bit.ntt@,
            final(self).rlwe == old(self).rlwe,
    {
        super::rlwe_trace::extend_values(&mut self.bit.poly, poly);
    }

    /// Appends a bit polynomial in NTT form.
    pub fn append_bit_ntt(&mut self, bit_ntt: &[Fp<P>])
        ensures
            final(self).log_coeff_count == old(self).log_coeff_count,
            final(self).log_num_poly == old(self).log_num_poly,
            final(self).bit.log_coeff_count == old(self).bit.log_coeff_count,
            final(self).bit.log_num_poly == old(self).bit.log_num_poly,
            final(self).bit.poly@ == old(self).bit.poly@,
            final(self).bit.ntt@ == old(self).bit.ntt@ + bit_ntt@,
            final(self).rlwe == old(self).rlwe,
    {
        super::rlwe_trace::extend_values(&mut self.bit.ntt, bit_ntt);
    }

    /// Pads the bit polynomials and the ciphertexts with zeros up to a power of two.
    pub fn finalize(&mut self, num_round: usize)
        requires
            P > 1,
            old(self).can_finalize(num_round as nat),
        ensures
            Self::finalized(*old(self), *final(self), num_round as nat),
    {
        self.bit.finalize(num_round);
        self.rlwe.finalize(num_round);
    }
}

impl<const P: u64> SumHadamardTrace<P> {
    /// `num_trace` empty Hadamard traces and an empty sum.
    pub fn new(num_trace: usize, log_coeff_count: usize, log_num_poly: usize) -> (r: Self)
        ensures
            r.log_coeff_count == log_coeff_count,
            r.log_num_poly == log_num_poly,
            r.num_hadamard == num_trace,
            r.vec_hadamard@.len() == num_trace,
            forall|i: int|
                0 <= i < num_trace ==> {
                    let h = #[trigger] r.vec_hadamard@[i];
                    &&& h.log_coeff_count == log_coeff_count
                    &&& h.log_num_poly == log_num_poly
                    &&& h.bit.log_coeff_count == log_coeff_count
                    &&& h.bit.log_num_poly == log_num_poly
                    &&& h.bit.poly@.len() == 0
                    &&& h.bit.ntt@.len() == 0
                    &&& h.rlwe.log_coeff_count == log_coeff_count
                    &&& h.rlwe.log_num_poly == log_num_poly
                    &&& h.rlwe.poly.0@.len() == 0
                    &&& h.rlwe.poly.1@.len() == 0
                    &&& h.rlwe.ntt.0@.len() == 0
                    &&& h.rlwe.ntt.1@.len() == 0
                },
            r.sum_prod.log_coeff_count == log_coeff_count,
            r.sum_prod.log_num_poly == log_num_poly,
            r.sum_prod.poly.0@.len() == 0,
            r.sum_prod.poly.1@.len() == 0,
            r.sum_prod.ntt.0@.len() == 0,
            r.sum_prod.ntt.1@.len() == 0,
    {
        let mut vec_hadamard: Vec<HadamardTrace<P>> = Vec::with_capacity(num_trace);
        let mut i: usize = 0;
        while i < num_trace
            invariant
                i <= num_trace,
                vec_hadamard@.len() == i,
                forall|k: int|
                    0 <= k < i ==> {
                        let h = #[trigger] vec_hadamard@[k];
                        &&& h.log_coeff_count == log_coeff_count
                        &&& h.log_num_poly == log_num_poly
                        &&& h.bit.log_coeff_count == log_coeff_count
                        &&& h.bit.log_num_poly == log_num_poly
                        &&& h.bit.poly@.len() == 0
                        &&& h.bit.ntt@.len() == 0
                        &&& h.rlwe.log_coeff_count == log_coeff_count
                        &&& h.rlwe.log_num_poly == log_num_poly
                        &&& h.rlwe.poly.0@.len() == 0
                        &&& h.rlwe.poly.1@.len() == 0
                        &&& h.rlwe.ntt.0@.len() == 0
                        &&& h.rlwe.ntt.1@.len() == 0
                    },
            decreases num_trace - i,
        {
            vec_hadamard.push(HadamardTrace::new(log_coeff_count, log_num_poly));
            i = i + 1;
        }
        SumHadamardTrace {
            log_coeff_count,
            log_num_poly,
            num_hadamard: num_trace,
            vec_hadamard,
            sum_prod: RLWETrace::new(log_coeff_count, log_num_poly),
        }
    }

    /// The Hadamard trace at `trace_idx`, to be filled.
    pub fn get_trace_mul(&mut self, trace_idx: usize) -> (r: &mut HadamardTrace<P>)
        requires
            trace_idx < old(self).vec_hadamard@.len(),
        ensures
            *r == old(self).vec_hadamard@[trace_idx as int],
            final(self).log_coeff_count == old(self).log_coeff_count,
            final(self).log_num_poly == old(self).log_num_poly,
            final(self).num_hadamard == old(self).num_hadamard,
            final(self).vec_hadamard@ == old(self).vec_hadamard@.update(trace_idx as int, *final(r)),
            final(self).sum_prod == old(self).sum_prod,
    {
        &mut self.vec_hadamard[trace_idx]
    }

    /// Appends a sum of products in NTT form.
    pub fn add_sum_prod_ntt(&mut self, sum_prod: (&[Fp<P>], &[Fp<P>]))
        ensures
            final(self).log_coeff_count == old(self).log_coeff_count,
            final(self).log_num_poly == old(self).log_num_poly,
            final(self).num_hadamard == old(self).num_hadamard,
            final(self).vec_hadamard@ == old(self).vec_hadamard@,
            final(self).sum_prod.log_coeff_count == old(self).sum_prod.log_coeff_count,
            final(self).sum_prod.log_num_poly == old(self).sum_prod.log_num_poly,
            final(self).sum_prod.poly == old(self).sum_prod.poly,
            final(self).sum_prod.ntt.0@ == old(self).sum_prod.ntt.0@ + sum_prod.0@,
            final(self).sum_prod.ntt.1@ == old(self).sum_prod.ntt.1@ + sum_prod.1@,
    {
        super::rlwe_trace::extend_values(&mut self.sum_prod.ntt.0, sum_prod.0);
        super::rlwe_trace::extend_values(&mut self.sum_prod.ntt.1, sum_prod.1);
    }

    /// Appends a sum of products in coefficient form.
    pub fn add_sum_prod_poly(&mut self, sum_prod: (&[Fp<P>], &[Fp<P>]))
        ensures
            final(self).log_coeff_count == old(self).log_coeff_count,
            final(self).log_num_poly == old(self).log_num_poly,
            final(self).num_hadamard == old(self).num_hadamard,
            final(self).vec_hadamard@ == old(self).vec_hadamard@,
            final(self).sum_prod.log_coeff_count == old(self).sum_prod.log_coeff_count,
            final(self).sum_prod.log_num_poly == old(self).sum_prod.log_num_poly,
            final(self).sum_prod.ntt == old(self).sum_prod.ntt,
            final(self).sum_prod.poly.0@ == old(self).sum_prod.poly.0@ + sum_prod.0@,
            final(self).sum_prod.poly.1@ == old(self).sum_prod.poly.1@ + sum_prod.1@,
    {
        super::rlwe_trace::extend_values(&mut self.sum_prod.poly.0, sum_prod.0);
        super::rlwe_trace::extend_values(&mut self.sum_prod.poly.1, sum_prod.1);
    }

    /// Pads every Hadamard trace and the sum with zeros up to a power of two.
    pub fn finalize(&mut self, num_round: usize)
        requires
            P > 1,
            forall|i: int|
                0 <= i < old(self).vec_hadamard@.len() ==> (#[trigger] old(self).vec_hadamard@[i]).can_finalize(
                    num_round as nat,
                ),
            old(self).sum_prod.log_coeff_count + old(self).sum_prod.log_num_poly < usize::BITS,
            num_round <= pow2(old(self).sum_prod.log_num_poly as nat),
        ensures
            final(self).log_coeff_count == old(self).log_coeff_count,
            final(self).log_num_poly == old(self).log_num_poly,
            final(self).num_hadamard == old(self).num_hadamard,
            final(self).vec_hadamard@.len() == old(self).vec_hadamard@.len(),
            forall|i: int|
                0 <= i < old(self).vec_hadamard@.len() ==> HadamardTrace::finalized(
                    #[trigger] old(self).vec_hadamard@[i],
                    final(self).vec_hadamard@[i],
                    num_round as nat,
                ),
            rlwe_finalized(old(self).sum_prod, final(self).sum_prod, num_round as nat),
    {
        let ghost start = self.vec_hadamard@;
        let n = self.vec_hadamard.len();
        let mut i: usize = 0;
        while i < n
            invariant
                P > 1,
                n == start.len(),
                self.vec_hadamard@.len() == n,
                i <= n,
                forall|k: int| 0 <= k < n ==> (#[trigger] start[k]).can_finalize(num_round as nat),
                forall|k: int|
                    0 <= k < i ==> HadamardTrace::finalized(
                        #[trigger] start[k],
                        self.vec_hadamard@[k],
                        num_round as nat,
                    ),
                forall|k: int| i <= k < n ==> #[trigger] self.vec_hadamard@[k] == start[k],
                self.log_coeff_count == old(self).log_coeff_count,
                self.log_num_poly == old(self).log_num_poly,
                self.num_hadamard == old(self).num_hadamard,
                self.sum_prod == old(self).sum_prod,
            decreases n - i,
        {
            self.vec_hadamard[i].finalize(num_round);
            i = i + 1;
        }
        self.sum_prod.finalize(num_round);
    }
}


impl<const P: u64> HadamardTrace<P> {
    /// The bit polynomials and the ciphertexts are complete.
    pub open spec fn complete(&self) -> bool {
        self.bit.complete() && self.rlwe.complete()
    }
}

impl<const P: u64> HadamardTraceMLE<P> {
    /// The columns have the sizes their parameters give.
    pub open spec fn wf(&self) -> bool {
        self.bit.wf() && self.rlwe.wf()
    }

    /// The columns are those of `trace`.
    pub open spec fn represents(&self, trace: HadamardTrace<P>) -> bool {
        &&& self.log_coeff_count == trace.log_coeff_count
        &&& self.log_num_poly == trace.log_num_poly
        &&& self.bit.represents(trace.bit)
        &&& self.rlwe.represents(trace.rlwe)
    }

    /// Wraps the columns of a Hadamard trace into multilinear extensions.
    pub fn from_trace(trace: HadamardTrace<P>) -> (r: Self)
        requires
            trace.complete(),
        ensures
            r.wf(),
            r.represents(trace),
    {
        HadamardTraceMLE {
            log_coeff_count: trace.log_coeff_count,
            log_num_poly: trace.log_num_poly,
            bit: PolynomialTraceMLE::from_trace(trace.bit),
            rlwe: RLWETraceMLE::from_trace(trace.rlwe),
        }
    }

    /// `eval` holds the values of the columns at `point`.
    pub open spec fn evaluates_to(&self, point: Seq<Fp<P>>, eval: HadamardTraceEval<P>) -> bool {
        &&& eval.bit.poly@ == self.bit.poly.spec_evaluate(point)
        &&& eval.bit.ntt@ == self.bit.ntt.spec_evaluate(point)
        &&& eval.rlwe.poly.0@ == self.rlwe.poly.0.spec_evaluate(point)
        &&& eval.rlwe.poly.1@ == self.rlwe.poly.1.spec_evaluate(point)
        &&& eval.rlwe.ntt.0@ == self.rlwe.ntt.0.spec_evaluate(point)
        &&& eval.rlwe.ntt.1@ == self.rlwe.ntt.1.spec_evaluate(point)
    }

    /// The columns have `point@.len()` variables.
    pub open spec fn fits(&self, point: Seq<Fp<P>>) -> bool {
        &&& self.wf()
        &&& self.bit.log_coeff_count + self.bit.log_num_poly == point.len()
        &&& self.rlwe.log_coeff_count + self.rlwe.log_num_poly == point.len()
    }

    /// The values of the columns at `point`.
    pub fn evaluate(&self, point: &[Fp<P>]) -> (r: HadamardTraceEval<P>)
        requires
            P > 1,
            self.fits(point@),
        ensures
            self.evaluates_to(point@, r),
    {
        HadamardTraceEval { bit: self.bit.evaluate(point), rlwe: self.rlwe.evaluate(point) }
    }
}

impl<const P: u64> SumHadamardTraceMLE<P> {
    /// Wraps the columns of every Hadamard trace and of the sum into multilinear
    /// extensions.
    pub fn from_trace(trace: SumHadamardTrace<P>) -> (r: Self)
        requires
            forall|i: int| 0 <= i < trace.vec_hadamard@.len() ==> (#[trigger] trace.vec_hadamard@[i]).complete(),
            trace.sum_prod.complete(),
        ensures
            r.log_coeff_count == trace.log_coeff_count,
            r.log_num_poly == trace.log_num_poly,
            r.num_hadamard == trace.num_hadamard,
            r.vec_hadamard@.len() == trace.vec_hadamard@.len(),
            forall|i: int|
                0 <= i < trace.vec_hadamard@.len() ==> {
                    &&& (#[trigger] r.vec_hadamard@[i]).wf()
                    &&& r.vec_hadamard@[i].represents(trace.vec_hadamard@[i])
                },
            r.sum_prod.wf(),
            r.sum_prod.represents(trace.sum_prod),
    {
        let SumHadamardTrace { log_coeff_count, log_num_poly, num_hadamard, vec_hadamard, sum_prod } = trace;
        let mut rest = vec_hadamard;
        let ghost start = rest@;
        let n = rest.len();
        let mut mles: Vec<HadamardTraceMLE<P>> = Vec::with_capacity(n);
        let mut i: usize = 0;
        while i < n
            invariant
                n == start.len(),
                i <= n,
                rest@ == start.subrange(i as int, n as int),
                forall|k: int| 0 <= k < n ==> (#[trigger] start[k]).complete(),
                mles@.len() == i,
                forall|k: int|
                    0 <= k < i ==> {
                        &&& (#[trigger] mles@[k]).wf()
                        &&& mles@[k].represents(start[k])
                    },
            decreases n - i,
        {
            proof {
                assert(rest@[0] == start[i as int]);
            }
            let h = rest.remove(0);
            mles.push(HadamardTraceMLE::from_trace(h));
            i = i + 1;
            proof {
                assert(rest@ =~= start.subrange(i as int, n as int));
            }
        }
        SumHadamardTraceMLE {
            log_coeff_count,
            log_num_poly,
            num_hadamard,
            vec_hadamard: mles,
            sum_prod: RLWETraceMLE::from_trace(sum_prod),
        }
    }

    /// The values of the columns of every Hadamard trace and of the sum at `point`.
    pub fn evaluate(&self, point: &[Fp<P>]) -> (r: SumHadamardTraceEval<P>)
        requires
            P > 1,
            forall|i: int| 0 <= i < self.vec_hadamard@.len() ==> (#[trigger] self.vec_hadamard@[i]).fits(point@),
            self.sum_prod.wf(),
            self.sum_prod.log_coeff_count + self.sum_prod.log_num_poly == point@.len(),
        ensures
            r.vec_hadamard@.len() == self.vec_hadamard@.len(),
            forall|i: int|
                0 <= i < self.vec_hadamard@.len() ==> (#[trigger] self.vec_hadamard@[i]).evaluates_to(
                    point@,
                    r.vec_hadamard@[i],
                ),
            r.sum_prod.poly.0@ == self.sum_prod.poly.0.spec_evaluate(point@),
            r.sum_prod.poly.1@ == self.sum_prod.poly.1.spec_evaluate(point@),
            r.sum_prod.ntt.0@ == self.sum_prod.ntt.0.spec_evaluate(point@),
            r.sum_prod.ntt.1@ == self.sum_prod.ntt.1.spec_evaluate(point@),
    {
        let mut evals: Vec<HadamardTraceEval<P>> = Vec::with_capacity(self.vec_hadamard.len());
        let mut i: usize = 0;
        while i < self.vec_hadamard.len()
            invariant
                P > 1,
                forall|k: int| 0 <= k < self.vec_hadamard@.len() ==> (#[trigger] self.vec_hadamard@[k]).fits(point@),
                i <= self.vec_hadamard@.len(),
                evals@.len() == i,
                forall|k: int| 0 <= k < i ==> (#[trigger] self.vec_hadamard@[k]).evaluates_to(point@, evals@[k]),
            decreases self.vec_hadamard@.len() - i,
        {
            proof {
                assert(self.vec_hadamard@[i as int].fits(point@));
            }
            evals.push(self.vec_hadamard[i].evaluate(point));
            i = i + 1;
        }
        SumHadamardTraceEval { vec_hadamard: evals, sum_prod: self.sum_prod.evaluate(point) }
    }

    /// The number of bit polynomials, one per Hadamard trace.
    pub fn num_bit_poly(&self) -> (r: usize)
        ensures
            r == self.num_hadamard,
    {
        self.num_hadamard
    }

    /// The number of variables that address the helper columns of a lookup of the bit
    /// polynomials in blocks of `blk_size`.
    pub fn log_num_helper_poly(&self, blk_size: usize) -> (r: usize)
        requires
            blk_size > 0,
            self.num_hadamard + blk_size <= usize::MAX,
            (self.num_hadamard + blk_size - 1) / (blk_size as int) <= pow2((usize::BITS - 1) as nat),
        ensures
            crate::lookup_trace::normal_table::is_ceil_log2(
                ((self.num_hadamard + blk_size - 1) / (blk_size as int)) as nat,
                r as nat,
            ),
    {
        let num_lookup = self.num_bit_poly();
        let num_helper = (num_lookup + blk_size - 1) / blk_size;
        crate::lookup_trace::normal_table::ceil_log2(num_helper)
    }

    /// The bit polynomials.
    fn bit_columns(&self) -> (r: Vec<Rc<DenseMultilinearExtension<P>>>)
        ensures
            r@.len() == self.vec_hadamard@.len(),
            forall|i: int| 0 <= i < r@.len() ==> #[trigger] r@[i] == self.vec_hadamard@[i].bit.poly,
    {
        let mut r: Vec<Rc<DenseMultilinearExtension<P>>> = Vec::with_capacity(self.vec_hadamard.len());
        let mut i: usize = 0;
        while i < self.vec_hadamard.len()
            invariant
                i <= self.vec_hadamard@.len(),
                r@.len() == i,
                forall|k: int| 0 <= k < i ==> #[trigger] r@[k] == self.vec_hadamard@[k].bit.poly,
            decreases self.vec_hadamard@.len() - i,
        {
            r.push(Rc::clone(&self.vec_hadamard[i].bit.poly));
            i = i + 1;
        }
        r
    }

    /// A range check of the bit polynomials against a small table.
    pub fn extract_lookup_trace_mle_small_table(&self, range: usize) -> (r:
        crate::lookup_trace::small_table::LookupTraceMLE<P>)
        requires
            self.log_coeff_count + self.log_num_poly <= usize::MAX,
        ensures
            r.num_vars == self.log_coeff_count + self.log_num_poly,
            r.range == range,
            r.vec_input@.len() == self.vec_hadamard@.len(),
            forall|i: int| 0 <= i < r.vec_input@.len() ==> #[trigger] r.vec_input@[i] == self.vec_hadamard@[i].bit.poly,
    {
        crate::lookup_trace::small_table::LookupTraceMLE {
            num_vars: self.log_coeff_count + self.log_num_poly,
            range,
            vec_input: self.bit_columns(),
        }
    }

    /// A range check of the bit polynomials against `[0, range)`.
    pub fn extract_lookup_trace_mle_normal_table(&self, range: usize) -> (r:
        crate::lookup_trace::normal_table::LookupTraceMLE<P>)
        requires
            self.log_coeff_count + self.log_num_poly <= usize::MAX,
        ensures
            r.num_vars == self.log_coeff_count + self.log_num_poly,
            r.range == range,
            r.vec_input@.len() == self.vec_hadamard@.len(),
            forall|i: int| 0 <= i < r.vec_input@.len() ==> #[trigger] r.vec_input@[i] == self.vec_hadamard@[i].bit.poly,
    {
        crate::lookup_trace::normal_table::LookupTraceMLE {
            num_vars: self.log_coeff_count + self.log_num_poly,
            range,
            vec_input: self.bit_columns(),
        }
    }

    /// The bit polynomials as limbs of two decompositions, each limb an indexed lookup
    /// into the comparison table of its position: limb `k` of the first
    /// decomposition, then limb `k` of the second, index table `k`.
    pub fn extract_indexed_lookup_trace_mle(&self, tables: &LTTablesMLE<P>) -> (r: Vec<IndexedLookupTraceMLE<P>>)
        requires
            self.num_hadamard == tables.decomp_len * 2,
            self.vec_hadamard@.len() >= tables.decomp_len * 2,
            tables.tables@.len() >= tables.decomp_len,
            self.log_coeff_count + self.log_num_poly <= usize::MAX,
            forall|i: int|
                0 <= i < 2 * tables.decomp_len ==> (#[trigger] self.vec_hadamard@[i]).bit.poly.wf(),
            forall|i: int, x: int|
                0 <= i < 2 * tables.decomp_len && 0 <= x < self.vec_hadamard@[i].bit.poly.evaluations@.len()
                    ==> (#[trigger] self.vec_hadamard@[i].bit.poly.evaluations@[x])@
                    < tables.tables@[i % (tables.decomp_len as int)].evaluations@.len(),
        ensures
            r@.len() == 2 * tables.decomp_len,
            forall|i: int|
                0 <= i < r@.len() ==> {
                    let t = #[trigger] r@[i];
                    &&& t.num_input_vars == self.log_coeff_count + self.log_num_poly
                    &&& t.num_table_vars == tables.tables@[i % (tables.decomp_len as int)].num_vars
                    &&& t.index == self.vec_hadamard@[i].bit.poly
                    &&& t.table == tables.tables@[i % (tables.decomp_len as int)]
                    &&& t.table_point is None
                    &&& t.relation_holds()
                },
    {
        let d = tables.decomp_len;
        let n = 2 * d;
        let mut r: Vec<IndexedLookupTraceMLE<P>> = Vec::with_capacity(n);
        let mut k: usize = 0;
        while k < n
            invariant
                n == 2 * d,
                d == tables.decomp_len,
                self.vec_hadamard@.len() >= 2 * d,
                tables.tables@.len() >= d,
                self.log_coeff_count + self.log_num_poly <= usize::MAX,
                forall|i: int| 0 <= i < 2 * d ==> (#[trigger] self.vec_hadamard@[i]).bit.poly.wf(),
                forall|i: int, x: int|
                    0 <= i < 2 * d && 0 <= x < self.vec_hadamard@[i].bit.poly.evaluations@.len()
                        ==> (#[trigger] self.vec_hadamard@[i].bit.poly.evaluations@[x])@
                        < tables.tables@[i % (d as int)].evaluations@.len(),
                k <= 2 * d,
                r@.len() == k,
                forall|i: int|
                    0 <= i < k ==> {
                        let t = #[trigger] r@[i];
                        &&& t.num_input_vars == self.log_coeff_count + self.log_num_poly
                        &&& t.num_table_vars == tables.tables@[i % (d as int)].num_vars
                        &&& t.index == self.vec_hadamard@[i].bit.poly
                        &&& t.table == tables.tables@[i % (d as int)]
                        &&& t.table_point is None
                        &&& t.relation_holds()
                    },
            decreases 2 * d - k,
        {
            let j = if k < d { k } else { k - d };
            proof {
                if k < d {
                    vstd::arithmetic::div_mod::lemma_small_mod(k as nat, d as nat);
                } else {
                    vstd::arithmetic::div_mod::lemma_mod_sub_multiples_vanish(k as int, d as int);
                    vstd::arithmetic::div_mod::lemma_small_mod((k - d) as nat, d as nat);
                }
                assert(j == k % d);
            }
            let index = Rc::clone(&self.vec_hadamard[k].bit.poly);
            let input = tables.lookup(j, &index);
            let table = tables.get_table(j);
            let num_table_vars = tables.tables[j].num_vars;
            r.push(
                IndexedLookupTraceMLE {
                    num_input_vars: self.log_coeff_count + self.log_num_poly,
                    num_table_vars,
                    index,
                    input,
                    table,
                    table_point: None,
                },
            );
            k = k + 1;
        }
        r
    }
}


/// The coefficient-form columns of a Hadamard trace: the bit polynomials, then the two
/// polynomials of the ciphertexts.
pub open spec fn hadamard_packed<const P: u64>(h: HadamardTraceMLE<P>) -> Seq<Fp<P>> {
    h.bit.poly.evaluations@ + h.rlwe.poly.0.evaluations@ + h.rlwe.poly.1.evaluations@
}

/// The coefficient-form columns of a Hadamard trace before it is wrapped.
pub open spec fn hadamard_trace_packed<const P: u64>(h: HadamardTrace<P>) -> Seq<Fp<P>> {
    h.bit.poly@ + h.rlwe.poly.0@ + h.rlwe.poly.1@
}

/// The packed columns of every Hadamard trace, one trace after the other.
pub open spec fn all_hadamard_packed<const P: u64>(s: Seq<HadamardTraceMLE<P>>) -> Seq<Fp<P>>
    decreases s.len(),
{
    if s.len() == 0 {
        seq![]
    } else {
        all_hadamard_packed(s.drop_last()) + hadamard_packed(s.last())
    }
}

/// The packed columns of every Hadamard trace before they are wrapped.
pub open spec fn all_hadamard_trace_packed<const P: u64>(s: Seq<HadamardTrace<P>>) -> Seq<Fp<P>>
    decreases s.len(),
{
    if s.len() == 0 {
        seq![]
    } else {
        all_hadamard_trace_packed(s.drop_last()) + hadamard_trace_packed(s.last())
    }
}

impl<const P: u64> HadamardTraceMLE<P> {
    /// Appends the packed columns to `out`.
    fn append_packed(&self, out: &mut Vec<Fp<P>>)
        ensures
            final(out)@ == old(out)@ + hadamard_packed(*self),
    {
        super::rlwe_trace::extend_values(out, self.bit.poly.evaluations.as_slice());
        super::rlwe_trace::extend_values(out, self.rlwe.poly.0.evaluations.as_slice());
        super::rlwe_trace::extend_values(out, self.rlwe.poly.1.evaluations.as_slice());
        proof {
            assert(out@ =~= old(out)@ + hadamard_packed(*self));
        }
    }
}

impl<const P: u64> HadamardTrace<P> {
    /// Appends the packed columns to `out`.
    fn append_packed(&self, out: &mut Vec<Fp<P>>)
        ensures
            final(out)@ == old(out)@ + hadamard_trace_packed(*self),
    {
        super::rlwe_trace::extend_values(out, self.bit.poly.as_slice());
        super::rlwe_trace::extend_values(out, self.rlwe.poly.0.as_slice());
        super::rlwe_trace::extend_values(out, self.rlwe.poly.1.as_slice());
        proof {
            assert(out@ =~= old(out)@ + hadamard_trace_packed(*self));
        }
    }
}

impl<const P: u64> PackableTrace<P> for HadamardTraceMLE<P> {
    open spec fn packable(&self) -> bool {
        self.log_coeff_count + self.log_num_poly <= usize::MAX
    }

    open spec fn spec_num_vars(&self) -> nat {
        (self.log_coeff_count + self.log_num_poly) as nat
    }

    open spec fn spec_num_oracles(&self) -> nat {
        3
    }

    open spec fn spec_packed(&self) -> Seq<Fp<P>> {
        hadamard_packed(*self)
    }

    fn num_vars(&self) -> (r: usize) {
        self.log_coeff_count + self.log_num_poly
    }

    fn num_oracles(&self) -> (r: usize) {
        3
    }

    fn pack_to_vec(&self) -> (r: Vec<Fp<P>>) {
        let mut r: Vec<Fp<P>> = Vec::new();
        self.append_packed(&mut r);
        r
    }
}

impl<const P: u64> PackableTrace<P> for HadamardTrace<P> {
    open spec fn packable(&self) -> bool {
        self.log_coeff_count + self.log_num_poly <= usize::MAX
    }

    open spec fn spec_num_vars(&self) -> nat {
        (self.log_coeff_count + self.log_num_poly) as nat
    }

    open spec fn spec_num_oracles(&self) -> nat {
        3
    }

    open spec fn spec_packed(&self) -> Seq<Fp<P>> {
        hadamard_trace_packed(*self)
    }

    fn num_vars(&self) -> (r: usize) {
        self.log_coeff_count + self.log_num_poly
    }

    fn num_oracles(&self) -> (r: usize) {
        3
    }

    fn pack_to_vec(&self) -> (r: Vec<Fp<P>>) {
        let mut r: Vec<Fp<P>> = Vec::new();
        self.append_packed(&mut r);
        r
    }
}

impl<const P: u64> PackableTrace<P> for SumHadamardTraceMLE<P> {
    open spec fn packable(&self) -> bool {
        &&& self.log_coeff_count + self.log_num_poly <= usize::MAX
        &&& self.vec_hadamard@.len() > 0
        &&& self.num_hadamard * 3 + 2 <= usize::MAX
    }

    open spec fn spec_num_vars(&self) -> nat {
        (self.log_coeff_count + self.log_num_poly) as nat
    }

    /// Three oracles per Hadamard trace and two for the sum.
    open spec fn spec_num_oracles(&self) -> nat {
        (self.num_hadamard * 3 + 2) as nat
    }

    /// The packed Hadamard traces, then the two coefficient-form columns of the sum.
    open spec fn spec_packed(&self) -> Seq<Fp<P>> {
        all_hadamard_packed(self.vec_hadamard@) + self.sum_prod.poly.0.evaluations@
            + self.sum_prod.poly.1.evaluations@
    }

    fn num_vars(&self) -> (r: usize) {
        self.log_coeff_count + self.log_num_poly
    }

    fn num_oracles(&self) -> (r: usize) {
        self.num_hadamard * 3 + 2
    }

    fn pack_to_vec(&self) -> (r: Vec<Fp<P>>) {
        let mut r: Vec<Fp<P>> = Vec::new();
        let mut i: usize = 0;
        while i < self.vec_hadamard.len()
            invariant
                i <= self.vec_hadamard@.len(),
                r@ == all_hadamard_packed(self.vec_hadamard@.take(i as int)),
            decreases self.vec_hadamard@.len() - i,
        {
            self.vec_hadamard[i].append_packed(&mut r);
            proof {
                assert(self.vec_hadamard@.take(i + 1).drop_last() =~= self.vec_hadamard@.take(i as int));
            }
            i = i + 1;
        }
        proof {
            assert(self.vec_hadamard@.take(self.vec_hadamard@.len() as int) =~= self.vec_hadamard@);
        }
        super::rlwe_trace::extend_values(&mut r, self.sum_prod.poly.0.evaluations.as_slice());
        super::rlwe_trace::extend_values(&mut r, self.sum_prod.poly.1.evaluations.as_slice());
        r
    }
}

impl<const P: u64> PackableTrace<P> for SumHadamardTrace<P> {
    open spec fn packable(&self) -> bool {
        &&& self.log_coeff_count + self.log_num_poly <= usize::MAX
        &&& self.vec_hadamard@.len() > 0
        &&& self.num_hadamard * 3 + 2 <= usize::MAX
    }

    open spec fn spec_num_vars(&self) -> nat {
        (self.log_coeff_count + self.log_num_poly) as nat
    }

    /// Three oracles per Hadamard trace and two for the sum.
    open spec fn spec_num_oracles(&self) -> nat {
        (self.num_hadamard * 3 + 2) as nat
    }

    /// The packed Hadamard traces, then the two coefficient-form columns of the sum.
    open spec fn spec_packed(&self) -> Seq<Fp<P>> {
        all_hadamard_trace_packed(self.vec_hadamard@) + self.sum_prod.poly.0@ + self.sum_prod.poly.1@
    }

    fn num_vars(&self) -> (r: usize) {
        self.log_coeff_count + self.log_num_poly
    }

    fn num_oracles(&self) -> (r: usize) {
        self.num_hadamard * 3 + 2
    }

    fn pack_to_vec(&self) -> (r: Vec<Fp<P>>) {
        let mut r: Vec<Fp<P>> = Vec::new();
        let mut i: usize = 0;
        while i < self.vec_hadamard.len()
            invariant
                i <= self.vec_hadamard@.len(),
                r@ == all_hadamard_trace_packed(self.vec_hadamard@.take(i as int)),
            decreases self.vec_hadamard@.len() - i,
        {
            self.vec_hadamard[i].append_packed(&mut r);
            proof {
                assert(self.vec_hadamard@.take(i + 1).drop_last() =~= self.vec_hadamard@.take(i as int));
            }
            i = i + 1;
        }
        proof {
            assert(self.vec_hadamard@.take(self.vec_hadamard@.len() as int) =~= self.vec_hadamard@);
        }
        super::rlwe_trace::extend_values(&mut r, self.sum_prod.poly.0.as_slice());
        super::rlwe_trace::extend_values(&mut r, self.sum_prod.poly.1.as_slice());
        r
    }
}

/// The NTT-form values of a Hadamard evaluation: the bit, then the ciphertext.
pub open spec fn eval_ntt_values<const P: u64>(e: HadamardTraceEval<P>) -> Seq<Fp<P>> {
    seq![e.bit.ntt, e.rlwe.ntt.0, e.rlwe.ntt.1]
}

/// The coefficient-form values of a Hadamard evaluation: the bit, then the ciphertext.
pub open spec fn eval_poly_values<const P: u64>(e: HadamardTraceEval<P>) -> Seq<Fp<P>> {
    seq![e.bit.poly, e.rlwe.poly.0, e.rlwe.poly.1]
}

/// The NTT-form values of every evaluation, one after the other.
pub open spec fn all_eval_ntt_values<const P: u64>(s: Seq<HadamardTraceEval<P>>) -> Seq<Fp<P>>
    decreases s.len(),
{
    if s.len() == 0 {
        seq![]
    } else {
        all_eval_ntt_values(s.drop_last()) + eval_ntt_values(s.last())
    }
}

/// The coefficient-form values of every evaluation, one after the other.
pub open spec fn all_eval_poly_values<const P: u64>(s: Seq<HadamardTraceEval<P>>) -> Seq<Fp<P>>
    decreases s.len(),
{
    if s.len() == 0 {
        seq![]
    } else {
        all_eval_poly_values(s.drop_last()) + eval_poly_values(s.last())
    }
}

impl<const P: u64> HadamardTraceEval<P> {
    /// The number of values: the bit and the two polynomials of the ciphertext.
    pub fn num_evals(&self) -> (r: usize)
        ensures
            r == 3,
    {
        3
    }

    /// The NTT-form values.
    pub fn pack_ntt_to_vec(&self) -> (r: Vec<Fp<P>>)
        ensures
            r@ == eval_ntt_values(*self),
    {
        let mut r: Vec<Fp<P>> = Vec::with_capacity(3);
        r.push(self.bit.ntt);
        r.push(self.rlwe.ntt.0);
        r.push(self.rlwe.ntt.1);
        proof {
            assert(r@ =~= eval_ntt_values(*self));
        }
        r
    }

    /// The coefficient-form values.
    pub fn pack_poly_to_vec(&self) -> (r: Vec<Fp<P>>)
        ensures
            r@ == eval_poly_values(*self),
    {
        let mut r: Vec<Fp<P>> = Vec::with_capacity(3);
        r.push(self.bit.poly);
        r.push(self.rlwe.poly.0);
        r.push(self.rlwe.poly.1);
        proof {
            assert(r@ =~= eval_poly_values(*self));
        }
        r
    }
}

impl<const P: u64> SumHadamardTraceEval<P> {
    /// The number of values: three per Hadamard trace and two for the sum.
    pub fn num_evals(&self) -> (r: usize)
        requires
            self.vec_hadamard@.len() > 0,
            3 * self.vec_hadamard@.len() + 2 <= usize::MAX,
        ensures
            r == 3 * self.vec_hadamard@.len() + 2,
    {
        self.vec_hadamard[0].num_evals() * self.vec_hadamard.len() + 2
    }

    /// The NTT-form values of every Hadamard evaluation, then of the sum.
    pub fn pack_ntt_to_vec(&self) -> (r: Vec<Fp<P>>)
        ensures
            r@ == all_eval_ntt_values(self.vec_hadamard@).push(self.sum_prod.ntt.0).push(self.sum_prod.ntt.1),
    {
        let mut r: Vec<Fp<P>> = Vec::new();
        let mut i: usize = 0;
        while i < self.vec_hadamard.len()
            invariant
                i <= self.vec_hadamard@.len(),
                r@ == all_eval_ntt_values(self.vec_hadamard@.take(i as int)),
            decreases self.vec_hadamard@.len() - i,
        {
            let part = self.vec_hadamard[i].pack_ntt_to_vec();
            super::rlwe_trace::extend_values(&mut r, part.as_slice());
            proof {
                assert(self.vec_hadamard@.take(i + 1).drop_last() =~= self.vec_hadamard@.take(i as int));
            }
            i = i + 1;
        }
        proof {
            assert(self.vec_hadamard@.take(self.vec_hadamard@.len() as int) =~= self.vec_hadamard@);
        }
        r.push(self.sum_prod.ntt.0);
        r.push(self.sum_prod.ntt.1);
        r
    }

    /// The coefficient-form values of every Hadamard evaluation, then of the sum.
    pub fn pack_poly_to_vec(&self) -> (r: Vec<Fp<P>>)
        ensures
            r@ == all_eval_poly_values(self.vec_hadamard@).push(self.sum_prod.poly.0).push(self.sum_prod.poly.1),
    {
        let mut r: Vec<Fp<P>> = Vec::new();
        let mut i: usize = 0;
        while i < self.vec_hadamard.len()
            invariant
                i <= self.vec_hadamard@.len(),
                r@ == all_eval_poly_values(self.vec_hadamard@.take(i as int)),
            decreases self.vec_hadamard@.len() - i,
        {
            let part = self.vec_hadamard[i].pack_poly_to_vec();
            super::rlwe_trace::extend_values(&mut r, part.as_slice());
            proof {
                assert(self.vec_hadamard@.take(i + 1).drop_last() =~= self.vec_hadamard@.take(i as int));
            }
            i = i + 1;
        }
        proof {
            assert(self.vec_hadamard@.take(self.vec_hadamard@.len() as int) =~= self.vec_hadamard@);
        }
        r.push(self.sum_prod.poly.0);
        r.push(self.sum_prod.poly.1);
        r
    }
}


/// The bit polynomials of the Hadamard traces, one after the other.
pub open spec fn all_bit_packed<const P: u64>(s: Seq<HadamardTrace<P>>) -> Seq<Fp<P>>
    decreases s.len(),
{
    if s.len() == 0 {
        seq![]
    } else {
        all_bit_packed(s.drop_last()) + s.last().bit.poly@
    }
}

/// The ciphertexts of the Hadamard traces, one after the other.
pub open spec fn all_key_packed<const P: u64>(s: Seq<HadamardTrace<P>>) -> Seq<Fp<P>>
    decreases s.len(),
{
    if s.len() == 0 {
        seq![]
    } else {
        all_key_packed(s.drop_last()) + s.last().rlwe.poly.0@ + s.last().rlwe.poly.1@
    }
}

impl<const P: u64> SeparatelyPackableTrace<P> for HadamardTrace<P> {
    /// The bit polynomial.
    open spec fn spec_num_bit_oracles(&self) -> nat {
        1
    }

    /// The two polynomials of the ciphertext.
    open spec fn spec_num_key_oracles(&self) -> nat {
        2
    }

    open spec fn spec_packed_bits(&self) -> Seq<Fp<P>> {
        self.bit.poly@
    }

    open spec fn spec_packed_keys(&self) -> Seq<Fp<P>> {
        self.rlwe.poly.0@ + self.rlwe.poly.1@
    }

    fn num_bit_oracles(&self) -> (r: usize) {
        1
    }

    fn num_key_oracles(&self) -> (r: usize) {
        2
    }

    fn pack_bit_to_vec(&self) -> (r: Vec<Fp<P>>) {
        crate::packing::copy_values(&self.bit.poly)
    }

    fn pack_key_to_vec(&self) -> (r: Vec<Fp<P>>) {
        let mut r = crate::packing::copy_values(&self.rlwe.poly.0);
        super::rlwe_trace::extend_values(&mut r, self.rlwe.poly.1.as_slice());
        r
    }
}

impl<const P: u64> SeparatelyPackableTrace<P> for SumHadamardTrace<P> {
    /// The bit polynomial of every Hadamard trace and the two polynomials of the sum.
    open spec fn spec_num_bit_oracles(&self) -> nat {
        (self.num_hadamard + 2) as nat
    }

    /// The two polynomials of every ciphertext.
    open spec fn spec_num_key_oracles(&self) -> nat {
        (self.num_hadamard * 2) as nat
    }

    open spec fn spec_packed_bits(&self) -> Seq<Fp<P>> {
        all_bit_packed(self.vec_hadamard@) + self.sum_prod.poly.0@ + self.sum_prod.poly.1@
    }

    open spec fn spec_packed_keys(&self) -> Seq<Fp<P>> {
        all_key_packed(self.vec_hadamard@)
    }

    fn num_bit_oracles(&self) -> (r: usize) {
        self.num_hadamard + 2
    }

    fn num_key_oracles(&self) -> (r: usize) {
        self.num_hadamard * 2
    }

    fn pack_bit_to_vec(&self) -> (r: Vec<Fp<P>>) {
        let mut r: Vec<Fp<P>> = Vec::new();
        let mut i: usize = 0;
        while i < self.vec_hadamard.len()
            invariant
                i <= self.vec_hadamard@.len(),
                r@ == all_bit_packed(self.vec_hadamard@.take(i as int)),
            decreases self.vec_hadamard@.len() - i,
        {
            super::rlwe_trace::extend_values(&mut r, self.vec_hadamard[i].bit.poly.as_slice());
            proof {
                assert(self.vec_hadamard@.take(i + 1).drop_last() =~= self.vec_hadamard@.take(i as int));
            }
            i = i + 1;
        }
        proof {
            assert(self.vec_hadamard@.take(self.vec_hadamard@.len() as int) =~= self.vec_hadamard@);
        }
        super::rlwe_trace::extend_values(&mut r, self.sum_prod.poly.0.as_slice());
        super::rlwe_trace::extend_values(&mut r, self.sum_prod.poly.1.as_slice());
        r
    }

    fn pack_key_to_vec(&self) -> (r: Vec<Fp<P>>) {
        let mut r: Vec<Fp<P>> = Vec::new();
        let mut i: usize = 0;
        while i < self.vec_hadamard.len()
            invariant
                i <= self.vec_hadamard@.len(),
                r@ == all_key_packed(self.vec_hadamard@.take(i as int)),
            decreases self.vec_hadamard@.len() - i,
        {
            super::rlwe_trace::extend_values(&mut r, self.vec_hadamard[i].rlwe.poly.0.as_slice());
            super::rlwe_trace::extend_values(&mut r, self.vec_hadamard[i].rlwe.poly.1.as_slice());
            proof {
                assert(self.vec_hadamard@.take(i + 1).drop_last() =~= self.vec_hadamard@.take(i as int));
            }
            i = i + 1;
        }
        proof {
            assert(self.vec_hadamard@.take(self.vec_hadamard@.len() as int) =~= self.vec_hadamard@);
        }
        r
    }
}

/// The NTT-form bit values of every evaluation, one after the other.
pub open spec fn all_eval_bit_ntt<const P: u64>(s: Seq<HadamardTraceEval<P>>) -> Seq<Fp<P>>
    decreases s.len(),
{
    if s.len() == 0 {
        seq![]
    } else {
        all_eval_bit_ntt(s.drop_last()).push(s.last().bit.ntt)
    }
}

/// The NTT-form ciphertext values of every evaluation, one after the other.
pub open spec fn all_eval_key_ntt<const P: u64>(s: Seq<HadamardTraceEval<P>>) -> Seq<Fp<P>>
    decreases s.len(),
{
    if s.len() == 0 {
        seq![]
    } else {
        all_eval_key_ntt(s.drop_last()).push(s.last().rlwe.ntt.0).push(s.last().rlwe.ntt.1)
    }
}

impl<const P: u64> SeparatelyPackableEval<P> for HadamardTraceEval<P> {
    open spec fn eval_separable(&self) -> bool {
        true
    }

    open spec fn spec_num_bit_evals(&self) -> nat {
        1
    }

    open spec fn spec_num_key_evals(&self) -> nat {
        2
    }

    open spec fn spec_bit_ntt(&self) -> Seq<Fp<P>> {
        seq![self.bit.ntt]
    }

    open spec fn spec_key_ntt(&self) -> Seq<Fp<P>> {
        seq![self.rlwe.ntt.0, self.rlwe.ntt.1]
    }

    fn num_bit_evals(&self) -> (r: usize) {
        1
    }

    fn num_key_evals(&self) -> (r: usize) {
        2
    }

    fn pack_bit_ntt_to_vec(&self) -> (r: Vec<Fp<P>>) {
        let mut r: Vec<Fp<P>> = Vec::with_capacity(1);
        r.push(self.bit.ntt);
        proof {
            assert(r@ =~= seq![self.bit.ntt]);
        }
        r
    }

    fn pack_key_ntt_to_vec(&self) -> (r: Vec<Fp<P>>) {
        let mut r: Vec<Fp<P>> = Vec::with_capacity(2);
        r.push(self.rlwe.ntt.0);
        r.push(self.rlwe.ntt.1);
        proof {
            assert(r@ =~= seq![self.rlwe.ntt.0, self.rlwe.ntt.1]);
        }
        r
    }
}

impl<const P: u64> SeparatelyPackableEval<P> for SumHadamardTraceEval<P> {
    open spec fn eval_separable(&self) -> bool {
        &&& self.vec_hadamard@.len() > 0
        &&& 2 * self.vec_hadamard@.len() + 2 <= usize::MAX
    }

    /// The bit of every evaluation and the two polynomials of the sum.
    open spec fn spec_num_bit_evals(&self) -> nat {
        self.vec_hadamard@.len() + 2
    }

    /// The two polynomials of every ciphertext.
    open spec fn spec_num_key_evals(&self) -> nat {
        2 * self.vec_hadamard@.len()
    }

    open spec fn spec_bit_ntt(&self) -> Seq<Fp<P>> {
        all_eval_bit_ntt(self.vec_hadamard@).push(self.sum_prod.ntt.0).push(self.sum_prod.ntt.1)
    }

    open spec fn spec_key_ntt(&self) -> Seq<Fp<P>> {
        all_eval_key_ntt(self.vec_hadamard@)
    }

    fn num_bit_evals(&self) -> (r: usize) {
        self.vec_hadamard[0].num_bit_evals() * self.vec_hadamard.len() + 2
    }

    fn num_key_evals(&self) -> (r: usize) {
        self.vec_hadamard[0].num_key_evals() * self.vec_hadamard.len()
    }

    fn pack_bit_ntt_to_vec(&self) -> (r: Vec<Fp<P>>) {
        let mut r: Vec<Fp<P>> = Vec::new();
        let mut i: usize = 0;
        while i < self.vec_hadamard.len()
            invariant
                i <= self.vec_hadamard@.len(),
                r@ == all_eval_bit_ntt(self.vec_hadamard@.take(i as int)),
            decreases self.vec_hadamard@.len() - i,
        {
            r.push(self.vec_hadamard[i].bit.ntt);
            proof {
                assert(self.vec_hadamard@.take(i + 1).drop_last() =~= self.vec_hadamard@.take(i as int));
            }
            i = i + 1;
        }
        proof {
            assert(self.vec_hadamard@.take(self.vec_hadamard@.len() as int) =~= self.vec_hadamard@);
        }
        r.push(self.sum_prod.ntt.0);
        r.push(self.sum_prod.ntt.1);
        r
    }

    fn pack_key_ntt_to_vec(&self) -> (r: Vec<Fp<P>>) {
        let mut r: Vec<Fp<P>> = Vec::new();
        let mut i: usize = 0;
        while i < self.vec_hadamard.len()
            invariant
                i <= self.vec_hadamard@.len(),
                r@ == all_eval_key_ntt(self.vec_hadamard@.take(i as int)),
            decreases self.vec_hadamard@.len() - i,
        {
            r.push(self.vec_hadamard[i].rlwe.ntt.0);
            r.push(self.vec_hadamard[i].rlwe.ntt.1);
            proof {
                assert(self.vec_hadamard@.take(i + 1).drop_last() =~= self.vec_hadamard@.take(i as int));
            }
            i = i + 1;
        }
        proof {
            assert(self.vec_hadamard@.take(self.vec_hadamard@.len() as int) =~= self.vec_hadamard@);
        }
        r
    }
}

} // verus!
