//! The trace of number-theoretic transforms: `2^log_num_ntt` polynomials of
//! `2^log_coeff_count` coefficients and their NTT evaluations, with the table of root
//! powers of the transform.
use super::rlwe_trace::{MonomialTrace, MonomialTraceMLE};
use crate::field::Fp;
use crate::mle::DenseMultilinearExtension;
use crate::packing::{copy_values, PackableTrace};
use std::rc::Rc;
use vstd::arithmetic::power2::*;
use vstd::prelude::*;

verus! {

/// Polynomials in coefficient form and their NTT evaluations.
#[derive(Debug)]
pub struct NTTTrace<const P: u64> {
    pub log_coeff_count: usize,
    pub log_num_ntt: usize,
    pub ntt_table: Vec<Fp<P>>,
    pub coefficients: Vec<Fp<P>>,
    pub evaluations: Vec<Fp<P>>,
    pub is_monomial: Option<MonomialTrace<P>>,
}

/// An NTT instance to be proved: the columns of an NTT trace as multilinear extensions.
#[derive(Debug)]
pub struct NTTTraceMLE<const P: u64> {
    pub log_coeff_count: usize,
    pub log_num_ntt: usize,
    pub ntt_table: Rc<Vec<Fp<P>>>,
    pub coefficients: Rc<DenseMultilinearExtension<P>>,
    pub evaluations: Rc<DenseMultilinearExtension<P>>,
    pub is_monomial: Option<MonomialTraceMLE<P>>,
}

impl<const P: u64> NTTTrace<P> {
    /// An empty trace with the given table of root powers.
    pub fn new(log_coeff_count: usize, log_num_ntt: usize, ntt_table: Vec<Fp<P>>) -> (r: Self)
        ensures
            r.log_coeff_count == log_coeff_count,
            r.log_num_ntt == log_num_ntt,
            r.ntt_table@ == ntt_table@,
            r.coefficients@.len() == 0,
            r.evaluations@.len() == 0,
            r.is_monomial is None,
    {
        NTTTrace {
            log_coeff_count,
            log_num_ntt,
            ntt_table,
            coefficients: Vec::new(),
            evaluations: Vec::new(),
            is_monomial: None,
        }
    }

    /// The coefficients, the polynomial that is committed to.
    pub fn get_commit_poly(&self) -> (r: DenseMultilinearExtension<P>)
        requires
            self.log_coeff_count + self.log_num_ntt <= usize::MAX,
            self.coefficients@.len() == pow2((self.log_coeff_count + self.log_num_ntt) as nat),
        ensures
            r.wf(),
            r.num_vars == self.log_coeff_count + self.log_num_ntt,
            r.evaluations@ == self.coefficients@,
    {
        DenseMultilinearExtension::from_evaluations_vec(
            self.log_coeff_count + self.log_num_ntt,
            copy_values(&self.coefficients),
        )
    }
}

impl<const P: u64> NTTTraceMLE<P> {
    /// Converts an NTT trace into an NTT instance.
    pub fn from_trace(trace: NTTTrace<P>) -> (r: Self)
        requires
            trace.log_coeff_count + trace.log_num_ntt <= usize::MAX,
            trace.coefficients@.len() == pow2((trace.log_coeff_count + trace.log_num_ntt) as nat),
            trace.evaluations@.len() == pow2((trace.log_coeff_count + trace.log_num_ntt) as nat),
            trace.is_monomial matches Some(m) ==> m.complete(),
        ensures
            r.log_coeff_count == trace.log_coeff_count,
            r.log_num_ntt == trace.log_num_ntt,
            *r.ntt_table == trace.ntt_table,
            r.coefficients.wf(),
            r.coefficients.num_vars == trace.log_coeff_count + trace.log_num_ntt,
            r.coefficients.evaluations@ == trace.coefficients@,
            r.evaluations.wf(),
            r.evaluations.num_vars == trace.log_coeff_count + trace.log_num_ntt,
            r.evaluations.evaluations@ == trace.evaluations@,
            r.is_monomial is Some <==> trace.is_monomial is Some,
            r.is_monomial matches Some(m) ==> {
                &&& m.wf()
                &&& m.log_num_poly == trace.is_monomial->0.log_num_poly
                &&& m.degree.evaluations@ == trace.is_monomial->0.degree@
                &&& m.coefficient.evaluations@ == trace.is_monomial->0.coefficient@
            },
    {
        let NTTTrace { log_coeff_count, log_num_ntt, ntt_table, coefficients, evaluations, is_monomial } = trace;
        let num_vars = log_coeff_count + log_num_ntt;
        let is_monomial = match is_monomial {
            Some(m) => Some(MonomialTraceMLE::from_trace(m)),
            None => None,
        };
        NTTTraceMLE {
            log_coeff_count,
            log_num_ntt,
            ntt_table: Rc::new(ntt_table),
            coefficients: Rc::new(DenseMultilinearExtension::from_evaluations_vec(num_vars, coefficients)),
            evaluations: Rc::new(DenseMultilinearExtension::from_evaluations_vec(num_vars, evaluations)),
            is_monomial,
        }
    }
}

impl<const P: u64> PackableTrace<P> for NTTTraceMLE<P> {
    open spec fn packable(&self) -> bool {
        self.log_coeff_count + self.log_num_ntt <= usize::MAX
    }

    open spec fn spec_num_vars(&self) -> nat {
        (self.log_coeff_count + self.log_num_ntt) as nat
    }

    /// Only the coefficients are committed to.
    open spec fn spec_num_oracles(&self) -> nat {
        1
    }

    open spec fn spec_packed(&self) -> Seq<Fp<P>> {
        self.coefficients.evaluations@
    }

    fn num_vars(&self) -> (r: usize) {
        self.log_coeff_count + self.log_num_ntt
    }

    fn num_oracles(&self) -> (r: usize) {
        1
    }

    fn pack_to_vec(&self) -> (r: Vec<Fp<P>>) {
        copy_values(&self.coefficients.evaluations)
    }
}

} // verus!
