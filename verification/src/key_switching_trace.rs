//! The trace of a key switching: the decomposed polynomials, the Hadamard products of
//! their limbs with the key, an optional row permutation and the comparison tables that
//! range check the limbs.
use crate::basic_ops::decomp_trace::DecompTraceMLE;
use crate::basic_ops::hadamard_trace::{SumHadamardTrace, SumHadamardTraceMLE};
use crate::basic_ops::rlwe_trace::{PolynomialTrace, PolynomialTraceMLE};
use crate::basic_ops::row_perm_trace::{RowPermTrace, RowPermTraceMLE};
use crate::comparison::lt_trace::{LTTables, LTTablesMLE};
use std::rc::Rc;
use vstd::arithmetic::power2::*;
use vstd::prelude::*;

verus! {

/// The columns of a key switching.
#[derive(Debug)]
pub struct KeySwitchingTrace<const P: u64> {
    pub log_lwe_dim: usize,
    pub log_rlwe_dim: usize,
    pub log_coeff_count: usize,
    /// the number of batched traces, as a power of two
    pub log_trace: usize,
    pub decomposed_polys: Vec<PolynomialTrace<P>>,
    pub hadamard_trace: SumHadamardTrace<P>,
    pub permutation_trace: Option<RowPermTrace<P>>,
    pub lt_tables: LTTables<P>,
}

/// The columns of a key switching as multilinear extensions.
#[derive(Debug)]
pub struct KeySwitchingTraceMLE<const P: u64> {
    pub log_lwe_dim: usize,
    pub log_rlwe_dim: usize,
    pub log_coeff_count: usize,
    pub log_trace: usize,
    pub decomposed_polys: Vec<PolynomialTraceMLE<P>>,
    pub hadamard_trace: SumHadamardTraceMLE<P>,
    pub permutation_trace: Option<RowPermTraceMLE<P>>,
    pub lt_tables: LTTablesMLE<P>,
}

impl<const P: u64> KeySwitchingTraceMLE<P> {
    /// Wraps every column of a key switching into a multilinear extension.
    pub fn from_trace(trace: KeySwitchingTrace<P>) -> (r: Self)
        requires
            forall|i: int| 0 <= i < trace.decomposed_polys@.len() ==> (#[trigger] trace.decomposed_polys@[i]).complete(),
            forall|i: int|
                0 <= i < trace.hadamard_trace.vec_hadamard@.len() ==> (
                #[trigger] trace.hadamard_trace.vec_hadamard@[i]).complete(),
            trace.hadamard_trace.sum_prod.complete(),
            trace.permutation_trace matches Some(t) ==> {
                &&& t.input@.len() == pow2((t.log_num_rows + t.log_num_cols) as nat)
                &&& t.output@.len() == pow2((t.log_num_rows + t.log_num_cols) as nat)
                &&& t.log_num_rows + t.log_num_cols <= usize::MAX
            },
            trace.lt_tables.wf(),
        ensures
            r.log_lwe_dim == trace.log_lwe_dim,
            r.log_rlwe_dim == trace.log_rlwe_dim,
            r.log_coeff_count == trace.log_coeff_count,
            r.log_trace == trace.log_trace,
            r.decomposed_polys@.len() == trace.decomposed_polys@.len(),
            forall|i: int|
                0 <= i < trace.decomposed_polys@.len() ==> {
                    &&& (#[trigger] r.decomposed_polys@[i]).wf()
                    &&& r.decomposed_polys@[i].represents(trace.decomposed_polys@[i])
                },
            r.hadamard_trace.num_hadamard == trace.hadamard_trace.num_hadamard,
            r.hadamard_trace.vec_hadamard@.len() == trace.hadamard_trace.vec_hadamard@.len(),
            forall|i: int|
                0 <= i < trace.hadamard_trace.vec_hadamard@.len() ==> (
                #[trigger] r.hadamard_trace.vec_hadamard@[i]).represents(trace.hadamard_trace.vec_hadamard@[i]),
            r.hadamard_trace.sum_prod.represents(trace.hadamard_trace.sum_prod),
            r.permutation_trace is Some <==> trace.permutation_trace is Some,
            r.permutation_trace matches Some(m) ==> {
                &&& m.input.evaluations@ == trace.permutation_trace->0.input@
                &&& m.output.evaluations@ == trace.permutation_trace->0.output@
                &&& m.permutation_info == trace.permutation_trace->0.permutation_info
            },
            r.lt_tables.lt_constant == trace.lt_tables.lt_constant,
            r.lt_tables.basis_bits == trace.lt_tables.basis_bits,
            r.lt_tables.decomp_len == trace.lt_tables.decomp_len,
            r.lt_tables.same_tables(trace.lt_tables),
    {
        let KeySwitchingTrace {
            log_lwe_dim,
            log_rlwe_dim,
            log_coeff_count,
            log_trace,
            decomposed_polys,
            hadamard_trace,
            permutation_trace,
            lt_tables,
        } = trace;
        let mut rest = decomposed_polys;
        let ghost start = rest@;
        let n = rest.len();
        let mut polys: Vec<PolynomialTraceMLE<P>> = Vec::with_capacity(n);
        let mut i: usize = 0;
        while i < n
            invariant
                n == start.len(),
                i <= n,
                rest@ == start.subrange(i as int, n as int),
                forall|k: int| 0 <= k < n ==> (#[trigger] start[k]).complete(),
                polys@.len() == i,
                forall|k: int|
                    0 <= k < i ==> {
                        &&& (#[trigger] polys@[k]).wf()
                        &&& polys@[k].represents(start[k])
                    },
            decreases n - i,
        {
            proof {
                assert(rest@[0] == start[i as int]);
            }
            let p = rest.remove(0);
            polys.push(PolynomialTraceMLE::from_trace(p));
            i = i + 1;
            proof {
                assert(rest@ =~= start.subrange(i as int, n as int));
            }
        }
        let permutation_trace = match permutation_trace {
            Some(t) => Some(RowPermTraceMLE::from_trace(t)),
            None => None,
        };
        KeySwitchingTraceMLE {
            log_lwe_dim,
            log_rlwe_dim,
            log_coeff_count,
            log_trace,
            decomposed_polys: polys,
            hadamard_trace: SumHadamardTraceMLE::from_trace(hadamard_trace),
            permutation_trace,
            lt_tables: LTTablesMLE::from_tables(lt_tables),
        }
    }

    /// One decomposition per decomposed polynomial: its limbs are the bit polynomials of
    /// the next `decomp_len` Hadamard products, in order.
    pub fn extract_decomposition_traces(&self) -> (r: Vec<DecompTraceMLE<P>>)
        requires
            self.hadamard_trace.vec_hadamard@.len() == self.lt_tables.decomp_len * self.decomposed_polys@.len(),
            self.log_coeff_count + self.log_trace <= usize::MAX,
        ensures
            r@.len() == self.decomposed_polys@.len(),
            forall|i: int|
                0 <= i < r@.len() ==> {
                    let t = #[trigger] r@[i];
                    &&& t.log_num == self.log_coeff_count + self.log_trace
                    &&& t.basis_bits == self.lt_tables.basis_bits
                    &&& t.decomp_len == self.lt_tables.decomp_len
                    &&& t.input == self.decomposed_polys@[i].poly
                    &&& t.bits@.len() == self.lt_tables.decomp_len
                    &&& forall|k: int|
                        0 <= k < self.lt_tables.decomp_len ==> #[trigger] t.bits@[k]
                            == self.hadamard_trace.vec_hadamard@[i * self.lt_tables.decomp_len + k].bit.poly
                },
    {
        let log_num = self.log_coeff_count + self.log_trace;
        let d = self.lt_tables.decomp_len;
        let n = self.decomposed_polys.len();
        let ghost hs = self.hadamard_trace.vec_hadamard@;
        let total = self.hadamard_trace.vec_hadamard.len();
        let mut r: Vec<DecompTraceMLE<P>> = Vec::with_capacity(n);
        let mut i: usize = 0;
        while i < n
            invariant
                n == self.decomposed_polys@.len(),
                d == self.lt_tables.decomp_len,
                hs == self.hadamard_trace.vec_hadamard@,
                hs.len() == d * n,
                total == hs.len(),
                log_num == self.log_coeff_count + self.log_trace,
                i <= n,
                r@.len() == i,
                forall|j: int|
                    0 <= j < i ==> {
                        let t = #[trigger] r@[j];
                        &&& t.log_num == log_num
                        &&& t.basis_bits == self.lt_tables.basis_bits
                        &&& t.decomp_len == d
                        &&& t.input == self.decomposed_polys@[j].poly
                        &&& t.bits@.len() == d
                        &&& forall|k: int| 0 <= k < d ==> #[trigger] t.bits@[k] == hs[j * d + k].bit.poly
                    },
            decreases n - i,
        {
            proof {
                assert((i + 1) * d <= d * n) by (nonlinear_arith)
                    requires
                        i < n,
                ;
                assert(i * d + d == (i + 1) * d) by (nonlinear_arith);
                assert(i * d <= (i + 1) * d) by (nonlinear_arith);
            }
            let base = i * d;
            let mut bits: Vec<Rc<crate::mle::DenseMultilinearExtension<P>>> = Vec::with_capacity(d);
            let mut k: usize = 0;
            while k < d
                invariant
                    hs == self.hadamard_trace.vec_hadamard@,
                    base + d <= hs.len(),
                    total == hs.len(),
                    k <= d,
                    bits@.len() == k,
                    forall|m: int| 0 <= m < k ==> #[trigger] bits@[m] == hs[base + m].bit.poly,
                decreases d - k,
            {
                bits.push(Rc::clone(&self.hadamard_trace.vec_hadamard[base + k].bit.poly));
                k = k + 1;
            }
            r.push(
                DecompTraceMLE {
                    log_num,
                    basis_bits: self.lt_tables.basis_bits,
                    decomp_len: d,
                    bits,
                    input: Rc::clone(&self.decomposed_polys[i].poly),
                },
            );
            i = i + 1;
        }
        r
    }
}

} // verus!
