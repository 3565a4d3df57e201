//! Traces of polynomials, RLWE ciphertexts and monomials.
//!
//! A polynomial trace holds `2^log_num_poly` polynomials of `2^log_coeff_count`
//! coefficients, one after the other, each both in coefficient form and in NTT form; an
//! RLWE trace holds the two polynomials of each ciphertext in two such columns.
use crate::field::Fp;
use crate::mle::DenseMultilinearExtension;
use crate::packing::PackableTrace;
use std::rc::Rc;
use vstd::arithmetic::power2::*;
use vstd::prelude::*;

verus! {

/// Polynomials in coefficient form and in NTT form.
#[derive(Clone, Debug)]
pub struct PolynomialTrace<const P: u64> {
    pub log_coeff_count: usize,
    pub log_num_poly: usize,
    pub poly: Vec<Fp<P>>,
    pub ntt: Vec<Fp<P>>,
}

/// The columns of a polynomial trace as multilinear extensions.
#[derive(Debug)]
pub struct PolynomialTraceMLE<const P: u64> {
    pub log_coeff_count: usize,
    pub log_num_poly: usize,
    pub poly: Rc<DenseMultilinearExtension<P>>,
    pub ntt: Rc<DenseMultilinearExtension<P>>,
}

/// The values of the two columns of a polynomial trace at a point.
#[derive(Clone, Copy, Debug)]
pub struct PolynomialEval<const P: u64> {
    pub poly: Fp<P>,
    pub ntt: Fp<P>,
}

/// Monomials `coefficient * X^degree`, one per polynomial.
#[derive(Clone, Debug)]
pub struct MonomialTrace<const P: u64> {
    pub log_num_poly: usize,
    pub degree: Vec<Fp<P>>,
    pub coefficient: Vec<Fp<P>>,
}

/// The columns of a monomial trace as multilinear extensions.
#[derive(Clone, Debug)]
pub struct MonomialTraceMLE<const P: u64> {
    pub log_num_poly: usize,
    pub degree: Rc<DenseMultilinearExtension<P>>,
    pub coefficient: Rc<DenseMultilinearExtension<P>>,
}

/// The values of the two columns of a monomial trace at a point.
#[derive(Clone, Copy, Debug)]
pub struct MonomialEval<const P: u64> {
    pub degree: Fp<P>,
    pub coefficient: Fp<P>,
}

/// RLWE ciphertexts `(a, b)` in coefficient form and in NTT form.
#[derive(Debug)]
pub struct RLWETrace<const P: u64> {
    pub log_coeff_count: usize,
    pub log_num_poly: usize,
    pub poly: (Vec<Fp<P>>, Vec<Fp<P>>),
    pub ntt: (Vec<Fp<P>>, Vec<Fp<P>>),
}

/// The columns of an RLWE trace as multilinear extensions.
#[derive(Debug)]
pub struct RLWETraceMLE<const P: u64> {
    pub log_coeff_count: usize,
    pub log_num_poly: usize,
    pub poly: (Rc<DenseMultilinearExtension<P>>, Rc<DenseMultilinearExtension<P>>),
    pub ntt: (Rc<DenseMultilinearExtension<P>>, Rc<DenseMultilinearExtension<P>>),
}

/// The values of the four columns of an RLWE trace at a point.
#[derive(Clone, Copy, Debug)]
pub struct RLWEEval<const P: u64> {
    pub poly: (Fp<P>, Fp<P>),
    pub ntt: (Fp<P>, Fp<P>),
}

/// `n` is a power of two.
pub open spec fn is_pow2(n: nat) -> bool {
    exists|k: nat| pow2(k) == n
}

/// Whether `n` is a power of two.
pub fn is_power_of_two(n: usize) -> (r: bool)
    requires
        n <= pow2((usize::BITS - 1) as nat),
    ensures
        r == is_pow2(n as nat),
{
    proof {
        lemma2_to64();
    }
    let k = crate::lookup_trace::normal_table::ceil_log2(n);
    let p = crate::basis::pow2_usize(k);
    proof {
        if p != n {
            assert forall|j: nat| pow2(j) != n by {
                if j < k {
                    if j < k - 1 {
                        lemma_pow2_strictly_increases(j, (k - 1) as nat);
                    }
                } else if j > k {
                    lemma_pow2_strictly_increases(k as nat, j);
                }
            }
        }
    }
    p == n
}

/// `after` is `before` followed by `extra` zeros.
pub open spec fn zero_padded<const P: u64>(before: Seq<Fp<P>>, after: Seq<Fp<P>>, extra: nat) -> bool {
    &&& after.len() == before.len() + extra
    &&& after.subrange(0, before.len() as int) == before
    &&& forall|i: int| before.len() <= i < after.len() ==> (#[trigger] after[i])@ == 0
}

/// The number of zeros that pad `num_poly` polynomials of a trace to `2^log_num_poly`
/// polynomials of `2^log_coeff_count` coefficients; none when `num_poly` is already a
/// power of two.
pub open spec fn padding_len(log_coeff_count: nat, log_num_poly: nat, num_poly: nat) -> nat {
    if is_pow2(num_poly) {
        0
    } else {
        ((pow2(log_num_poly) - num_poly) * pow2(log_coeff_count)) as nat
    }
}

/// Appends the entries of `values` to `out`.
pub(crate) fn extend_values<const P: u64>(out: &mut Vec<Fp<P>>, values: &[Fp<P>])
    ensures
        final(out)@ == old(out)@ + values@,
{
    let ghost start = out@;
    let mut i: usize = 0;
    while i < values.len()
        invariant
            i <= values@.len(),
            out@ == start + values@.take(i as int),
        decreases values@.len() - i,
    {
        out.push(values[i]);
        i = i + 1;
        proof {
            assert(out@ =~= start + values@.take(i as int));
        }
    }
    proof {
        assert(values@.take(values@.len() as int) =~= values@);
    }
}

/// Appends `count` zeros to `out`.
pub(crate) fn extend_zeros<const P: u64>(out: &mut Vec<Fp<P>>, count: usize)
    requires
        P > 1,
    ensures
        zero_padded(old(out)@, final(out)@, count as nat),
{
    let ghost start = out@;
    let mut i: usize = 0;
    proof {
        assert(out@.subrange(0, start.len() as int) =~= start);
    }
    while i < count
        invariant
            P > 1,
            i <= count,
            zero_padded(start, out@, i as nat),
        decreases count - i,
    {
        out.push(Fp::zero());
        i = i + 1;
        proof {
            assert(out@.subrange(0, start.len() as int) =~= start);
        }
    }
}

/// The number of zeros `finalize` appends, computed.
fn compute_padding_len(log_coeff_count: usize, log_num_poly: usize, num_poly: usize) -> (r: usize)
    requires
        log_coeff_count + log_num_poly < usize::BITS,
        num_poly <= pow2(log_num_poly as nat),
    ensures
        r == padding_len(log_coeff_count as nat, log_num_poly as nat, num_poly as nat),
        r <= pow2((log_coeff_count + log_num_poly) as nat),
{
    proof {
        lemma_pow2_adds(log_coeff_count as nat, log_num_poly as nat);
        vstd::bits::lemma_usize_pow2_no_overflow((log_coeff_count + log_num_poly) as nat);
        lemma_pow2_pos(log_coeff_count as nat);
        lemma_pow2_pos(log_num_poly as nat);
        if log_num_poly < usize::BITS - 1 {
            lemma_pow2_strictly_increases(log_num_poly as nat, (usize::BITS - 1) as nat);
        }
    }
    let num = crate::basis::pow2_usize(log_num_poly);
    let size = crate::basis::pow2_usize(log_coeff_count);
    proof {
        vstd::arithmetic::mul::lemma_mul_inequality((num - num_poly) as int, num as int, size as int);
        vstd::arithmetic::mul::lemma_mul_is_commutative(size as int, num as int);
    }
    if is_power_of_two(num_poly) {
        0
    } else {
        (num - num_poly) * size
    }
}

impl<const P: u64> MonomialTrace<P> {
    /// An empty trace of `2^log_num_poly` monomials.
    pub fn new(log_num_poly: usize) -> (r: Self)
        ensures
            r.log_num_poly == log_num_poly,
            r.degree@.len() == 0,
            r.coefficient@.len() == 0,
    {
        MonomialTrace { log_num_poly, degree: Vec::new(), coefficient: Vec::new() }
    }

    /// Appends the monomial `coefficient * X^degree`.
    pub fn append(&mut self, degree: Fp<P>, coefficient: Fp<P>)
        ensures
            final(self).log_num_poly == old(self).log_num_poly,
            final(self).degree@ == old(self).degree@.push(degree),
            final(self).coefficient@ == old(self).coefficient@.push(coefficient),
    {
        self.degree.push(degree);
        self.coefficient.push(coefficient);
    }

    /// Pads the monomials with zeros up to `2^log_num_poly` when `num_poly` is not a
    /// power of two.
    pub fn finalize(&mut self, num_poly: usize)
        requires
            P > 1,
            old(self).log_num_poly < usize::BITS,
            num_poly <= pow2(old(self).log_num_poly as nat),
        ensures
            final(self).log_num_poly == old(self).log_num_poly,
            zero_padded(
                old(self).degree@,
                final(self).degree@,
                padding_len(0, old(self).log_num_poly as nat, num_poly as nat),
            ),
            zero_padded(
                old(self).coefficient@,
                final(self).coefficient@,
                padding_len(0, old(self).log_num_poly as nat, num_poly as nat),
            ),
    {
        let count = compute_padding_len(0, self.log_num_poly, num_poly);
        extend_zeros(&mut self.degree, count);
        extend_zeros(&mut self.coefficient, count);
    }
}

impl<const P: u64> PolynomialTrace<P> {
    /// An empty trace of `2^log_num_poly` polynomials of `2^log_coeff_count` coefficients.
    pub fn new(log_coeff_count: usize, log_num_poly: usize) -> (r: Self)
        ensures
            r.log_coeff_count == log_coeff_count,
            r.log_num_poly == log_num_poly,
            r.poly@.len() == 0,
            r.ntt@.len() == 0,
    {
        PolynomialTrace { log_coeff_count, log_num_poly, poly: Vec::new(), ntt: Vec::new() }
    }

    /// Appends a polynomial in coefficient form and its NTT form.
    pub fn append_poly(&mut self, poly: &[Fp<P>], ntt_poly: &[Fp<P>])
        ensures
            final(self).log_coeff_count == old(self).log_coeff_count,
            final(self).log_num_poly == old(self).log_num_poly,
            final(self).poly@ == old(self).poly@ + poly@,
            final(self).ntt@ == old(self).ntt@ + ntt_poly@,
    {
        extend_values(&mut self.poly, poly);
        extend_values(&mut self.ntt, ntt_poly);
    }

    /// Pads both columns with zero polynomials up to `2^log_num_poly` polynomials when
    /// `num_poly` is not a power of two.
    pub fn finalize(&mut self, num_poly: usize)
        requires
            P > 1,
            old(self).log_coeff_count + old(self).log_num_poly < usize::BITS,
            num_poly <= pow2(old(self).log_num_poly as nat),
        ensures
            final(self).log_coeff_count == old(self).log_coeff_count,
            final(self).log_num_poly == old(self).log_num_poly,
            zero_padded(
                old(self).poly@,
                final(self).poly@,
                padding_len(old(self).log_coeff_count as nat, old(self).log_num_poly as nat, num_poly as nat),
            ),
            zero_padded(
                old(self).ntt@,
                final(self).ntt@,
                padding_len(old(self).log_coeff_count as nat, old(self).log_num_poly as nat, num_poly as nat),
            ),
    {
        let count = compute_padding_len(self.log_coeff_count, self.log_num_poly, num_poly);
        extend_zeros(&mut self.poly, count);
        extend_zeros(&mut self.ntt, count);
    }
}

impl<const P: u64> RLWETrace<P> {
    /// An empty trace of `2^log_num_poly` ciphertexts of `2^log_coeff_count` coefficients.
    pub fn new(log_coeff_count: usize, log_num_poly: usize) -> (r: Self)
        ensures
            r.log_coeff_count == log_coeff_count,
            r.log_num_poly == log_num_poly,
            r.poly.0@.len() == 0,
            r.poly.1@.len() == 0,
            r.ntt.0@.len() == 0,
            r.ntt.1@.len() == 0,
    {
        RLWETrace {
            log_coeff_count,
            log_num_poly,
            poly: (Vec::new(), Vec::new()),
            ntt: (Vec::new(), Vec::new()),
        }
    }

    /// Appends a ciphertext in coefficient form and in NTT form.
    pub fn append(&mut self, rlwe: (&[Fp<P>], &[Fp<P>]), ntt_rlwe: (&[Fp<P>], &[Fp<P>]))
        ensures
            final(self).log_coeff_count == old(self).log_coeff_count,
            final(self).log_num_poly == old(self).log_num_poly,
            final(self).poly.0@ == old(self).poly.0@ + rlwe.0@,
            final(self).poly.1@ == old(self).poly.1@ + rlwe.1@,
            final(self).ntt.0@ == old(self).ntt.0@ + ntt_rlwe.0@,
            final(self).ntt.1@ == old(self).ntt.1@ + ntt_rlwe.1@,
    {
        extend_values(&mut self.poly.0, rlwe.0);
        extend_values(&mut self.poly.1, rlwe.1);
        extend_values(&mut self.ntt.0, ntt_rlwe.0);
        extend_values(&mut self.ntt.1, ntt_rlwe.1);
    }

    /// Pads the four columns with zero polynomials up to `2^log_num_poly` ciphertexts
    /// when `num_poly` is not a power of two.
    pub fn finalize(&mut self, num_poly: usize)
        requires
            P > 1,
            old(self).log_coeff_count + old(self).log_num_poly < usize::BITS,
            num_poly <= pow2(old(self).log_num_poly as nat),
        ensures
            final(self).log_coeff_count == old(self).log_coeff_count,
            final(self).log_num_poly == old(self).log_num_poly,
            ({
                let extra = padding_len(
                    old(self).log_coeff_count as nat,
                    old(self).log_num_poly as nat,
                    num_poly as nat,
                );
                &&& zero_padded(old(self).poly.0@, final(self).poly.0@, extra)
                &&& zero_padded(old(self).poly.1@, final(self).poly.1@, extra)
                &&& zero_padded(old(self).ntt.0@, final(self).ntt.0@, extra)
                &&& zero_padded(old(self).ntt.1@, final(self).ntt.1@, extra)
            }),
    {
        let count = compute_padding_len(self.log_coeff_count, self.log_num_poly, num_poly);
        extend_zeros(&mut self.poly.0, count);
        extend_zeros(&mut self.poly.1, count);
        extend_zeros(&mut self.ntt.0, count);
        extend_zeros(&mut self.ntt.1, count);
    }
}


/// A column of `2^num_vars` values as a multilinear extension.
fn column_mle<const P: u64>(num_vars: usize, values: Vec<Fp<P>>) -> (r: Rc<DenseMultilinearExtension<P>>)
    requires
        values@.len() == pow2(num_vars as nat),
    ensures
        r.wf(),
        r.num_vars == num_vars,
        r.evaluations@ == values@,
{
    Rc::new(DenseMultilinearExtension::from_evaluations_vec(num_vars, values))
}

impl<const P: u64> PolynomialTrace<P> {
    /// `finalize` may be called for `num_poly` polynomials.
    pub open spec fn can_finalize(&self, num_poly: nat) -> bool {
        &&& self.log_coeff_count + self.log_num_poly < usize::BITS
        &&& num_poly <= pow2(self.log_num_poly as nat)
    }

    /// Both columns hold all `2^log_num_poly` polynomials.
    pub open spec fn complete(&self) -> bool {
        &&& self.log_coeff_count + self.log_num_poly < usize::BITS
        &&& self.poly@.len() == pow2((self.log_coeff_count + self.log_num_poly) as nat)
        &&& self.ntt@.len() == pow2((self.log_coeff_count + self.log_num_poly) as nat)
    }
}

impl<const P: u64> RLWETrace<P> {
    /// `finalize` may be called for `num_poly` ciphertexts.
    pub open spec fn can_finalize(&self, num_poly: nat) -> bool {
        &&& self.log_coeff_count + self.log_num_poly < usize::BITS
        &&& num_poly <= pow2(self.log_num_poly as nat)
    }

    /// All four columns hold all `2^log_num_poly` polynomials.
    pub open spec fn complete(&self) -> bool {
        let n = pow2((self.log_coeff_count + self.log_num_poly) as nat);
        &&& self.log_coeff_count + self.log_num_poly < usize::BITS
        &&& self.poly.0@.len() == n
        &&& self.poly.1@.len() == n
        &&& self.ntt.0@.len() == n
        &&& self.ntt.1@.len() == n
    }
}

impl<const P: u64> PolynomialTraceMLE<P> {
    /// The columns are those of `trace`.
    pub open spec fn represents(&self, trace: PolynomialTrace<P>) -> bool {
        &&& self.log_coeff_count == trace.log_coeff_count
        &&& self.log_num_poly == trace.log_num_poly
        &&& self.poly.evaluations@ == trace.poly@
        &&& self.ntt.evaluations@ == trace.ntt@
    }


    /// Both columns have `2^(log_coeff_count + log_num_poly)` entries.
    pub open spec fn wf(&self) -> bool {
        &&& self.log_coeff_count + self.log_num_poly < usize::BITS
        &&& self.poly.wf()
        &&& self.poly.num_vars == self.log_coeff_count + self.log_num_poly
        &&& self.ntt.wf()
        &&& self.ntt.num_vars == self.log_coeff_count + self.log_num_poly
    }

    /// Wraps the two columns of a polynomial trace into multilinear extensions.
    pub fn from_trace(trace: PolynomialTrace<P>) -> (r: Self)
        requires
            trace.log_coeff_count + trace.log_num_poly < usize::BITS,
            trace.poly@.len() == pow2((trace.log_coeff_count + trace.log_num_poly) as nat),
            trace.ntt@.len() == pow2((trace.log_coeff_count + trace.log_num_poly) as nat),
        ensures
            r.wf(),
            r.log_coeff_count == trace.log_coeff_count,
            r.log_num_poly == trace.log_num_poly,
            r.poly.evaluations@ == trace.poly@,
            r.ntt.evaluations@ == trace.ntt@,
            r.represents(trace),
    {
        let num_vars = trace.log_coeff_count + trace.log_num_poly;
        PolynomialTraceMLE {
            log_coeff_count: trace.log_coeff_count,
            log_num_poly: trace.log_num_poly,
            poly: column_mle(num_vars, trace.poly),
            ntt: column_mle(num_vars, trace.ntt),
        }
    }

    /// The values of both columns at `point`.
    pub fn evaluate(&self, point: &[Fp<P>]) -> (r: PolynomialEval<P>)
        requires
            P > 1,
            self.wf(),
            point@.len() == self.log_coeff_count + self.log_num_poly,
        ensures
            r.poly@ == self.poly.spec_evaluate(point@),
            r.ntt@ == self.ntt.spec_evaluate(point@),
    {
        PolynomialEval { poly: self.poly.evaluate(point), ntt: self.ntt.evaluate(point) }
    }
}

impl<const P: u64> MonomialTraceMLE<P> {
    /// Both columns have `2^log_num_poly` entries.
    pub open spec fn wf(&self) -> bool {
        &&& self.degree.wf()
        &&& self.degree.num_vars == self.log_num_poly
        &&& self.coefficient.wf()
        &&& self.coefficient.num_vars == self.log_num_poly
    }

    /// Wraps the two columns of a monomial trace into multilinear extensions.
    pub fn from_trace(trace: MonomialTrace<P>) -> (r: Self)
        requires
            trace.degree@.len() == pow2(trace.log_num_poly as nat),
            trace.coefficient@.len() == pow2(trace.log_num_poly as nat),
        ensures
            r.wf(),
            r.log_num_poly == trace.log_num_poly,
            r.degree.evaluations@ == trace.degree@,
            r.coefficient.evaluations@ == trace.coefficient@,
    {
        MonomialTraceMLE {
            log_num_poly: trace.log_num_poly,
            degree: column_mle(trace.log_num_poly, trace.degree),
            coefficient: column_mle(trace.log_num_poly, trace.coefficient),
        }
    }

    /// The values of both columns at `point`.
    pub fn evaluate(&self, point: &[Fp<P>]) -> (r: MonomialEval<P>)
        requires
            P > 1,
            self.wf(),
            point@.len() == self.log_num_poly,
        ensures
            r.degree@ == self.degree.spec_evaluate(point@),
            r.coefficient@ == self.coefficient.spec_evaluate(point@),
    {
        MonomialEval { degree: self.degree.evaluate(point), coefficient: self.coefficient.evaluate(point) }
    }
}

impl<const P: u64> RLWETraceMLE<P> {
    /// The columns are those of `trace`.
    pub open spec fn represents(&self, trace: RLWETrace<P>) -> bool {
        &&& self.log_coeff_count == trace.log_coeff_count
        &&& self.log_num_poly == trace.log_num_poly
        &&& self.poly.0.evaluations@ == trace.poly.0@
        &&& self.poly.1.evaluations@ == trace.poly.1@
        &&& self.ntt.0.evaluations@ == trace.ntt.0@
        &&& self.ntt.1.evaluations@ == trace.ntt.1@
    }


    /// All four columns have `2^(log_coeff_count + log_num_poly)` entries.
    pub open spec fn wf(&self) -> bool {
        let nv = self.log_coeff_count + self.log_num_poly;
        &&& nv < usize::BITS
        &&& self.poly.0.wf()
        &&& self.poly.0.num_vars == nv
        &&& self.poly.1.wf()
        &&& self.poly.1.num_vars == nv
        &&& self.ntt.0.wf()
        &&& self.ntt.0.num_vars == nv
        &&& self.ntt.1.wf()
        &&& self.ntt.1.num_vars == nv
    }

    /// Wraps the four columns of an RLWE trace into multilinear extensions.
    pub fn from_trace(trace: RLWETrace<P>) -> (r: Self)
        requires
            trace.log_coeff_count + trace.log_num_poly < usize::BITS,
            trace.poly.0@.len() == pow2((trace.log_coeff_count + trace.log_num_poly) as nat),
            trace.poly.1@.len() == pow2((trace.log_coeff_count + trace.log_num_poly) as nat),
            trace.ntt.0@.len() == pow2((trace.log_coeff_count + trace.log_num_poly) as nat),
            trace.ntt.1@.len() == pow2((trace.log_coeff_count + trace.log_num_poly) as nat),
        ensures
            r.wf(),
            r.log_coeff_count == trace.log_coeff_count,
            r.log_num_poly == trace.log_num_poly,
            r.poly.0.evaluations@ == trace.poly.0@,
            r.poly.1.evaluations@ == trace.poly.1@,
            r.ntt.0.evaluations@ == trace.ntt.0@,
            r.ntt.1.evaluations@ == trace.ntt.1@,
            r.represents(trace),
    {
        let num_vars = trace.log_coeff_count + trace.log_num_poly;
        let RLWETrace { log_coeff_count, log_num_poly, poly, ntt } = trace;
        let (poly_a, poly_b) = poly;
        let (ntt_a, ntt_b) = ntt;
        RLWETraceMLE {
            log_coeff_count,
            log_num_poly,
            poly: (column_mle(num_vars, poly_a), column_mle(num_vars, poly_b)),
            ntt: (column_mle(num_vars, ntt_a), column_mle(num_vars, ntt_b)),
        }
    }

    /// The values of the four columns at `point`.
    pub fn evaluate(&self, point: &[Fp<P>]) -> (r: RLWEEval<P>)
        requires
            P > 1,
            self.wf(),
            point@.len() == self.log_coeff_count + self.log_num_poly,
        ensures
            r.poly.0@ == self.poly.0.spec_evaluate(point@),
            r.poly.1@ == self.poly.1.spec_evaluate(point@),
            r.ntt.0@ == self.ntt.0.spec_evaluate(point@),
            r.ntt.1@ == self.ntt.1.spec_evaluate(point@),
    {
        RLWEEval {
            poly: (self.poly.0.evaluate(point), self.poly.1.evaluate(point)),
            ntt: (self.ntt.0.evaluate(point), self.ntt.1.evaluate(point)),
        }
    }
}

impl<const P: u64> PackableTrace<P> for RLWETraceMLE<P> {
    open spec fn packable(&self) -> bool {
        self.log_coeff_count + self.log_num_poly <= usize::MAX
    }

    open spec fn spec_num_vars(&self) -> nat {
        (self.log_coeff_count + self.log_num_poly) as nat
    }

    open spec fn spec_num_oracles(&self) -> nat {
        2
    }

    /// The two coefficient-form columns, one after the other.
    open spec fn spec_packed(&self) -> Seq<Fp<P>> {
        self.poly.0.evaluations@ + self.poly.1.evaluations@
    }

    fn num_vars(&self) -> (r: usize) {
        self.log_coeff_count + self.log_num_poly
    }

    fn num_oracles(&self) -> (r: usize) {
        2
    }

    fn pack_to_vec(&self) -> (r: Vec<Fp<P>>) {
        let mut r: Vec<Fp<P>> = Vec::new();
        extend_values(&mut r, self.poly.0.evaluations.as_slice());
        extend_values(&mut r, self.poly.1.evaluations.as_slice());
        proof {
            assert(r@ =~= self.poly.0.evaluations@ + self.poly.1.evaluations@);
        }
        r
    }
}


impl<const P: u64> Clone for RLWETrace<P> {
    /// A copy of the four columns.
    fn clone(&self) -> (r: Self)
        ensures
            r.log_coeff_count == self.log_coeff_count,
            r.log_num_poly == self.log_num_poly,
            r.poly.0@ == self.poly.0@,
            r.poly.1@ == self.poly.1@,
            r.ntt.0@ == self.ntt.0@,
            r.ntt.1@ == self.ntt.1@,
    {
        RLWETrace {
            log_coeff_count: self.log_coeff_count,
            log_num_poly: self.log_num_poly,
            poly: (crate::packing::copy_values(&self.poly.0), crate::packing::copy_values(&self.poly.1)),
            ntt: (crate::packing::copy_values(&self.ntt.0), crate::packing::copy_values(&self.ntt.1)),
        }
    }
}


impl<const P: u64> Clone for PolynomialTraceMLE<P> {
    /// The same columns, shared.
    fn clone(&self) -> (r: Self)
        ensures
            r == *self,
    {
        PolynomialTraceMLE {
            log_coeff_count: self.log_coeff_count,
            log_num_poly: self.log_num_poly,
            poly: Rc::clone(&self.poly),
            ntt: Rc::clone(&self.ntt),
        }
    }
}

impl<const P: u64> Clone for RLWETraceMLE<P> {
    /// The same columns, shared.
    fn clone(&self) -> (r: Self)
        ensures
            r == *self,
    {
        RLWETraceMLE {
            log_coeff_count: self.log_coeff_count,
            log_num_poly: self.log_num_poly,
            poly: (Rc::clone(&self.poly.0), Rc::clone(&self.poly.1)),
            ntt: (Rc::clone(&self.ntt.0), Rc::clone(&self.ntt.1)),
        }
    }
}

} // verus!
