//! Packing several oracles of the same number of variables into one oracle.
//!
//! `n` oracles in `v` variables are laid out one after the other and padded with zeros to
//! `2^(v + k)` evaluations, where `2^k` is the smallest power of two of at least `n`.
use crate::basic_ops::decomp_trace::DecompTraceMLE;
use crate::field::Fp;
use crate::lookup_trace::normal_table::{
    ceil_log2, is_ceil_log2, LookupWitness, LookupWitnessEval, LookupWitnessHelper, LookupWitnessHelperEval,
};
use crate::mle::DenseMultilinearExtension;
use std::rc::Rc;
use vstd::arithmetic::power2::*;
use vstd::prelude::*;

verus! {

/// The evaluations of `mles`, one after the other.
pub open spec fn concat_evaluations<const P: u64>(mles: Seq<Rc<DenseMultilinearExtension<P>>>) -> Seq<
    Fp<P>,
>
    decreases mles.len(),
{
    if mles.len() == 0 {
        seq![]
    } else {
        concat_evaluations(mles.drop_last()) + mles.last().evaluations@
    }
}

/// Appends the evaluations of every oracle of `mles` to `out`.
pub(crate) fn append_evaluations<const P: u64>(out: &mut Vec<Fp<P>>, mles: &Vec<Rc<DenseMultilinearExtension<P>>>)
    ensures
        final(out)@ == old(out)@ + concat_evaluations(mles@),
{
    let ghost start = out@;
    let mut j: usize = 0;
    while j < mles.len()
        invariant
            j <= mles@.len(),
            out@ == start + concat_evaluations(mles@.take(j as int)),
        decreases mles@.len() - j,
    {
        let ghost before = out@;
        let evals = &mles[j].evaluations;
        let mut x: usize = 0;
        while x < evals.len()
            invariant
                x <= evals@.len(),
                out@ == before + evals@.take(x as int),
            decreases evals@.len() - x,
        {
            out.push(evals[x]);
            x = x + 1;
            proof {
                assert(out@ =~= before + evals@.take(x as int));
            }
        }
        proof {
            assert(evals@.take(evals@.len() as int) =~= evals@);
            assert(mles@.take(j + 1).drop_last() =~= mles@.take(j as int));
            assert(out@ =~= start + concat_evaluations(mles@.take(j + 1)));
        }
        j = j + 1;
    }
    proof {
        assert(mles@.take(mles@.len() as int) =~= mles@);
    }
}

/// A trace whose oracles can be packed into one.
pub trait PackableTrace<const P: u64> {
    /// What `num_vars`, `num_oracles` and `pack_to_vec` need of the trace.
    spec fn packable(&self) -> bool;

    spec fn spec_num_vars(&self) -> nat;

    spec fn spec_num_oracles(&self) -> nat;

    /// The evaluations of all oracles, one after the other.
    spec fn spec_packed(&self) -> Seq<Fp<P>>;

    /// The number of variables of every oracle.
    fn num_vars(&self) -> (r: usize)
        requires
            self.packable(),
        ensures
            r == self.spec_num_vars(),
    ;

    /// The number of oracles.
    fn num_oracles(&self) -> (r: usize)
        requires
            self.packable(),
        ensures
            r == self.spec_num_oracles(),
    ;

    /// The evaluations of all oracles, one after the other.
    fn pack_to_vec(&self) -> (r: Vec<Fp<P>>)
        requires
            self.packable(),
        ensures
            r@ == self.spec_packed(),
    ;

    /// The number of extra variables that address the oracles.
    fn log_num_oracles(&self) -> (r: usize)
        requires
            self.packable(),
            self.spec_num_oracles() <= pow2((usize::BITS - 1) as nat),
        ensures
            is_ceil_log2(self.spec_num_oracles(), r as nat),
    {
        ceil_log2(self.num_oracles())
    }

    /// All oracles in one: their evaluations one after the other, padded with zeros.
    fn generate_oracle(&self) -> (r: DenseMultilinearExtension<P>)
        requires
            P > 1,
            self.packable(),
            self.spec_num_oracles() <= pow2((usize::BITS - 1) as nat),
            self.spec_packed().len() == self.spec_num_oracles() * pow2(self.spec_num_vars()),
            forall|k: nat|
                #[trigger] is_ceil_log2(self.spec_num_oracles(), k) ==> self.spec_num_vars() + k
                    < usize::BITS,
        ensures
            r.wf(),
            r.num_vars >= self.spec_num_vars(),
            is_ceil_log2(self.spec_num_oracles(), (r.num_vars - self.spec_num_vars()) as nat),
            r.evaluations@.subrange(0, self.spec_packed().len() as int) == self.spec_packed(),
            forall|i: int|
                self.spec_packed().len() <= i < r.evaluations@.len() ==> (#[trigger] r.evaluations@[i])@
                    == 0,
    {
        let nv = self.num_vars();
        let log = self.log_num_oracles();
        padded_oracle(self.pack_to_vec(), nv, log, Ghost(self.spec_num_oracles()))
    }
}

/// `packed`, the evaluations of `num_oracles` oracles in `num_vars` variables, padded with
/// zeros to `num_vars + log` variables, where `2^log` is the least power of two that
/// holds the oracles.
pub(crate) fn padded_oracle<const P: u64>(
    packed: Vec<Fp<P>>,
    num_vars: usize,
    log: usize,
    num_oracles: Ghost<nat>,
) -> (r: DenseMultilinearExtension<P>)
    requires
        P > 1,
        is_ceil_log2(num_oracles@, log as nat),
        num_vars + log < usize::BITS,
        packed@.len() == num_oracles@ * pow2(num_vars as nat),
    ensures
        r.wf(),
        r.num_vars == num_vars + log,
        r.evaluations@.subrange(0, packed@.len() as int) == packed@,
        forall|i: int| packed@.len() <= i < r.evaluations@.len() ==> (#[trigger] r.evaluations@[i])@ == 0,
{
    let new_nvs = num_vars + log;
    let mut packed = packed;
    proof {
        vstd::bits::lemma_usize_pow2_no_overflow(new_nvs as nat);
        lemma_pow2_adds(num_vars as nat, log as nat);
        vstd::arithmetic::mul::lemma_mul_inequality(
            num_oracles@ as int,
            pow2(log as nat) as int,
            pow2(num_vars as nat) as int,
        );
        vstd::arithmetic::mul::lemma_mul_is_commutative(pow2(log as nat) as int, pow2(num_vars as nat) as int);
    }
    let size = crate::basis::pow2_usize(new_nvs);
    let ghost start = packed@;
    while packed.len() < size
        invariant
            P > 1,
            start.len() <= packed@.len() <= size,
            packed@.subrange(0, start.len() as int) == start,
            forall|i: int| start.len() <= i < packed@.len() ==> (#[trigger] packed@[i])@ == 0,
        decreases size - packed@.len(),
    {
        packed.push(Fp::zero());
        proof {
            assert(packed@.subrange(0, start.len() as int) =~= start);
        }
    }
    DenseMultilinearExtension::from_evaluations_vec(new_nvs, packed)
}

impl<const P: u64> PackableTrace<P> for LookupWitness<P> {
    open spec fn packable(&self) -> bool {
        self.trace.vec_input@.len() + 2 <= usize::MAX
    }

    open spec fn spec_num_vars(&self) -> nat {
        self.num_vars as nat
    }

    open spec fn spec_num_oracles(&self) -> nat {
        self.trace.vec_input@.len() + 2
    }

    /// The input columns, then the table, then the multiplicity.
    open spec fn spec_packed(&self) -> Seq<Fp<P>> {
        concat_evaluations(self.trace.vec_input@) + self.table.evaluations@
            + self.multiplicity.evaluations@
    }

    fn num_vars(&self) -> (r: usize) {
        self.num_vars
    }

    fn num_oracles(&self) -> (r: usize) {
        self.trace.vec_input.len() + 2
    }

    fn pack_to_vec(&self) -> (r: Vec<Fp<P>>) {
        let mut r: Vec<Fp<P>> = Vec::new();
        append_evaluations(&mut r, &self.trace.vec_input);
        let ghost inputs = r@;
        let mut tail: Vec<Rc<DenseMultilinearExtension<P>>> = Vec::new();
        tail.push(Rc::clone(&self.table));
        tail.push(Rc::clone(&self.multiplicity));
        append_evaluations(&mut r, &tail);
        proof {
            let first = tail@.drop_last();
            assert(first.drop_last() =~= Seq::<Rc<DenseMultilinearExtension<P>>>::empty());
            assert(concat_evaluations(first.drop_last()) =~= Seq::<Fp<P>>::empty());
            assert(concat_evaluations(first) =~= self.table.evaluations@);
            assert(concat_evaluations(tail@) =~= self.table.evaluations@ + self.multiplicity.evaluations@);
            assert(r@ =~= concat_evaluations(self.trace.vec_input@) + self.table.evaluations@
                + self.multiplicity.evaluations@);
        }
        r
    }
}

impl<const P: u64> PackableTrace<P> for LookupWitnessHelper<P> {
    open spec fn packable(&self) -> bool {
        self.helper_functions@.len() > 0
    }

    open spec fn spec_num_vars(&self) -> nat {
        self.helper_functions@[0].num_vars as nat
    }

    open spec fn spec_num_oracles(&self) -> nat {
        self.helper_functions@.len()
    }

    /// The helper columns, one after the other.
    open spec fn spec_packed(&self) -> Seq<Fp<P>> {
        concat_evaluations(self.helper_functions@)
    }

    fn num_vars(&self) -> (r: usize) {
        self.helper_functions[0].num_vars
    }

    fn num_oracles(&self) -> (r: usize) {
        self.helper_functions.len()
    }

    fn pack_to_vec(&self) -> (r: Vec<Fp<P>>) {
        let mut r: Vec<Fp<P>> = Vec::new();
        append_evaluations(&mut r, &self.helper_functions);
        r
    }
}

impl<const P: u64> PackableTrace<P> for Vec<DecompTraceMLE<P>> {
    open spec fn packable(&self) -> bool {
        self@.len() > 0
    }

    open spec fn spec_num_vars(&self) -> nat {
        self@[0].log_num as nat
    }

    open spec fn spec_num_oracles(&self) -> nat {
        self@.len()
    }

    /// The input columns of the decompositions, one after the other.
    open spec fn spec_packed(&self) -> Seq<Fp<P>> {
        concat_evaluations(Seq::new(self@.len(), |i: int| self@[i].input))
    }

    fn num_vars(&self) -> (r: usize) {
        self[0].log_num
    }

    fn num_oracles(&self) -> (r: usize) {
        self.len()
    }

    fn pack_to_vec(&self) -> (r: Vec<Fp<P>>) {
        let mut inputs: Vec<Rc<DenseMultilinearExtension<P>>> = Vec::with_capacity(self.len());
        let mut i: usize = 0;
        while i < self.len()
            invariant
                i <= self@.len(),
                inputs@ == Seq::new(i as nat, |k: int| self@[k].input),
            decreases self@.len() - i,
        {
            inputs.push(Rc::clone(&self[i].input));
            i = i + 1;
            proof {
                assert(inputs@ =~= Seq::new(i as nat, |k: int| self@[k].input));
            }
        }
        let mut r: Vec<Fp<P>> = Vec::new();
        append_evaluations(&mut r, &inputs);
        proof {
            assert(r@ =~= concat_evaluations(Seq::new(self@.len(), |k: int| self@[k].input)));
        }
        r
    }
}

/// Values of oracles at a point that can be packed one after the other.
pub trait PackableEval<const P: u64> {
    spec fn spec_num_evals(&self) -> nat;

    /// The values, one after the other.
    spec fn spec_packed_evals(&self) -> Seq<Fp<P>>;

    /// The number of values.
    fn num_evals(&self) -> (r: usize)
        requires
            self.spec_num_evals() <= usize::MAX,
        ensures
            r == self.spec_num_evals(),
    ;

    /// The values, one after the other.
    fn pack_to_vec(&self) -> (r: Vec<Fp<P>>)
        ensures
            r@ == self.spec_packed_evals(),
    ;
}

/// A copy of `values`.
pub(crate) fn copy_values<const P: u64>(values: &Vec<Fp<P>>) -> (r: Vec<Fp<P>>)
    ensures
        r@ == values@,
{
    let mut r: Vec<Fp<P>> = Vec::with_capacity(values.len());
    let mut i: usize = 0;
    while i < values.len()
        invariant
            i <= values@.len(),
            r@ == values@.take(i as int),
        decreases values@.len() - i,
    {
        r.push(values[i]);
        i = i + 1;
        proof {
            assert(r@ =~= values@.take(i as int));
        }
    }
    proof {
        assert(values@.take(values@.len() as int) =~= values@);
    }
    r
}

impl<const P: u64> PackableEval<P> for LookupWitnessEval<P> {
    /// The input columns, the table and the multiplicity.
    open spec fn spec_num_evals(&self) -> nat {
        self.vec_input_at_r@.len() + 2
    }

    open spec fn spec_packed_evals(&self) -> Seq<Fp<P>> {
        self.vec_input_at_r@.push(self.table_at_r).push(self.multiplicity_at_r)
    }

    fn num_evals(&self) -> (r: usize) {
        self.vec_input_at_r.len() + 2
    }

    fn pack_to_vec(&self) -> (r: Vec<Fp<P>>) {
        let mut r = copy_values(&self.vec_input_at_r);
        r.push(self.table_at_r);
        r.push(self.multiplicity_at_r);
        r
    }
}

impl<const P: u64> PackableEval<P> for LookupWitnessHelperEval<P> {
    open spec fn spec_num_evals(&self) -> nat {
        self.helper_at_r@.len()
    }

    open spec fn spec_packed_evals(&self) -> Seq<Fp<P>> {
        self.helper_at_r@
    }

    fn num_evals(&self) -> (r: usize) {
        self.helper_at_r.len()
    }

    fn pack_to_vec(&self) -> (r: Vec<Fp<P>>) {
        copy_values(&self.helper_at_r)
    }
}


/// A trace whose oracles split into bit oracles and key oracles, each group packable into
/// one oracle of its own.
pub trait SeparatelyPackableTrace<const P: u64>: PackableTrace<P> {
    spec fn spec_num_bit_oracles(&self) -> nat;

    spec fn spec_num_key_oracles(&self) -> nat;

    /// The evaluations of the bit oracles, one after the other.
    spec fn spec_packed_bits(&self) -> Seq<Fp<P>>;

    /// The evaluations of the key oracles, one after the other.
    spec fn spec_packed_keys(&self) -> Seq<Fp<P>>;

    /// The number of bit oracles.
    fn num_bit_oracles(&self) -> (r: usize)
        requires
            self.packable(),
        ensures
            r == self.spec_num_bit_oracles(),
    ;

    /// The number of key oracles.
    fn num_key_oracles(&self) -> (r: usize)
        requires
            self.packable(),
        ensures
            r == self.spec_num_key_oracles(),
    ;

    /// The evaluations of the bit oracles, one after the other.
    fn pack_bit_to_vec(&self) -> (r: Vec<Fp<P>>)
        requires
            self.packable(),
        ensures
            r@ == self.spec_packed_bits(),
    ;

    /// The evaluations of the key oracles, one after the other.
    fn pack_key_to_vec(&self) -> (r: Vec<Fp<P>>)
        requires
            self.packable(),
        ensures
            r@ == self.spec_packed_keys(),
    ;

    /// The number of extra variables that address the bit oracles.
    fn log_num_bit_oracles(&self) -> (r: usize)
        requires
            self.packable(),
            self.spec_num_bit_oracles() <= pow2((usize::BITS - 1) as nat),
        ensures
            is_ceil_log2(self.spec_num_bit_oracles(), r as nat),
    {
        ceil_log2(self.num_bit_oracles())
    }

    /// The number of extra variables that address the key oracles.
    fn log_num_key_oracles(&self) -> (r: usize)
        requires
            self.packable(),
            self.spec_num_key_oracles() <= pow2((usize::BITS - 1) as nat),
        ensures
            is_ceil_log2(self.spec_num_key_oracles(), r as nat),
    {
        ceil_log2(self.num_key_oracles())
    }

    /// All bit oracles in one, padded with zeros.
    fn generate_bit_oracle(&self) -> (r: DenseMultilinearExtension<P>)
        requires
            P > 1,
            self.packable(),
            self.spec_num_bit_oracles() <= pow2((usize::BITS - 1) as nat),
            self.spec_packed_bits().len() == self.spec_num_bit_oracles() * pow2(self.spec_num_vars()),
            forall|k: nat|
                #[trigger] is_ceil_log2(self.spec_num_bit_oracles(), k) ==> self.spec_num_vars() + k
                    < usize::BITS,
        ensures
            r.wf(),
            r.num_vars >= self.spec_num_vars(),
            is_ceil_log2(self.spec_num_bit_oracles(), (r.num_vars - self.spec_num_vars()) as nat),
            r.evaluations@.subrange(0, self.spec_packed_bits().len() as int) == self.spec_packed_bits(),
            forall|i: int|
                self.spec_packed_bits().len() <= i < r.evaluations@.len() ==> (#[trigger] r.evaluations@[i])@
                    == 0,
    {
        let nv = self.num_vars();
        let log = self.log_num_bit_oracles();
        padded_oracle(self.pack_bit_to_vec(), nv, log, Ghost(self.spec_num_bit_oracles()))
    }

    /// All key oracles in one, padded with zeros.
    fn generate_key_oracle(&self) -> (r: DenseMultilinearExtension<P>)
        requires
            P > 1,
            self.packable(),
            self.spec_num_key_oracles() <= pow2((usize::BITS - 1) as nat),
            self.spec_packed_keys().len() == self.spec_num_key_oracles() * pow2(self.spec_num_vars()),
            forall|k: nat|
                #[trigger] is_ceil_log2(self.spec_num_key_oracles(), k) ==> self.spec_num_vars() + k
                    < usize::BITS,
        ensures
            r.wf(),
            r.num_vars >= self.spec_num_vars(),
            is_ceil_log2(self.spec_num_key_oracles(), (r.num_vars - self.spec_num_vars()) as nat),
            r.evaluations@.subrange(0, self.spec_packed_keys().len() as int) == self.spec_packed_keys(),
            forall|i: int|
                self.spec_packed_keys().len() <= i < r.evaluations@.len() ==> (#[trigger] r.evaluations@[i])@
                    == 0,
    {
        let nv = self.num_vars();
        let log = self.log_num_key_oracles();
        padded_oracle(self.pack_key_to_vec(), nv, log, Ghost(self.spec_num_key_oracles()))
    }
}

/// Values at a point of oracles that split into bit oracles and key oracles, both in NTT
/// form.
pub trait SeparatelyPackableEval<const P: u64> {
    /// What the methods need of the values.
    spec fn eval_separable(&self) -> bool;

    spec fn spec_num_bit_evals(&self) -> nat;

    spec fn spec_num_key_evals(&self) -> nat;

    /// The NTT-form values of the bit oracles, one after the other.
    spec fn spec_bit_ntt(&self) -> Seq<Fp<P>>;

    /// The NTT-form values of the key oracles, one after the other.
    spec fn spec_key_ntt(&self) -> Seq<Fp<P>>;

    /// The number of bit values.
    fn num_bit_evals(&self) -> (r: usize)
        requires
            self.eval_separable(),
        ensures
            r == self.spec_num_bit_evals(),
    ;

    /// The number of key values.
    fn num_key_evals(&self) -> (r: usize)
        requires
            self.eval_separable(),
        ensures
            r == self.spec_num_key_evals(),
    ;

    /// The number of extra variables that address the bit values.
    fn log_num_bit_evals(&self) -> (r: usize)
        requires
            self.eval_separable(),
            self.spec_num_bit_evals() <= pow2((usize::BITS - 1) as nat),
        ensures
            is_ceil_log2(self.spec_num_bit_evals(), r as nat),
    {
        ceil_log2(self.num_bit_evals())
    }

    /// The number of extra variables that address the key values.
    fn log_num_key_evals(&self) -> (r: usize)
        requires
            self.eval_separable(),
            self.spec_num_key_evals() <= pow2((usize::BITS - 1) as nat),
        ensures
            is_ceil_log2(self.spec_num_key_evals(), r as nat),
    {
        ceil_log2(self.num_key_evals())
    }

    /// The NTT-form values of the bit oracles.
    fn pack_bit_ntt_to_vec(&self) -> (r: Vec<Fp<P>>)
        ensures
            r@ == self.spec_bit_ntt(),
    ;

    /// The NTT-form values of the key oracles.
    fn pack_key_ntt_to_vec(&self) -> (r: Vec<Fp<P>>)
        ensures
            r@ == self.spec_key_ntt(),
    ;
}

} // verus!
