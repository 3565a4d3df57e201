//! Range checks against a small table, `0, 1, ..., range - 1` with `range` a power of two.
//!
//! The table and the multiplicity are kept as plain vectors, sent with the proof, rather
//! than committed; so the helper columns cover the input columns only, and the table side
//! of LogUp is the single sum of `m / (t + r)`.
use super::normal_table::{
    ceil_log2, count_in_columns, count_in_columns_of, evaluate_all, evaluations_of, is_ceil_log2, total_len,
};
use super::{batch_inverse, block_end, block_sums, column_block_sum, field_inverse};
use crate::field::{invertible, Fp};
use crate::mle::DenseMultilinearExtension;
use crate::packing::{concat_evaluations, PackableEval, PackableTrace};
use rand::rngs::ThreadRng;
use std::rc::Rc;
use vstd::arithmetic::div_mod::*;
use vstd::arithmetic::power2::*;
use vstd::prelude::*;

verus! {

/// Columns of values to be range checked against `[0, range)`.
#[derive(Clone, Debug)]
pub struct LookupTrace<const P: u64> {
    pub num_vars: usize,
    pub num_vec: usize,
    pub vec_input: Vec<Vec<Fp<P>>>,
    pub range: usize,
}

/// The columns of a range check as multilinear extensions.
#[derive(Clone, Debug)]
pub struct LookupTraceMLE<const P: u64> {
    pub num_vars: usize,
    pub range: usize,
    pub vec_input: Vec<Rc<DenseMultilinearExtension<P>>>,
}

/// The values of the input columns at a point.
#[derive(Clone, Debug)]
pub struct LookupTraceEval<const P: u64> {
    pub num_vars: usize,
    pub range: usize,
    pub vec_input_at_r: Vec<Fp<P>>,
}

/// The table `0, 1, ..., range - 1` and the multiplicity of each of its entries.
#[derive(Clone, Debug)]
pub struct LookupWitnessPure<const P: u64> {
    pub num_vars: usize,
    pub table: Vec<Fp<P>>,
    pub multiplicity: Vec<Fp<P>>,
}

/// The LogUp helper columns of the inputs and the table-side sum, for `random_value`.
#[derive(Clone, Debug)]
pub struct LookupWitnessHelper<const P: u64> {
    pub block_size: usize,
    pub num_blocks: usize,
    pub random_value: Fp<P>,
    /// the sum of `m(x) / (t(x) + r)`
    pub sum: Fp<P>,
    pub helper_functions: Vec<Rc<DenseMultilinearExtension<P>>>,
    /// `f(x) + r` for every input column
    pub phi_functions: Vec<Rc<DenseMultilinearExtension<P>>>,
}

/// The values of the helper columns at a point, with the parameters of the helper.
#[derive(Clone, Debug)]
pub struct LookupWitnessHelperEval<const P: u64> {
    pub block_size: usize,
    pub num_blocks: usize,
    pub random_value: Fp<P>,
    pub sum: Fp<P>,
    pub helper_functions_at_r: Vec<Fp<P>>,
}

impl<const P: u64> LookupWitnessPure<P> {
    /// The table `0, 1, ..., range - 1` of `trace`, and for each entry the number of its
    /// inputs with that value modulo `P`; zero for an entry at or past `P`, whose residue
    /// came earlier.
    pub open spec fn is_range_witness(&self, trace: LookupTraceMLE<P>) -> bool {
        &&& self.table@.len() == trace.range
        &&& self.multiplicity@.len() == trace.range
        &&& forall|i: int| 0 <= i < trace.range ==> (#[trigger] self.table@[i])@ == i % (P as int)
        &&& forall|i: int|
            0 <= i < trace.range ==> (#[trigger] self.multiplicity@[i])@ == if i < P {
                count_in_columns(trace.columns(), i as nat) % (P as nat)
            } else {
                0
            }
    }
}

impl<const P: u64> LookupWitnessHelper<P> {
    /// The helper columns of the inputs of `trace` for `randomness`, in blocks of
    /// `block_size` columns, and the table-side sum over the whole table of `witness`
    /// (as far as it has multiplicities).
    pub open spec fn helps(&self, trace: LookupTraceMLE<P>, witness: LookupWitnessPure<P>, randomness: Fp<P>) -> bool {
        let n_vec = trace.vec_input@.len() as int;
        let bs = self.block_size as int;
        let n = pow2(trace.num_vars as nat);
        &&& bs > 0
        &&& self.num_blocks == (n_vec + bs - 1) / bs
        &&& self.random_value == randomness
        &&& self.phi_functions@.len() == n_vec
        &&& forall|j: int|
            0 <= j < n_vec ==> {
                &&& (#[trigger] self.phi_functions@[j]).wf()
                &&& self.phi_functions@[j].num_vars == trace.num_vars
            }
        &&& forall|j: int, x: int|
            0 <= j < n_vec && 0 <= x < n ==> (#[trigger] self.phi_functions@[j].evaluations@[x])@ == (
            trace.vec_input@[j].evaluations@[x]@ + randomness@) % (P as nat)
        &&& self.helper_functions@.len() == self.num_blocks
        &&& forall|b: int|
            0 <= b < self.num_blocks ==> {
                &&& (#[trigger] self.helper_functions@[b]).wf()
                &&& self.helper_functions@[b].num_vars == trace.num_vars
            }
        &&& forall|b: int, x: int|
            0 <= b < self.num_blocks && 0 <= x < n ==> (#[trigger] self.helper_functions@[b].evaluations@[x])@
                == inverse_block_sum(evaluations_of(self.phi_functions@), b * bs, block_end(b, bs, n_vec), x)
        &&& self.sum@ == table_sum(
            witness.table@,
            witness.multiplicity@,
            randomness@,
            min2(witness.table@.len() as int, witness.multiplicity@.len() as int),
        )
    }
}

impl<const P: u64> LookupTrace<P> {
    /// `num_vec` random columns of `2^num_vars` values, each drawn from `[0, range)`.
    pub fn random(rng: &mut ThreadRng, num_vars: usize, num_vec: usize, range: usize) -> (r: Self)
        requires
            P > 1,
            range > 0,
            num_vars < usize::BITS,
        ensures
            r.num_vars == num_vars,
            r.num_vec == num_vec,
            r.range == range,
            r.vec_input@.len() == num_vec,
            forall|j: int|
                0 <= j < num_vec ==> (#[trigger] r.vec_input@[j])@.len() == pow2(num_vars as nat),
            forall|j: int, i: int|
                0 <= j < num_vec && 0 <= i < r.vec_input@[j]@.len() ==> (#[trigger] r.vec_input@[j]@[i])@
                    < range,
    {
        let t = super::normal_table::LookupTrace::<P>::random(rng, num_vars, num_vec, range);
        LookupTrace { num_vars, num_vec, vec_input: t.vec_input, range }
    }
}

impl<const P: u64> LookupTraceMLE<P> {
    /// The evaluations of the input columns.
    pub open spec fn columns(&self) -> Seq<Seq<Fp<P>>> {
        evaluations_of(self.vec_input@)
    }

    /// Every input column has `2^num_vars` evaluations.
    pub open spec fn wf(&self) -> bool {
        forall|j: int|
            0 <= j < self.vec_input@.len() ==> {
                &&& (#[trigger] self.vec_input@[j]).wf()
                &&& self.vec_input@[j].num_vars == self.num_vars
            }
    }

    /// Wraps the columns of a range check into multilinear extensions.
    pub fn from_trace(trace: LookupTrace<P>) -> (r: Self)
        requires
            forall|j: int|
                0 <= j < trace.vec_input@.len() ==> (#[trigger] trace.vec_input@[j])@.len() == pow2(
                    trace.num_vars as nat,
                ),
        ensures
            r.wf(),
            r.num_vars == trace.num_vars,
            r.range == trace.range,
            r.vec_input@.len() == trace.vec_input@.len(),
            forall|j: int|
                0 <= j < trace.vec_input@.len() ==> (#[trigger] r.vec_input@[j]).evaluations@
                    == trace.vec_input@[j]@,
    {
        let num_vars = trace.num_vars;
        let columns = crate::comparison::lt_trace::columns_to_mles(num_vars, trace.vec_input);
        LookupTraceMLE { num_vars, range: trace.range, vec_input: columns }
    }

    /// The number of input columns.
    pub fn num_oracles(&self) -> (r: usize)
        ensures
            r == self.vec_input@.len(),
    {
        self.vec_input.len()
    }

    /// The number of helper columns: the input columns in blocks of `blk_size`.
    pub fn num_helper_oracles(&self, blk_size: usize) -> (r: usize)
        requires
            blk_size > 0,
            self.vec_input@.len() + blk_size <= usize::MAX,
        ensures
            r == (self.vec_input@.len() + blk_size - 1) / (blk_size as int),
    {
        let total = self.num_oracles();
        (total + blk_size - 1) / blk_size
    }

    /// The number of variables that address the input columns.
    pub fn log_num_oracles(&self) -> (r: usize)
        requires
            self.vec_input@.len() <= pow2((usize::BITS - 1) as nat),
        ensures
            is_ceil_log2(self.vec_input@.len(), r as nat),
    {
        ceil_log2(self.num_oracles())
    }

    /// The number of variables that address the helper columns.
    pub fn log_num_helper_oracles(&self, blk_size: usize) -> (r: usize)
        requires
            blk_size > 0,
            self.vec_input@.len() + blk_size <= usize::MAX,
            (self.vec_input@.len() + blk_size - 1) / (blk_size as int) <= pow2((usize::BITS - 1) as nat),
        ensures
            is_ceil_log2(((self.vec_input@.len() + blk_size - 1) / (blk_size as int)) as nat, r as nat),
    {
        let n = self.num_helper_oracles(blk_size);
        ceil_log2(n)
    }

    /// The table `0, 1, ..., range - 1` and the multiplicity of each entry among the inputs.
    pub fn compute_witness_pure(&self) -> (r: LookupWitnessPure<P>)
        requires
            P > 1,
            self.wf(),
            exists|k: nat| pow2(k) == self.range,
            total_len(self.columns()) <= u32::MAX,
        ensures
            r.num_vars == self.num_vars,
            r.table@.len() == self.range,
            r.multiplicity@.len() == self.range,
            forall|i: int| 0 <= i < self.range ==> (#[trigger] r.table@[i])@ == i % (P as int),
            forall|i: int|
                0 <= i < self.range ==> (#[trigger] r.multiplicity@[i])@ == if i < P {
                    count_in_columns(self.columns(), i as nat) % (P as nat)
                } else {
                    0
                },
            r.is_range_witness(*self),
    {
        let range = self.range;
        let range_bit_len = crate::basic_ops::row_perm_trace::log2_of_power_of_two(range);
        let ghost cols = self.columns();
        let mut table: Vec<Fp<P>> = Vec::with_capacity(range);
        let mut multiplicity: Vec<Fp<P>> = Vec::with_capacity(range);
        let mut i: usize = 0;
        while i < range
            invariant
                P > 1,
                self.wf(),
                cols == self.columns(),
                total_len(cols) <= u32::MAX,
                range == self.range,
                i <= range,
                table@.len() == i,
                multiplicity@.len() == i,
                forall|k: int| 0 <= k < i ==> (#[trigger] table@[k])@ == k % (P as int),
                forall|k: int|
                    0 <= k < i ==> (#[trigger] multiplicity@[k])@ == if k < P {
                        count_in_columns(cols, k as nat) % (P as nat)
                    } else {
                        0
                    },
            decreases range - i,
        {
            let value = Fp::<P>::new(i as u64);
            table.push(value);
            if (i as u64) < P {
                proof {
                    lemma_small_mod(i as nat, P as nat);
                }
                let c = count_in_columns_of(&self.vec_input, value);
                multiplicity.push(Fp::new(c as u64));
            } else {
                multiplicity.push(Fp::zero());
            }
            i = i + 1;
        }
        LookupWitnessPure { num_vars: self.num_vars, table, multiplicity }
    }

    /// The inputs, shifted by `randomness`, and the table entries, shifted by it, are
    /// invertible.
    pub open spec fn shifted_invertible(&self, witness: &LookupWitnessPure<P>, randomness: Fp<P>) -> bool {
        &&& forall|j: int, x: int|
            0 <= j < self.vec_input@.len() && 0 <= x < self.vec_input@[j].evaluations@.len() ==> invertible(
                ((#[trigger] self.vec_input@[j].evaluations@[x])@ + randomness@) % (P as nat),
                P as nat,
            )
        &&& forall|y: int|
            0 <= y < witness.table@.len() ==> invertible(
                ((#[trigger] witness.table@[y])@ + randomness@) % (P as nat),
                P as nat,
            )
    }

    /// The LogUp helper columns of the inputs, in blocks of `block_size` columns, and the
    /// table-side sum of `m(y) / (t(y) + r)` over every entry of the table.
    pub fn compute_helper_functions(
        &self,
        block_size: usize,
        randomness: Fp<P>,
        witness: &LookupWitnessPure<P>,
    ) -> (r: LookupWitnessHelper<P>)
        requires
            P > 1,
            self.wf(),
            self.num_vars < usize::BITS,
            block_size > 0,
            self.vec_input@.len() + block_size <= usize::MAX,
            self.shifted_invertible(witness, randomness),
        ensures
            r.block_size == block_size,
            r.num_blocks == (self.vec_input@.len() + block_size - 1) / (block_size as int),
            r.random_value == randomness,
            r.phi_functions@.len() == self.vec_input@.len(),
            forall|j: int|
                0 <= j < self.vec_input@.len() ==> {
                    &&& (#[trigger] r.phi_functions@[j]).wf()
                    &&& r.phi_functions@[j].num_vars == self.num_vars
                },
            forall|j: int, x: int|
                0 <= j < self.vec_input@.len() && 0 <= x < pow2(self.num_vars as nat) ==> (
                #[trigger] r.phi_functions@[j].evaluations@[x])@ == (self.vec_input@[j].evaluations@[x]@
                    + randomness@) % (P as nat),
            r.helper_functions@.len() == r.num_blocks,
            forall|b: int|
                0 <= b < r.num_blocks ==> {
                    &&& (#[trigger] r.helper_functions@[b]).wf()
                    &&& r.helper_functions@[b].num_vars == self.num_vars
                },
            forall|b: int, x: int|
                0 <= b < r.num_blocks && 0 <= x < pow2(self.num_vars as nat) ==> (
                #[trigger] r.helper_functions@[b].evaluations@[x])@ == inverse_block_sum(
                    evaluations_of(r.phi_functions@),
                    b * block_size,
                    block_end(b, block_size as int, self.vec_input@.len() as int),
                    x,
                ),
            r.sum@ == table_sum(
                witness.table@,
                witness.multiplicity@,
                randomness@,
                min2(witness.table@.len() as int, witness.multiplicity@.len() as int),
            ),
            r.helps(*self, *witness, randomness),
    {
        let num_vars = self.num_vars;
        let n_vec = self.vec_input.len();
        // f(x) + r for every input column
        let mut phi: Vec<Vec<Fp<P>>> = Vec::with_capacity(n_vec);
        let mut j: usize = 0;
        while j < n_vec
            invariant
                P > 1,
                self.wf(),
                num_vars == self.num_vars,
                n_vec == self.vec_input@.len(),
                j <= n_vec,
                phi@.len() == j,
                forall|t: int| 0 <= t < j ==> (#[trigger] phi@[t])@.len() == pow2(num_vars as nat),
                forall|t: int, x: int|
                    0 <= t < j && 0 <= x < pow2(num_vars as nat) ==> (#[trigger] phi@[t]@[x])@ == (
                    self.vec_input@[t].evaluations@[x]@ + randomness@) % (P as nat),
            decreases n_vec - j,
        {
            proof {
                assert(self.vec_input@[j as int].wf());
            }
            let column = shift_column(&self.vec_input[j].evaluations, randomness);
            phi.push(column);
            proof {
                assert(phi@[j as int] == column);
            }
            j = j + 1;
        }
        let ghost phis = Seq::new(n_vec as nat, |c: int| phi@[c]@);
        // 1 / (f(x) + r)
        let mut inverses: Vec<Vec<Fp<P>>> = Vec::with_capacity(n_vec);
        let mut c: usize = 0;
        while c < n_vec
            invariant
                P > 1,
                self.wf(),
                self.shifted_invertible(witness, randomness),
                num_vars == self.num_vars,
                n_vec == self.vec_input@.len(),
                n_vec == phi@.len(),
                phis == Seq::new(n_vec as nat, |c: int| phi@[c]@),
                forall|t: int| 0 <= t < n_vec ==> (#[trigger] phi@[t])@.len() == pow2(num_vars as nat),
                forall|t: int, x: int|
                    0 <= t < n_vec && 0 <= x < pow2(num_vars as nat) ==> (#[trigger] phi@[t]@[x])@ == (
                    self.vec_input@[t].evaluations@[x]@ + randomness@) % (P as nat),
                c <= n_vec,
                inverses@.len() == c,
                forall|t: int| 0 <= t < c ==> (#[trigger] inverses@[t])@.len() == pow2(num_vars as nat),
                forall|t: int, x: int|
                    0 <= t < c && 0 <= x < pow2(num_vars as nat) ==> (#[trigger] inverses@[t]@[x])@
                        == field_inverse(phis[t][x]@, P as nat),
            decreases n_vec - c,
        {
            proof {
                assert(self.vec_input@[c as int].wf());
                assert(self.vec_input@[c as int].evaluations@.len() == pow2(num_vars as nat));
                assert forall|x: int| 0 <= x < phi@[c as int]@.len() implies invertible((#[trigger] phi@[c as int]@[x])@, P as nat) by {
                    let v = self.vec_input@[c as int].evaluations@[x];
                    assert(invertible((v@ + randomness@) % (P as nat), P as nat));
                    assert(phi@[c as int]@[x]@ == (v@ + randomness@) % (P as nat));
                }
            }
            inverses.push(batch_inverse(&phi[c]));
            c = c + 1;
        }
        let helper_functions = block_sums(&inverses, num_vars, block_size);
        proof {
            let cols = Seq::new(inverses@.len(), |c: int| inverses@[c]@);
            assert forall|b: int, x: int|
                0 <= b < helper_functions@.len() && 0 <= x < pow2(num_vars as nat) implies (#[trigger] helper_functions@[b].evaluations@[x])@
                == inverse_block_sum(phis, b * block_size, block_end(b, block_size as int, n_vec as int), x) by {
                lemma_inverse_block_sum_columns(phis, cols, b * block_size, block_end(b, block_size as int, n_vec as int), x);
            }
        }
        // the table side: m(y) / (t(y) + r) over the whole table
        let table_shifted = shift_column(&witness.table, randomness);
        proof {
            assert forall|y: int| 0 <= y < table_shifted@.len() implies invertible((#[trigger] table_shifted@[y])@, P as nat) by {
                assert(invertible(((witness.table@[y])@ + randomness@) % (P as nat), P as nat));
            }
        }
        let table_inverses = batch_inverse(&table_shifted);
        let mut n = witness.table.len();
        if witness.multiplicity.len() < n {
            n = witness.multiplicity.len();
        }
        let mut sum = Fp::<P>::zero();
        let mut y: usize = 0;
        while y < n
            invariant
                P > 1,
                n <= table_inverses@.len(),
                n <= witness.multiplicity@.len(),
                table_inverses@.len() == witness.table@.len(),
                forall|t: int| 0 <= t < table_inverses@.len() ==> (#[trigger] table_inverses@[t])@ == field_inverse(
                    ((witness.table@[t])@ + randomness@) % (P as nat),
                    P as nat,
                ),
                y <= n,
                sum@ == table_sum(witness.table@, witness.multiplicity@, randomness@, y as int),
            decreases n - y,
        {
            sum = sum.add(table_inverses[y].mul(witness.multiplicity[y]));
            y = y + 1;
        }
        // the shifted columns as multilinear extensions
        let mut phi_functions: Vec<Rc<DenseMultilinearExtension<P>>> = Vec::with_capacity(n_vec);
        let mut c: usize = 0;
        while c < n_vec
            invariant
                n_vec == phi@.len(),
                forall|t: int| 0 <= t < n_vec ==> (#[trigger] phi@[t])@.len() == pow2(num_vars as nat),
                c <= n_vec,
                phi_functions@.len() == c,
                forall|t: int|
                    0 <= t < c ==> {
                        &&& (#[trigger] phi_functions@[t]).wf()
                        &&& phi_functions@[t].num_vars == num_vars
                        &&& phi_functions@[t].evaluations@ == phi@[t]@
                    },
            decreases n_vec - c,
        {
            let column = phi[c].clone();
            proof {
                assert(column@ == phi@[c as int]@);
            }
            phi_functions.push(Rc::new(DenseMultilinearExtension::from_evaluations_vec(num_vars, column)));
            c = c + 1;
        }
        proof {
            assert(evaluations_of(phi_functions@) =~= phis);
        }
        LookupWitnessHelper {
            block_size,
            num_blocks: (n_vec + block_size - 1) / block_size,
            random_value: randomness,
            sum,
            helper_functions,
            phi_functions,
        }
    }

    /// The value of every input column at `point`.
    pub fn evaluate(&self, point: &[Fp<P>]) -> (r: LookupTraceEval<P>)
        requires
            P > 1,
            self.wf(),
            point@.len() == self.num_vars,
        ensures
            r.num_vars == self.num_vars,
            r.range == self.range,
            r.vec_input_at_r@.len() == self.vec_input@.len(),
            forall|j: int|
                0 <= j < self.vec_input@.len() ==> (#[trigger] r.vec_input_at_r@[j])@
                    == self.vec_input@[j].spec_evaluate(point@),
    {
        LookupTraceEval {
            num_vars: self.num_vars,
            range: self.range,
            vec_input_at_r: evaluate_all(&self.vec_input, point),
        }
    }
}

/// The smaller of two numbers.
pub open spec fn min2(a: int, b: int) -> int {
    if a <= b {
        a
    } else {
        b
    }
}

/// The field sum of `m(y) / (t(y) + r)` over the first `n` entries.
pub open spec fn table_sum<const P: u64>(table: Seq<Fp<P>>, m: Seq<Fp<P>>, r: nat, n: int) -> nat
    decreases n,
{
    if n <= 0 {
        0
    } else {
        (table_sum(table, m, r, n - 1) + (field_inverse((table[n - 1]@ + r) % (P as nat), P as nat)
            * m[n - 1]@) % (P as nat)) % (P as nat)
    }
}

/// The field sum of `1 / phi_c(x)` over the columns `lo` to `hi - 1`.
pub open spec fn inverse_block_sum<const P: u64>(phi: Seq<Seq<Fp<P>>>, lo: int, hi: int, x: int) -> nat
    decreases hi - lo,
{
    if hi <= lo {
        0
    } else {
        (inverse_block_sum(phi, lo, hi - 1, x) + field_inverse(phi[hi - 1][x]@, P as nat)) % (P as nat)
    }
}

/// Block sums of the inverses are block sums of columns holding the inverses.
proof fn lemma_inverse_block_sum_columns<const P: u64>(
    phi: Seq<Seq<Fp<P>>>,
    cols: Seq<Seq<Fp<P>>>,
    lo: int,
    hi: int,
    x: int,
)
    requires
        forall|c: int| lo <= c < hi ==> (#[trigger] cols[c])[x]@ == field_inverse(phi[c][x]@, P as nat),
    ensures
        inverse_block_sum(phi, lo, hi, x) == column_block_sum(cols, lo, hi, x),
    decreases hi - lo,
{
    if hi > lo {
        lemma_inverse_block_sum_columns(phi, cols, lo, hi - 1, x);
        assert(cols[hi - 1][x]@ == field_inverse(phi[hi - 1][x]@, P as nat));
    }
}

/// `v + r` for every entry `v` of `values`.
fn shift_column<const P: u64>(values: &Vec<Fp<P>>, r: Fp<P>) -> (out: Vec<Fp<P>>)
    ensures
        out@.len() == values@.len(),
        forall|x: int| 0 <= x < values@.len() ==> (#[trigger] out@[x])@ == (values@[x]@ + r@) % (P as nat),
{
    let mut out: Vec<Fp<P>> = Vec::with_capacity(values.len());
    let mut x: usize = 0;
    while x < values.len()
        invariant
            x <= values@.len(),
            out@.len() == x,
            forall|t: int| 0 <= t < x ==> (#[trigger] out@[t])@ == (values@[t]@ + r@) % (P as nat),
        decreases values@.len() - x,
    {
        out.push(values[x].add(r));
        x = x + 1;
    }
    out
}

impl<const P: u64> LookupWitnessHelper<P> {
    /// The value of every helper column at `point`, with the parameters of the helper.
    pub fn evaluate(&self, point: &[Fp<P>]) -> (r: LookupWitnessHelperEval<P>)
        requires
            P > 1,
            forall|i: int|
                0 <= i < self.helper_functions@.len() ==> {
                    &&& (#[trigger] self.helper_functions@[i]).wf()
                    &&& self.helper_functions@[i].num_vars == point@.len()
                },
        ensures
            r.block_size == self.block_size,
            r.num_blocks == self.num_blocks,
            r.random_value == self.random_value,
            r.sum == self.sum,
            r.helper_functions_at_r@.len() == self.helper_functions@.len(),
            forall|i: int|
                0 <= i < self.helper_functions@.len() ==> (#[trigger] r.helper_functions_at_r@[i])@
                    == self.helper_functions@[i].spec_evaluate(point@),
    {
        LookupWitnessHelperEval {
            block_size: self.block_size,
            num_blocks: self.num_blocks,
            random_value: self.random_value,
            sum: self.sum,
            helper_functions_at_r: evaluate_all(&self.helper_functions, point),
        }
    }
}

impl<const P: u64> PackableTrace<P> for LookupTraceMLE<P> {
    open spec fn packable(&self) -> bool {
        true
    }

    open spec fn spec_num_vars(&self) -> nat {
        self.num_vars as nat
    }

    open spec fn spec_num_oracles(&self) -> nat {
        self.vec_input@.len()
    }

    /// The input columns, one after the other.
    open spec fn spec_packed(&self) -> Seq<Fp<P>> {
        concat_evaluations(self.vec_input@)
    }

    fn num_vars(&self) -> (r: usize) {
        self.num_vars
    }

    fn num_oracles(&self) -> (r: usize) {
        self.vec_input.len()
    }

    fn pack_to_vec(&self) -> (r: Vec<Fp<P>>) {
        let mut r: Vec<Fp<P>> = Vec::new();
        crate::packing::append_evaluations(&mut r, &self.vec_input);
        r
    }
}

impl<const P: u64> PackableTrace<P> for LookupWitnessHelper<P> {
    open spec fn packable(&self) -> bool {
        self.helper_functions@.len() > 0
    }

    open spec fn spec_num_vars(&self) -> nat {
        self.helper_functions@[0].num_vars as nat
    }

    open spec fn spec_num_oracles(&self) -> nat {
        self.helper_functions@.len()
    }

    /// The helper columns, one after the other.
    open spec fn spec_packed(&self) -> Seq<Fp<P>> {
        concat_evaluations(self.helper_functions@)
    }

    fn num_vars(&self) -> (r: usize) {
        self.helper_functions[0].num_vars
    }

    fn num_oracles(&self) -> (r: usize) {
        self.helper_functions.len()
    }

    fn pack_to_vec(&self) -> (r: Vec<Fp<P>>) {
        let mut r: Vec<Fp<P>> = Vec::new();
        crate::packing::append_evaluations(&mut r, &self.helper_functions);
        r
    }
}

impl<const P: u64> PackableEval<P> for LookupTraceEval<P> {
    open spec fn spec_num_evals(&self) -> nat {
        self.vec_input_at_r@.len()
    }

    open spec fn spec_packed_evals(&self) -> Seq<Fp<P>> {
        self.vec_input_at_r@
    }

    fn num_evals(&self) -> (r: usize) {
        self.vec_input_at_r.len()
    }

    fn pack_to_vec(&self) -> (r: Vec<Fp<P>>) {
        crate::packing::copy_values(&self.vec_input_at_r)
    }
}

impl<const P: u64> PackableEval<P> for LookupWitnessHelperEval<P> {
    open spec fn spec_num_evals(&self) -> nat {
        self.helper_functions_at_r@.len()
    }

    open spec fn spec_packed_evals(&self) -> Seq<Fp<P>> {
        self.helper_functions_at_r@
    }

    fn num_evals(&self) -> (r: usize) {
        self.helper_functions_at_r.len()
    }

    fn pack_to_vec(&self) -> (r: Vec<Fp<P>>) {
        crate::packing::copy_values(&self.helper_functions_at_r)
    }
}

} // verus!
