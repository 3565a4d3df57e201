//! Range checks: every value of a set of columns lies in `[0, range)`.
//!
//! The table is `0, 1, ..., range - 1`, padded with zeros to `2^num_vars` entries; the
//! multiplicity of the padding is spread evenly over the zero entries. The LogUp helper
//! columns add up, block by block, the terms `-m(x) / (t(x) + r)` of the table and
//! `1 / (f(x) + r)` of every input column.
use super::{
    all_invertible, batch_inverse, block_end, block_sums, column_block_sum, count_occurrences, count_value,
    field_inverse,
};
use crate::field::{invertible, Fp};
use crate::mle::DenseMultilinearExtension;
use crate::random::random_below;
use rand::rngs::ThreadRng;
use std::rc::Rc;
use vstd::arithmetic::div_mod::*;
use vstd::arithmetic::power2::*;
use vstd::prelude::*;

verus! {

/// Columns of values to be range checked against `[0, range)`.
#[derive(Clone, Debug)]
pub struct LookupTrace<const P: u64> {
    pub num_vars: usize,
    pub num_vec: usize,
    pub vec_input: Vec<Vec<Fp<P>>>,
    pub range: usize,
}

/// The columns of a range check as multilinear extensions.
#[derive(Clone, Debug)]
pub struct LookupTraceMLE<const P: u64> {
    pub num_vars: usize,
    pub range: usize,
    pub vec_input: Vec<Rc<DenseMultilinearExtension<P>>>,
}

/// A range check with its table and the multiplicity of every table entry.
#[derive(Clone, Debug)]
pub struct LookupWitness<const P: u64> {
    pub num_vars: usize,
    pub trace: LookupTraceMLE<P>,
    pub table: Rc<DenseMultilinearExtension<P>>,
    pub multiplicity: Rc<DenseMultilinearExtension<P>>,
}

/// The LogUp helper columns of a range check for the challenge `random_value`.
#[derive(Clone, Debug)]
pub struct LookupWitnessHelper<const P: u64> {
    pub block_size: usize,
    pub num_blocks: usize,
    pub random_value: Fp<P>,
    pub helper_functions: Vec<Rc<DenseMultilinearExtension<P>>>,
    /// `t(x) + r` and `f(x) + r` for the table and every input column
    pub phi_functions: Vec<Rc<DenseMultilinearExtension<P>>>,
}

/// The smallest `k` with `2^k >= n`.
pub open spec fn is_ceil_log2(n: nat, k: nat) -> bool {
    &&& pow2(k) >= n
    &&& k == 0 || pow2((k - 1) as nat) < n
}

/// The smallest `k` with `2^k >= n`, that is the number of trailing zeros of the next
/// power of two.
pub fn ceil_log2(n: usize) -> (r: usize)
    requires
        n <= pow2((usize::BITS - 1) as nat),
    ensures
        is_ceil_log2(n as nat, r as nat),
        r < usize::BITS,
{
    let mut k: usize = 0;
    let mut p: usize = 1;
    proof {
        lemma2_to64();
    }
    while p < n
        invariant
            n <= pow2((usize::BITS - 1) as nat),
            p == pow2(k as nat),
            k < usize::BITS,
            k == 0 || pow2((k - 1) as nat) < n,
        decreases usize::BITS - k,
    {
        proof {
            if k + 1 >= usize::BITS {
                lemma_pow2_strictly_increases((usize::BITS - 1) as nat, k as nat);
                assert(false);
            }
            lemma_pow2_adds(k as nat, 1);
            lemma2_to64();
            vstd::bits::lemma_usize_pow2_no_overflow((k + 1) as nat);
        }
        p = p * 2;
        k = k + 1;
    }
    k
}

/// The number of entries of all `columns` whose value is `v`.
pub open spec fn count_in_columns<const P: u64>(columns: Seq<Seq<Fp<P>>>, v: nat) -> nat
    decreases columns.len(),
{
    if columns.len() == 0 {
        0
    } else {
        count_in_columns(columns.drop_last(), v) + count_value(columns.last(), v)
    }
}

/// The number of entries of all `columns`.
pub open spec fn total_len<const P: u64>(columns: Seq<Seq<Fp<P>>>) -> nat
    decreases columns.len(),
{
    if columns.len() == 0 {
        0
    } else {
        total_len(columns.drop_last()) + columns.last().len()
    }
}

proof fn lemma_count_value_bound<const P: u64>(s: Seq<Fp<P>>, v: nat)
    ensures
        count_value(s, v) <= s.len(),
    decreases s.len(),
{
    if s.len() > 0 {
        lemma_count_value_bound(s.drop_last(), v);
    }
}

proof fn lemma_count_in_columns_bound<const P: u64>(columns: Seq<Seq<Fp<P>>>, v: nat)
    ensures
        count_in_columns(columns, v) <= total_len(columns),
    decreases columns.len(),
{
    if columns.len() > 0 {
        lemma_count_in_columns_bound(columns.drop_last(), v);
        lemma_count_value_bound(columns.last(), v);
    }
}

impl<const P: u64> LookupTraceMLE<P> {
    /// The evaluations of the input columns.
    pub open spec fn columns(&self) -> Seq<Seq<Fp<P>>> {
        evaluations_of(self.vec_input@)
    }

    /// Every input column has `2^num_vars` evaluations.
    pub open spec fn wf(&self) -> bool {
        forall|j: int|
            0 <= j < self.vec_input@.len() ==> {
                &&& (#[trigger] self.vec_input@[j]).wf()
                &&& self.vec_input@[j].num_vars == self.num_vars
            }
    }
}

/// The multiplicity of the table value `i` before the padding is spread: the number of
/// inputs equal to `i`; zero for a value at or past `P`, whose residue came earlier.
pub open spec fn base_multiplicity<const P: u64>(columns: Seq<Seq<Fp<P>>>, i: nat) -> nat {
    if i < P {
        count_in_columns(columns, i) % (P as nat)
    } else {
        0
    }
}

impl<const P: u64> LookupTrace<P> {
    /// `num_vec` random columns of `2^num_vars` values, each drawn from `[0, range)`.
    pub fn random(rng: &mut ThreadRng, num_vars: usize, num_vec: usize, range: usize) -> (r: Self)
        requires
            P > 1,
            range > 0,
            num_vars < usize::BITS,
        ensures
            r.num_vars == num_vars,
            r.num_vec == num_vec,
            r.range == range,
            r.vec_input@.len() == num_vec,
            forall|j: int|
                0 <= j < num_vec ==> (#[trigger] r.vec_input@[j])@.len() == pow2(num_vars as nat),
            forall|j: int, i: int|
                0 <= j < num_vec && 0 <= i < r.vec_input@[j]@.len() ==> (#[trigger] r.vec_input@[j]@[i])@
                    < range,
    {
        proof {
            vstd::bits::lemma_usize_pow2_no_overflow(num_vars as nat);
        }
        let size = crate::basis::pow2_usize(num_vars);
        let mut vec_input: Vec<Vec<Fp<P>>> = Vec::with_capacity(num_vec);
        let mut j: usize = 0;
        while j < num_vec
            invariant
                P > 1,
                range > 0,
                size == pow2(num_vars as nat),
                j <= num_vec,
                vec_input@.len() == j,
                forall|t: int| 0 <= t < j ==> (#[trigger] vec_input@[t])@.len() == size,
                forall|t: int, i: int|
                    0 <= t < j && 0 <= i < vec_input@[t]@.len() ==> (#[trigger] vec_input@[t]@[i])@
                        < range,
            decreases num_vec - j,
        {
            let mut column: Vec<Fp<P>> = Vec::with_capacity(size);
            let mut i: usize = 0;
            while i < size
                invariant
                    P > 1,
                    range > 0,
                    i <= size,
                    column@.len() == i,
                    forall|k: int| 0 <= k < i ==> (#[trigger] column@[k])@ < range,
                decreases size - i,
            {
                let v = random_below(rng, range as u64);
                let e = Fp::<P>::new(v);
                proof {
                    if v < P {
                        lemma_small_mod(v as nat, P as nat);
                    }
                }
                column.push(e);
                i = i + 1;
            }
            vec_input.push(column);
            j = j + 1;
        }
        LookupTrace { num_vars, num_vec, vec_input, range }
    }
}

impl<const P: u64> LookupTraceMLE<P> {
    /// Wraps the columns of a range check into multilinear extensions.
    pub fn from_trace(trace: LookupTrace<P>) -> (r: Self)
        requires
            trace.range <= pow2(trace.num_vars as nat),
            forall|j: int|
                0 <= j < trace.vec_input@.len() ==> (#[trigger] trace.vec_input@[j])@.len() == pow2(
                    trace.num_vars as nat,
                ),
        ensures
            r.wf(),
            r.num_vars == trace.num_vars,
            r.range == trace.range,
            r.vec_input@.len() == trace.vec_input@.len(),
            forall|j: int|
                0 <= j < trace.vec_input@.len() ==> (#[trigger] r.vec_input@[j]).evaluations@
                    == trace.vec_input@[j]@,
    {
        let num_vars = trace.num_vars;
        let columns = crate::comparison::lt_trace::columns_to_mles(num_vars, trace.vec_input);
        LookupTraceMLE { num_vars, range: trace.range, vec_input: columns }
    }

    /// The number of variables of the packed witness: the inputs, the table and the
    /// multiplicity, `len + 2` oracles rounded up to a power of two.
    pub fn witness_num_vars(&self) -> (r: usize)
        requires
            self.vec_input@.len() + 2 <= pow2((usize::BITS - 1) as nat),
            self.num_vars + usize::BITS <= usize::MAX,
        ensures
            r >= self.num_vars,
            is_ceil_log2((self.vec_input@.len() + 2) as nat, (r - self.num_vars) as nat),
    {
        proof {
            vstd::bits::lemma_usize_pow2_no_overflow((usize::BITS - 1) as nat);
        }
        let k = ceil_log2(self.vec_input.len() + 2);
        self.num_vars + k
    }

    /// The number of variables of the packed helper columns: `1 + num_vec` columns in
    /// blocks of `blk_size`, the number of blocks rounded up to a power of two.
    pub fn compute_helper_num_vars(num_vars: usize, num_vec: usize, blk_size: usize) -> (r: usize)
        requires
            blk_size > 0,
            1 + num_vec + blk_size <= usize::MAX,
            (1 + num_vec + blk_size - 1) / (blk_size as int) <= pow2((usize::BITS - 1) as nat),
            num_vars + usize::BITS <= usize::MAX,
        ensures
            r >= num_vars,
            is_ceil_log2(((1 + num_vec + blk_size - 1) / (blk_size as int)) as nat, (r - num_vars) as nat),
    {
        let total = 1 + num_vec;
        let num_blks = (total + blk_size - 1) / blk_size;
        let k = ceil_log2(num_blks);
        num_vars + k
    }

    /// `compute_helper_num_vars` for these columns.
    pub fn helper_num_vars(&self, blk_size: usize) -> (r: usize)
        requires
            blk_size > 0,
            1 + self.vec_input@.len() + blk_size <= usize::MAX,
            (1 + self.vec_input@.len() + blk_size - 1) / (blk_size as int) <= pow2(
                (usize::BITS - 1) as nat,
            ),
            self.num_vars + usize::BITS <= usize::MAX,
        ensures
            r >= self.num_vars,
            is_ceil_log2(
                ((1 + self.vec_input@.len() + blk_size - 1) / (blk_size as int)) as nat,
                (r - self.num_vars) as nat,
            ),
    {
        Self::compute_helper_num_vars(self.num_vars, self.vec_input.len(), blk_size)
    }
}

proof fn lemma_total_len_prefix<const P: u64>(columns: Seq<Seq<Fp<P>>>, j: int)
    requires
        0 <= j <= columns.len(),
    ensures
        total_len(columns.take(j)) <= total_len(columns),
    decreases columns.len(),
{
    if j < columns.len() {
        assert(columns.drop_last().take(j) =~= columns.take(j));
        lemma_total_len_prefix(columns.drop_last(), j);
    } else {
        assert(columns.take(j) =~= columns);
    }
}

/// The number of entries of all `columns` whose value is `v`.
pub fn count_in_columns_of<const P: u64>(columns: &Vec<Rc<DenseMultilinearExtension<P>>>, v: Fp<P>) -> (r: u32)
    requires
        total_len(evaluations_of(columns@)) <= u32::MAX,
    ensures
        r == count_in_columns(evaluations_of(columns@), v@),
{
    let ghost cols = evaluations_of(columns@);
    let n = columns.len();
    let mut acc: u32 = 0;
    let mut j: usize = 0;
    while j < n
        invariant
            cols == evaluations_of(columns@),
            n == cols.len(),
            total_len(cols) <= u32::MAX,
            j <= n,
            acc == count_in_columns(cols.take(j as int), v@),
        decreases n - j,
    {
        proof {
            assert(cols.take(j + 1).drop_last() =~= cols.take(j as int));
            assert(cols.take(j + 1).last() == cols[j as int]);
            lemma_count_in_columns_bound(cols.take(j + 1), v@);
            lemma_total_len_prefix(cols, j + 1);
            assert(columns@[j as int].evaluations@ == cols[j as int]);
        }
        let c = count_occurrences(&columns[j].evaluations, v);
        acc = acc + c;
        j = j + 1;
    }
    proof {
        assert(cols.take(n as int) =~= cols);
    }
    acc
}

impl<const P: u64> LookupWitness<P> {
    /// The table, the multiplicity and the input columns all have `2^num_vars` entries.
    pub open spec fn wf(&self) -> bool {
        &&& self.trace.wf()
        &&& self.trace.num_vars == self.num_vars
        &&& self.table.wf()
        &&& self.table.num_vars == self.num_vars
        &&& self.multiplicity.wf()
        &&& self.multiplicity.num_vars == self.num_vars
    }

    /// The table is `0, 1, ..., range - 1` padded with zeros; each multiplicity counts the
    /// inputs with the value of its entry, the count of zero being spread evenly over the
    /// entry `0` and the padding.
    pub open spec fn is_range_witness(&self) -> bool {
        let n = pow2(self.num_vars as nat);
        let range = self.trace.range as int;
        let cols = self.trace.columns();
        let t = self.table.evaluations@;
        let m = self.multiplicity.evaluations@;
        let pad = n - range;
        &&& range <= n
        &&& forall|i: int| 0 <= i < range ==> (#[trigger] t[i])@ == i % (P as int)
        &&& forall|i: int| range <= i < n ==> (#[trigger] t[i])@ == 0
        &&& pad == 0 ==> forall|i: int|
            0 <= i < range ==> (#[trigger] m[i])@ == base_multiplicity(cols, i as nat)
        &&& pad > 0 ==> {
            &&& invertible(((pad + 1) as nat) % (P as nat), P as nat)
            &&& forall|i: int| 0 < i < range ==> (#[trigger] m[i])@ == base_multiplicity(cols, i as nat)
            &&& (m[0]@ * (((pad + 1) as nat) % (P as nat))) % (P as nat) == (if range > 0 {
                base_multiplicity(cols, 0)
            } else {
                0
            })
            &&& forall|i: int| range <= i < n ==> #[trigger] m[i] == m[0]
        }
    }

    /// The table `0, 1, ..., range - 1` padded with zeros, and the multiplicity of each of
    /// its entries among the inputs. The multiplicity of zero is spread evenly over the
    /// entry `0` and the padding entries.
    pub fn from_trace_mle(trace: LookupTraceMLE<P>) -> (r: Self)
        requires
            P > 1,
            trace.wf(),
            trace.num_vars < usize::BITS,
            trace.range <= pow2(trace.num_vars as nat),
            pow2(trace.num_vars as nat) - trace.range < u32::MAX,
            total_len(trace.columns()) <= u32::MAX,
            pow2(trace.num_vars as nat) > trace.range ==> invertible(
                ((pow2(trace.num_vars as nat) - trace.range + 1) as nat) % (P as nat),
                P as nat,
            ),
        ensures
            r.wf(),
            r.num_vars == trace.num_vars,
            r.trace == trace,
            forall|i: int| 0 <= i < trace.range ==> (#[trigger] r.table.evaluations@[i])@ == i % (P as int),
            forall|i: int|
                trace.range <= i < pow2(trace.num_vars as nat) ==> (#[trigger] r.table.evaluations@[i])@
                    == 0,
            pow2(trace.num_vars as nat) == trace.range ==> forall|i: int|
                0 <= i < trace.range ==> (#[trigger] r.multiplicity.evaluations@[i])@
                    == base_multiplicity(trace.columns(), i as nat),
            pow2(trace.num_vars as nat) > trace.range ==> {
                &&& forall|i: int|
                    0 < i < trace.range ==> (#[trigger] r.multiplicity.evaluations@[i])@
                        == base_multiplicity(trace.columns(), i as nat)
                &&& (r.multiplicity.evaluations@[0]@ * (((pow2(trace.num_vars as nat) - trace.range
                    + 1) as nat) % (P as nat))) % (P as nat) == (if trace.range > 0 {
                    base_multiplicity(trace.columns(), 0)
                } else {
                    0
                })
                &&& forall|i: int|
                    trace.range <= i < pow2(trace.num_vars as nat) ==> #[trigger] r.multiplicity.evaluations@[i]
                        == r.multiplicity.evaluations@[0]
            },
            r.is_range_witness(),
    {
        proof {
            vstd::bits::lemma_usize_pow2_no_overflow(trace.num_vars as nat);
        }
        let size = crate::basis::pow2_usize(trace.num_vars);
        let range = trace.range;
        let pad = size - range;
        let ghost cols = trace.columns();
        let mut table: Vec<Fp<P>> = Vec::with_capacity(size);
        let mut multiplicity: Vec<Fp<P>> = Vec::with_capacity(size);
        let mut i: usize = 0;
        while i < range
            invariant
                P > 1,
                cols == trace.columns(),
                total_len(cols) <= u32::MAX,
                range == trace.range,
                i <= range,
                table@.len() == i,
                multiplicity@.len() == i,
                forall|k: int| 0 <= k < i ==> (#[trigger] table@[k])@ == k % (P as int),
                forall|k: int| 0 <= k < i ==> (#[trigger] multiplicity@[k])@ == base_multiplicity(cols, k as nat),
            decreases range - i,
        {
            let value = Fp::<P>::new(i as u64);
            table.push(value);
            if (i as u64) < P {
                proof {
                    lemma_small_mod(i as nat, P as nat);
                }
                let c = count_in_columns_of(&trace.vec_input, value);
                multiplicity.push(Fp::new(c as u64));
            } else {
                multiplicity.push(Fp::zero());
            }
            i = i + 1;
        }
        if pad > 0 {
            let factor = Fp::<P>::new((pad as u32 + 1) as u64);
            let m0 = if range > 0 {
                multiplicity[0]
            } else {
                Fp::zero()
            };
            let normalized = m0.div(factor);
            if range > 0 {
                multiplicity.set(0, normalized);
            }
            let mut k: usize = range;
            while k < size
                invariant
                    P > 1,
                    range <= k <= size,
                    table@.len() == k,
                    multiplicity@.len() == k,
                    range > 0 ==> multiplicity@[0] == normalized,
                    forall|t: int| 0 <= t < range ==> (#[trigger] table@[t])@ == t % (P as int),
                    forall|t: int| range <= t < k ==> (#[trigger] table@[t])@ == 0,
                    forall|t: int| 0 < t < range ==> (#[trigger] multiplicity@[t])@ == base_multiplicity(cols, t as nat),
                    forall|t: int| range <= t < k ==> #[trigger] multiplicity@[t] == normalized,
                decreases size - k,
            {
                table.push(Fp::zero());
                multiplicity.push(normalized);
                k = k + 1;
            }
        }
        let num_vars = trace.num_vars;
        LookupWitness {
            num_vars,
            trace,
            table: Rc::new(DenseMultilinearExtension::from_evaluations_vec(num_vars, table)),
            multiplicity: Rc::new(DenseMultilinearExtension::from_evaluations_vec(num_vars, multiplicity)),
        }
    }
}

/// `-a` modulo `p`.
pub open spec fn neg_value(a: nat, p: nat) -> nat {
    ((-(a as int)) % (p as int)) as nat
}

/// The LogUp term of column `c` at `x`: `-m(x) / phi_0(x)` for the table (column `0`),
/// `1 / phi_c(x)` for an input column.
pub open spec fn helper_term<const P: u64>(phi: Seq<Seq<Fp<P>>>, m: Seq<Fp<P>>, c: int, x: int) -> nat {
    if c == 0 {
        (field_inverse(phi[0][x]@, P as nat) * neg_value(m[x]@, P as nat)) % (P as nat)
    } else {
        field_inverse(phi[c][x]@, P as nat)
    }
}

/// The sum of the terms of columns `lo` to `hi - 1` at `x`, in the field.
pub open spec fn block_sum<const P: u64>(phi: Seq<Seq<Fp<P>>>, m: Seq<Fp<P>>, lo: int, hi: int, x: int) -> nat
    decreases hi - lo,
{
    if hi <= lo {
        0
    } else {
        (block_sum(phi, m, lo, hi - 1, x) + helper_term(phi, m, hi - 1, x)) % (P as nat)
    }
}

/// Block sums of the terms are block sums of columns holding the terms.
proof fn lemma_block_sum_columns<const P: u64>(
    phi: Seq<Seq<Fp<P>>>,
    m: Seq<Fp<P>>,
    cols: Seq<Seq<Fp<P>>>,
    lo: int,
    hi: int,
    x: int,
)
    requires
        forall|c: int| lo <= c < hi ==> (#[trigger] cols[c])[x]@ == helper_term(phi, m, c, x),
    ensures
        block_sum(phi, m, lo, hi, x) == column_block_sum(cols, lo, hi, x),
    decreases hi - lo,
{
    if hi > lo {
        lemma_block_sum_columns(phi, m, cols, lo, hi - 1, x);
        assert(cols[hi - 1][x]@ == helper_term(phi, m, hi - 1, x));
    }
}

/// The evaluations of the columns `mles`.
pub open spec fn evaluations_of<const P: u64>(mles: Seq<Rc<DenseMultilinearExtension<P>>>) -> Seq<Seq<Fp<P>>> {
    Seq::new(mles.len(), |c: int| mles[c].evaluations@)
}

/// `v + r` for every entry `v` of `values`.
fn shift_by<const P: u64>(values: &Vec<Fp<P>>, r: Fp<P>) -> (out: Vec<Fp<P>>)
    ensures
        out@.len() == values@.len(),
        forall|x: int| 0 <= x < values@.len() ==> (#[trigger] out@[x])@ == (values@[x]@ + r@) % (P as nat),
{
    let mut out: Vec<Fp<P>> = Vec::with_capacity(values.len());
    let mut x: usize = 0;
    while x < values.len()
        invariant
            x <= values@.len(),
            out@.len() == x,
            forall|t: int| 0 <= t < x ==> (#[trigger] out@[t])@ == (values@[t]@ + r@) % (P as nat),
        decreases values@.len() - x,
    {
        out.push(values[x].add(r));
        x = x + 1;
    }
    out
}

impl<const P: u64> LookupWitnessHelper<P> {
    /// The helper columns of `witness` for `randomness`, in blocks of `block_size` columns.
    pub open spec fn helps(&self, witness: LookupWitness<P>, randomness: Fp<P>) -> bool {
        let total = 1 + witness.trace.vec_input@.len() as int;
        let bs = self.block_size as int;
        let n = pow2(witness.num_vars as nat);
        &&& bs > 0
        &&& self.num_blocks == (total + bs - 1) / bs
        &&& self.random_value == randomness
        &&& self.phi_functions@.len() == total
        &&& forall|c: int|
            0 <= c < total ==> {
                &&& (#[trigger] self.phi_functions@[c]).wf()
                &&& self.phi_functions@[c].num_vars == witness.num_vars
            }
        &&& forall|x: int|
            0 <= x < n ==> (#[trigger] self.phi_functions@[0].evaluations@[x])@ == (
            witness.table.evaluations@[x]@ + randomness@) % (P as nat)
        &&& forall|j: int, x: int|
            0 <= j < total - 1 && 0 <= x < n ==> (#[trigger] self.phi_functions@[j + 1].evaluations@[x])@
                == (witness.trace.vec_input@[j].evaluations@[x]@ + randomness@) % (P as nat)
        &&& self.helper_functions@.len() == self.num_blocks
        &&& forall|b: int|
            0 <= b < self.num_blocks ==> {
                &&& (#[trigger] self.helper_functions@[b]).wf()
                &&& self.helper_functions@[b].num_vars == witness.num_vars
            }
        &&& forall|b: int, x: int|
            0 <= b < self.num_blocks && 0 <= x < n ==> (#[trigger] self.helper_functions@[b].evaluations@[x])@
                == block_sum(
                evaluations_of(self.phi_functions@),
                witness.multiplicity.evaluations@,
                b * bs,
                block_end(b, bs, total),
                x,
            )
    }
}

impl<const P: u64> LookupWitness<P> {
    /// The table and the inputs, shifted by `r`, are all invertible.
    pub open spec fn shifted_invertible(&self, randomness: Fp<P>) -> bool {
        &&& forall|x: int|
            0 <= x < self.table.evaluations@.len() ==> invertible(
                ((#[trigger] self.table.evaluations@[x])@ + randomness@) % (P as nat),
                P as nat,
            )
        &&& forall|j: int, x: int|
            0 <= j < self.trace.vec_input@.len() && 0 <= x < self.trace.vec_input@[j].evaluations@.len()
                ==> invertible(
                ((#[trigger] self.trace.vec_input@[j].evaluations@[x])@ + randomness@) % (P as nat),
                P as nat,
            )
    }

    /// The LogUp helper columns for the challenge `randomness`: the table and the input
    /// columns are split into blocks of `block_size` columns (the table first), and helper
    /// column `b` adds up the terms of the columns of block `b`.
    pub fn compute_helper_functions(&self, block_size: usize, randomness: Fp<P>) -> (r: LookupWitnessHelper<P>)
        requires
            P > 1,
            self.wf(),
            block_size > 0,
            1 + self.trace.vec_input@.len() + block_size <= usize::MAX,
            self.shifted_invertible(randomness),
        ensures
            r.block_size == block_size,
            r.num_blocks == (1 + self.trace.vec_input@.len() + block_size - 1) / (block_size as int),
            r.random_value == randomness,
            r.phi_functions@.len() == 1 + self.trace.vec_input@.len(),
            forall|c: int|
                0 <= c < r.phi_functions@.len() ==> {
                    &&& (#[trigger] r.phi_functions@[c]).wf()
                    &&& r.phi_functions@[c].num_vars == self.num_vars
                },
            forall|x: int|
                0 <= x < self.table.evaluations@.len() ==> (#[trigger] r.phi_functions@[0].evaluations@[x])@
                    == (self.table.evaluations@[x]@ + randomness@) % (P as nat),
            forall|j: int, x: int|
                0 <= j < self.trace.vec_input@.len() && 0 <= x < self.trace.vec_input@[j].evaluations@.len()
                    ==> (#[trigger] r.phi_functions@[j + 1].evaluations@[x])@ == (
                self.trace.vec_input@[j].evaluations@[x]@ + randomness@) % (P as nat),
            r.helper_functions@.len() == r.num_blocks,
            forall|b: int|
                0 <= b < r.num_blocks ==> {
                    &&& (#[trigger] r.helper_functions@[b]).wf()
                    &&& r.helper_functions@[b].num_vars == self.num_vars
                },
            forall|b: int, x: int|
                0 <= b < r.num_blocks && 0 <= x < self.table.evaluations@.len() ==> (#[trigger] r.helper_functions@[b].evaluations@[x])@
                    == block_sum(
                    evaluations_of(r.phi_functions@),
                    self.multiplicity.evaluations@,
                    b * block_size,
                    block_end(b, block_size as int, 1 + self.trace.vec_input@.len() as int),
                    x,
                ),
            r.helps(*self, randomness),
    {
        let num_vars = self.num_vars;
        let mle = self.table.evaluations.len();
        let n_vec = self.trace.vec_input.len();
        let total = 1 + n_vec;
        let num_blocks = (total + block_size - 1) / block_size;
        // t(x) + r and f(x) + r
        let mut phi: Vec<Vec<Fp<P>>> = Vec::with_capacity(total);
        phi.push(shift_by(&self.table.evaluations, randomness));
        let mut j: usize = 0;
        while j < n_vec
            invariant
                P > 1,
                self.wf(),
                mle == self.table.evaluations@.len(),
                n_vec == self.trace.vec_input@.len(),
                j <= n_vec,
                phi@.len() == j + 1,
                forall|c: int| 0 <= c <= j ==> (#[trigger] phi@[c])@.len() == mle,
                forall|x: int|
                    0 <= x < mle ==> (#[trigger] phi@[0]@[x])@ == (self.table.evaluations@[x]@ + randomness@) % (P as nat),
                forall|t: int, x: int|
                    0 <= t < j && 0 <= x < mle ==> (#[trigger] phi@[t + 1]@[x])@ == (
                    self.trace.vec_input@[t].evaluations@[x]@ + randomness@) % (P as nat),
            decreases n_vec - j,
        {
            proof {
                assert(self.trace.vec_input@[j as int].wf());
            }
            phi.push(shift_by(&self.trace.vec_input[j].evaluations, randomness));
            j = j + 1;
        }
        let ghost phis = Seq::new(total as nat, |c: int| phi@[c]@);
        // the terms of every column
        let mut terms: Vec<Vec<Fp<P>>> = Vec::with_capacity(total);
        let mut c: usize = 0;
        while c < total
            invariant
                P > 1,
                self.wf(),
                self.shifted_invertible(randomness),
                mle == self.table.evaluations@.len(),
                total == phi@.len(),
                total == 1 + self.trace.vec_input@.len(),
                phis == Seq::new(total as nat, |c: int| phi@[c]@),
                forall|t: int| 0 <= t < total ==> (#[trigger] phi@[t])@.len() == mle,
                forall|x: int|
                    0 <= x < mle ==> (#[trigger] phi@[0]@[x])@ == (self.table.evaluations@[x]@ + randomness@) % (P as nat),
                forall|t: int, x: int|
                    0 <= t < total - 1 && 0 <= x < mle ==> (#[trigger] phi@[t + 1]@[x])@ == (
                    self.trace.vec_input@[t].evaluations@[x]@ + randomness@) % (P as nat),
                c <= total,
                terms@.len() == c,
                forall|t: int| 0 <= t < c ==> (#[trigger] terms@[t])@.len() == mle,
                forall|t: int, x: int|
                    0 <= t < c && 0 <= x < mle ==> (#[trigger] terms@[t]@[x])@ == helper_term(
                        phis,
                        self.multiplicity.evaluations@,
                        t,
                        x,
                    ),
            decreases total - c,
        {
            proof {
                assert forall|x: int| 0 <= x < phi@[c as int]@.len() implies invertible((#[trigger] phi@[c as int]@[x])@, P as nat) by {
                    if c == 0 {
                        assert(invertible(((self.table.evaluations@[x])@ + randomness@) % (P as nat), P as nat));
                    } else {
                        let t = c - 1;
                        assert(self.trace.vec_input@[t as int].wf());
                        assert(invertible(((self.trace.vec_input@[t as int].evaluations@[x])@ + randomness@) % (P as nat), P as nat));
                        assert(phi@[t + 1]@[x] == phi@[c as int]@[x]);
                    }
                }
            }
            let inverses = batch_inverse(&phi[c]);
            if c == 0 {
                let m = &self.multiplicity.evaluations;
                let mut scaled: Vec<Fp<P>> = Vec::with_capacity(mle);
                let mut x: usize = 0;
                while x < mle
                    invariant
                        P > 1,
                        mle == inverses@.len(),
                        mle == m@.len(),
                        phis[0] == phi@[0]@,
                        phi@[0]@.len() == mle,
                        forall|t: int| 0 <= t < mle ==> (#[trigger] inverses@[t])@ == field_inverse(phi@[0]@[t]@, P as nat),
                        x <= mle,
                        scaled@.len() == x,
                        forall|t: int|
                            0 <= t < x ==> (#[trigger] scaled@[t])@ == helper_term(phis, m@, 0, t),
                    decreases mle - x,
                {
                    scaled.push(inverses[x].mul(m[x].neg()));
                    x = x + 1;
                }
                terms.push(scaled);
            } else {
                terms.push(inverses);
            }
            c = c + 1;
        }
        // the helper columns, block by block
        let helper_functions = block_sums(&terms, num_vars, block_size);
        proof {
            let cols = Seq::new(terms@.len(), |c: int| terms@[c]@);
            assert forall|b: int, x: int|
                0 <= b < helper_functions@.len() && 0 <= x < mle implies (#[trigger] helper_functions@[b].evaluations@[x])@
                == block_sum(
                phis,
                self.multiplicity.evaluations@,
                b * block_size,
                block_end(b, block_size as int, total as int),
                x,
            ) by {
                lemma_block_sum_columns(
                    phis,
                    self.multiplicity.evaluations@,
                    cols,
                    b * block_size,
                    block_end(b, block_size as int, total as int),
                    x,
                );
            }
        }
        // the shifted columns as multilinear extensions
        let mut phi_functions: Vec<Rc<DenseMultilinearExtension<P>>> = Vec::with_capacity(total);
        let mut c: usize = 0;
        while c < total
            invariant
                total == phi@.len(),
                mle == pow2(num_vars as nat),
                forall|t: int| 0 <= t < total ==> (#[trigger] phi@[t])@.len() == mle,
                c <= total,
                phi_functions@.len() == c,
                forall|t: int|
                    0 <= t < c ==> {
                        &&& (#[trigger] phi_functions@[t]).wf()
                        &&& phi_functions@[t].num_vars == num_vars
                        &&& phi_functions@[t].evaluations@ == phi@[t]@
                    },
            decreases total - c,
        {
            let column = phi[c].clone();
            proof {
                assert(column@ == phi@[c as int]@);
            }
            phi_functions.push(Rc::new(DenseMultilinearExtension::from_evaluations_vec(num_vars, column)));
            c = c + 1;
        }
        proof {
            assert(evaluations_of(phi_functions@) =~= phis);
        }
        LookupWitnessHelper {
            block_size,
            num_blocks,
            random_value: randomness,
            helper_functions,
            phi_functions,
        }
    }
}

/// The values of the input columns, the table and the multiplicity at a point.
#[derive(Clone, Debug)]
pub struct LookupWitnessEval<const P: u64> {
    pub vec_input_at_r: Vec<Fp<P>>,
    pub table_at_r: Fp<P>,
    pub multiplicity_at_r: Fp<P>,
}

/// The values of the helper columns at a point.
#[derive(Clone, Debug)]
pub struct LookupWitnessHelperEval<const P: u64> {
    pub helper_at_r: Vec<Fp<P>>,
}

/// The value of every oracle of `mles` at `point`.
pub fn evaluate_all<const P: u64>(mles: &Vec<Rc<DenseMultilinearExtension<P>>>, point: &[Fp<P>]) -> (r: Vec<Fp<P>>)
    requires
        P > 1,
        forall|i: int|
            0 <= i < mles@.len() ==> {
                &&& (#[trigger] mles@[i]).wf()
                &&& mles@[i].num_vars == point@.len()
            },
    ensures
        r@.len() == mles@.len(),
        forall|i: int| 0 <= i < mles@.len() ==> (#[trigger] r@[i])@ == mles@[i].spec_evaluate(point@),
{
    let mut r: Vec<Fp<P>> = Vec::with_capacity(mles.len());
    let mut i: usize = 0;
    while i < mles.len()
        invariant
            P > 1,
            forall|k: int|
                0 <= k < mles@.len() ==> {
                    &&& (#[trigger] mles@[k]).wf()
                    &&& mles@[k].num_vars == point@.len()
                },
            i <= mles@.len(),
            r@.len() == i,
            forall|k: int| 0 <= k < i ==> (#[trigger] r@[k])@ == mles@[k].spec_evaluate(point@),
        decreases mles@.len() - i,
    {
        proof {
            assert(mles@[i as int].wf());
        }
        r.push(mles[i].evaluate(point));
        i = i + 1;
    }
    r
}

impl<const P: u64> LookupWitnessHelper<P> {
    /// The value of every helper column at `point`.
    pub fn evaluate(&self, point: &[Fp<P>]) -> (r: LookupWitnessHelperEval<P>)
        requires
            P > 1,
            forall|i: int|
                0 <= i < self.helper_functions@.len() ==> {
                    &&& (#[trigger] self.helper_functions@[i]).wf()
                    &&& self.helper_functions@[i].num_vars == point@.len()
                },
        ensures
            r.helper_at_r@.len() == self.helper_functions@.len(),
            forall|i: int|
                0 <= i < self.helper_functions@.len() ==> (#[trigger] r.helper_at_r@[i])@
                    == self.helper_functions@[i].spec_evaluate(point@),
    {
        LookupWitnessHelperEval { helper_at_r: evaluate_all(&self.helper_functions, point) }
    }
}

} // verus!
