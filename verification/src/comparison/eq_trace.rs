//! Trace for computing `x == c` for a constant `c`, limb by limb.
use super::{build_comparison_table, decompose_and_lookup, is_comparison_table, lookup_values};
use super::lt_trace::columns_to_mles;
use crate::basis::{decompose_all, digit, lemma_eq_by_limbs, lemma_shift_step, lemma_shift_zero, mask, Basis};
use crate::field::Fp;
use crate::lookup_trace::indexed_table::IndexedLookupTraceMLE;
use crate::mle::DenseMultilinearExtension;
use rand::rngs::ThreadRng;
use std::rc::Rc;
use vstd::arithmetic::div_mod::*;
use vstd::arithmetic::power2::*;
use vstd::bits::*;
use vstd::prelude::*;

verus! {

/// The equality table for limb `i` (the bit position): one at the limb `g_i`
/// (the bit constant) of the constant, zero elsewhere.
#[derive(Clone, Debug)]
pub struct EQTable<const P: u64> {
    pub num_table_vars: usize,
    pub bit_constant: Fp<P>,
    pub bit_position: usize,
    pub table: Vec<Fp<P>>,
}

impl<const P: u64> EQTable<P> {
    pub open spec fn wf(&self) -> bool {
        is_comparison_table(self.table@, pow2(self.num_table_vars as nat), self.bit_constant@, 0, 1)
    }

    pub fn new(num_table_vars: usize, bit_constant: Fp<P>, bit_position: usize) -> (r: Self)
        requires
            P > 1,
            num_table_vars < usize::BITS,
            bit_constant@ < pow2(num_table_vars as nat),
        ensures
            r.wf(),
            r.num_table_vars == num_table_vars,
            r.bit_constant == bit_constant,
            r.bit_position == bit_position,
    {
        proof {
            lemma_usize_pow2_no_overflow(num_table_vars as nat);
        }
        let pivot = bit_constant.value() as usize;
        let table = build_comparison_table(num_table_vars, pivot, Fp::<P>::zero(), Fp::<P>::one());
        EQTable { num_table_vars, bit_constant, bit_position, table }
    }
}

/// The tables testing every limb of a value for equality with the limbs of `eq_constant`.
#[derive(Clone, Debug)]
pub struct EQTables<const P: u64> {
    pub eq_constant: Fp<P>,
    pub basis_bits: usize,
    pub decomp_len: usize,
    pub tables: Vec<EQTable<P>>,
}

impl<const P: u64> EQTables<P> {
    /// Table `i` tests limb `i` against the matching limb of the constant.
    pub open spec fn wf(&self) -> bool {
        &&& self.tables@.len() == self.decomp_len
        &&& forall|i: int|
            0 <= i < self.decomp_len ==> {
                let t = #[trigger] self.tables@[i];
                &&& t.wf()
                &&& t.num_table_vars == self.basis_bits
                &&& t.bit_position == i
                &&& t.bit_constant@ == digit(self.eq_constant@, self.basis_bits as nat, i as nat)
            }
    }

    /// Splits `eq_constant` into `basis.decompose_len()` limbs, one equality table per limb.
    pub fn new(eq_constant: Fp<P>, basis: &Basis<P>) -> (r: Self)
        requires
            P > 1,
            basis.wf(),
            basis.spec_bits() < usize::BITS,
        ensures
            r.wf(),
            r.eq_constant == eq_constant,
            r.basis_bits == basis.spec_bits(),
            r.decomp_len == basis.spec_decompose_len(),
    {
        let mut decomposed_constant = eq_constant;
        let decompose_len = basis.decompose_len();
        let mask = basis.mask();
        let basis_bits = basis.bits();
        let ghost c = eq_constant@;
        proof {
            crate::basis::lemma_shift_zero(c, basis_bits as nat);
        }
        let mut tables: Vec<EQTable<P>> = Vec::with_capacity(decompose_len);
        let mut i: usize = 0;
        while i < decompose_len
            invariant
                P > 1,
                basis.wf(),
                basis_bits == basis.spec_bits(),
                mask == basis.spec_mask(),
                decompose_len == basis.spec_decompose_len(),
                basis_bits < usize::BITS,
                i <= decompose_len,
                c == eq_constant@,
                decomposed_constant@ == c / pow2(basis_bits as nat * i as nat),
                tables@.len() == i,
                forall|t: int|
                    0 <= t < i ==> {
                        let tb = #[trigger] tables@[t];
                        &&& tb.wf()
                        &&& tb.num_table_vars == basis_bits
                        &&& tb.bit_position == t
                        &&& tb.bit_constant@ == digit(c, basis_bits as nat, t as nat)
                    },
            decreases decompose_len - i,
        {
            let bit_constant = decomposed_constant.decompose_lsb_bits(mask, basis_bits);
            proof {
                crate::basis::lemma_shift_step(c, basis_bits as nat, i as nat);
            }
            tables.push(EQTable::new(basis_bits as usize, bit_constant, i));
            i = i + 1;
        }
        EQTables { eq_constant, basis_bits: basis_bits as usize, decomp_len: decompose_len, tables }
    }
}

/// The equality tables as multilinear extensions.
#[derive(Clone, Debug)]
pub struct EQTablesMLE<const P: u64> {
    pub eq_constant: Fp<P>,
    pub basis_bits: usize,
    pub decomp_len: usize,
    pub tables: Vec<Rc<DenseMultilinearExtension<P>>>,
}

impl<const P: u64> EQTablesMLE<P> {
    /// One table of `2^basis_bits` entries per limb.
    pub open spec fn wf(&self) -> bool {
        &&& 0 < self.basis_bits < 64
        &&& self.tables@.len() == self.decomp_len
        &&& forall|i: int|
            0 <= i < self.decomp_len ==> {
                let t = #[trigger] self.tables@[i];
                &&& t.wf()
                &&& t.num_vars == self.basis_bits
            }
    }

    /// The tables that `tables` holds, in the same order.
    pub open spec fn same_tables(&self, tables: EQTables<P>) -> bool {
        &&& self.tables@.len() == tables.tables@.len()
        &&& forall|i: int|
            0 <= i < self.tables@.len() ==> {
                &&& (#[trigger] self.tables@[i]).evaluations@ == tables.tables@[i].table@
                &&& self.tables@[i].num_vars == tables.tables@[i].num_table_vars
            }
    }

    /// Converts each table into a multilinear extension.
    pub fn from_tables(tables: EQTables<P>) -> (r: Self)
        requires
            tables.wf(),
        ensures
            r.eq_constant == tables.eq_constant,
            r.basis_bits == tables.basis_bits,
            r.decomp_len == tables.decomp_len,
            r.same_tables(tables),
            0 < tables.basis_bits < 64 ==> r.wf(),
    {
        let mut mle_tables: Vec<Rc<DenseMultilinearExtension<P>>> = Vec::new();
        let n = tables.tables.len();
        let mut i: usize = 0;
        while i < n
            invariant
                tables.wf(),
                n == tables.tables@.len(),
                i <= n,
                mle_tables@.len() == i,
                forall|k: int|
                    0 <= k < i ==> {
                        &&& (#[trigger] mle_tables@[k]).evaluations@ == tables.tables@[k].table@
                        &&& mle_tables@[k].num_vars == tables.tables@[k].num_table_vars
                    },
            decreases n - i,
        {
            let t = &tables.tables[i];
            proof {
                assert(t.wf());
            }
            let mle = DenseMultilinearExtension::from_evaluations_vec(t.num_table_vars, t.table.clone());
            mle_tables.push(Rc::new(mle));
            i = i + 1;
        }
        proof {
            assert forall|k: int| 0 <= k < n implies (#[trigger] mle_tables@[k]).wf() by {
                assert(tables.tables@[k].wf());
            }
        }
        EQTablesMLE {
            eq_constant: tables.eq_constant,
            basis_bits: tables.basis_bits,
            decomp_len: tables.decomp_len,
            tables: mle_tables,
        }
    }

    pub fn get_table(&self, index: usize) -> (r: Rc<DenseMultilinearExtension<P>>)
        requires
            index < self.tables@.len(),
        ensures
            r == self.tables@[index as int],
    {
        Rc::clone(&self.tables[index])
    }
}

/// The trace of testing every entry of `input` for equality with a constant.
#[derive(Clone, Debug)]
pub struct EQTrace<const P: u64> {
    pub num_vars: usize,
    pub num_bits: usize,
    pub input: Vec<Fp<P>>,
    pub eq_result: Vec<Fp<P>>,
    pub bits: Vec<Vec<Fp<P>>>,
    pub bit_eq: Vec<Vec<Fp<P>>>,
}

/// The equality trace with every column as a multilinear extension.
#[derive(Clone, Debug)]
pub struct EQTraceMLE<const P: u64> {
    pub num_vars: usize,
    pub num_bits: usize,
    pub input: Rc<DenseMultilinearExtension<P>>,
    pub eq_result: Rc<DenseMultilinearExtension<P>>,
    pub bits: Vec<Rc<DenseMultilinearExtension<P>>>,
    pub bit_eq: Vec<Rc<DenseMultilinearExtension<P>>>,
}

/// The entries of `input` equal to `c` marked with one, the others with zero.
fn equal_flags<const P: u64>(input: &Vec<Fp<P>>, c: Fp<P>) -> (r: Vec<Fp<P>>)
    requires
        P > 1,
    ensures
        r@.len() == input@.len(),
        forall|i: int|
            0 <= i < input@.len() ==> (#[trigger] r@[i])@ == (if input@[i]@ == c@ {
                1nat
            } else {
                0nat
            }),
{
    let mut r: Vec<Fp<P>> = Vec::with_capacity(input.len());
    let mut i: usize = 0;
    while i < input.len()
        invariant
            P > 1,
            i <= input@.len(),
            r@.len() == i,
            forall|k: int|
                0 <= k < i ==> (#[trigger] r@[k])@ == (if input@[k]@ == c@ {
                    1nat
                } else {
                    0nat
                }),
        decreases input@.len() - i,
    {
        if input[i] == c {
            r.push(Fp::one());
        } else {
            r.push(Fp::zero());
        }
        i = i + 1;
    }
    r
}

impl<const P: u64> EQTraceMLE<P> {
    /// Every limb indexes its table, and the looked-up column holds the entries it points to.
    pub open spec fn lookups_hold(&self, tables: EQTablesMLE<P>) -> bool {
        &&& self.bits@.len() <= tables.tables@.len()
        &&& self.bit_eq@.len() == self.bits@.len()
        &&& forall|j: int|
            0 <= j < self.bits@.len() ==> (#[trigger] self.bit_eq@[j]).evaluations@.len()
                == self.bits@[j].evaluations@.len()
        &&& forall|j: int, i: int|
            0 <= j < self.bits@.len() && 0 <= i < self.bits@[j].evaluations@.len() ==> {
                &&& (#[trigger] self.bits@[j].evaluations@[i])@ < tables.tables@[j].evaluations@.len()
                &&& self.bit_eq@[j].evaluations@[i] == tables.tables@[j].evaluations@[
                    self.bits@[j].evaluations@[i]@ as int]
            }
    }
}

impl<const P: u64> EQTraceMLE<P> {
    /// Wraps the columns of an equality trace into multilinear extensions.
    pub fn from_trace(trace: EQTrace<P>) -> (r: Self)
        requires
            trace.input@.len() == pow2(trace.num_vars as nat),
            trace.eq_result@.len() == pow2(trace.num_vars as nat),
            forall|j: int| 0 <= j < trace.bits@.len() ==> (#[trigger] trace.bits@[j])@.len() == pow2(trace.num_vars as nat),
            forall|j: int| 0 <= j < trace.bit_eq@.len() ==> (#[trigger] trace.bit_eq@[j])@.len() == pow2(trace.num_vars as nat),
        ensures
            r.num_vars == trace.num_vars,
            r.num_bits == trace.num_bits,
            r.input.evaluations@ == trace.input@,
            r.eq_result.evaluations@ == trace.eq_result@,
            r.bits@.len() == trace.bits@.len(),
            r.bit_eq@.len() == trace.bit_eq@.len(),
            forall|j: int| 0 <= j < trace.bits@.len() ==> (#[trigger] r.bits@[j]).evaluations@ == trace.bits@[j]@,
            forall|j: int| 0 <= j < trace.bit_eq@.len() ==> (#[trigger] r.bit_eq@[j]).evaluations@ == trace.bit_eq@[j]@,
    {
        let num_vars = trace.num_vars;
        EQTraceMLE {
            num_vars,
            num_bits: trace.num_bits,
            input: Rc::new(DenseMultilinearExtension::from_evaluations_vec(num_vars, trace.input)),
            eq_result: Rc::new(DenseMultilinearExtension::from_evaluations_vec(num_vars, trace.eq_result)),
            bits: columns_to_mles(num_vars, trace.bits),
            bit_eq: columns_to_mles(num_vars, trace.bit_eq),
        }
    }

    /// Tests every entry `x` of `input` against the tables' constant `c`: records `x == c`,
    /// the limbs of `x`, and the equality flag of each limb.
    pub fn from(input: &Rc<DenseMultilinearExtension<P>>, eq_tables: &EQTablesMLE<P>) -> (r: Self)
        requires
            P > 1,
            input.wf(),
            eq_tables.wf(),
        ensures
            r.num_vars == input.num_vars,
            r.num_bits == eq_tables.decomp_len,
            *r.input == **input,
            r.eq_result.wf(),
            r.eq_result.num_vars == input.num_vars,
            forall|i: int|
                0 <= i < input.evaluations@.len() ==> (#[trigger] r.eq_result.evaluations@[i])@ == (
                if input.evaluations@[i]@ == eq_tables.eq_constant@ {
                    1nat
                } else {
                    0nat
                }),
            r.bits@.len() == eq_tables.decomp_len,
            r.bit_eq@.len() == eq_tables.decomp_len,
            forall|j: int|
                0 <= j < eq_tables.decomp_len ==> {
                    &&& (#[trigger] r.bits@[j]).wf()
                    &&& r.bits@[j].num_vars == input.num_vars
                    &&& r.bit_eq@[j].wf()
                    &&& r.bit_eq@[j].num_vars == input.num_vars
                },
            forall|j: int, i: int|
                0 <= j < eq_tables.decomp_len && 0 <= i < input.evaluations@.len() ==> {
                    &&& (#[trigger] r.bits@[j].evaluations@[i])@ == digit(
                        input.evaluations@[i]@,
                        eq_tables.basis_bits as nat,
                        j as nat,
                    )
                    &&& r.bit_eq@[j].evaluations@[i] == eq_tables.tables@[j].evaluations@[
                        r.bits@[j].evaluations@[i]@ as int]
                },
            r.lookups_hold(*eq_tables),
    {
        let num_vars = input.num_vars;
        let eq_result = equal_flags(&input.evaluations, eq_tables.eq_constant);
        let (bits, bit_eq) = decompose_and_lookup(
            &input.evaluations,
            num_vars,
            &eq_tables.tables,
            eq_tables.basis_bits as u32,
        );
        proof {
            assert forall|j: int, i: int|
                0 <= j < bits@.len() && 0 <= i < bits@[j].evaluations@.len() implies (#[trigger] bits@[j].evaluations@[i])@
                < eq_tables.tables@[j].evaluations@.len() by {
                assert(eq_tables.tables@[j].wf());
                lemma_pow2_pos(eq_tables.basis_bits as nat);
                lemma_mod_bound((input.evaluations@[i]@ / pow2((eq_tables.basis_bits * j) as nat)) as int, pow2(eq_tables.basis_bits as nat) as int);
            }
        }
        EQTraceMLE {
            num_vars,
            num_bits: eq_tables.decomp_len,
            input: Rc::clone(input),
            eq_result: Rc::new(DenseMultilinearExtension::from_evaluations_vec(num_vars, eq_result)),
            bits,
            bit_eq,
        }
    }

    /// One indexed lookup per limb: the limb indexes table `i`, its equality flag is the input.
    pub fn extract_eq_lookup_traces(&self, eq_tables: &EQTablesMLE<P>) -> (r: Vec<IndexedLookupTraceMLE<P>>)
        requires
            self.bits@.len() == self.bit_eq@.len(),
            self.bits@.len() <= eq_tables.tables@.len(),
        ensures
            r@.len() == self.bits@.len(),
            forall|i: int|
                0 <= i < r@.len() ==> {
                    let t = #[trigger] r@[i];
                    &&& t.num_input_vars == self.num_vars
                    &&& t.num_table_vars == eq_tables.tables@[i].num_vars
                    &&& t.index == self.bits@[i]
                    &&& t.input == self.bit_eq@[i]
                    &&& t.table == eq_tables.tables@[i]
                    &&& t.table_point is None
                },
            self.lookups_hold(*eq_tables) ==> forall|i: int| 0 <= i < r@.len() ==> (#[trigger] r@[i]).relation_holds(),
    {
        let mut r: Vec<IndexedLookupTraceMLE<P>> = Vec::with_capacity(self.bits.len());
        let mut i: usize = 0;
        while i < self.bits.len()
            invariant
                self.bits@.len() == self.bit_eq@.len(),
                self.bits@.len() <= eq_tables.tables@.len(),
                i <= self.bits@.len(),
                r@.len() == i,
                forall|k: int|
                    0 <= k < i ==> {
                        let t = #[trigger] r@[k];
                        &&& t.num_input_vars == self.num_vars
                        &&& t.num_table_vars == eq_tables.tables@[k].num_vars
                        &&& t.index == self.bits@[k]
                        &&& t.input == self.bit_eq@[k]
                        &&& t.table == eq_tables.tables@[k]
                        &&& t.table_point is None
                    },
            decreases self.bits@.len() - i,
        {
            r.push(IndexedLookupTraceMLE {
                num_input_vars: self.num_vars,
                num_table_vars: eq_tables.tables[i].num_vars(),
                index: Rc::clone(&self.bits[i]),
                input: Rc::clone(&self.bit_eq[i]),
                table: eq_tables.get_table(i),
                table_point: None,
            });
            i = i + 1;
        }
        proof {
            if self.lookups_hold(*eq_tables) {
                assert forall|k: int| 0 <= k < r@.len() implies (#[trigger] r@[k]).relation_holds() by {
                    assert forall|x: int| 0 <= x < r@[k].input.evaluations@.len() implies {
                        &&& #[trigger] r@[k].index.evaluations@[x]@ < r@[k].table.evaluations@.len()
                        &&& r@[k].input.evaluations@[x] == r@[k].table.evaluations@[r@[k].index.evaluations@[x]@ as int]
                    } by {
                        assert(self.bits@[k].evaluations@[x]@ < eq_tables.tables@[k].evaluations@.len());
                    }
                }
            }
        }
        r
    }
}

/// All of the first `n` limbs of `x` and `c` agree.
pub open spec fn limbs_agree(x: nat, c: nat, bits: nat, n: nat) -> bool {
    forall|j: nat| j < n ==> #[trigger] digit(x, bits, j) == digit(c, bits, j)
}

impl<const P: u64> EQTrace<P> {
    /// A random trace over `2^num_vars` inputs, the first of which is the constant: every
    /// input is split into limbs, each limb looked up in its equality table, and the result
    /// of an input is the product of its limb flags.
    pub fn random(rng: &mut ThreadRng, num_vars: usize, eq_tables: &EQTables<P>) -> (r: Self)
        requires
            P > 1,
            num_vars < usize::BITS,
            eq_tables.wf(),
            0 < eq_tables.basis_bits < 64,
        ensures
            r.num_vars == num_vars,
            r.num_bits == eq_tables.decomp_len,
            r.input@.len() == pow2(num_vars as nat),
            r.input@[0] == eq_tables.eq_constant,
            r.eq_result@.len() == pow2(num_vars as nat),
            r.bits@.len() == eq_tables.decomp_len,
            r.bit_eq@.len() == eq_tables.decomp_len,
            forall|j: int|
                0 <= j < eq_tables.decomp_len ==> {
                    &&& (#[trigger] r.bits@[j])@.len() == pow2(num_vars as nat)
                    &&& r.bit_eq@[j]@.len() == pow2(num_vars as nat)
                },
            forall|j: int, i: int|
                0 <= j < eq_tables.decomp_len && 0 <= i < pow2(num_vars as nat) ==> {
                    &&& (#[trigger] r.bits@[j]@[i])@ == digit(
                        r.input@[i]@,
                        eq_tables.basis_bits as nat,
                        j as nat,
                    )
                    &&& r.bit_eq@[j]@[i]@ == if digit(r.input@[i]@, eq_tables.basis_bits as nat, j as nat)
                        == digit(eq_tables.eq_constant@, eq_tables.basis_bits as nat, j as nat) {
                        1nat
                    } else {
                        0nat
                    }
                },
            forall|i: int|
                0 <= i < pow2(num_vars as nat) ==> (#[trigger] r.eq_result@[i])@ == if limbs_agree(
                    r.input@[i]@,
                    eq_tables.eq_constant@,
                    eq_tables.basis_bits as nat,
                    eq_tables.decomp_len as nat,
                ) {
                    1nat
                } else {
                    0nat
                },
            P <= pow2((eq_tables.basis_bits * eq_tables.decomp_len) as nat) ==> forall|i: int|
                0 <= i < pow2(num_vars as nat) ==> (#[trigger] r.eq_result@[i])@ == if r.input@[i]@
                    == eq_tables.eq_constant@ {
                    1nat
                } else {
                    0nat
                },
    {
        proof {
            vstd::bits::lemma_usize_pow2_no_overflow(num_vars as nat);
            lemma_pow2_pos(num_vars as nat);
        }
        let size = crate::basis::pow2_usize(num_vars);
        let num_bits = eq_tables.decomp_len;
        let basis_bits = eq_tables.basis_bits as u32;
        let c = eq_tables.eq_constant;
        let _c_value = c.value();
        let mut input: Vec<Fp<P>> = Vec::with_capacity(size);
        input.push(c);
        while input.len() < size
            invariant
                P > 1,
                input@.len() <= size,
                input@.len() >= 1,
                input@[0] == c,
                forall|k: int| 0 <= k < input@.len() ==> (#[trigger] input@[k])@ < P,
            decreases size - input@.len(),
        {
            input.push(Fp::random(rng));
        }
        let ghost xs = input@;
        let m = mask(basis_bits);
        let mut rest = input.clone();
        proof {
            assert(rest@ == xs);
            assert forall|i: int| 0 <= i < size implies (#[trigger] rest@[i])@ == xs[i]@ / pow2(
                basis_bits as nat * 0nat,
            ) by {
                lemma_shift_zero(xs[i]@, basis_bits as nat);
            }
        }
        let mut bits: Vec<Vec<Fp<P>>> = Vec::with_capacity(num_bits);
        let mut bit_eq: Vec<Vec<Fp<P>>> = Vec::with_capacity(num_bits);
        let mut j: usize = 0;
        while j < num_bits
            invariant
                P > 1,
                eq_tables.wf(),
                num_bits == eq_tables.decomp_len,
                basis_bits == eq_tables.basis_bits,
                0 < basis_bits < 64,
                c == eq_tables.eq_constant,
                m == low_bits_mask(basis_bits as nat),
                xs.len() == size,
                j <= num_bits,
                rest@.len() == size,
                forall|i: int| 0 <= i < size ==> (#[trigger] rest@[i])@ == xs[i]@ / pow2(basis_bits as nat * j as nat),
                bits@.len() == j,
                bit_eq@.len() == j,
                forall|t: int| 0 <= t < j ==> (#[trigger] bits@[t])@.len() == size,
                forall|t: int| 0 <= t < j ==> (#[trigger] bit_eq@[t])@.len() == size,
                forall|t: int, i: int|
                    0 <= t < j && 0 <= i < size ==> (#[trigger] bits@[t]@[i])@ == digit(
                        xs[i]@,
                        basis_bits as nat,
                        t as nat,
                    ),
                forall|t: int, i: int|
                    0 <= t < j && 0 <= i < size ==> (#[trigger] bit_eq@[t]@[i])@ == if digit(
                        xs[i]@,
                        basis_bits as nat,
                        t as nat,
                    ) == digit(c@, basis_bits as nat, t as nat) {
                        1nat
                    } else {
                        0nat
                    },
            decreases num_bits - j,
        {
            let ghost before = rest@;
            let col = decompose_all(&mut rest, m, basis_bits);
            let table = &eq_tables.tables[j];
            proof {
                assert(eq_tables.tables@[j as int].wf());
                assert forall|i: int| #![trigger col@[i]] #![trigger rest@[i]] 0 <= i < size implies {
                    &&& col@[i]@ == digit(xs[i]@, basis_bits as nat, j as nat)
                    &&& rest@[i]@ == xs[i]@ / pow2(basis_bits as nat * (j + 1) as nat)
                } by {
                    lemma_shift_step(xs[i]@, basis_bits as nat, j as nat);
                    assert(before[i]@ == xs[i]@ / pow2(basis_bits as nat * j as nat));
                    assert(col@[i]@ == before[i]@ % pow2(basis_bits as nat));
                    assert(rest@[i]@ == before[i]@ / pow2(basis_bits as nat));
                }
            }
            let looked_up = lookup_values(&table.table, &col);
            proof {
                assert forall|i: int| 0 <= i < size implies (#[trigger] looked_up@[i])@ == if digit(
                    xs[i]@,
                    basis_bits as nat,
                    j as nat,
                ) == digit(c@, basis_bits as nat, j as nat) {
                    1nat
                } else {
                    0nat
                } by {
                    let v = col@[i]@ as int;
                    assert(table.table@[v]@ == (if v < table.bit_constant@ {
                        0nat
                    } else if v == table.bit_constant@ {
                        1nat
                    } else {
                        0nat
                    }));
                }
            }
            bits.push(col);
            bit_eq.push(looked_up);
            j = j + 1;
        }
        let ghost cv = c@;
        let mut eq_result: Vec<Fp<P>> = Vec::with_capacity(size);
        let mut i: usize = 0;
        while i < size
            invariant
                P > 1,
                num_bits == bits@.len(),
                num_bits == bit_eq@.len(),
                forall|t: int| 0 <= t < num_bits ==> (#[trigger] bits@[t])@.len() == size,
                forall|t: int| 0 <= t < num_bits ==> (#[trigger] bit_eq@[t])@.len() == size,
                forall|k: int| 0 <= k < size ==> (#[trigger] xs[k])@ < P,
                forall|t: int, k: int|
                    0 <= t < num_bits && 0 <= k < size ==> (#[trigger] bit_eq@[t]@[k])@ == if digit(
                        xs[k]@,
                        basis_bits as nat,
                        t as nat,
                    ) == digit(c@, basis_bits as nat, t as nat) {
                        1nat
                    } else {
                        0nat
                    },
                i <= size,
                eq_result@.len() == i,
                forall|k: int|
                    0 <= k < i ==> (#[trigger] eq_result@[k])@ == if limbs_agree(
                        xs[k]@,
                        c@,
                        basis_bits as nat,
                        num_bits as nat,
                    ) {
                        1nat
                    } else {
                        0nat
                    },
            decreases size - i,
        {
            let mut acc = Fp::<P>::one();
            let mut t: usize = 0;
            while t < num_bits
                invariant
                    P > 1,
                    i < size,
                    num_bits == bit_eq@.len(),
                    forall|u: int| 0 <= u < num_bits ==> (#[trigger] bit_eq@[u])@.len() == size,
                    forall|u: int|
                        0 <= u < num_bits ==> (#[trigger] bit_eq@[u]@[i as int])@ == if digit(
                            xs[i as int]@,
                            basis_bits as nat,
                            u as nat,
                        ) == digit(c@, basis_bits as nat, u as nat) {
                            1nat
                        } else {
                            0nat
                        },
                    t <= num_bits,
                    acc@ == if limbs_agree(xs[i as int]@, c@, basis_bits as nat, t as nat) {
                        1nat
                    } else {
                        0nat
                    },
                decreases num_bits - t,
            {
                let flag = bit_eq[t][i];
                proof {
                    let x = xs[i as int]@;
                    if limbs_agree(x, c@, basis_bits as nat, t as nat) && digit(x, basis_bits as nat, t as nat)
                        == digit(c@, basis_bits as nat, t as nat) {
                        assert forall|u: nat| u < t + 1 implies #[trigger] digit(x, basis_bits as nat, u)
                            == digit(c@, basis_bits as nat, u) by {
                            if u < t {
                                assert(digit(x, basis_bits as nat, u) == digit(c@, basis_bits as nat, u));
                            }
                        }
                    }
                    if !limbs_agree(x, c@, basis_bits as nat, t as nat) {
                        let u = choose|u: nat| u < t && #[trigger] digit(x, basis_bits as nat, u) != digit(c@, basis_bits as nat, u);
                        assert(!limbs_agree(x, c@, basis_bits as nat, (t + 1) as nat));
                    }
                    if digit(x, basis_bits as nat, t as nat) != digit(c@, basis_bits as nat, t as nat) {
                        assert(!limbs_agree(x, c@, basis_bits as nat, (t + 1) as nat));
                    }
                    lemma_small_mod(1, P as nat);
                    lemma_small_mod(0, P as nat);
                }
                acc = acc.mul(flag);
                t = t + 1;
            }
            eq_result.push(acc);
            i = i + 1;
        }
        proof {
            if P <= pow2((eq_tables.basis_bits * eq_tables.decomp_len) as nat) {
                assert forall|k: int| 0 <= k < size implies (#[trigger] eq_result@[k])@ == if xs[k]@ == c@ {
                    1nat
                } else {
                    0nat
                } by {
                    assert(xs[k]@ < P);
                    lemma_eq_by_limbs(xs[k]@, c@, basis_bits as nat, num_bits as nat);
                }
            }
        }
        EQTrace { num_vars, num_bits, input, eq_result, bits, bit_eq }
    }
}

} // verus!
