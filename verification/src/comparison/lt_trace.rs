//! Trace for computing `x < c` for a constant `c`, limb by limb.
use super::{
    build_comparison_table, decompose_and_lookup, is_comparison_table, lemma_limbs_below_decides, lemma_limbs_of_prime,
    limbs_below, lookup_values, lt_target,
};
use crate::basis::{decompose_all, digit, lemma_basis_covers, lemma_shift_step, lemma_shift_zero, mask, pow2_u64, Basis};
use crate::field::Fp;
use crate::lookup_trace::indexed_table::IndexedLookupTraceMLE;
use crate::mle::DenseMultilinearExtension;
use std::rc::Rc;
use vstd::arithmetic::div_mod::*;
use vstd::arithmetic::power2::*;
use vstd::bits::*;
use vstd::prelude::*;

verus! {

/// The comparison table for limb `i` (the bit position) against the limb `g_i`
/// (the bit constant): `lt_i = (x_i < g_i)` and `z_i = (x_i == g_i)` are encoded as
/// `2^(k + i)` on `[0, g_i)`, `2^i` at `g_i` and `0` on `(g_i, 2^len)`.
#[derive(Clone, Debug)]
pub struct LTTable<const P: u64> {
    /// denoted by len
    pub num_table_vars: usize,
    /// denoted by k
    pub num_bits: usize,
    /// denoted by g_i
    pub bit_constant: Fp<P>,
    /// denoted by i
    pub bit_position: usize,
    pub less_than_codeword: Fp<P>,
    pub equal_codeword: Fp<P>,
    pub greater_than_codeword: Fp<P>,
    pub table: Vec<Fp<P>>,
}

/// The codewords and entries of a comparison table are those its parameters determine.
pub open spec fn comparison_table_wf<const P: u64>(
    num_table_vars: usize,
    num_bits: usize,
    bit_constant: Fp<P>,
    bit_position: usize,
    less_than_codeword: Fp<P>,
    equal_codeword: Fp<P>,
    greater_than_codeword: Fp<P>,
    table: Seq<Fp<P>>,
) -> bool {
    &&& less_than_codeword@ == pow2((num_bits + bit_position) as nat) % (P as nat)
    &&& equal_codeword@ == pow2(bit_position as nat) % (P as nat)
    &&& greater_than_codeword@ == 0
    &&& is_comparison_table(
        table,
        pow2(num_table_vars as nat),
        bit_constant@,
        less_than_codeword@,
        equal_codeword@,
    )
}

/// Builds the codewords and the table of a limb comparison.
pub(crate) fn comparison_codewords_and_table<const P: u64>(
    num_table_vars: usize,
    bit_constant: Fp<P>,
    bit_position: usize,
    num_bits: usize,
) -> (r: (Fp<P>, Fp<P>, Fp<P>, Vec<Fp<P>>))
    requires
        P > 1,
        num_table_vars < usize::BITS,
        bit_constant@ < pow2(num_table_vars as nat),
        num_bits + bit_position < 64,
    ensures
        comparison_table_wf(
            num_table_vars,
            num_bits,
            bit_constant,
            bit_position,
            r.0,
            r.1,
            r.2,
            r.3@,
        ),
{
    let less_than_codeword = Fp::<P>::new(pow2_u64((num_bits + bit_position) as u64));
    let equal_codeword = Fp::<P>::new(pow2_u64(bit_position as u64));
    let greater_than_codeword = Fp::<P>::zero();
    proof {
        lemma_usize_pow2_no_overflow(num_table_vars as nat);
    }
    let pivot = bit_constant.value() as usize;
    let table = build_comparison_table(num_table_vars, pivot, less_than_codeword, equal_codeword);
    (less_than_codeword, equal_codeword, greater_than_codeword, table)
}

impl<const P: u64> LTTable<P> {
    pub open spec fn wf(&self) -> bool {
        comparison_table_wf(
            self.num_table_vars,
            self.num_bits,
            self.bit_constant,
            self.bit_position,
            self.less_than_codeword,
            self.equal_codeword,
            self.greater_than_codeword,
            self.table@,
        )
    }

    pub fn new(num_table_vars: usize, bit_constant: Fp<P>, bit_position: usize, num_bits: usize) -> (r: Self)
        requires
            P > 1,
            num_table_vars < usize::BITS,
            bit_constant@ < pow2(num_table_vars as nat),
            num_bits + bit_position < 64,
        ensures
            r.wf(),
            r.num_table_vars == num_table_vars,
            r.num_bits == num_bits,
            r.bit_constant == bit_constant,
            r.bit_position == bit_position,
    {
        let (less_than_codeword, equal_codeword, greater_than_codeword, table) =
            comparison_codewords_and_table(num_table_vars, bit_constant, bit_position, num_bits);
        LTTable {
            num_table_vars,
            num_bits,
            bit_constant,
            bit_position,
            less_than_codeword,
            equal_codeword,
            greater_than_codeword,
            table,
        }
    }

    pub fn num_vars(&self) -> (r: usize)
        ensures
            r == self.num_table_vars,
    {
        self.num_table_vars
    }
}

/// The constant compared against: `c` itself, or `P - 1` when none is given.
pub open spec fn lt_bound<const P: u64>(lt_constant: Option<Fp<P>>) -> nat {
    match lt_constant {
        Some(c) => c@,
        None => (P - 1) as nat,
    }
}

/// The pivot of the table for limb `i`. Without a constant, the comparison is `x < P`,
/// so the lowest limb of `P - 1` is raised by one.
pub open spec fn lt_limb<const P: u64>(lt_constant: Option<Fp<P>>, bits: nat, i: nat) -> nat {
    if lt_constant is None && i == 0 {
        (digit(lt_bound(lt_constant), bits, i) + 1) % (P as nat)
    } else {
        digit(lt_bound(lt_constant), bits, i)
    }
}

/// The constants of the tables, limb by limb.
pub open spec fn lt_table_constants<const P: u64>(tables: Seq<LTTable<P>>) -> Seq<nat> {
    tables.map_values(|t: LTTable<P>| t.bit_constant@)
}

/// The less-than tables decide `x < c` for the constant `c`, and `x < P` when no constant
/// is given, for every value `x` of as many limbs as the basis has: reading the limbs of `x`
/// from the most significant one, the first limb that differs from its table's constant
/// lies below it exactly when `x` is below the bound. Without a constant this holds when
/// raising the lowest limb of `P - 1` by one stays below `P` (the tables are built in the
/// field, where `P` wraps to `0`).
pub proof fn lemma_lt_tables_decide<const P: u64>(basis: Basis<P>, tables: LTTables<P>, x: nat)
    requires
        P > 1,
        basis.wf(),
        tables.wf(),
        tables.basis_bits == basis.spec_bits(),
        tables.decomp_len == basis.spec_decompose_len(),
        tables.lt_constant matches Some(c) ==> c@ < P,
        tables.lt_constant is None ==> digit((P - 1) as nat, basis.spec_bits() as nat, 0) + 1 < pow2(
            basis.spec_bits() as nat,
        ),
        tables.lt_constant is None ==> digit((P - 1) as nat, basis.spec_bits() as nat, 0) + 1 < P,
        x < pow2(basis.spec_bits() as nat * basis.spec_decompose_len() as nat),
    ensures
        limbs_below(lt_table_constants(tables.tables@), basis.spec_bits() as nat, x) <==> x < lt_target(
            tables.lt_constant,
        ),
{
    let bits = basis.spec_bits() as nat;
    let n = basis.spec_decompose_len() as nat;
    let limbs = lt_table_constants(tables.tables@);
    let b = lt_target(tables.lt_constant);
    lemma_basis_covers(basis, (P - 1) as nat);
    match tables.lt_constant {
        Some(c) => {
            lemma_basis_covers(basis, c@);
            assert forall|j: int| 0 <= j < limbs.len() implies #[trigger] limbs[j] == digit(b, bits, j as nat) by {
                assert(tables.tables@[j].wf());
            }
        },
        None => {
            if n == 0 {
                lemma2_to64();
                assert(bits * n == 0);
            }
            lemma_limbs_of_prime::<P>(bits, 0, n);
            assert forall|j: int| 0 <= j < limbs.len() implies #[trigger] limbs[j] == digit(b, bits, j as nat) by {
                assert(tables.tables@[j].wf());
                lemma_limbs_of_prime::<P>(bits, j as nat, n);
                if j == 0 {
                    lemma_small_mod((digit((P - 1) as nat, bits, 0) + 1) as nat, P as nat);
                }
            }
        },
    }
    lemma_limbs_below_decides(limbs, bits, x, b);
}

/// The tables comparing every limb of a value with the limbs of `lt_constant`
/// (with `P` when `lt_constant` is `None`).
#[derive(Clone, Debug)]
pub struct LTTables<const P: u64> {
    pub lt_constant: Option<Fp<P>>,
    pub basis_bits: usize,
    pub decomp_len: usize,
    pub tables: Vec<LTTable<P>>,
}

impl<const P: u64> LTTables<P> {
    /// Table `i` compares limb `i` with the matching limb of the constant.
    pub open spec fn wf(&self) -> bool {
        &&& self.tables@.len() == self.decomp_len
        &&& forall|i: int|
            0 <= i < self.decomp_len ==> {
                let t = #[trigger] self.tables@[i];
                &&& t.wf()
                &&& t.num_table_vars == self.basis_bits
                &&& t.num_bits == self.decomp_len
                &&& t.bit_position == i
                &&& t.bit_constant@ == lt_limb(self.lt_constant, self.basis_bits as nat, i as nat)
            }
    }

    /// Splits the constant (`P - 1` when `lt_constant` is `None`) into `basis.decompose_len()`
    /// limbs and builds one comparison table per limb.
    pub fn new(basis: &Basis<P>, lt_constant: Option<Fp<P>>) -> (r: Self)
        requires
            P > 1,
            basis.wf(),
            basis.spec_bits() < usize::BITS,
            2 * basis.spec_decompose_len() <= 64,
            lt_constant is None ==> digit((P - 1) as nat, basis.spec_bits() as nat, 0) + 1 < pow2(
                basis.spec_bits() as nat,
            ),
        ensures
            r.wf(),
            r.lt_constant == lt_constant,
            r.basis_bits == basis.spec_bits(),
            r.decomp_len == basis.spec_decompose_len(),
            (lt_constant is None ==> digit((P - 1) as nat, basis.spec_bits() as nat, 0) + 1 < P) ==> forall|x: nat|
                x < pow2(basis.spec_bits() as nat * basis.spec_decompose_len() as nat) ==> (#[trigger] limbs_below(
                    lt_table_constants(r.tables@),
                    basis.spec_bits() as nat,
                    x,
                ) <==> x < lt_target(lt_constant)),
    {
        if let Some(c) = lt_constant {
            // the constant is canonical: below `P`
            let _bound: u64 = c.value();
        }
        let r = Self::build(basis, lt_constant);
        proof {
            if lt_constant is None ==> digit((P - 1) as nat, basis.spec_bits() as nat, 0) + 1 < P {
                assert forall|x: nat| x < pow2(basis.spec_bits() as nat * basis.spec_decompose_len() as nat) implies (
                #[trigger] limbs_below(lt_table_constants(r.tables@), basis.spec_bits() as nat, x) <==> x
                    < lt_target(lt_constant)) by {
                    lemma_lt_tables_decide(*basis, r, x);
                }
            }
        }
        r
    }

    fn build(basis: &Basis<P>, lt_constant: Option<Fp<P>>) -> (r: Self)
        requires
            P > 1,
            basis.wf(),
            basis.spec_bits() < usize::BITS,
            2 * basis.spec_decompose_len() <= 64,
            lt_constant is None ==> digit((P - 1) as nat, basis.spec_bits() as nat, 0) + 1 < pow2(
                basis.spec_bits() as nat,
            ),
        ensures
            r.wf(),
            r.lt_constant == lt_constant,
            r.basis_bits == basis.spec_bits(),
            r.decomp_len == basis.spec_decompose_len(),
    {
        let mut decomposed_constant = match lt_constant {
            Some(c) => c,
            None => Fp::<P>::one().neg(),
        };
        let decompose_len = basis.decompose_len();
        let bits = basis.bits();
        let mask = basis.mask();
        let ghost c = lt_bound(lt_constant);
        proof {
            lemma_pow2_pos(bits as nat);
            assert(bits as nat * 0 == 0);
            assert(pow2(0) == 1) by {
                lemma2_to64();
            }
            if lt_constant is None {
                lemma_mod_add_multiples_vanish(-1, P as int);
                lemma_small_mod((P - 1) as nat, P as nat);
            }
        }
        let mut tables: Vec<LTTable<P>> = Vec::with_capacity(decompose_len);
        let mut i: usize = 0;
        while i < decompose_len
            invariant
                P > 1,
                basis.wf(),
                bits == basis.spec_bits(),
                mask == basis.spec_mask(),
                decompose_len == basis.spec_decompose_len(),
                bits < usize::BITS,
                2 * decompose_len <= 64,
                i <= decompose_len,
                c == lt_bound(lt_constant),
                lt_constant is None ==> digit(c, bits as nat, 0) + 1 < pow2(bits as nat),
                decomposed_constant@ == c / pow2(bits as nat * i as nat),
                tables@.len() == i,
                forall|t: int|
                    0 <= t < i ==> {
                        let tb = #[trigger] tables@[t];
                        &&& tb.wf()
                        &&& tb.num_table_vars == bits
                        &&& tb.num_bits == decompose_len
                        &&& tb.bit_position == t
                        &&& tb.bit_constant@ == lt_limb(lt_constant, bits as nat, t as nat)
                    },
            decreases decompose_len - i,
        {
            let ghost before = decomposed_constant@;
            let mut bit_constant = decomposed_constant.decompose_lsb_bits(mask, bits);
            proof {
                lemma_pow2_pos(bits as nat * i as nat);
                lemma_div_denominator(c as int, pow2(bits as nat * i as nat) as int, pow2(bits as nat) as int);
                lemma_pow2_adds(bits as nat * i as nat, bits as nat);
                assert(bits as nat * i as nat + bits as nat == bits as nat * (i + 1) as nat) by (nonlinear_arith);
                assert(bit_constant@ == digit(c, bits as nat, i as nat));
            }
            if lt_constant.is_none() && i == 0 {
                bit_constant = bit_constant.add(Fp::<P>::one());
                proof {
                    lemma_mod_decreases(bit_constant@, P as nat);
                    lemma_mod_decreases((digit(c, bits as nat, 0) + 1) as nat, P as nat);
                }
            }
            let table = LTTable::new(bits as usize, bit_constant, i, decompose_len);
            tables.push(table);
            i = i + 1;
        }
        LTTables {
            lt_constant,
            basis_bits: bits as usize,
            decomp_len: decompose_len,
            tables,
        }
    }

    pub fn get_table(&self, index: usize) -> (r: &LTTable<P>)
        requires
            index < self.tables@.len(),
        ensures
            *r == self.tables@[index as int],
    {
        &self.tables[index]
    }
}

/// The comparison tables as multilinear extensions.
#[derive(Clone, Debug)]
pub struct LTTablesMLE<const P: u64> {
    pub lt_constant: Option<Fp<P>>,
    pub basis_bits: usize,
    pub decomp_len: usize,
    pub tables: Vec<Rc<DenseMultilinearExtension<P>>>,
}

impl<const P: u64> LTTablesMLE<P> {
    /// One table of `2^basis_bits` entries per limb.
    pub open spec fn wf(&self) -> bool {
        &&& 0 < self.basis_bits < 64
        &&& self.tables@.len() == self.decomp_len
        &&& forall|i: int|
            0 <= i < self.decomp_len ==> {
                let t = #[trigger] self.tables@[i];
                &&& t.wf()
                &&& t.num_vars == self.basis_bits
            }
    }

    /// The tables that `tables` holds, in the same order.
    pub open spec fn same_tables(&self, tables: LTTables<P>) -> bool {
        &&& self.tables@.len() == tables.tables@.len()
        &&& forall|i: int|
            0 <= i < self.tables@.len() ==> {
                &&& (#[trigger] self.tables@[i]).evaluations@ == tables.tables@[i].table@
                &&& self.tables@[i].num_vars == tables.tables@[i].num_table_vars
            }
    }

    /// Converts each table into a multilinear extension.
    pub fn from_tables(tables: LTTables<P>) -> (r: Self)
        requires
            tables.wf(),
        ensures
            r.lt_constant == tables.lt_constant,
            r.basis_bits == tables.basis_bits,
            r.decomp_len == tables.decomp_len,
            r.same_tables(tables),
            0 < tables.basis_bits < 64 ==> r.wf(),
    {
        let mut mle_tables: Vec<Rc<DenseMultilinearExtension<P>>> = Vec::new();
        let n = tables.tables.len();
        let mut i: usize = 0;
        while i < n
            invariant
                tables.wf(),
                n == tables.tables@.len(),
                i <= n,
                mle_tables@.len() == i,
                forall|k: int|
                    0 <= k < i ==> {
                        &&& (#[trigger] mle_tables@[k]).evaluations@ == tables.tables@[k].table@
                        &&& mle_tables@[k].num_vars == tables.tables@[k].num_table_vars
                    },
            decreases n - i,
        {
            let t = &tables.tables[i];
            proof {
                assert(t.wf());
            }
            let mle = DenseMultilinearExtension::from_evaluations_vec(t.num_table_vars, t.table.clone());
            mle_tables.push(Rc::new(mle));
            i = i + 1;
        }
        proof {
            assert forall|k: int| 0 <= k < n implies (#[trigger] mle_tables@[k]).wf() by {
                assert(tables.tables@[k].wf());
            }
        }
        LTTablesMLE {
            lt_constant: tables.lt_constant,
            basis_bits: tables.basis_bits,
            decomp_len: tables.decomp_len,
            tables: mle_tables,
        }
    }

    /// Looks every entry of `index` up in table `table_index`.
    pub fn lookup(&self, table_index: usize, index: &Rc<DenseMultilinearExtension<P>>) -> (r: Rc<
        DenseMultilinearExtension<P>,
    >)
        requires
            table_index < self.tables@.len(),
            index.wf(),
            forall|k: int|
                0 <= k < index.evaluations@.len() ==> (#[trigger] index.evaluations@[k])@
                    < self.tables@[table_index as int].evaluations@.len(),
        ensures
            r.wf(),
            r.num_vars == index.num_vars,
            r.evaluations@.len() == index.evaluations@.len(),
            forall|k: int|
                0 <= k < index.evaluations@.len() ==> #[trigger] r.evaluations@[k]
                    == self.tables@[table_index as int].evaluations@[index.evaluations@[k]@ as int],
    {
        let table = &self.tables[table_index];
        let evaluations = lookup_values(&table.evaluations, &index.evaluations);
        Rc::new(DenseMultilinearExtension::from_evaluations_vec(index.num_vars, evaluations))
    }

    pub fn get_table(&self, table_index: usize) -> (r: Rc<DenseMultilinearExtension<P>>)
        requires
            table_index < self.tables@.len(),
        ensures
            r == self.tables@[table_index as int],
    {
        Rc::clone(&self.tables[table_index])
    }
}

/// The trace of comparing every entry of `input` with a constant.
#[derive(Clone, Debug)]
pub struct LTTrace<const P: u64> {
    pub num_vars: usize,
    pub num_bits: usize,
    pub input: Vec<Fp<P>>,
    pub lt_result: Vec<Fp<P>>,
    pub bits: Vec<Vec<Fp<P>>>,
    pub bit_lt: Vec<Vec<Fp<P>>>,
}

/// The comparison trace with every column as a multilinear extension.
#[derive(Clone, Debug)]
pub struct LTTraceMLE<const P: u64> {
    pub num_vars: usize,
    pub num_bits: usize,
    pub input: Rc<DenseMultilinearExtension<P>>,
    pub lt_result: Rc<DenseMultilinearExtension<P>>,
    pub bits: Vec<Rc<DenseMultilinearExtension<P>>>,
    pub bit_lt: Vec<Rc<DenseMultilinearExtension<P>>>,
}

/// Wraps every column into a multilinear extension in `num_vars` variables.
pub(crate) fn columns_to_mles<const P: u64>(num_vars: usize, columns: Vec<Vec<Fp<P>>>) -> (r: Vec<
    Rc<DenseMultilinearExtension<P>>,
>)
    requires
        forall|j: int| 0 <= j < columns@.len() ==> (#[trigger] columns@[j])@.len() == pow2(num_vars as nat),
    ensures
        r@.len() == columns@.len(),
        forall|j: int|
            0 <= j < columns@.len() ==> {
                &&& (#[trigger] r@[j]).num_vars == num_vars
                &&& r@[j].evaluations@ == columns@[j]@
                &&& r@[j].wf()
            },
{
    let mut r: Vec<Rc<DenseMultilinearExtension<P>>> = Vec::with_capacity(columns.len());
    let n = columns.len();
    let mut j: usize = 0;
    while j < n
        invariant
            n == columns@.len(),
            j <= n,
            forall|t: int| 0 <= t < columns@.len() ==> (#[trigger] columns@[t])@.len() == pow2(num_vars as nat),
            r@.len() == j,
            forall|t: int|
                0 <= t < j ==> {
                    &&& (#[trigger] r@[t]).num_vars == num_vars
                    &&& r@[t].evaluations@ == columns@[t]@
                    &&& r@[t].wf()
                },
        decreases n - j,
    {
        let col = columns[j].clone();
        r.push(Rc::new(DenseMultilinearExtension::from_evaluations_vec(num_vars, col)));
        j = j + 1;
    }
    r
}

impl<const P: u64> LTTraceMLE<P> {
    /// Every limb indexes its table, and the looked-up column holds the entries it points to.
    pub open spec fn lookups_hold(&self, tables: LTTablesMLE<P>) -> bool {
        &&& self.bits@.len() <= tables.tables@.len()
        &&& self.bit_lt@.len() == self.bits@.len()
        &&& forall|j: int|
            0 <= j < self.bits@.len() ==> (#[trigger] self.bit_lt@[j]).evaluations@.len()
                == self.bits@[j].evaluations@.len()
        &&& forall|j: int, i: int|
            0 <= j < self.bits@.len() && 0 <= i < self.bits@[j].evaluations@.len() ==> {
                &&& (#[trigger] self.bits@[j].evaluations@[i])@ < tables.tables@[j].evaluations@.len()
                &&& self.bit_lt@[j].evaluations@[i] == tables.tables@[j].evaluations@[
                    self.bits@[j].evaluations@[i]@ as int]
            }
    }
}

impl<const P: u64> LTTraceMLE<P> {
    /// Wraps the columns of a comparison trace into multilinear extensions.
    pub fn from_trace(trace: LTTrace<P>) -> (r: Self)
        requires
            trace.input@.len() == pow2(trace.num_vars as nat),
            trace.lt_result@.len() == pow2(trace.num_vars as nat),
            forall|j: int| 0 <= j < trace.bits@.len() ==> (#[trigger] trace.bits@[j])@.len() == pow2(trace.num_vars as nat),
            forall|j: int| 0 <= j < trace.bit_lt@.len() ==> (#[trigger] trace.bit_lt@[j])@.len() == pow2(trace.num_vars as nat),
        ensures
            r.num_vars == trace.num_vars,
            r.num_bits == trace.num_bits,
            r.input.evaluations@ == trace.input@,
            r.lt_result.evaluations@ == trace.lt_result@,
            r.bits@.len() == trace.bits@.len(),
            r.bit_lt@.len() == trace.bit_lt@.len(),
            forall|j: int| 0 <= j < trace.bits@.len() ==> (#[trigger] r.bits@[j]).evaluations@ == trace.bits@[j]@,
            forall|j: int| 0 <= j < trace.bit_lt@.len() ==> (#[trigger] r.bit_lt@[j]).evaluations@ == trace.bit_lt@[j]@,
    {
        let num_vars = trace.num_vars;
        LTTraceMLE {
            num_vars,
            num_bits: trace.num_bits,
            input: Rc::new(DenseMultilinearExtension::from_evaluations_vec(num_vars, trace.input)),
            lt_result: Rc::new(DenseMultilinearExtension::from_evaluations_vec(num_vars, trace.lt_result)),
            bits: columns_to_mles(num_vars, trace.bits),
            bit_lt: columns_to_mles(num_vars, trace.bit_lt),
        }
    }
}

/// The entries of `input` that are below `c` marked with one, the others with zero.
pub(crate) fn less_than_flags<const P: u64>(input: &Vec<Fp<P>>, c: Fp<P>) -> (r: Vec<Fp<P>>)
    requires
        P > 1,
    ensures
        r@.len() == input@.len(),
        forall|i: int|
            0 <= i < input@.len() ==> (#[trigger] r@[i])@ == (if input@[i]@ < c@ {
                1nat
            } else {
                0nat
            }),
{
    let mut r: Vec<Fp<P>> = Vec::with_capacity(input.len());
    let mut i: usize = 0;
    while i < input.len()
        invariant
            P > 1,
            i <= input@.len(),
            r@.len() == i,
            forall|k: int|
                0 <= k < i ==> (#[trigger] r@[k])@ == (if input@[k]@ < c@ {
                    1nat
                } else {
                    0nat
                }),
        decreases input@.len() - i,
    {
        if input[i].value() < c.value() {
            r.push(Fp::one());
        } else {
            r.push(Fp::zero());
        }
        i = i + 1;
    }
    r
}

impl<const P: u64> LTTraceMLE<P> {
    /// Compares every entry `x` of `input` with the tables' constant `c`: records `x < c`,
    /// the limbs of `x`, and the comparison codeword of each limb.
    pub fn from(input: &Rc<DenseMultilinearExtension<P>>, lt_tables: &LTTablesMLE<P>) -> (r: Self)
        requires
            P > 1,
            input.wf(),
            lt_tables.wf(),
            lt_tables.lt_constant is Some,
        ensures
            r.num_vars == input.num_vars,
            r.num_bits == lt_tables.decomp_len,
            *r.input == **input,
            r.lt_result.wf(),
            r.lt_result.num_vars == input.num_vars,
            forall|i: int|
                0 <= i < input.evaluations@.len() ==> (#[trigger] r.lt_result.evaluations@[i])@ == (
                if input.evaluations@[i]@ < lt_tables.lt_constant->0@ {
                    1nat
                } else {
                    0nat
                }),
            r.bits@.len() == lt_tables.decomp_len,
            r.bit_lt@.len() == lt_tables.decomp_len,
            forall|j: int|
                0 <= j < lt_tables.decomp_len ==> {
                    &&& (#[trigger] r.bits@[j]).wf()
                    &&& r.bits@[j].num_vars == input.num_vars
                    &&& r.bit_lt@[j].wf()
                    &&& r.bit_lt@[j].num_vars == input.num_vars
                },
            forall|j: int, i: int|
                0 <= j < lt_tables.decomp_len && 0 <= i < input.evaluations@.len() ==> {
                    &&& (#[trigger] r.bits@[j].evaluations@[i])@ == digit(
                        input.evaluations@[i]@,
                        lt_tables.basis_bits as nat,
                        j as nat,
                    )
                    &&& r.bit_lt@[j].evaluations@[i] == lt_tables.tables@[j].evaluations@[
                        r.bits@[j].evaluations@[i]@ as int]
                },
            r.lookups_hold(*lt_tables),
    {
        let num_vars = input.num_vars;
        let num_bits = lt_tables.decomp_len;
        let basis_bits = lt_tables.basis_bits as u32;
        let lt_constant = lt_tables.lt_constant.unwrap();
        let lt_result = less_than_flags(&input.evaluations, lt_constant);
        let (bits, bit_lt) = decompose_and_lookup(&input.evaluations, num_vars, &lt_tables.tables, basis_bits);
        proof {
            assert forall|j: int, i: int|
                0 <= j < bits@.len() && 0 <= i < bits@[j].evaluations@.len() implies (#[trigger] bits@[j].evaluations@[i])@
                < lt_tables.tables@[j].evaluations@.len() by {
                assert(lt_tables.tables@[j].wf());
                lemma_pow2_pos(lt_tables.basis_bits as nat);
                lemma_mod_bound((input.evaluations@[i]@ / pow2((lt_tables.basis_bits * j) as nat)) as int, pow2(lt_tables.basis_bits as nat) as int);
            }
        }
        LTTraceMLE {
            num_vars,
            num_bits,
            input: Rc::clone(input),
            lt_result: Rc::new(DenseMultilinearExtension::from_evaluations_vec(num_vars, lt_result)),
            bits,
            bit_lt,
        }
    }

    /// One indexed lookup per limb: the limb indexes table `i`, the codeword is the input.
    pub fn extract_lt_lookup_traces(&self, lt_tables: &LTTablesMLE<P>) -> (r: Vec<IndexedLookupTraceMLE<P>>)
        requires
            self.bits@.len() == self.bit_lt@.len(),
            self.bits@.len() <= lt_tables.tables@.len(),
        ensures
            r@.len() == self.bits@.len(),
            forall|i: int|
                0 <= i < r@.len() ==> {
                    let t = #[trigger] r@[i];
                    &&& t.num_input_vars == self.num_vars
                    &&& t.num_table_vars == lt_tables.tables@[i].num_vars
                    &&& t.index == self.bits@[i]
                    &&& t.input == self.bit_lt@[i]
                    &&& t.table == lt_tables.tables@[i]
                    &&& t.table_point is None
                },
            self.lookups_hold(*lt_tables) ==> forall|i: int| 0 <= i < r@.len() ==> (#[trigger] r@[i]).relation_holds(),
    {
        let mut r: Vec<IndexedLookupTraceMLE<P>> = Vec::with_capacity(self.bits.len());
        let mut i: usize = 0;
        while i < self.bits.len()
            invariant
                self.bits@.len() == self.bit_lt@.len(),
                self.bits@.len() <= lt_tables.tables@.len(),
                i <= self.bits@.len(),
                r@.len() == i,
                forall|k: int|
                    0 <= k < i ==> {
                        let t = #[trigger] r@[k];
                        &&& t.num_input_vars == self.num_vars
                        &&& t.num_table_vars == lt_tables.tables@[k].num_vars
                        &&& t.index == self.bits@[k]
                        &&& t.input == self.bit_lt@[k]
                        &&& t.table == lt_tables.tables@[k]
                        &&& t.table_point is None
                    },
            decreases self.bits@.len() - i,
        {
            r.push(IndexedLookupTraceMLE {
                num_input_vars: self.num_vars,
                num_table_vars: lt_tables.tables[i].num_vars(),
                index: Rc::clone(&self.bits[i]),
                input: Rc::clone(&self.bit_lt[i]),
                table: lt_tables.get_table(i),
                table_point: None,
            });
            i = i + 1;
        }
        proof {
            if self.lookups_hold(*lt_tables) {
                assert forall|k: int| 0 <= k < r@.len() implies (#[trigger] r@[k]).relation_holds() by {
                    assert forall|x: int| 0 <= x < r@[k].input.evaluations@.len() implies {
                        &&& #[trigger] r@[k].index.evaluations@[x]@ < r@[k].table.evaluations@.len()
                        &&& r@[k].input.evaluations@[x] == r@[k].table.evaluations@[r@[k].index.evaluations@[x]@ as int]
                    } by {
                        assert(self.bits@[k].evaluations@[x]@ < lt_tables.tables@[k].evaluations@.len());
                    }
                }
            }
        }
        r
    }
}

} // verus!
