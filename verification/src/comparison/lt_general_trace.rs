//! Comparison tables for `x < c`, sized to the highest nonzero limb of `c`.
use super::lt_limb_constants;
use super::lt_trace::{comparison_codewords_and_table, comparison_table_wf, lt_bound, lt_limb, LTTable};
use crate::basis::{digit, limb_count, Basis};
use crate::field::Fp;
use crate::mle::DenseMultilinearExtension;
use std::rc::Rc;
use vstd::arithmetic::power2::*;
use vstd::bits::*;
use vstd::prelude::*;

verus! {

/// The comparison table for one limb; see [`LTTable`].
#[derive(Clone, Debug)]
pub struct LTGeneralTable<const P: u64> {
    /// denoted by len
    pub num_table_vars: usize,
    /// denoted by k
    pub num_bits: usize,
    /// denoted by g_i
    pub bit_constant: Fp<P>,
    /// denoted by i
    pub bit_position: usize,
    pub less_than_codeword: Fp<P>,
    pub equal_codeword: Fp<P>,
    pub greater_than_codeword: Fp<P>,
    pub table: Vec<Fp<P>>,
}

impl<const P: u64> LTGeneralTable<P> {
    pub open spec fn wf(&self) -> bool {
        comparison_table_wf(
            self.num_table_vars,
            self.num_bits,
            self.bit_constant,
            self.bit_position,
            self.less_than_codeword,
            self.equal_codeword,
            self.greater_than_codeword,
            self.table@,
        )
    }

    pub fn new(num_table_vars: usize, bit_constant: Fp<P>, bit_position: usize, num_bits: usize) -> (r: Self)
        requires
            P > 1,
            num_table_vars < usize::BITS,
            bit_constant@ < pow2(num_table_vars as nat),
            num_bits + bit_position < 64,
        ensures
            r.wf(),
            r.num_table_vars == num_table_vars,
            r.num_bits == num_bits,
            r.bit_constant == bit_constant,
            r.bit_position == bit_position,
    {
        let (less_than_codeword, equal_codeword, greater_than_codeword, table) =
            comparison_codewords_and_table(num_table_vars, bit_constant, bit_position, num_bits);
        LTGeneralTable {
            num_table_vars,
            num_bits,
            bit_constant,
            bit_position,
            less_than_codeword,
            equal_codeword,
            greater_than_codeword,
            table,
        }
    }
}

/// Comparison tables for the limbs of `lt_constant` (of `P` when it is `None`), one per limb
/// up to the highest nonzero limb of the constant.
#[derive(Clone, Debug)]
pub struct LTGeneralTables<const P: u64> {
    pub lt_constant: Option<Fp<P>>,
    pub basis_bits: usize,
    pub decomp_len: usize,
    pub tables: Vec<LTGeneralTable<P>>,
}

/// The comparison tables as multilinear extensions.
#[derive(Clone, Debug)]
pub struct LTGeneralTablesMLE<const P: u64> {
    pub basis_bits: usize,
    pub decomp_len: usize,
    pub tables: Vec<Rc<DenseMultilinearExtension<P>>>,
}

impl<const P: u64> LTGeneralTables<P> {
    /// Table `i` compares limb `i` with the matching limb of the constant.
    pub open spec fn wf(&self) -> bool {
        &&& self.tables@.len() == self.decomp_len
        &&& forall|i: int|
            0 <= i < self.decomp_len ==> {
                let t = #[trigger] self.tables@[i];
                &&& t.wf()
                &&& t.num_table_vars == self.basis_bits
                &&& t.num_bits == self.decomp_len
                &&& t.bit_position == i
                &&& t.bit_constant@ == lt_limb(self.lt_constant, self.basis_bits as nat, i as nat)
            }
    }

    /// Splits the constant (`P - 1` raised by one in its lowest limb when `lt_constant` is
    /// `None`) into limbs up to its highest nonzero limb, one comparison table per limb.
    pub fn new(basis: &Basis<P>, lt_constant: Option<Fp<P>>) -> (r: Self)
        requires
            P > 1,
            basis.wf(),
            basis.spec_bits() < usize::BITS,
            2 * limb_count(lt_bound(lt_constant), basis.spec_bits() as nat) <= 64,
            lt_constant is None ==> digit((P - 1) as nat, basis.spec_bits() as nat, 0) + 1 < pow2(
                basis.spec_bits() as nat,
            ),
        ensures
            r.wf(),
            r.lt_constant == lt_constant,
            r.basis_bits == basis.spec_bits(),
            r.decomp_len == limb_count(lt_bound(lt_constant), basis.spec_bits() as nat),
    {
        let bits = basis.bits();
        let (bit_constants, _rest) = lt_limb_constants(basis.mask(), bits, lt_constant);
        let num_bits = bit_constants.len();
        let mut tables: Vec<LTGeneralTable<P>> = Vec::with_capacity(num_bits);
        let mut i: usize = 0;
        while i < num_bits
            invariant
                P > 1,
                0 < bits < usize::BITS,
                bits < 64,
                num_bits == bit_constants@.len(),
                2 * num_bits <= 64,
                lt_constant is None ==> digit((P - 1) as nat, bits as nat, 0) + 1 < pow2(bits as nat),
                forall|t: int| 0 <= t < num_bits ==> (#[trigger] bit_constants@[t])@ == lt_limb(lt_constant, bits as nat, t as nat),
                i <= num_bits,
                tables@.len() == i,
                forall|t: int|
                    0 <= t < i ==> {
                        let tb = #[trigger] tables@[t];
                        &&& tb.wf()
                        &&& tb.num_table_vars == bits
                        &&& tb.num_bits == num_bits
                        &&& tb.bit_position == t
                        &&& tb.bit_constant@ == lt_limb(lt_constant, bits as nat, t as nat)
                    },
            decreases num_bits - i,
        {
            let g = bit_constants[i];
            proof {
                assert(g@ == lt_limb(lt_constant, bits as nat, i as nat));
                lemma_pow2_pos(bits as nat);
                lemma_pow2_pos(bits as nat * i as nat);
                let q: nat = lt_bound(lt_constant) / pow2(bits as nat * i as nat);
                vstd::arithmetic::div_mod::lemma_mod_pos_bound(q as int, pow2(bits as nat) as int);
                if lt_constant is None && i == 0 {
                    vstd::arithmetic::div_mod::lemma_mod_decreases(
                        (digit(lt_bound(lt_constant), bits as nat, 0) + 1) as nat,
                        P as nat,
                    );
                }
            }
            tables.push(LTGeneralTable::new(bits as usize, g, i, num_bits));
            i = i + 1;
        }
        LTGeneralTables { lt_constant, basis_bits: bits as usize, decomp_len: num_bits, tables }
    }
}

impl<const P: u64> LTGeneralTablesMLE<P> {
    /// One table of `2^basis_bits` entries per limb.
    pub open spec fn wf(&self) -> bool {
        &&& 0 < self.basis_bits < 64
        &&& self.tables@.len() == self.decomp_len
        &&& forall|i: int|
            0 <= i < self.decomp_len ==> {
                let t = #[trigger] self.tables@[i];
                &&& t.wf()
                &&& t.num_vars == self.basis_bits
            }
    }

    /// Converts each table into a multilinear extension.
    pub fn from_tables(tables: LTGeneralTables<P>) -> (r: Self)
        requires
            tables.wf(),
        ensures
            r.basis_bits == tables.basis_bits,
            r.decomp_len == tables.decomp_len,
            r.tables@.len() == tables.tables@.len(),
            forall|i: int|
                0 <= i < r.tables@.len() ==> {
                    &&& (#[trigger] r.tables@[i]).evaluations@ == tables.tables@[i].table@
                    &&& r.tables@[i].num_vars == tables.tables@[i].num_table_vars
                },
    {
        let mut mle_tables: Vec<Rc<DenseMultilinearExtension<P>>> = Vec::new();
        let n = tables.tables.len();
        let mut i: usize = 0;
        while i < n
            invariant
                tables.wf(),
                n == tables.tables@.len(),
                i <= n,
                mle_tables@.len() == i,
                forall|k: int|
                    0 <= k < i ==> {
                        &&& (#[trigger] mle_tables@[k]).evaluations@ == tables.tables@[k].table@
                        &&& mle_tables@[k].num_vars == tables.tables@[k].num_table_vars
                    },
            decreases n - i,
        {
            let t = &tables.tables[i];
            proof {
                assert(t.wf());
            }
            let mle = DenseMultilinearExtension::from_evaluations_vec(t.num_table_vars, t.table.clone());
            mle_tables.push(Rc::new(mle));
            i = i + 1;
        }
        LTGeneralTablesMLE { basis_bits: tables.basis_bits, decomp_len: tables.decomp_len, tables: mle_tables }
    }

    /// Looks every entry of `index` up in table `table_index`.
    pub fn lookup(&self, table_index: usize, index: &Rc<DenseMultilinearExtension<P>>) -> (r: Rc<
        DenseMultilinearExtension<P>,
    >)
        requires
            table_index < self.tables@.len(),
            index.wf(),
            forall|k: int|
                0 <= k < index.evaluations@.len() ==> (#[trigger] index.evaluations@[k])@
                    < self.tables@[table_index as int].evaluations@.len(),
        ensures
            r.wf(),
            r.num_vars == index.num_vars,
            r.evaluations@.len() == index.evaluations@.len(),
            forall|k: int|
                0 <= k < index.evaluations@.len() ==> #[trigger] r.evaluations@[k]
                    == self.tables@[table_index as int].evaluations@[index.evaluations@[k]@ as int],
    {
        let table = &self.tables[table_index];
        let evaluations = super::lookup_values(&table.evaluations, &index.evaluations);
        Rc::new(DenseMultilinearExtension::from_evaluations_vec(index.num_vars, evaluations))
    }

    pub fn get_table(&self, table_index: usize) -> (r: Rc<DenseMultilinearExtension<P>>)
        requires
            table_index < self.tables@.len(),
        ensures
            r == self.tables@[table_index as int],
    {
        Rc::clone(&self.tables[table_index])
    }
}

} // verus!
