//! Decomposition of values into limbs, each limb range checked by a lookup into a
//! comparison table.
use crate::comparison::lt_general_trace::LTGeneralTablesMLE;
use crate::field::Fp;
use crate::lookup_trace::indexed_table::IndexedLookupTraceMLE;
use crate::mle::DenseMultilinearExtension;
use std::rc::Rc;
use vstd::prelude::*;

verus! {

/// The input column and its limb columns, each in `log_num` variables.
#[derive(Clone, Debug)]
pub struct DecompTraceMLE<const P: u64> {
    pub log_num: usize,
    pub basis_bits: usize,
    pub decomp_len: usize,
    pub input: Rc<DenseMultilinearExtension<P>>,
    pub bits: Vec<Rc<DenseMultilinearExtension<P>>>,
}

impl<const P: u64> DecompTraceMLE<P> {
    /// Every column has `2^log_num` evaluations.
    pub open spec fn wf(&self) -> bool {
        &&& self.input.wf()
        &&& self.input.num_vars == self.log_num
        &&& forall|i: int|
            0 <= i < self.bits@.len() ==> {
                &&& (#[trigger] self.bits@[i]).wf()
                &&& self.bits@[i].num_vars == self.log_num
            }
    }

    /// The number of limb lookups.
    pub fn num_lookup(&self) -> (r: usize)
        ensures
            r == self.bits@.len(),
    {
        self.bits.len()
    }

    /// One indexed lookup per limb: the limb indexes table `i`, and the table entry it
    /// points to is the input.
    pub fn extract_lt_general_lookup_trace(&self, lt_tables: &LTGeneralTablesMLE<P>) -> (r: Vec<
        IndexedLookupTraceMLE<P>,
    >)
        requires
            self.wf(),
            lt_tables.wf(),
            self.bits@.len() == lt_tables.decomp_len,
            forall|i: int, k: int|
                0 <= i < self.bits@.len() && 0 <= k < self.bits@[i].evaluations@.len() ==> (
                #[trigger] self.bits@[i].evaluations@[k])@ < lt_tables.tables@[i].evaluations@.len(),
        ensures
            r@.len() == self.bits@.len(),
            forall|i: int|
                0 <= i < r@.len() ==> {
                    let t = #[trigger] r@[i];
                    &&& t.wf()
                    &&& t.relation_holds()
                    &&& t.num_input_vars == self.log_num
                    &&& t.index == self.bits@[i]
                    &&& t.table == lt_tables.tables@[i]
                    &&& t.table_point is None
                },
    {
        let mut r: Vec<IndexedLookupTraceMLE<P>> = Vec::with_capacity(self.bits.len());
        let mut i: usize = 0;
        while i < self.bits.len()
            invariant
                self.wf(),
                lt_tables.wf(),
                self.bits@.len() == lt_tables.decomp_len,
                forall|j: int, k: int|
                    0 <= j < self.bits@.len() && 0 <= k < self.bits@[j].evaluations@.len() ==> (
                    #[trigger] self.bits@[j].evaluations@[k])@ < lt_tables.tables@[j].evaluations@.len(),
                i <= self.bits@.len(),
                r@.len() == i,
                forall|j: int|
                    0 <= j < i ==> {
                        let t = #[trigger] r@[j];
                        &&& t.wf()
                        &&& t.relation_holds()
                        &&& t.num_input_vars == self.log_num
                        &&& t.index == self.bits@[j]
                        &&& t.table == lt_tables.tables@[j]
                        &&& t.table_point is None
                    },
            decreases self.bits@.len() - i,
        {
            let index = Rc::clone(&self.bits[i]);
            proof {
                assert(self.bits@[i as int].wf());
                assert(lt_tables.tables@[i as int].wf());
            }
            let input = lt_tables.lookup(i, &index);
            let table = lt_tables.get_table(i);
            let t = IndexedLookupTraceMLE {
                num_input_vars: index.num_vars(),
                num_table_vars: table.num_vars(),
                index,
                input,
                table,
                table_point: None,
            };
            r.push(t);
            i = i + 1;
        }
        r
    }
}

} // verus!
