//! Comparison tables for `x < c` where `c` is at most the prime.
use super::{lemma_limb_count_covers, lemma_limbs_below_decides, lemma_limbs_of_prime, limbs_below, lt_limb_constants, lt_target};
use super::lt_trace::{comparison_codewords_and_table, comparison_table_wf, lt_bound, lt_limb};
use crate::basis::{digit, limb_count, Basis};
use crate::field::Fp;
use vstd::arithmetic::power2::*;
use vstd::prelude::*;

verus! {

/// The comparison table for gadget `i` (the gadget position) against the limb `g_i`
/// (the gadget constant); see `LTTable`.
#[derive(Clone, Debug)]
pub struct CMPTable<const P: u64> {
    /// denoted by len
    pub num_table_vars: usize,
    /// denoted by k
    pub num_gadgets: usize,
    /// denoted by g_i
    pub gadget_constant: Fp<P>,
    /// denoted by i
    pub gadget_position: usize,
    pub less_than_codeword: Fp<P>,
    pub equal_codeword: Fp<P>,
    pub greater_than_codeword: Fp<P>,
    pub table: Vec<Fp<P>>,
}

impl<const P: u64> CMPTable<P> {
    pub open spec fn wf(&self) -> bool {
        comparison_table_wf(
            self.num_table_vars,
            self.num_gadgets,
            self.gadget_constant,
            self.gadget_position,
            self.less_than_codeword,
            self.equal_codeword,
            self.greater_than_codeword,
            self.table@,
        )
    }

    pub fn new(num_table_vars: usize, gadget_constant: Fp<P>, gadget_position: usize, num_gadgets: usize) -> (r: Self)
        requires
            P > 1,
            num_table_vars < usize::BITS,
            gadget_constant@ < pow2(num_table_vars as nat),
            num_gadgets + gadget_position < 64,
        ensures
            r.wf(),
            r.num_table_vars == num_table_vars,
            r.num_gadgets == num_gadgets,
            r.gadget_constant == gadget_constant,
            r.gadget_position == gadget_position,
    {
        let (less_than_codeword, equal_codeword, greater_than_codeword, table) =
            comparison_codewords_and_table(num_table_vars, gadget_constant, gadget_position, num_gadgets);
        CMPTable {
            num_table_vars,
            num_gadgets,
            gadget_constant,
            gadget_position,
            less_than_codeword,
            equal_codeword,
            greater_than_codeword,
            table,
        }
    }
}

/// The constants of the tables, limb by limb.
pub open spec fn gadget_constants<const P: u64>(tables: Seq<CMPTable<P>>) -> Seq<nat> {
    tables.map_values(|t: CMPTable<P>| t.gadget_constant@)
}

/// The tables of `LessThanPrimeTrace` decide `x < c` for the constant `c`, and `x < P` when
/// no constant is given, for every value `x` of as many limbs as there are tables: reading
/// the limbs of `x` from the most significant one, the first limb that differs from its
/// table's constant lies below it exactly when `x` is below the bound. Without a constant
/// this holds when raising the lowest limb of `P - 1` by one stays below `P`.
pub proof fn lemma_less_than_prime_decides<const P: u64>(
    trace: LessThanPrimeTrace<P>,
    rhs_constant: Option<Fp<P>>,
    x: nat,
)
    requires
        P > 1,
        trace.basis.wf(),
        trace.wf_for(rhs_constant),
        trace.num_gadgets == limb_count(lt_bound(rhs_constant), trace.basis.spec_bits() as nat),
        rhs_constant is None ==> digit((P - 1) as nat, trace.basis.spec_bits() as nat, 0) + 1 < pow2(
            trace.basis.spec_bits() as nat,
        ),
        rhs_constant is None ==> digit((P - 1) as nat, trace.basis.spec_bits() as nat, 0) + 1 < P,
        x < pow2(trace.basis.spec_bits() as nat * trace.num_gadgets as nat),
    ensures
        limbs_below(gadget_constants(trace.tables@), trace.basis.spec_bits() as nat, x) <==> x < lt_target(
            rhs_constant,
        ),
{
    let bits = trace.basis.spec_bits() as nat;
    let n = trace.num_gadgets as nat;
    let limbs = gadget_constants(trace.tables@);
    let b = lt_target(rhs_constant);
    lemma_limb_count_covers(lt_bound(rhs_constant), bits);
    match rhs_constant {
        Some(c) => {
            assert forall|j: int| 0 <= j < limbs.len() implies #[trigger] limbs[j] == digit(b, bits, j as nat) by {
                assert(trace.tables@[j].wf());
            }
        },
        None => {
            assert(n >= 1);
            lemma_limbs_of_prime::<P>(bits, 0, n);
            assert forall|j: int| 0 <= j < limbs.len() implies #[trigger] limbs[j] == digit(b, bits, j as nat) by {
                assert(trace.tables@[j].wf());
                lemma_limbs_of_prime::<P>(bits, j as nat, n);
                if j == 0 {
                    vstd::arithmetic::div_mod::lemma_small_mod((digit((P - 1) as nat, bits, 0) + 1) as nat, P as nat);
                }
            }
        },
    }
    lemma_limbs_below_decides(limbs, bits, x, b);
}

/// The tables comparing a value with the prime `P` (or with a given constant).
#[derive(Clone, Debug)]
pub struct LessThanPrimeTrace<const P: u64> {
    /// what is left of the constant once all its limbs are split off
    pub rhs_constant: Fp<P>,
    pub num_gadgets: usize,
    pub basis: Basis<P>,
    pub tables: Vec<CMPTable<P>>,
}

impl<const P: u64> LessThanPrimeTrace<P> {
    /// One table per limb of the constant compared against.
    pub open spec fn wf_for(&self, rhs_constant: Option<Fp<P>>) -> bool {
        &&& self.tables@.len() == self.num_gadgets
        &&& forall|i: int|
            0 <= i < self.num_gadgets ==> {
                let t = #[trigger] self.tables@[i];
                &&& t.wf()
                &&& t.num_table_vars == self.basis.spec_bits()
                &&& t.num_gadgets == self.num_gadgets
                &&& t.gadget_position == i
                &&& t.gadget_constant@ == lt_limb(rhs_constant, self.basis.spec_bits() as nat, i as nat)
            }
    }

    /// Splits the constant (`P - 1` raised by one in its lowest limb when `rhs_constant` is
    /// `None`, so that the comparison is with `P`) into limbs up to its highest nonzero limb,
    /// one comparison table per limb.
    pub fn new(basis: &Basis<P>, rhs_constant: Option<Fp<P>>) -> (r: Self)
        requires
            P > 1,
            basis.wf(),
            basis.spec_bits() < usize::BITS,
            2 * limb_count(lt_bound(rhs_constant), basis.spec_bits() as nat) <= 64,
            rhs_constant is None ==> digit((P - 1) as nat, basis.spec_bits() as nat, 0) + 1 < pow2(
                basis.spec_bits() as nat,
            ),
        ensures
            r.wf_for(rhs_constant),
            r.basis == *basis,
            r.num_gadgets == limb_count(lt_bound(rhs_constant), basis.spec_bits() as nat),
            r.rhs_constant@ == 0,
            (rhs_constant is None ==> digit((P - 1) as nat, basis.spec_bits() as nat, 0) + 1 < P) ==> forall|x: nat|
                x < pow2(basis.spec_bits() as nat * r.num_gadgets as nat) ==> (#[trigger] limbs_below(
                    gadget_constants(r.tables@),
                    basis.spec_bits() as nat,
                    x,
                ) <==> x < lt_target(rhs_constant)),
    {
        let r = Self::build(basis, rhs_constant);
        proof {
            if rhs_constant is None ==> digit((P - 1) as nat, basis.spec_bits() as nat, 0) + 1 < P {
                assert forall|x: nat| x < pow2(basis.spec_bits() as nat * r.num_gadgets as nat) implies (
                #[trigger] limbs_below(gadget_constants(r.tables@), basis.spec_bits() as nat, x) <==> x
                    < lt_target(rhs_constant)) by {
                    lemma_less_than_prime_decides(r, rhs_constant, x);
                }
            }
        }
        r
    }

    fn build(basis: &Basis<P>, rhs_constant: Option<Fp<P>>) -> (r: Self)
        requires
            P > 1,
            basis.wf(),
            basis.spec_bits() < usize::BITS,
            2 * limb_count(lt_bound(rhs_constant), basis.spec_bits() as nat) <= 64,
            rhs_constant is None ==> digit((P - 1) as nat, basis.spec_bits() as nat, 0) + 1 < pow2(
                basis.spec_bits() as nat,
            ),
        ensures
            r.wf_for(rhs_constant),
            r.basis == *basis,
            r.num_gadgets == limb_count(lt_bound(rhs_constant), basis.spec_bits() as nat),
            r.rhs_constant@ == 0,
    {
        let bits = basis.bits();
        let (rhs_gadgets, rest) = lt_limb_constants(basis.mask(), bits, rhs_constant);
        let num_gadgets = rhs_gadgets.len();
        let mut tables: Vec<CMPTable<P>> = Vec::with_capacity(num_gadgets);
        let mut i: usize = 0;
        while i < num_gadgets
            invariant
                P > 1,
                0 < bits < usize::BITS,
                bits < 64,
                bits == basis.spec_bits(),
                num_gadgets == rhs_gadgets@.len(),
                2 * num_gadgets <= 64,
                rhs_constant is None ==> digit((P - 1) as nat, bits as nat, 0) + 1 < pow2(bits as nat),
                forall|t: int| 0 <= t < num_gadgets ==> (#[trigger] rhs_gadgets@[t])@ == lt_limb(rhs_constant, bits as nat, t as nat),
                i <= num_gadgets,
                tables@.len() == i,
                forall|t: int|
                    0 <= t < i ==> {
                        let tb = #[trigger] tables@[t];
                        &&& tb.wf()
                        &&& tb.num_table_vars == bits
                        &&& tb.num_gadgets == num_gadgets
                        &&& tb.gadget_position == t
                        &&& tb.gadget_constant@ == lt_limb(rhs_constant, bits as nat, t as nat)
                    },
            decreases num_gadgets - i,
        {
            let g = rhs_gadgets[i];
            proof {
                assert(g@ == lt_limb(rhs_constant, bits as nat, i as nat));
                lemma_pow2_pos(bits as nat);
                lemma_pow2_pos(bits as nat * i as nat);
                let q: nat = lt_bound(rhs_constant) / pow2(bits as nat * i as nat);
                vstd::arithmetic::div_mod::lemma_mod_pos_bound(q as int, pow2(bits as nat) as int);
                if rhs_constant is None && i == 0 {
                    vstd::arithmetic::div_mod::lemma_mod_decreases(
                        (digit(lt_bound(rhs_constant), bits as nat, 0) + 1) as nat,
                        P as nat,
                    );
                }
            }
            tables.push(CMPTable::new(bits as usize, g, i, num_gadgets));
            i = i + 1;
        }
        LessThanPrimeTrace { rhs_constant: rest, num_gadgets, basis: *basis, tables }
    }
}

} // verus!
