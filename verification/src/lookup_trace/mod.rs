//! Lookup traces: range checks against small tables and indexed lookups.
//!
//! Both arguments follow LogUp: with a random `r`, the sum of `1 / (f + r)` over the
//! looked-up values `f` equals the sum of `m / (t + r)` over the table entries `t`, each
//! weighted by its multiplicity `m`.
pub mod indexed_table;
pub mod large_table;
pub mod logup;
pub mod normal_table;
pub mod range_balance;
pub mod small_table;

use crate::field::{invertible, lemma_cancel_invertible, Fp};
use crate::mle::DenseMultilinearExtension;
use std::rc::Rc;
use vstd::arithmetic::div_mod::*;
use vstd::arithmetic::power2::*;
use vstd::prelude::*;

verus! {

/// The number of entries of `s` whose value is `v`.
pub open spec fn count_value<const P: u64>(s: Seq<Fp<P>>, v: nat) -> nat
    decreases s.len(),
{
    if s.len() == 0 {
        0
    } else {
        count_value(s.drop_last(), v) + if s.last()@ == v {
            1nat
        } else {
            0nat
        }
    }
}

/// The sum of the entries of `s` in the field.
pub open spec fn field_sum<const P: u64>(s: Seq<Fp<P>>) -> nat
    decreases s.len(),
{
    if s.len() == 0 {
        0
    } else {
        (field_sum(s.drop_last()) + s.last()@) % (P as nat)
    }
}

/// Every entry of `s` has an inverse in the field.
pub open spec fn all_invertible<const P: u64>(s: Seq<Fp<P>>) -> bool {
    forall|i: int| 0 <= i < s.len() ==> invertible((#[trigger] s[i])@, P as nat)
}

/// The inverse of `a` modulo `p`, when it has one.
pub open spec fn field_inverse(a: nat, p: nat) -> nat {
    choose|y: nat| y < p && #[trigger] ((a * y) % p) == 1
}

/// An inverse is the inverse.
pub proof fn lemma_field_inverse_unique(a: nat, y: nat, p: nat)
    requires
        p > 1,
        y < p,
        (a * y) % p == 1,
    ensures
        invertible(a, p),
        y == field_inverse(a, p),
        field_inverse(a, p) < p,
        (a * field_inverse(a, p)) % p == 1,
{
    assert(invertible(a, p));
    let z = field_inverse(a, p);
    vstd::arithmetic::mul::lemma_mul_is_commutative(a as int, y as int);
    vstd::arithmetic::mul::lemma_mul_is_commutative(a as int, z as int);
    lemma_cancel_invertible(y, z, a, p);
}

/// The inverse of every entry of `values`.
pub fn batch_inverse<const P: u64>(values: &Vec<Fp<P>>) -> (r: Vec<Fp<P>>)
    requires
        P > 1,
        all_invertible(values@),
    ensures
        r@.len() == values@.len(),
        forall|i: int| 0 <= i < values@.len() ==> ((#[trigger] r@[i])@ * values@[i]@) % (P as nat) == 1,
        forall|i: int| 0 <= i < values@.len() ==> (#[trigger] r@[i])@ == field_inverse(values@[i]@, P as nat),
        forall|i: int| 0 <= i < values@.len() ==> (#[trigger] r@[i])@ < P,
{
    let mut r: Vec<Fp<P>> = Vec::with_capacity(values.len());
    let mut i: usize = 0;
    while i < values.len()
        invariant
            P > 1,
            all_invertible(values@),
            i <= values@.len(),
            r@.len() == i,
            forall|t: int| 0 <= t < i ==> ((#[trigger] r@[t])@ * values@[t]@) % (P as nat) == 1,
            forall|t: int| 0 <= t < i ==> (#[trigger] r@[t])@ == field_inverse(values@[t]@, P as nat),
            forall|t: int| 0 <= t < i ==> (#[trigger] r@[t])@ < P,
        decreases values@.len() - i,
    {
        let v = values[i];
        proof {
            assert(invertible(values@[i as int]@, P as nat));
        }
        let inv = v.inverse().unwrap();
        let _inv_value = inv.value();
        proof {
            vstd::arithmetic::mul::lemma_mul_is_commutative(v@ as int, inv@ as int);
            lemma_field_inverse_unique(v@, inv@, P as nat);
        }
        r.push(inv);
        i = i + 1;
    }
    r
}

/// The number of entries of `values` with value `v`, as a count of at most `u32::MAX`.
pub fn count_occurrences<const P: u64>(values: &Vec<Fp<P>>, v: Fp<P>) -> (r: u32)
    requires
        values@.len() <= u32::MAX,
    ensures
        r == count_value(values@, v@),
{
    let mut c: u32 = 0;
    let mut i: usize = 0;
    while i < values.len()
        invariant
            values@.len() <= u32::MAX,
            i <= values@.len(),
            c == count_value(values@.take(i as int), v@),
            c <= i,
        decreases values@.len() - i,
    {
        proof {
            assert(values@.take(i + 1).drop_last() =~= values@.take(i as int));
        }
        if values[i].value() == v.value() {
            c = c + 1;
        }
        i = i + 1;
    }
    proof {
        assert(values@.take(values@.len() as int) =~= values@);
    }
    c
}

/// The sum of the entries of `values` in the field.
pub fn sum_all<const P: u64>(values: &Vec<Fp<P>>) -> (r: Fp<P>)
    requires
        P > 1,
    ensures
        r@ == field_sum(values@),
{
    let mut acc = Fp::<P>::zero();
    let mut i: usize = 0;
    while i < values.len()
        invariant
            P > 1,
            i <= values@.len(),
            acc@ == field_sum(values@.take(i as int)),
        decreases values@.len() - i,
    {
        proof {
            assert(values@.take(i + 1).drop_last() =~= values@.take(i as int));
        }
        acc = acc.add(values[i]);
        i = i + 1;
    }
    proof {
        assert(values@.take(values@.len() as int) =~= values@);
    }
    acc
}

/// The field sum of the entries at `x` of columns `lo` to `hi - 1`.
pub open spec fn column_block_sum<const P: u64>(columns: Seq<Seq<Fp<P>>>, lo: int, hi: int, x: int) -> nat
    decreases hi - lo,
{
    if hi <= lo {
        0
    } else {
        (column_block_sum(columns, lo, hi - 1, x) + columns[hi - 1][x]@) % (P as nat)
    }
}

/// The last column of block `b` of `block_size` columns, among `total` columns.
pub open spec fn block_end(b: int, block_size: int, total: int) -> int {
    if b * block_size + block_size <= total {
        b * block_size + block_size
    } else {
        total
    }
}

/// Splits `columns`, each of `2^num_vars` entries, into blocks of `block_size` columns and
/// adds up the columns of every block, entry by entry.
pub fn block_sums<const P: u64>(columns: &Vec<Vec<Fp<P>>>, num_vars: usize, block_size: usize) -> (r: Vec<
    Rc<DenseMultilinearExtension<P>>,
>)
    requires
        P > 1,
        block_size > 0,
        columns@.len() + block_size <= usize::MAX,
        forall|c: int| 0 <= c < columns@.len() ==> (#[trigger] columns@[c])@.len() == pow2(num_vars as nat),
    ensures
        r@.len() == (columns@.len() + block_size - 1) / (block_size as int),
        forall|b: int|
            0 <= b < r@.len() ==> {
                &&& (#[trigger] r@[b]).wf()
                &&& r@[b].num_vars == num_vars
            },
        forall|b: int, x: int|
            0 <= b < r@.len() && 0 <= x < pow2(num_vars as nat) ==> (#[trigger] r@[b].evaluations@[x])@
                == column_block_sum(
                Seq::new(columns@.len(), |c: int| columns@[c]@),
                b * block_size,
                block_end(b, block_size as int, columns@.len() as int),
                x,
            ),
{
    let total = columns.len();
    let ghost cols = Seq::new(columns@.len(), |c: int| columns@[c]@);
    let num_blocks = (total + block_size - 1) / block_size;
    proof {
        vstd::bits::lemma_usize_pow2_no_overflow(0);
    }
    let mut r: Vec<Rc<DenseMultilinearExtension<P>>> = Vec::with_capacity(num_blocks);
    let mut b: usize = 0;
    while b < num_blocks
        invariant
            P > 1,
            block_size > 0,
            total == columns@.len(),
            total + block_size <= usize::MAX,
            num_blocks == (total + block_size - 1) / (block_size as int),
            cols == Seq::new(columns@.len(), |c: int| columns@[c]@),
            forall|c: int| 0 <= c < total ==> (#[trigger] columns@[c])@.len() == pow2(num_vars as nat),
            b <= num_blocks,
            r@.len() == b,
            forall|t: int|
                0 <= t < b ==> {
                    &&& (#[trigger] r@[t]).wf()
                    &&& r@[t].num_vars == num_vars
                },
            forall|t: int, x: int|
                0 <= t < b && 0 <= x < pow2(num_vars as nat) ==> (#[trigger] r@[t].evaluations@[x])@
                    == column_block_sum(cols, t * block_size, block_end(t, block_size as int, total as int), x),
        decreases num_blocks - b,
    {
        proof {
            lemma_fundamental_div_mod((total + block_size - 1) as int, block_size as int);
            assert(b * block_size < total) by (nonlinear_arith)
                requires
                    b < num_blocks,
                    block_size > 0,
                    total + block_size - 1 == block_size * num_blocks + (total + block_size - 1) % (block_size as int),
                    0 <= (total + block_size - 1) % (block_size as int) < block_size,
            {
            }
        }
        let lo = b * block_size;
        let hi = if lo + block_size <= total {
            lo + block_size
        } else {
            total
        };
        proof {
            assert(columns@[lo as int]@.len() == pow2(num_vars as nat));
        }
        let mle = columns[lo].len();
        let mut acc: Vec<Fp<P>> = Vec::with_capacity(mle);
        let mut x: usize = 0;
        while x < mle
            invariant
                P > 1,
                x <= mle,
                acc@.len() == x,
                forall|t: int| 0 <= t < x ==> (#[trigger] acc@[t])@ == 0,
            decreases mle - x,
        {
            acc.push(Fp::zero());
            x = x + 1;
        }
        let mut c: usize = lo;
        while c < hi
            invariant
                P > 1,
                lo <= c <= hi,
                hi <= total,
                total == columns@.len(),
                cols == Seq::new(columns@.len(), |c: int| columns@[c]@),
                forall|t: int| 0 <= t < total ==> (#[trigger] columns@[t])@.len() == mle,
                acc@.len() == mle,
                forall|t: int| 0 <= t < mle ==> (#[trigger] acc@[t])@ == column_block_sum(cols, lo as int, c as int, t),
            decreases hi - c,
        {
            let mut x: usize = 0;
            while x < mle
                invariant
                    P > 1,
                    lo <= c < hi,
                    hi <= total,
                    total == columns@.len(),
                    cols == Seq::new(columns@.len(), |c: int| columns@[c]@),
                    columns@[c as int]@.len() == mle,
                    acc@.len() == mle,
                    x <= mle,
                    forall|t: int| 0 <= t < x ==> (#[trigger] acc@[t])@ == column_block_sum(cols, lo as int, c + 1, t),
                    forall|t: int| x <= t < mle ==> (#[trigger] acc@[t])@ == column_block_sum(cols, lo as int, c as int, t),
                decreases mle - x,
            {
                let v = acc[x].add(columns[c][x]);
                acc.set(x, v);
                x = x + 1;
            }
            c = c + 1;
        }
        r.push(Rc::new(DenseMultilinearExtension::from_evaluations_vec(num_vars, acc)));
        b = b + 1;
    }
    r
}

} // verus!
