//! Sums over finite ranges, and the balance of the LogUp helper columns of an indexed
//! lookup.
use super::indexed_table::{
    lemma_scaled_inverse, lookup_hash, multiplicity_value, IndexedLookupTraceMLE,
    IndexedLookupWitness, IndexedLookupWitnessHelper,
};
use super::{block_end, count_value, field_inverse, field_sum, lemma_field_inverse_unique};
use crate::mle::DenseMultilinearExtension;
use crate::packing::concat_evaluations;
use std::rc::Rc;
use crate::field::{invertible, lemma_cancel_invertible, Fp};
use vstd::arithmetic::div_mod::*;
use vstd::prelude::*;

verus! {

/// `f(0) + f(1) + ... + f(n - 1)`.
pub open spec fn range_sum(f: spec_fn(int) -> int, n: int) -> int
    decreases n,
{
    if n <= 0 {
        0
    } else {
        range_sum(f, n - 1) + f(n - 1)
    }
}

/// Sums of functions that agree on the range are equal.
pub proof fn lemma_range_sum_congruent(f: spec_fn(int) -> int, g: spec_fn(int) -> int, n: int)
    requires
        forall|i: int| 0 <= i < n ==> #[trigger] f(i) == g(i),
    ensures
        range_sum(f, n) == range_sum(g, n),
    decreases n,
{
    if n > 0 {
        lemma_range_sum_congruent(f, g, n - 1);
    }
}

/// Sums of functions that agree modulo `p` on the range agree modulo `p`.
pub proof fn lemma_range_sum_mod(f: spec_fn(int) -> int, g: spec_fn(int) -> int, n: int, p: int)
    requires
        p > 0,
        forall|i: int| 0 <= i < n ==> #[trigger] f(i) % p == g(i) % p,
    ensures
        range_sum(f, n) % p == range_sum(g, n) % p,
    decreases n,
{
    if n > 0 {
        lemma_range_sum_mod(f, g, n - 1, p);
        lemma_add_mod_noop(range_sum(f, n - 1), f(n - 1), p);
        lemma_add_mod_noop(range_sum(g, n - 1), g(n - 1), p);
    }
}

/// The sum of `f + g` is the sum of `f` plus the sum of `g`.
pub proof fn lemma_range_sum_add(f: spec_fn(int) -> int, g: spec_fn(int) -> int, n: int)
    ensures
        range_sum(|i: int| f(i) + g(i), n) == range_sum(f, n) + range_sum(g, n),
    decreases n,
{
    if n > 0 {
        lemma_range_sum_add(f, g, n - 1);
    }
}

/// Only the term at `k` survives in a sum of `f` weighted by the indicator of `k`.
pub proof fn lemma_range_sum_indicator(f: spec_fn(int) -> int, k: int, n: int)
    ensures
        range_sum(|i: int| if i == k { f(i) } else { 0 }, n) == if 0 <= k < n {
            f(k)
        } else {
            0
        },
    decreases n,
{
    if n > 0 {
        lemma_range_sum_indicator(f, k, n - 1);
    }
}

/// The sum of the entries of `s` in the field is their integer sum modulo `P`.
pub proof fn lemma_field_sum_is_range_sum<const P: u64>(s: Seq<Fp<P>>)
    requires
        P > 1,
        forall|i: int| 0 <= i < s.len() ==> (#[trigger] s[i])@ < P,
    ensures
        field_sum(s) == range_sum(|i: int| s[i]@ as int, s.len() as int) % (P as int),
    decreases s.len(),
{
    let f = |i: int| s[i]@ as int;
    if s.len() == 0 {
        assert(range_sum(f, 0) == 0);
    } else {
        let init = s.drop_last();
        let g = |i: int| init[i]@ as int;
        let n = init.len() as int;
        lemma_field_sum_is_range_sum(init);
        assert((|i: int| init[i]@ as int) =~= g);
        lemma_range_sum_congruent(g, f, n);
        let r = range_sum(f, n);
        assert(field_sum(init) == r % (P as int));
        assert(range_sum(f, n + 1) == r + f(n));
        assert(f(n) == s.last()@);
        lemma_add_mod_noop(r, s.last()@ as int, P as int);
        lemma_small_mod(s.last()@, P as nat);
        assert(field_sum(s) == (field_sum(init) + s.last()@) % (P as nat));
        assert((|i: int| s[i]@ as int) =~= f);
    }
}

/// A sum of zeros is zero.
pub proof fn lemma_range_sum_zero(n: int)
    ensures
        range_sum(|i: int| 0int, n) == 0,
    decreases n,
{
    if n > 0 {
        lemma_range_sum_zero(n - 1);
    }
}

/// Splitting a sum after its first `a` terms.
pub proof fn lemma_range_sum_split(f: spec_fn(int) -> int, a: int, b: int)
    requires
        a >= 0,
        b >= 0,
    ensures
        range_sum(f, a + b) == range_sum(f, a) + range_sum(|i: int| f(a + i), b),
    decreases b,
{
    if b > 0 {
        lemma_range_sum_split(f, a, b - 1);
        let g = |i: int| f(a + i);
        assert(range_sum(g, b) == range_sum(g, b - 1) + g(b - 1));
        assert((|i: int| f(a + i)) =~= g);
    }
}

/// A sum of `n` copies of `c`.
pub proof fn lemma_range_sum_const(c: int, n: int)
    requires
        n >= 0,
    ensures
        range_sum(|i: int| c, n) == c * n,
    decreases n,
{
    let k = |i: int| c;
    if n > 0 {
        lemma_range_sum_const(c, n - 1);
        assert((|i: int| c) =~= k);
        assert(range_sum(k, n) == range_sum(k, n - 1) + c);
        vstd::arithmetic::mul::lemma_mul_is_distributive_add(c, n - 1, 1);
    } else {
        assert(range_sum(k, 0) == 0);
    }
    assert((|i: int| c) =~= k);
}

/// The order of a double sum does not matter.
pub proof fn lemma_range_sum_swap(f: spec_fn(int, int) -> int, n: int, m: int)
    ensures
        range_sum(|i: int| range_sum(|j: int| f(i, j), m), n) == range_sum(
            |j: int| range_sum(|i: int| f(i, j), n),
            m,
        ),
    decreases n,
{
    let rows = |i: int| range_sum(|j: int| f(i, j), m);
    let cols = |j: int| range_sum(|i: int| f(i, j), n);
    if n <= 0 {
        let zero = |j: int| 0int;
        assert forall|j: int| 0 <= j < m implies #[trigger] cols(j) == zero(j) by {
            assert(range_sum(|i: int| f(i, j), n) == 0);
        }
        lemma_range_sum_congruent(cols, zero, m);
        lemma_range_sum_zero(m);
        assert((|i: int| 0int) =~= zero);
        assert(range_sum(rows, n) == 0);
    } else {
        lemma_range_sum_swap(f, n - 1, m);
        let cols_before = |j: int| range_sum(|i: int| f(i, j), n - 1);
        let last = |j: int| f(n - 1, j);
        let both = |j: int| cols_before(j) + last(j);
        assert(range_sum(rows, n) == range_sum(rows, n - 1) + rows(n - 1));
        assert((|j: int| f(n - 1, j)) =~= last);
        assert(rows(n - 1) == range_sum(last, m));
        assert forall|j: int| 0 <= j < m implies #[trigger] cols(j) == both(j) by {
            assert(range_sum(|i: int| f(i, j), n) == range_sum(|i: int| f(i, j), n - 1) + f(n - 1, j));
        }
        lemma_range_sum_congruent(cols, both, m);
        lemma_range_sum_add(cols_before, last, m);
        assert((|i: int| cols_before(i) + last(i)) =~= both);
        assert((|i: int| range_sum(|j: int| f(i, j), m)) =~= rows);
        assert((|j: int| range_sum(|i: int| f(i, j), n - 1)) =~= cols_before);
    }
    assert((|i: int| range_sum(|j: int| f(i, j), m)) =~= rows);
    assert((|j: int| range_sum(|i: int| f(i, j), n)) =~= cols);
}

/// The field sum of a concatenation.
pub proof fn lemma_field_sum_concat<const P: u64>(a: Seq<Fp<P>>, b: Seq<Fp<P>>)
    requires
        P > 1,
    ensures
        field_sum(a + b) == (field_sum(a) + field_sum(b)) % (P as nat),
    decreases b.len(),
{
    lemma_field_sum_bound(a);
    lemma_small_mod(field_sum(a), P as nat);
    if b.len() == 0 {
        assert(a + b =~= a);
    } else {
        lemma_field_sum_concat(a, b.drop_last());
        assert((a + b).drop_last() =~= a + b.drop_last());
        assert((a + b).last() == b.last());
        let x = field_sum(a) as int;
        let y = field_sum(b.drop_last()) as int;
        let z = b.last()@ as int;
        let p = P as int;
        assert(field_sum(a + b) == ((x + y) % p + z) % p);
        assert(field_sum(b) == (y + z) % p);
        lemma_add_mod_noop_right(z, x + y, p);
        lemma_add_mod_noop_right(x, y + z, p);
        assert(((x + y) % p + z) % p == (x + y + z) % p);
        assert((x + (y + z) % p) % p == (x + y + z) % p);
    }
}

/// A field sum is a canonical field element.
pub proof fn lemma_field_sum_bound<const P: u64>(s: Seq<Fp<P>>)
    requires
        P > 1,
    ensures
        field_sum(s) < P,
{
    if s.len() > 0 {
        lemma_mod_bound((field_sum(s.drop_last()) + s.last()@) as int, P as int);
    }
}

/// The number of the first `n` entries of `index` equal to `y`.
pub open spec fn index_count(index: Seq<int>, n: int, y: int) -> int {
    range_sum(|x: int| if index[x] == y { 1int } else { 0int }, n)
}

/// Counting the first `n` indices equal to `y` among field elements or among their
/// values is the same.
proof fn lemma_count_by_index<const P: u64>(idx: Seq<Fp<P>>, index: Seq<int>, n: int, y: int)
    requires
        0 <= n <= idx.len(),
        0 <= y,
        index.len() == idx.len(),
        forall|x: int| 0 <= x < idx.len() ==> #[trigger] index[x] == idx[x]@ as int,
    ensures
        count_value(idx.take(n), y as nat) == index_count(index, n, y),
    decreases n,
{
    if n > 0 {
        lemma_count_by_index(idx, index, n - 1, y);
        assert(idx.take(n).drop_last() =~= idx.take(n - 1));
        assert(idx.take(n).last() == idx[n - 1]);
        assert(index[n - 1] == idx[n - 1]@ as int);
    }
}

/// Summing `g` over the indices of the first `n` inputs is summing `g(y)` weighted by the
/// number of those indices equal to `y`, over the table.
proof fn lemma_sum_by_index(g: spec_fn(int) -> int, index: Seq<int>, t: int, n: int)
    requires
        0 <= n <= index.len(),
        forall|x: int| 0 <= x < index.len() ==> 0 <= #[trigger] index[x] < t,
    ensures
        range_sum(|x: int| g(index[x]), n) == range_sum(|y: int| g(y) * index_count(index, n, y), t),
    decreases n,
{
    if n == 0 {
        let counted = |y: int| g(y) * index_count(index, 0, y);
        let zero = |y: int| 0int;
        assert forall|y: int| 0 <= y < t implies #[trigger] counted(y) == zero(y) by {
            assert(index_count(index, 0, y) == 0);
        }
        lemma_range_sum_congruent(counted, zero, t);
        lemma_range_sum_zero(t);
        assert((|i: int| 0int) =~= zero);
        assert((|y: int| g(y) * index_count(index, 0, y)) =~= counted);
    } else {
        lemma_sum_by_index(g, index, t, n - 1);
        let k = index[n - 1];
        let before = |y: int| g(y) * index_count(index, n - 1, y);
        let step = |y: int| if y == k { g(y) } else { 0 };
        let after = |y: int| g(y) * index_count(index, n, y);
        let both = |y: int| before(y) + step(y);
        assert forall|y: int| 0 <= y < t implies #[trigger] after(y) == both(y) by {
            assert(index_count(index, n, y) == index_count(index, n - 1, y) + if index[n - 1] == y {
                1int
            } else {
                0int
            });
            vstd::arithmetic::mul::lemma_mul_is_distributive_add(
                g(y),
                index_count(index, n - 1, y),
                if index[n - 1] == y {
                    1int
                } else {
                    0int
                },
            );
        }
        lemma_range_sum_congruent(after, both, t);
        lemma_range_sum_add(before, step, t);
        assert((|i: int| before(i) + step(i)) =~= both);
        lemma_range_sum_indicator(g, k, t);
        assert((|i: int| if i == k { g(i) } else { 0 }) =~= step);
        let sums = |x: int| g(index[x]);
        assert(range_sum(sums, n) == range_sum(sums, n - 1) + g(k));
        assert((|x: int| g(index[x])) =~= sums);
        assert((|y: int| g(y) * index_count(index, n - 1, y)) =~= before);
        assert((|y: int| g(y) * index_count(index, n, y)) =~= after);
    }
}

/// The LogUp balance of an indexed lookup: when every input is the table entry at its
/// index, the helper column of the inputs adds up to the sum of the helper column of the
/// table, `sum 1 / (E[x] + s I[x] + r) = sum m[y] /
/// (T[y] + s y + r)`.
pub proof fn lemma_indexed_logup_balance<const P: u64>(
    trace: IndexedLookupTraceMLE<P>,
    witness: IndexedLookupWitness<P>,
    helper: IndexedLookupWitnessHelper<P>,
    randomness: Fp<P>,
    s_hash: Fp<P>,
)
    requires
        P > 1,
        trace.wf(),
        trace.relation_holds(),
        trace.hashes_invertible(randomness, s_hash),
        witness.multiplicity.evaluations@.len() == trace.table.evaluations@.len(),
        forall|y: int|
            0 <= y < trace.table.evaluations@.len() ==> (#[trigger] witness.multiplicity.evaluations@[y])@
                == multiplicity_value(trace.index.evaluations@, y),
        helper.helper_input.evaluations@.len() == trace.input.evaluations@.len(),
        helper.helper_table.evaluations@.len() == trace.table.evaluations@.len(),
        forall|x: int|
            0 <= x < trace.input.evaluations@.len() ==> {
                &&& (#[trigger] helper.phi_input.evaluations@[x])@ == lookup_hash(
                    trace.input.evaluations@[x]@,
                    trace.index.evaluations@[x]@,
                    s_hash@,
                    randomness@,
                    P as nat,
                )
                &&& (helper.helper_input.evaluations@[x]@ * helper.phi_input.evaluations@[x]@) % (P as nat)
                    == 1
            },
        forall|y: int|
            0 <= y < trace.table.evaluations@.len() ==> {
                &&& (#[trigger] helper.phi_table.evaluations@[y])@ == lookup_hash(
                    trace.table.evaluations@[y]@,
                    y as nat,
                    s_hash@,
                    randomness@,
                    P as nat,
                )
                &&& (helper.helper_table.evaluations@[y]@ * helper.phi_table.evaluations@[y]@) % (P as nat)
                    == witness.multiplicity.evaluations@[y]@
            },
        forall|x: int| 0 <= x < trace.input.evaluations@.len() ==> (#[trigger] helper.helper_input.evaluations@[x])@ < P,
        forall|y: int| 0 <= y < trace.table.evaluations@.len() ==> (#[trigger] helper.helper_table.evaluations@[y])@ < P,
        helper.sum@ == field_sum(helper.helper_table.evaluations@),
    ensures
        field_sum(helper.helper_input.evaluations@) == helper.sum@,
{
    let p = P as nat;
    let input = trace.input.evaluations@;
    let table = trace.table.evaluations@;
    let n = input.len() as int;
    let t = table.len() as int;
    let hin = helper.helper_input.evaluations@;
    let htab = helper.helper_table.evaluations@;
    let m = witness.multiplicity.evaluations@;
    let index = Seq::new(input.len(), |x: int| trace.index.evaluations@[x]@ as int);
    let g = |y: int| field_inverse(lookup_hash(table[y]@, y as nat, s_hash@, randomness@, p), p) as int;
    let input_terms = |x: int| hin[x]@ as int;
    let indexed_terms = |x: int| g(index[x]);
    let table_terms = |y: int| htab[y]@ as int;
    let counted_terms = |y: int| g(y) * index_count(index, n, y);
    // every input term is the inverse of the hash of the table entry at its index
    assert forall|x: int| 0 <= x < n implies #[trigger] input_terms(x) == indexed_terms(x) by {
        let k = index[x];
        assert(input[x] == table[k]);
        vstd::arithmetic::mul::lemma_mul_is_commutative(
            hin[x]@ as int,
            helper.phi_input.evaluations@[x]@ as int,
        );
        lemma_field_inverse_unique(helper.phi_input.evaluations@[x]@, hin[x]@, p);
    }
    // every table term is the inverse times the multiplicity
    assert forall|y: int| 0 <= y < t implies #[trigger] table_terms(y) % (p as int) == counted_terms(y) % (
    p as int) by {
        let phi = helper.phi_table.evaluations@[y]@;
        let inv = field_inverse(phi, p);
        assert(invertible(phi, p));
        let w = choose|w: nat| w < p && #[trigger] ((phi * w) % p) == 1;
        lemma_field_inverse_unique(phi, w, p);
        vstd::arithmetic::mul::lemma_mul_is_commutative(inv as int, phi as int);
        let idx = trace.index.evaluations@;
        assert(m[y]@ < p) by {
            lemma_mod_bound(count_value(idx, y as nat) as int, p as int);
        }
        lemma_scaled_inverse(inv, m[y]@, phi, p);
        lemma_mod_bound((inv * m[y]@) as int, p as int);
        lemma_cancel_invertible(htab[y]@, ((inv * m[y]@) % p) as nat, phi, p);
        assert(inv == g(y));
        assert(htab[y]@ == (inv * m[y]@) % p);
        lemma_count_by_index(idx, index, n, y);
        assert(idx.take(n) =~= idx);
        assert(m[y]@ == index_count(index, n, y) % (p as int));
        lemma_small_mod(htab[y]@, p);
        // htab = inv * (count % p) % p, which agrees with inv * count modulo p
        lemma_mul_mod_noop_right(inv as int, index_count(index, n, y), p as int);
    }
    lemma_range_sum_congruent(input_terms, indexed_terms, n);
    lemma_range_sum_mod(table_terms, counted_terms, t, p as int);
    lemma_sum_by_index(g, index, t, n);
    lemma_field_sum_is_range_sum(hin);
    lemma_field_sum_is_range_sum(htab);
    assert((|i: int| hin[i]@ as int) =~= input_terms);
    assert((|i: int| htab[i]@ as int) =~= table_terms);
    assert((|x: int| g(index[x])) =~= indexed_terms);
    assert((|y: int| g(y) * index_count(index, n, y)) =~= counted_terms);
}


/// The integer sum of `t(c, x)` over the columns `c` from `lo` to `hi - 1`.
pub open spec fn column_sum(t: spec_fn(int, int) -> int, lo: int, hi: int, x: int) -> int
    decreases hi - lo,
{
    if hi <= lo {
        0
    } else {
        column_sum(t, lo, hi - 1, x) + t(hi - 1, x)
    }
}

/// Adjacent ranges of columns add up.
proof fn lemma_column_sum_concat(t: spec_fn(int, int) -> int, lo: int, mid: int, hi: int, x: int)
    requires
        lo <= mid <= hi,
    ensures
        column_sum(t, lo, mid, x) + column_sum(t, mid, hi, x) == column_sum(t, lo, hi, x),
    decreases hi - mid,
{
    if hi > mid {
        lemma_column_sum_concat(t, lo, mid, hi - 1, x);
    }
}

/// The first `hi` columns.
proof fn lemma_column_sum_range(t: spec_fn(int, int) -> int, hi: int, x: int)
    requires
        hi >= 0,
    ensures
        column_sum(t, 0, hi, x) == range_sum(|c: int| t(c, x), hi),
    decreases hi,
{
    let f = |c: int| t(c, x);
    if hi > 0 {
        lemma_column_sum_range(t, hi - 1, x);
        assert(range_sum(f, hi) == range_sum(f, hi - 1) + f(hi - 1));
    }
    assert((|c: int| t(c, x)) =~= f);
}

/// The first `k` blocks of `bs` columns cover the first `min(k * bs, total)` columns.
proof fn lemma_blocks_partition(t: spec_fn(int, int) -> int, total: int, bs: int, k: int, x: int)
    requires
        bs > 0,
        total >= 0,
        0 <= k <= (total + bs - 1) / bs,
    ensures
        range_sum(|b: int| column_sum(t, b * bs, block_end(b, bs, total), x), k) == column_sum(
            t,
            0,
            if k * bs <= total {
                k * bs
            } else {
                total
            },
            x,
        ),
    decreases k,
{
    let f = |b: int| column_sum(t, b * bs, block_end(b, bs, total), x);
    if k > 0 {
        lemma_blocks_partition(t, total, bs, k - 1, x);
        lemma_fundamental_div_mod(total + bs - 1, bs);
        assert((k - 1) * bs < total) by (nonlinear_arith)
            requires
                k - 1 < (total + bs - 1) / bs,
                bs > 0,
                total + bs - 1 == bs * ((total + bs - 1) / bs) + (total + bs - 1) % bs,
                0 <= (total + bs - 1) % bs < bs,
        {
        }
        assert((k - 1) * bs + bs == k * bs) by (nonlinear_arith);
        assert(range_sum(f, k) == range_sum(f, k - 1) + f(k - 1));
        lemma_column_sum_concat(t, 0, (k - 1) * bs, block_end(k - 1, bs, total), x);
    }
    assert((|b: int| column_sum(t, b * bs, block_end(b, bs, total), x)) =~= f);
}

/// All blocks together cover all columns.
proof fn lemma_blocks_cover(t: spec_fn(int, int) -> int, total: int, bs: int, x: int)
    requires
        bs > 0,
        total >= 0,
    ensures
        range_sum(|b: int| column_sum(t, b * bs, block_end(b, bs, total), x), (total + bs - 1) / bs)
            == column_sum(t, 0, total, x),
{
    let k = (total + bs - 1) / bs;
    lemma_blocks_partition(t, total, bs, k, x);
    lemma_fundamental_div_mod(total + bs - 1, bs);
    assert(k * bs >= total) by (nonlinear_arith)
        requires
            k == (total + bs - 1) / bs,
            bs > 0,
            total + bs - 1 == bs * k + (total + bs - 1) % bs,
            0 <= (total + bs - 1) % bs < bs,
    {
    }
}

/// The field sum of the evaluations of `mles`, one after the other, is the sum of their
/// field sums, modulo `P`.
proof fn lemma_field_sum_concat_all<const P: u64>(mles: Seq<Rc<DenseMultilinearExtension<P>>>)
    requires
        P > 1,
    ensures
        field_sum(concat_evaluations(mles)) == range_sum(
            |b: int| field_sum(mles[b].evaluations@) as int,
            mles.len() as int,
        ) % (P as int),
    decreases mles.len(),
{
    let f = |b: int| field_sum(mles[b].evaluations@) as int;
    if mles.len() == 0 {
        assert(field_sum(concat_evaluations(mles)) == 0);
        lemma_small_mod(0, P as nat);
    } else {
        let init = mles.drop_last();
        let k = init.len() as int;
        lemma_field_sum_concat_all(init);
        let fi = |b: int| field_sum(init[b].evaluations@) as int;
        assert((|b: int| field_sum(init[b].evaluations@) as int) =~= fi);
        lemma_range_sum_congruent(fi, f, k);
        lemma_field_sum_concat(concat_evaluations(init), mles.last().evaluations@);
        let s = range_sum(f, k);
        let l = field_sum(mles.last().evaluations@) as int;
        assert(mles.last() == mles[k]);
        assert(range_sum(f, k + 1) == s + l);
        assert(concat_evaluations(mles) == concat_evaluations(init) + mles.last().evaluations@);
        lemma_mod_bound(s, P as int);
        lemma_field_sum_bound(mles.last().evaluations@);
        lemma_small_mod(l as nat, P as nat);
        lemma_add_mod_noop(s, l, P as int);
    }
    assert((|b: int| field_sum(mles[b].evaluations@) as int) =~= f);
}

/// Helper columns that each hold, point by point, the sum of the terms `t(c, x)` of a
/// block of `bs` of `total` columns add up, over all blocks and points, to the sum of
/// all terms, modulo `P`.
pub proof fn lemma_block_columns_total<const P: u64>(
    hs: Seq<Rc<DenseMultilinearExtension<P>>>,
    t: spec_fn(int, int) -> int,
    n: int,
    total: int,
    bs: int,
)
    requires
        P > 1,
        bs > 0,
        total >= 0,
        n >= 0,
        hs.len() == (total + bs - 1) / bs,
        forall|b: int| 0 <= b < hs.len() ==> (#[trigger] hs[b]).evaluations@.len() == n,
        forall|b: int, x: int|
            0 <= b < hs.len() && 0 <= x < n ==> (#[trigger] hs[b].evaluations@[x])@ == column_sum(
                t,
                b * bs,
                block_end(b, bs, total),
                x,
            ) % (P as int),
    ensures
        field_sum(concat_evaluations(hs)) == range_sum(|c: int| range_sum(|x: int| t(c, x), n), total)
            % (P as int),
{
    let nb = hs.len() as int;
    let p = P as int;
    let fs = |b: int| field_sum(hs[b].evaluations@) as int;
    let f2 = |b: int, x: int| column_sum(t, b * bs, block_end(b, bs, total), x);
    let ts = |b: int| range_sum(|x: int| f2(b, x), n);
    lemma_field_sum_concat_all(hs);
    assert((|b: int| field_sum(hs[b].evaluations@) as int) =~= fs);
    // each helper column sums to the terms of its block
    assert forall|b: int| 0 <= b < nb implies #[trigger] fs(b) % p == ts(b) % p by {
        let col = hs[b].evaluations@;
        let vals = |x: int| col[x]@ as int;
        let terms = |x: int| f2(b, x);
        assert forall|x: int| 0 <= x < col.len() implies (#[trigger] col[x])@ < P by {
            lemma_mod_bound(f2(b, x), p);
        }
        lemma_field_sum_is_range_sum(col);
        assert((|i: int| col[i]@ as int) =~= vals);
        assert forall|x: int| 0 <= x < n implies #[trigger] vals(x) % p == terms(x) % p by {
            lemma_mod_twice(f2(b, x), p);
        }
        lemma_range_sum_mod(vals, terms, n, p);
        lemma_mod_twice(range_sum(vals, n), p);
        assert((|x: int| f2(b, x)) =~= terms);
    }
    lemma_range_sum_mod(fs, ts, nb, p);
    // points outside, blocks inside
    lemma_range_sum_swap(f2, nb, n);
    assert((|i: int| range_sum(|j: int| f2(i, j), n)) =~= ts);
    let per_point = |x: int| range_sum(|b: int| f2(b, x), nb);
    let whole = |x: int| column_sum(t, 0, total, x);
    assert forall|x: int| 0 <= x < n implies #[trigger] per_point(x) == whole(x) by {
        lemma_blocks_cover(t, total, bs, x);
        assert((|b: int| f2(b, x)) =~= (|b: int| column_sum(t, b * bs, block_end(b, bs, total), x)));
    }
    assert((|j: int| range_sum(|i: int| f2(i, j), nb)) =~= per_point);
    lemma_range_sum_congruent(per_point, whole, n);
    // every point: the terms of all columns
    let f3 = |x: int, c: int| t(c, x);
    let cols_at = |x: int| range_sum(|c: int| f3(x, c), total);
    assert forall|x: int| 0 <= x < n implies #[trigger] whole(x) == cols_at(x) by {
        lemma_column_sum_range(t, total, x);
        assert((|c: int| t(c, x)) =~= (|c: int| f3(x, c)));
    }
    lemma_range_sum_congruent(whole, cols_at, n);
    lemma_range_sum_swap(f3, n, total);
    assert((|i: int| range_sum(|j: int| f3(i, j), total)) =~= cols_at);
    let target = |c: int| range_sum(|x: int| t(c, x), n);
    assert forall|c: int| 0 <= c < total implies #[trigger] target(c) == range_sum(|i: int| f3(i, c), n) by {
        assert((|x: int| t(c, x)) =~= (|i: int| f3(i, c)));
    }
    lemma_range_sum_congruent(target, |j: int| range_sum(|i: int| f3(i, j), n), total);
}

} // verus!
