//! The LogUp balance of range checks: when every input lies in the range, the helper
//! columns of a range check against a normal table add up to zero over the whole
//! hypercube, and those of a range check against a small table add up to the table-side
//! sum.
use super::logup::{
    column_sum, lemma_block_columns_total, lemma_range_sum_add, lemma_range_sum_congruent, lemma_range_sum_const,
    lemma_range_sum_indicator, lemma_range_sum_mod, lemma_range_sum_split, lemma_range_sum_zero, range_sum,
};
use super::normal_table::{
    base_multiplicity, block_sum, count_in_columns, evaluations_of, helper_term, LookupWitness,
    LookupWitnessHelper,
};
use super::small_table::{
    inverse_block_sum, min2, table_sum, LookupTraceMLE as SmallTraceMLE, LookupWitnessHelper as SmallWitnessHelper,
    LookupWitnessPure,
};
use super::{block_end, count_value, field_inverse, field_sum};
use crate::field::{lemma_cancel_invertible, Fp};
use crate::packing::concat_evaluations;
use vstd::arithmetic::div_mod::*;
use vstd::arithmetic::power2::*;
use vstd::prelude::*;

verus! {

/// A block sum in the field is the integer sum of its terms modulo `P`.
proof fn lemma_block_sum_int<const P: u64>(phi: Seq<Seq<Fp<P>>>, m: Seq<Fp<P>>, lo: int, hi: int, x: int)
    requires
        P > 1,
    ensures
        block_sum(phi, m, lo, hi, x) == column_sum(|c: int, y: int| helper_term(phi, m, c, y) as int, lo, hi, x)
            % (P as int),
    decreases hi - lo,
{
    let t = |c: int, y: int| helper_term(phi, m, c, y) as int;
    if hi > lo {
        lemma_block_sum_int(phi, m, lo, hi - 1, x);
        lemma_add_mod_noop_right(t(hi - 1, x), column_sum(t, lo, hi - 1, x), P as int);
    } else {
        lemma_small_mod(0, P as nat);
    }
}

/// Summing `g` over the entries of `s`, all below `bound`, is summing `g(v)` weighted by
/// the number of entries with value `v`.
proof fn lemma_group_by_value<const P: u64>(s: Seq<Fp<P>>, g: spec_fn(int) -> int, bound: int)
    requires
        bound >= 0,
        forall|x: int| 0 <= x < s.len() ==> (#[trigger] s[x])@ < bound,
    ensures
        range_sum(|x: int| g(s[x]@ as int), s.len() as int) == range_sum(
            |v: int| count_value(s, v as nat) as int * g(v),
            bound,
        ),
    decreases s.len(),
{
    let lhs = |x: int| g(s[x]@ as int);
    let rhs = |v: int| count_value(s, v as nat) as int * g(v);
    if s.len() == 0 {
        let zero = |v: int| 0int;
        assert forall|v: int| 0 <= v < bound implies #[trigger] rhs(v) == zero(v) by {
            assert(count_value(s, v as nat) == 0);
        }
        lemma_range_sum_congruent(rhs, zero, bound);
        lemma_range_sum_zero(bound);
        assert((|i: int| 0int) =~= zero);
    } else {
        let init = s.drop_last();
        let last = s.last()@ as int;
        assert(s.last() == s[s.len() - 1]);
        lemma_group_by_value(init, g, bound);
        let lhs_init = |x: int| g(init[x]@ as int);
        let rhs_init = |v: int| count_value(init, v as nat) as int * g(v);
        let step = |v: int| if v == last { g(v) } else { 0 };
        let both = |v: int| rhs_init(v) + step(v);
        assert((|x: int| g(init[x]@ as int)) =~= lhs_init);
        assert((|v: int| count_value(init, v as nat) as int * g(v)) =~= rhs_init);
        // the entries before the last one
        lemma_range_sum_congruent(lhs_init, lhs, init.len() as int);
        assert(range_sum(lhs, s.len() as int) == range_sum(lhs, init.len() as int) + g(last));
        // the counts gain one at the last value
        assert forall|v: int| 0 <= v < bound implies #[trigger] rhs(v) == both(v) by {
            assert(count_value(s, v as nat) == count_value(init, v as nat) + if last == v {
                1nat
            } else {
                0nat
            });
            vstd::arithmetic::mul::lemma_mul_is_distributive_add_other_way(
                g(v),
                count_value(init, v as nat) as int,
                if last == v {
                    1int
                } else {
                    0int
                },
            );
        }
        lemma_range_sum_congruent(rhs, both, bound);
        lemma_range_sum_add(rhs_init, step, bound);
        assert((|i: int| rhs_init(i) + step(i)) =~= both);
        lemma_range_sum_indicator(g, last, bound);
        assert((|i: int| if i == last { g(i) } else { 0 }) =~= step);
    }
    assert((|x: int| g(s[x]@ as int)) =~= lhs);
    assert((|v: int| count_value(s, v as nat) as int * g(v)) =~= rhs);
}

/// Summing `g` over the entries of all `columns`, all below `bound`, is summing `g(v)`
/// weighted by the number of entries with value `v`.
proof fn lemma_group_columns<const P: u64>(columns: Seq<Seq<Fp<P>>>, g: spec_fn(int) -> int, bound: int)
    requires
        bound >= 0,
        forall|j: int, x: int|
            0 <= j < columns.len() && 0 <= x < columns[j].len() ==> (#[trigger] columns[j][x])@ < bound,
    ensures
        range_sum(
            |j: int| range_sum(|x: int| g(columns[j][x]@ as int), columns[j].len() as int),
            columns.len() as int,
        ) == range_sum(|v: int| count_in_columns(columns, v as nat) as int * g(v), bound),
    decreases columns.len(),
{
    let lhs = |j: int| range_sum(|x: int| g(columns[j][x]@ as int), columns[j].len() as int);
    let rhs = |v: int| count_in_columns(columns, v as nat) as int * g(v);
    if columns.len() == 0 {
        let zero = |v: int| 0int;
        assert forall|v: int| 0 <= v < bound implies #[trigger] rhs(v) == zero(v) by {
            assert(count_in_columns(columns, v as nat) == 0);
        }
        lemma_range_sum_congruent(rhs, zero, bound);
        lemma_range_sum_zero(bound);
        assert((|i: int| 0int) =~= zero);
    } else {
        let init = columns.drop_last();
        let last = columns.last();
        assert(last == columns[columns.len() - 1]);
        lemma_group_columns(init, g, bound);
        assert forall|x: int| 0 <= x < last.len() implies (#[trigger] last[x])@ < bound by {
            assert(columns[columns.len() - 1][x] == last[x]);
        }
        lemma_group_by_value(last, g, bound);
        let lhs_init = |j: int| range_sum(|x: int| g(init[j][x]@ as int), init[j].len() as int);
        let rhs_init = |v: int| count_in_columns(init, v as nat) as int * g(v);
        let rhs_last = |v: int| count_value(last, v as nat) as int * g(v);
        let both = |v: int| rhs_init(v) + rhs_last(v);
        assert((|j: int| range_sum(|x: int| g(init[j][x]@ as int), init[j].len() as int)) =~= lhs_init);
        assert((|v: int| count_in_columns(init, v as nat) as int * g(v)) =~= rhs_init);
        assert((|v: int| count_value(last, v as nat) as int * g(v)) =~= rhs_last);
        lemma_range_sum_congruent(lhs_init, lhs, init.len() as int);
        assert(range_sum(lhs, columns.len() as int) == range_sum(lhs, init.len() as int) + lhs(
            columns.len() - 1,
        ));
        assert((|x: int| g(last[x]@ as int)) =~= (|x: int| g(columns[columns.len() - 1][x]@ as int)));
        assert forall|v: int| 0 <= v < bound implies #[trigger] rhs(v) == both(v) by {
            vstd::arithmetic::mul::lemma_mul_is_distributive_add_other_way(
                g(v),
                count_in_columns(init, v as nat) as int,
                count_value(last, v as nat) as int,
            );
        }
        lemma_range_sum_congruent(rhs, both, bound);
        lemma_range_sum_add(rhs_init, rhs_last, bound);
        assert((|i: int| rhs_init(i) + rhs_last(i)) =~= both);
    }
    assert((|j: int| range_sum(|x: int| g(columns[j][x]@ as int), columns[j].len() as int)) =~= lhs);
    assert((|v: int| count_in_columns(columns, v as nat) as int * g(v)) =~= rhs);
}


/// The inverse of `v + r` in the field.
spec fn shifted_inverse<const P: u64>(v: int, r: Fp<P>) -> int {
    field_inverse(((v + r@) % (P as int)) as nat, P as nat) as int
}

/// A value that no entry has is counted zero times.
proof fn lemma_count_value_none<const P: u64>(s: Seq<Fp<P>>, v: nat)
    requires
        forall|x: int| 0 <= x < s.len() ==> (#[trigger] s[x])@ != v,
    ensures
        count_value(s, v) == 0,
    decreases s.len(),
{
    if s.len() > 0 {
        assert(s.last() == s[s.len() - 1]);
        lemma_count_value_none(s.drop_last(), v);
    }
}

/// A value that no entry of the columns has is counted zero times.
proof fn lemma_count_in_columns_none<const P: u64>(columns: Seq<Seq<Fp<P>>>, v: nat)
    requires
        forall|j: int, x: int|
            0 <= j < columns.len() && 0 <= x < columns[j].len() ==> (#[trigger] columns[j][x])@ != v,
    ensures
        count_in_columns(columns, v) == 0,
    decreases columns.len(),
{
    if columns.len() > 0 {
        let init = columns.drop_last();
        let last = columns.last();
        assert forall|j: int, x: int| 0 <= j < init.len() && 0 <= x < init[j].len() implies (#[trigger] init[j][x])@
            != v by {
            assert(init[j] == columns[j]);
        }
        lemma_count_in_columns_none(init, v);
        assert forall|x: int| 0 <= x < last.len() implies (#[trigger] last[x])@ != v by {
            assert(columns[columns.len() - 1] == last);
        }
        lemma_count_value_none(last, v);
    }
}

/// The terms of the input columns add up to `cnt(v) / (v + r)` over the values `v` of the
/// range, `cnt(v)` being the number of inputs equal to `v`.
proof fn lemma_input_total<const P: u64>(
    witness: LookupWitness<P>,
    helper: LookupWitnessHelper<P>,
    randomness: Fp<P>,
)
    requires
        P > 1,
        witness.wf(),
        helper.helps(witness, randomness),
        forall|j: int, x: int|
            0 <= j < witness.trace.columns().len() && 0 <= x < witness.trace.columns()[j].len()
                ==> (#[trigger] witness.trace.columns()[j][x])@ < witness.trace.range,
    ensures
        range_sum(
            |j: int|
                range_sum(
                    |x: int|
                        helper_term(
                            evaluations_of(helper.phi_functions@),
                            witness.multiplicity.evaluations@,
                            j + 1,
                            x,
                        ) as int,
                    pow2(witness.num_vars as nat) as int,
                ),
            witness.trace.vec_input@.len() as int,
        ) == range_sum(
            |v: int| count_in_columns(witness.trace.columns(), v as nat) as int * shifted_inverse(v, randomness),
            witness.trace.range as int,
        ),
{
    let phi = evaluations_of(helper.phi_functions@);
    let m = witness.multiplicity.evaluations@;
    let n = pow2(witness.num_vars as nat) as int;
    let nv = witness.trace.vec_input@.len() as int;
    let cols = witness.trace.columns();
    let g = |v: int| shifted_inverse(v, randomness);
    lemma_group_columns(cols, g, witness.trace.range as int);
    let lhs = |j: int| range_sum(|x: int| helper_term(phi, m, j + 1, x) as int, n);
    let grouped = |j: int| range_sum(|x: int| g(cols[j][x]@ as int), cols[j].len() as int);
    assert forall|j: int| 0 <= j < nv implies #[trigger] lhs(j) == grouped(j) by {
        let a = |x: int| helper_term(phi, m, j + 1, x) as int;
        let b = |x: int| g(cols[j][x]@ as int);
        assert(witness.trace.vec_input@[j].wf());
        assert forall|x: int| 0 <= x < n implies #[trigger] a(x) == b(x) by {
            assert(helper.phi_functions@[j + 1].evaluations@[x]@ == (
            witness.trace.vec_input@[j].evaluations@[x]@ + randomness@) % (P as nat));
        }
        lemma_range_sum_congruent(a, b, n);
        assert((|x: int| helper_term(phi, m, j + 1, x) as int) =~= a);
        assert((|x: int| g(cols[j][x]@ as int)) =~= b);
    }
    lemma_range_sum_congruent(lhs, grouped, nv);
    assert((|j: int| range_sum(|x: int| g(cols[j][x]@ as int), cols[j].len() as int)) =~= grouped);
    assert((|v: int| count_in_columns(cols, v as nat) as int * g(v)) =~= (|v: int|
        count_in_columns(cols, v as nat) as int * shifted_inverse(v, randomness)));
}

/// Each table term is minus the inverse of its shifted entry times its multiplicity.
proof fn lemma_table_terms<const P: u64>(phi: Seq<Seq<Fp<P>>>, m: Seq<Fp<P>>, n: int)
    requires
        P > 1,
    ensures
        (range_sum(|x: int| helper_term(phi, m, 0, x) as int, n) + range_sum(
            |x: int| field_inverse(phi[0][x]@, P as nat) as int * m[x]@ as int,
            n,
        )) % (P as int) == 0,
{
    let p = P as int;
    let term = |x: int| helper_term(phi, m, 0, x) as int;
    let weight = |x: int| field_inverse(phi[0][x]@, P as nat) as int * m[x]@ as int;
    let both = |x: int| term(x) + weight(x);
    let zero = |x: int| 0int;
    assert forall|x: int| 0 <= x < n implies #[trigger] both(x) % p == zero(x) % p by {
        let inv = field_inverse(phi[0][x]@, P as nat) as int;
        let mx = m[x]@ as int;
        lemma_mod_bound(-mx, p);
        lemma_mul_mod_noop_right(inv, -mx, p);
        vstd::arithmetic::mul::lemma_mul_unary_negation(inv, mx);
        assert(term(x) == (-(inv * mx)) % p);
        lemma_add_mod_noop_right((-(inv * mx)) % p, inv * mx, p);
        lemma_add_mod_noop(-(inv * mx), inv * mx, p);
        lemma_mod_twice(-(inv * mx), p);
        lemma_small_mod(0, P as nat);
    }
    lemma_range_sum_mod(both, zero, n, p);
    lemma_range_sum_zero(n);
    assert((|x: int| 0int) =~= zero);
    lemma_range_sum_add(term, weight, n);
    assert((|i: int| term(i) + weight(i)) =~= both);
    lemma_small_mod(0, P as nat);
    assert((|x: int| helper_term(phi, m, 0, x) as int) =~= term);
    assert((|x: int| field_inverse(phi[0][x]@, P as nat) as int * m[x]@ as int) =~= weight);
}

/// A multiplicity before the padding is spread is the count of its value, modulo `P`.
proof fn lemma_weight_at<const P: u64>(cols: Seq<Seq<Fp<P>>>, gx: int, mx: nat, x: int)
    requires
        P > 1,
        0 <= x,
        mx == base_multiplicity(cols, x as nat),
        forall|j: int, y: int| 0 <= j < cols.len() && 0 <= y < cols[j].len() ==> (#[trigger] cols[j][y])@ < P,
    ensures
        (gx * mx) % (P as int) == (count_in_columns(cols, x as nat) as int * gx) % (P as int),
{
    let cnt = count_in_columns(cols, x as nat) as int;
    if x < P {
        lemma_mul_mod_noop_right(gx, cnt, P as int);
        vstd::arithmetic::mul::lemma_mul_is_commutative(gx, cnt);
    } else {
        assert forall|j: int, y: int| 0 <= j < cols.len() && 0 <= y < cols[j].len() implies (#[trigger] cols[j][y])@
            != x as nat by {
        }
        lemma_count_in_columns_none(cols, x as nat);
    }
}


/// The multiplicities of the table, weighted by the inverses of the shifted entries, add
/// up modulo `P` to `cnt(v) / (v + r)` over the values `v` of the range: the padding
/// carries, with the entry `0`, exactly the count of zero.
proof fn lemma_table_weights<const P: u64>(
    witness: LookupWitness<P>,
    helper: LookupWitnessHelper<P>,
    randomness: Fp<P>,
)
    requires
        P > 1,
        witness.wf(),
        witness.is_range_witness(),
        helper.helps(witness, randomness),
        forall|j: int, x: int|
            0 <= j < witness.trace.columns().len() && 0 <= x < witness.trace.columns()[j].len()
                ==> (#[trigger] witness.trace.columns()[j][x])@ < P,
    ensures
        range_sum(
            |x: int|
                field_inverse(evaluations_of(helper.phi_functions@)[0][x]@, P as nat) as int
                    * witness.multiplicity.evaluations@[x]@ as int,
            pow2(witness.num_vars as nat) as int,
        ) % (P as int) == range_sum(
            |v: int| count_in_columns(witness.trace.columns(), v as nat) as int * shifted_inverse(v, randomness),
            witness.trace.range as int,
        ) % (P as int),
{
    let phi = evaluations_of(helper.phi_functions@);
    let m = witness.multiplicity.evaluations@;
    let t = witness.table.evaluations@;
    let n = pow2(witness.num_vars as nat) as int;
    let range = witness.trace.range as int;
    let cols = witness.trace.columns();
    let p = P as int;
    let pad = n - range;
    let gg = |x: int| field_inverse(phi[0][x]@, P as nat) as int;
    let h = |x: int| gg(x) * m[x]@ as int;
    let g = |v: int| shifted_inverse(v, randomness);
    let k = |v: int| count_in_columns(cols, v as nat) as int * g(v);
    // the inverses of the shifted table entries
    assert forall|x: int| 0 <= x < range implies #[trigger] gg(x) == g(x) by {
        assert(phi[0][x] == helper.phi_functions@[0].evaluations@[x]);
        assert(helper.phi_functions@[0].evaluations@[x]@ == (t[x]@ + randomness@) % (P as nat));
        assert(t[x]@ == x % p);
        lemma_add_mod_noop_right(randomness@ as int, x, p);
    }
    assert forall|x: int| range <= x < n implies #[trigger] gg(x) == g(0) by {
        assert(phi[0][x] == helper.phi_functions@[0].evaluations@[x]);
        assert(helper.phi_functions@[0].evaluations@[x]@ == (t[x]@ + randomness@) % (P as nat));
        assert(t[x]@ == 0);
    }
    // away from zero, or without padding, a weight is a count
    assert forall|x: int| 0 <= x < range && (pad == 0 || x > 0) implies #[trigger] h(x) % p == k(x) % p by {
        assert(m[x]@ == base_multiplicity(cols, x as nat));
        lemma_weight_at(cols, g(x), m[x]@, x);
    }
    if pad == 0 {
        lemma_range_sum_mod(h, k, n, p);
    } else {
        let g0 = g(0);
        let m0 = m[0]@ as int;
        let c = g0 * m0;
        let f = ((pad + 1) as nat) % (P as nat);
        // the padding entries all weigh g0 * m0
        lemma_range_sum_split(h, range, pad);
        let tail = |i: int| h(range + i);
        let each = |i: int| c;
        assert forall|i: int| 0 <= i < pad implies #[trigger] tail(i) == each(i) by {
            assert(m[range + i] == m[0]);
        }
        lemma_range_sum_congruent(tail, each, pad);
        lemma_range_sum_const(c, pad);
        assert((|i: int| h(range + i)) =~= tail);
        assert((|i: int| c) =~= each);
        assert((m0 * f) % p == (if range > 0 {
            base_multiplicity(cols, 0)
        } else {
            0
        }));
        if range == 0 {
            // the spread multiplicity of zero vanishes
            lemma_mul_mod_noop_left(m0, f as int, p);
            lemma_mod_bound(m0, p);
            lemma_small_mod(0, P as nat);
            lemma_cancel_invertible((m0 % p) as nat, 0, f, P as nat);
            assert(c * pad == m0 * (g0 * pad)) by (nonlinear_arith)
                requires
                    c == g0 * m0,
            ;
            lemma_mul_mod_noop_left(m0, g0 * pad, p);
        } else {
            lemma_range_sum_split(h, 1, range - 1);
            lemma_range_sum_split(k, 1, range - 1);
            let hs = |i: int| h(1 + i);
            let ks = |i: int| k(1 + i);
            assert forall|i: int| 0 <= i < range - 1 implies #[trigger] hs(i) % p == ks(i) % p by {
                assert(h(1 + i) % p == k(1 + i) % p);
            }
            lemma_range_sum_mod(hs, ks, range - 1, p);
            assert((|i: int| h(1 + i)) =~= hs);
            assert((|i: int| k(1 + i)) =~= ks);
            assert(range_sum(h, 0) == 0 && range_sum(k, 0) == 0);
            assert(range_sum(h, 1) == h(0));
            assert(range_sum(k, 1) == k(0));
            // the entry zero and the padding: g0 * m0 * (pad + 1), a multiple of the count
            assert(h(0) == c);
            let cnt0 = count_in_columns(cols, 0) as int;
            let a = c + c * pad;
            assert(a == g0 * (m0 * (pad + 1))) by (nonlinear_arith)
                requires
                    c == g0 * m0,
                    a == c + c * pad,
            ;
            lemma_mul_mod_noop_right(m0, pad + 1, p);
            lemma_mul_mod_noop_right(g0, m0 * (pad + 1), p);
            lemma_mul_mod_noop_right(g0, cnt0, p);
            vstd::arithmetic::mul::lemma_mul_is_commutative(g0, cnt0);
            assert(a % p == k(0) % p);
            let b = range_sum(hs, range - 1);
            let b2 = range_sum(ks, range - 1);
            lemma_add_mod_noop(a, b, p);
            lemma_add_mod_noop(k(0), b2, p);
            assert(range_sum(h, n) == a + b);
        }
    }
    assert((|x: int| field_inverse(phi[0][x]@, P as nat) as int * m[x]@ as int) =~= h);
    assert((|v: int| count_in_columns(cols, v as nat) as int * shifted_inverse(v, randomness)) =~= k);
}

/// The LogUp balance of a range check: when every input lies in `[0, range)`, the helper
/// columns add up, over the whole hypercube and for any challenge `r`, to zero. The
/// terms `1 / (f(x) + r)` of the inputs cancel the terms `-m(x) / (t(x) + r)` of the table.
pub proof fn lemma_range_check_balance<const P: u64>(
    witness: LookupWitness<P>,
    helper: LookupWitnessHelper<P>,
    randomness: Fp<P>,
)
    requires
        P > 1,
        witness.wf(),
        witness.is_range_witness(),
        helper.helps(witness, randomness),
        forall|j: int, x: int|
            0 <= j < witness.trace.columns().len() && 0 <= x < witness.trace.columns()[j].len() ==> {
                &&& (#[trigger] witness.trace.columns()[j][x])@ < witness.trace.range
                &&& witness.trace.columns()[j][x]@ < P
            },
    ensures
        field_sum(concat_evaluations(helper.helper_functions@)) == 0,
{
    let phi = evaluations_of(helper.phi_functions@);
    let m = witness.multiplicity.evaluations@;
    let n = pow2(witness.num_vars as nat) as int;
    let nv = witness.trace.vec_input@.len() as int;
    let cols = witness.trace.columns();
    let p = P as int;
    let hs = helper.helper_functions@;
    let bs = helper.block_size as int;
    let total = 1 + nv;
    let t = |c: int, x: int| helper_term(phi, m, c, x) as int;
    // the helper columns add up to all terms
    assert forall|b: int, x: int| 0 <= b < hs.len() && 0 <= x < n implies (#[trigger] hs[b].evaluations@[x])@
        == column_sum(t, b * bs, block_end(b, bs, total), x) % p by {
        lemma_block_sum_int(phi, m, b * bs, block_end(b, bs, total), x);
    }
    assert forall|b: int| 0 <= b < hs.len() implies (#[trigger] hs[b]).evaluations@.len() == n by {
        assert(hs[b].wf());
    }
    lemma_block_columns_total(hs, t, n, total, bs);
    let by_t = |c: int| range_sum(|x: int| t(c, x), n);
    let by_term = |c: int| range_sum(|x: int| helper_term(phi, m, c, x) as int, n);
    assert forall|c: int| #[trigger] by_t(c) == by_term(c) by {
        assert((|x: int| t(c, x)) =~= (|x: int| helper_term(phi, m, c, x) as int));
    }
    assert(by_t =~= by_term);
    assert((|c: int| range_sum(|x: int| t(c, x), n)) =~= by_t);
    let per_col = |c: int| range_sum(|x: int| helper_term(phi, m, c, x) as int, n);
    assert((|c: int| range_sum(|x: int| helper_term(phi, m, c, x) as int, n)) =~= per_col);
    lemma_range_sum_split(per_col, 1, nv);
    assert(range_sum(per_col, 0) == 0);
    assert(range_sum(per_col, 1) == per_col(0));
    lemma_input_total(witness, helper, randomness);
    assert((|i: int| per_col(1 + i)) =~= (|j: int|
        range_sum(|x: int| helper_term(phi, m, j + 1, x) as int, n)));
    lemma_table_terms(phi, m, n);
    lemma_table_weights(witness, helper, randomness);
    let a = per_col(0);
    let w = range_sum(|x: int| field_inverse(phi[0][x]@, P as nat) as int * m[x]@ as int, n);
    let c = range_sum(
        |v: int| count_in_columns(cols, v as nat) as int * shifted_inverse(v, randomness),
        witness.trace.range as int,
    );
    assert((|x: int| helper_term(phi, m, 0, x) as int) =~= (|x: int| helper_term(phi, m, 0, x) as int));
    lemma_add_mod_noop(a, w, p);
    lemma_add_mod_noop(a, c, p);
}


/// An inverse block sum in the field is the integer sum of its inverses modulo `P`.
proof fn lemma_inverse_block_sum_int<const P: u64>(phi: Seq<Seq<Fp<P>>>, lo: int, hi: int, x: int)
    requires
        P > 1,
    ensures
        inverse_block_sum(phi, lo, hi, x) == column_sum(
            |c: int, y: int| field_inverse(phi[c][y]@, P as nat) as int,
            lo,
            hi,
            x,
        ) % (P as int),
    decreases hi - lo,
{
    let t = |c: int, y: int| field_inverse(phi[c][y]@, P as nat) as int;
    if hi > lo {
        lemma_inverse_block_sum_int(phi, lo, hi - 1, x);
        lemma_add_mod_noop_right(t(hi - 1, x), column_sum(t, lo, hi - 1, x), P as int);
    } else {
        lemma_small_mod(0, P as nat);
    }
}

/// The table-side sum in the field is the integer sum of its terms modulo `P`.
proof fn lemma_table_sum_int<const P: u64>(table: Seq<Fp<P>>, m: Seq<Fp<P>>, r: nat, k: int)
    requires
        P > 1,
        k >= 0,
    ensures
        table_sum(table, m, r, k) == range_sum(
            |y: int| (field_inverse((table[y]@ + r) % (P as nat), P as nat) * m[y]@) as int,
            k,
        ) % (P as int),
    decreases k,
{
    let f = |y: int| (field_inverse((table[y]@ + r) % (P as nat), P as nat) * m[y]@) as int;
    if k > 0 {
        lemma_table_sum_int(table, m, r, k - 1);
        let s = range_sum(f, k - 1);
        assert(range_sum(f, k) == s + f(k - 1));
        lemma_add_mod_noop(s, f(k - 1), P as int);
        lemma_mod_twice(s, P as int);
        lemma_mod_twice(f(k - 1), P as int);
    } else {
        lemma_small_mod(0, P as nat);
    }
    assert((|y: int| (field_inverse((table[y]@ + r) % (P as nat), P as nat) * m[y]@) as int) =~= f);
}

/// The LogUp balance of a range check against a small table: when every input lies in
/// `[0, range)`, the helper columns add up, over the whole hypercube and for any
/// challenge `r`, to the table-side sum `sum m(y) / (t(y) + r)` over the whole table.
pub proof fn lemma_small_table_balance<const P: u64>(
    trace: SmallTraceMLE<P>,
    witness: LookupWitnessPure<P>,
    helper: SmallWitnessHelper<P>,
    randomness: Fp<P>,
)
    requires
        P > 1,
        trace.wf(),
        witness.is_range_witness(trace),
        helper.helps(trace, witness, randomness),
        forall|j: int, x: int|
            0 <= j < trace.columns().len() && 0 <= x < trace.columns()[j].len() ==> {
                &&& (#[trigger] trace.columns()[j][x])@ < trace.range
                &&& trace.columns()[j][x]@ < P
            },
    ensures
        field_sum(concat_evaluations(helper.helper_functions@)) == helper.sum@,
{
    let phi = evaluations_of(helper.phi_functions@);
    let n = pow2(trace.num_vars as nat) as int;
    let nv = trace.vec_input@.len() as int;
    let cols = trace.columns();
    let range = trace.range as int;
    let p = P as int;
    let hs = helper.helper_functions@;
    let bs = helper.block_size as int;
    let t = |c: int, x: int| field_inverse(phi[c][x]@, P as nat) as int;
    let g = |v: int| shifted_inverse(v, randomness);
    // the helper columns add up to all inverses of the shifted inputs
    assert forall|b: int, x: int| 0 <= b < hs.len() && 0 <= x < n implies (#[trigger] hs[b].evaluations@[x])@
        == column_sum(t, b * bs, block_end(b, bs, nv), x) % p by {
        lemma_inverse_block_sum_int(phi, b * bs, block_end(b, bs, nv), x);
    }
    assert forall|b: int| 0 <= b < hs.len() implies (#[trigger] hs[b]).evaluations@.len() == n by {
        assert(hs[b].wf());
    }
    lemma_block_columns_total(hs, t, n, nv, bs);
    // grouped by value
    lemma_group_columns(cols, g, range);
    let lhs = |j: int| range_sum(|x: int| t(j, x), n);
    let grouped = |j: int| range_sum(|x: int| g(cols[j][x]@ as int), cols[j].len() as int);
    assert forall|j: int| 0 <= j < nv implies #[trigger] lhs(j) == grouped(j) by {
        let a = |x: int| t(j, x);
        let b = |x: int| g(cols[j][x]@ as int);
        assert(trace.vec_input@[j].wf());
        assert forall|x: int| 0 <= x < n implies #[trigger] a(x) == b(x) by {
            assert(helper.phi_functions@[j].evaluations@[x]@ == (trace.vec_input@[j].evaluations@[x]@
                + randomness@) % (P as nat));
        }
        lemma_range_sum_congruent(a, b, n);
        assert((|x: int| t(j, x)) =~= a);
        assert((|x: int| g(cols[j][x]@ as int)) =~= b);
    }
    lemma_range_sum_congruent(lhs, grouped, nv);
    assert((|c: int| range_sum(|x: int| t(c, x), n)) =~= lhs);
    assert((|j: int| range_sum(|x: int| g(cols[j][x]@ as int), cols[j].len() as int)) =~= grouped);
    let k = |v: int| count_in_columns(cols, v as nat) as int * g(v);
    assert((|v: int| count_in_columns(cols, v as nat) as int * g(v)) =~= k);
    // the table side: every term is a count weighted by the same inverse
    let table = witness.table@;
    let m = witness.multiplicity@;
    assert(min2(table.len() as int, m.len() as int) == range);
    lemma_table_sum_int(table, m, randomness@, range);
    let w = |y: int| (field_inverse((table[y]@ + randomness@) % (P as nat), P as nat) * m[y]@) as int;
    assert forall|y: int| 0 <= y < range implies #[trigger] w(y) % p == k(y) % p by {
        assert(table[y]@ == y % p);
        lemma_add_mod_noop_right(randomness@ as int, y, p);
        assert(m[y]@ == base_multiplicity(cols, y as nat));
        lemma_weight_at(cols, g(y), m[y]@, y);
    }
    lemma_range_sum_mod(w, k, range, p);
    assert((|y: int| (field_inverse((table[y]@ + randomness@) % (P as nat), P as nat) * m[y]@) as int) =~= w);
}

} // verus!
