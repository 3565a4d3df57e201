//! Lookup-friendly traces for comparing field elements with a constant.
//!
//! A value `x` is split into radix-`2^bits` limbs `x_i`, and each limb is compared with
//! the matching limb `g_i` of the constant through a table of size `2^bits` that holds
//! three codewords: `2^(k + i)` where `x_i < g_i`, `2^i` where `x_i == g_i`, and `0` where
//! `x_i > g_i` (`k` is the number of limbs).
use crate::basis::{decompose_all, digit, lemma_shift_step, lemma_shift_zero, limb_count, mask};
use lt_trace::{lt_bound, lt_limb};
use vstd::arithmetic::div_mod::*;
use crate::field::Fp;
use crate::mle::DenseMultilinearExtension;
use std::rc::Rc;
use vstd::bits::*;
use vstd::arithmetic::power2::*;
use vstd::prelude::*;

pub mod eq_trace;
pub mod lt_general_trace;
pub mod lt_trace;
pub mod table_trace;

verus! {

/// `table` has `size` entries: `lt` below the pivot `g`, `eq` at the pivot, `0` above it.
pub open spec fn is_comparison_table<const P: u64>(
    table: Seq<Fp<P>>,
    size: nat,
    g: nat,
    lt: nat,
    eq: nat,
) -> bool {
    &&& table.len() == size
    &&& forall|v: int|
        0 <= v < size ==> #[trigger] table[v]@ == (if v < g {
            lt
        } else if v == g {
            eq
        } else {
            0
        })
}

/// Builds the comparison table of size `2^num_table_vars` around the pivot `pivot`.
pub(crate) fn build_comparison_table<const P: u64>(
    num_table_vars: usize,
    pivot: usize,
    lt: Fp<P>,
    eq: Fp<P>,
) -> (table: Vec<Fp<P>>)
    requires
        P > 1,
        num_table_vars < usize::BITS,
        pivot < pow2(num_table_vars as nat),
    ensures
        is_comparison_table(table@, pow2(num_table_vars as nat), pivot as nat, lt@, eq@),
{
    let size = crate::basis::pow2_usize(num_table_vars);
    let zero = Fp::<P>::zero();
    let mut table: Vec<Fp<P>> = Vec::with_capacity(size);
    let mut v: usize = 0;
    while v < size
        invariant
            v <= size,
            size == pow2(num_table_vars as nat),
            zero@ == 0,
            table@.len() == v,
            forall|u: int|
                0 <= u < v ==> #[trigger] table@[u]@ == (if u < pivot {
                    lt@
                } else if u == pivot {
                    eq@
                } else {
                    0
                }),
        decreases size - v,
    {
        if v < pivot {
            table.push(lt);
        } else if v == pivot {
            table.push(eq);
        } else {
            table.push(zero);
        }
        v = v + 1;
    }
    table
}


/// What the less-than tables compare with: the constant, or `P` itself when none is given.
pub open spec fn lt_target<const P: u64>(lt_constant: Option<Fp<P>>) -> nat {
    match lt_constant {
        Some(c) => c@,
        None => P as nat,
    }
}

/// Limb `j` of `x` lies below `limbs[j]` and every higher limb of `x` equals its entry.
pub open spec fn limbs_below_at(limbs: Seq<nat>, bits: nat, x: nat, j: int) -> bool {
    &&& digit(x, bits, j as nat) < limbs[j]
    &&& forall|k: int| j < k < limbs.len() ==> digit(x, bits, k as nat) == #[trigger] limbs[k]
}

/// Reading the limbs of `x` from the most significant one, the first limb that differs from
/// its entry of `limbs` is below it: `x` is below the value whose limbs are `limbs`.
pub open spec fn limbs_below(limbs: Seq<nat>, bits: nat, x: nat) -> bool {
    exists|j: int| 0 <= j < limbs.len() && #[trigger] limbs_below_at(limbs, bits, x, j)
}

/// The comparison of the first `n` limbs of `x` and of `b`, most significant first,
/// decided at limb `j`.
spec fn prefix_below_at(x: nat, b: nat, bits: nat, n: int, j: int) -> bool {
    &&& digit(x, bits, j as nat) < digit(b, bits, j as nat)
    &&& forall|k: int| j < k < n ==> #[trigger] digit(x, bits, k as nat) == digit(b, bits, k as nat)
}

spec fn prefix_below(x: nat, b: nat, bits: nat, n: int) -> bool {
    exists|j: int| 0 <= j < n && #[trigger] prefix_below_at(x, b, bits, n, j)
}

proof fn lemma_two_limb_compare(dx: nat, rx: nat, db: nat, rb: nat, m: nat)
    requires
        rx < m,
        rb < m,
    ensures
        (m * dx + rx < m * db + rb) <==> (dx < db || (dx == db && rx < rb)),
{
    if dx < db {
        assert(m * dx + m <= m * db) by (nonlinear_arith)
            requires
                dx < db,
        ;
    } else if dx > db {
        assert(m * db + m <= m * dx) by (nonlinear_arith)
            requires
                db < dx,
        ;
    }
}

/// The residue of `x` below `n + 1` limbs is limb `n` on top of the residue below `n` limbs.
proof fn lemma_residue_step(x: nat, bits: nat, n: nat)
    ensures
        pow2(bits * n) > 0,
        x % pow2(bits * (n + 1)) == pow2(bits * n) * digit(x, bits, n) + x % pow2(bits * n),
{
    lemma_pow2_pos(bits * n);
    lemma_pow2_pos(bits);
    lemma_mod_breakdown(x as int, pow2(bits * n) as int, pow2(bits) as int);
    lemma_pow2_adds(bits * n, bits);
    assert(bits * n + bits == bits * (n + 1)) by (nonlinear_arith);
}

proof fn lemma_prefix_below(x: nat, b: nat, bits: nat, n: nat)
    ensures
        prefix_below(x, b, bits, n as int) <==> x % pow2(bits * n) < b % pow2(bits * n),
    decreases n,
{
    if n == 0 {
        assert(bits * 0 == 0);
        lemma2_to64();
        assert(!prefix_below(x, b, bits, 0));
    } else {
        let m = (n - 1) as nat;
        lemma_prefix_below(x, b, bits, m);
        lemma_residue_step(x, bits, m);
        lemma_residue_step(b, bits, m);
        let big = pow2(bits * m);
        lemma_mod_pos_bound(x as int, big as int);
        lemma_mod_pos_bound(b as int, big as int);
        lemma_two_limb_compare(digit(x, bits, m), x % big, digit(b, bits, m), b % big, big);
        let dx = digit(x, bits, m);
        let db = digit(b, bits, m);
        if prefix_below(x, b, bits, n as int) {
            let j = choose|j: int| 0 <= j < n && #[trigger] prefix_below_at(x, b, bits, n as int, j);
            if j < m {
                assert(digit(x, bits, m) == digit(b, bits, m));
                assert(prefix_below_at(x, b, bits, m as int, j));
            }
        }
        if dx < db {
            assert(prefix_below_at(x, b, bits, n as int, m as int));
        } else if dx == db && prefix_below(x, b, bits, m as int) {
            let j = choose|j: int| 0 <= j < m && #[trigger] prefix_below_at(x, b, bits, m as int, j);
            assert forall|k: int| j < k < n implies #[trigger] digit(x, bits, k as nat) == digit(b, bits, k as nat) by {
                if k < m {
                    assert(prefix_below_at(x, b, bits, m as int, j));
                }
            }
            assert(prefix_below_at(x, b, bits, n as int, j));
        }
    }
}

/// Comparing limb by limb, most significant first, decides `x < b` when `limbs` are the
/// limbs of `b` and both `x` and `b` fit in that many limbs.
pub proof fn lemma_limbs_below_decides(limbs: Seq<nat>, bits: nat, x: nat, b: nat)
    requires
        forall|j: int| 0 <= j < limbs.len() ==> #[trigger] limbs[j] == digit(b, bits, j as nat),
        x < pow2(bits * limbs.len()),
        b < pow2(bits * limbs.len()),
    ensures
        limbs_below(limbs, bits, x) <==> x < b,
{
    let n = limbs.len();
    lemma_prefix_below(x, b, bits, n);
    lemma_small_mod(x, pow2(bits * n));
    lemma_small_mod(b, pow2(bits * n));
    if limbs_below(limbs, bits, x) {
        let j = choose|j: int| 0 <= j < n && #[trigger] limbs_below_at(limbs, bits, x, j);
        assert forall|k: int| j < k < n implies #[trigger] digit(x, bits, k as nat) == digit(b, bits, k as nat) by {
            assert(limbs[k] == digit(b, bits, k as nat));
        }
        assert(prefix_below_at(x, b, bits, n as int, j));
    }
    if prefix_below(x, b, bits, n as int) {
        let j = choose|j: int| 0 <= j < n && #[trigger] prefix_below_at(x, b, bits, n as int, j);
        assert(limbs[j] == digit(b, bits, j as nat));
        assert forall|k: int| j < k < n implies digit(x, bits, k as nat) == #[trigger] limbs[k] by {
            assert(limbs[k] == digit(b, bits, k as nat));
        }
        assert(limbs_below_at(limbs, bits, x, j));
    }
}

/// `x / d == 0` puts `x` below `d`.
proof fn lemma_zero_quotient(x: nat, d: nat)
    requires
        d > 0,
        x / d == 0,
    ensures
        x < d,
{
    lemma_fundamental_div_mod(x as int, d as int);
    lemma_mod_pos_bound(x as int, d as int);
}

/// Dividing by `2^(bits * (j + 1))` is dividing by `2^bits` and then by `2^(bits * j)`.
proof fn lemma_div_limbs(x: nat, bits: nat, j: nat)
    ensures
        x / pow2(bits * (j + 1)) == (x / pow2(bits)) / pow2(bits * j),
{
    lemma_pow2_pos(bits);
    lemma_pow2_pos(bits * j);
    lemma_div_denominator(x as int, pow2(bits) as int, pow2(bits * j) as int);
    lemma_pow2_adds(bits, bits * j);
    assert(bits + bits * j == bits * (j + 1)) by (nonlinear_arith);
}

/// `c` fits in `limb_count(c, bits)` limbs.
pub proof fn lemma_limb_count_covers(c: nat, bits: nat)
    requires
        bits > 0,
    ensures
        c < pow2(bits * limb_count(c, bits)),
    decreases c,
{
    let l = limb_count(c, bits);
    lemma_pow2_pos(bits * l);
    if c == 0 {
    } else {
        lemma_pow2_strictly_increases(0, bits);
        lemma2_to64();
        lemma_div_decreases(c as int, pow2(bits) as int);
        let c1 = c / pow2(bits);
        lemma_limb_count_covers(c1, bits);
        let l1 = limb_count(c1, bits);
        lemma_pow2_pos(bits * l1);
        lemma_basic_div(c1 as int, pow2(bits * l1) as int);
        lemma_div_limbs(c, bits, l1);
        lemma_zero_quotient(c, pow2(bits * l));
    }
}

/// When the lowest limb of `P - 1` can be raised by one without reaching `2^bits`, the
/// limbs of `P` are those of `P - 1` with the lowest one raised by one; whatever fits
/// `P - 1` in `n >= 1` limbs fits `P` too.
pub(crate) proof fn lemma_limbs_of_prime<const P: u64>(bits: nat, j: nat, n: nat)
    requires
        P > 1,
        digit((P - 1) as nat, bits, 0) + 1 < pow2(bits),
        n >= 1,
        ((P - 1) as nat) < pow2(bits * n),
    ensures
        j == 0 ==> digit(P as nat, bits, j) == digit((P - 1) as nat, bits, j) + 1,
        j > 0 ==> digit(P as nat, bits, j) == digit((P - 1) as nat, bits, j),
        (P as nat) < pow2(bits * n),
{
    let a = (P - 1) as nat;
    let d = pow2(bits);
    lemma_pow2_pos(bits);
    lemma_shift_zero(a, bits);
    lemma_shift_zero(P as nat, bits);
    lemma_fundamental_div_mod(a as int, d as int);
    let q = a / d;
    let r = a % d;
    lemma_fundamental_div_mod_converse(P as int, d as int, q as int, (r + 1) as int);
    assert((P as nat) / d == q && (P as nat) % d == r + 1);
    if j > 0 {
        lemma_div_limbs(a, bits, (j - 1) as nat);
        lemma_div_limbs(P as nat, bits, (j - 1) as nat);
    }
    lemma_div_limbs(a, bits, (n - 1) as nat);
    lemma_div_limbs(P as nat, bits, (n - 1) as nat);
    lemma_pow2_pos(bits * n);
    lemma_basic_div(a as int, pow2(bits * n) as int);
    lemma_zero_quotient(P as nat, pow2(bits * n));
}

/// Splits every entry of `xs` into `tables.len()` limbs of `basis_bits` bits and looks
/// limb `j` up in table `j`. Returns the limb columns and the looked-up columns.
pub(crate) fn decompose_and_lookup<const P: u64>(
    xs_vec: &Vec<Fp<P>>,
    num_vars: usize,
    tables: &Vec<Rc<DenseMultilinearExtension<P>>>,
    basis_bits: u32,
) -> (r: (Vec<Rc<DenseMultilinearExtension<P>>>, Vec<Rc<DenseMultilinearExtension<P>>>))
    requires
        0 < basis_bits < 64,
        xs_vec@.len() == pow2(num_vars as nat),
        forall|j: int|
            0 <= j < tables@.len() ==> {
                &&& (#[trigger] tables@[j]).wf()
                &&& tables@[j].num_vars == basis_bits
            },
    ensures
        r.0@.len() == tables@.len(),
        r.1@.len() == tables@.len(),
        forall|j: int|
            0 <= j < tables@.len() ==> {
                &&& (#[trigger] r.0@[j]).wf()
                &&& r.0@[j].num_vars == num_vars
                &&& r.1@[j].wf()
                &&& r.1@[j].num_vars == num_vars
            },
        forall|j: int, i: int|
            0 <= j < tables@.len() && 0 <= i < xs_vec@.len() ==> {
                &&& (#[trigger] r.0@[j].evaluations@[i])@ == digit(xs_vec@[i]@, basis_bits as nat, j as nat)
                &&& r.1@[j].evaluations@[i] == tables@[j].evaluations@[r.0@[j].evaluations@[i]@ as int]
            },
{
    let num_bits = tables.len();
    let ghost xs = xs_vec@;
    let n = xs_vec.len();
    let m = mask(basis_bits);
    let mut rest = xs_vec.clone();
    let mut bits: Vec<Rc<DenseMultilinearExtension<P>>> = Vec::with_capacity(num_bits);
    let mut bit_lt: Vec<Rc<DenseMultilinearExtension<P>>> = Vec::with_capacity(num_bits);
    proof {
        assert forall|i: int| 0 <= i < n implies (#[trigger] rest@[i])@ == xs[i]@ / pow2(
            basis_bits as nat * 0nat,
        ) by {
            lemma_shift_zero(xs[i]@, basis_bits as nat);
        }
    }
    let mut j: usize = 0;
    while j < num_bits
        invariant
            0 < basis_bits < 64,
            xs == xs_vec@,
            n == xs.len(),
            n == pow2(num_vars as nat),
            num_bits == tables@.len(),
            forall|t: int|
                0 <= t < tables@.len() ==> {
                    &&& (#[trigger] tables@[t]).wf()
                    &&& tables@[t].num_vars == basis_bits
                },
            m == low_bits_mask(basis_bits as nat),
            j <= num_bits,
            rest@.len() == n,
            forall|i: int| 0 <= i < n ==> (#[trigger] rest@[i])@ == xs[i]@ / pow2(basis_bits as nat * j as nat),
            bits@.len() == j,
            bit_lt@.len() == j,
            forall|t: int|
                0 <= t < j ==> {
                    &&& (#[trigger] bits@[t]).wf()
                    &&& bits@[t].num_vars == num_vars
                    &&& bit_lt@[t].wf()
                    &&& bit_lt@[t].num_vars == num_vars
                },
            forall|t: int, i: int|
                0 <= t < j && 0 <= i < n ==> {
                    &&& (#[trigger] bits@[t].evaluations@[i])@ == digit(xs[i]@, basis_bits as nat, t as nat)
                    &&& bit_lt@[t].evaluations@[i] == tables@[t].evaluations@[
                        bits@[t].evaluations@[i]@ as int]
                },
        decreases num_bits - j,
    {
        let ghost before = rest@;
        let col = decompose_all(&mut rest, m, basis_bits);
        proof {
            assert forall|i: int| #![trigger col@[i]] #![trigger rest@[i]] 0 <= i < n implies {
                &&& col@[i]@ == digit(xs[i]@, basis_bits as nat, j as nat)
                &&& rest@[i]@ == xs[i]@ / pow2(basis_bits as nat * (j + 1) as nat)
            } by {
                lemma_shift_step(xs[i]@, basis_bits as nat, j as nat);
                assert(before[i]@ == xs[i]@ / pow2(basis_bits as nat * j as nat));
                assert(col@[i]@ == before[i]@ % pow2(basis_bits as nat));
                assert(rest@[i]@ == before[i]@ / pow2(basis_bits as nat));
            }
            assert(tables@[j as int].wf());
        }
        let looked_up = lookup_values(&tables[j].evaluations, &col);
        bits.push(Rc::new(DenseMultilinearExtension::from_evaluations_vec(num_vars, col)));
        bit_lt.push(Rc::new(DenseMultilinearExtension::from_evaluations_vec(num_vars, looked_up)));
        j = j + 1;
    }
    (bits, bit_lt)
}

/// `table[index[k]]` for every `k`.
pub(crate) fn lookup_values<const P: u64>(table: &Vec<Fp<P>>, index: &Vec<Fp<P>>) -> (r: Vec<Fp<P>>)
    requires
        forall|k: int| 0 <= k < index@.len() ==> (#[trigger] index@[k])@ < table@.len(),
    ensures
        r@.len() == index@.len(),
        forall|k: int| 0 <= k < index@.len() ==> #[trigger] r@[k] == table@[index@[k]@ as int],
{
    let mut r: Vec<Fp<P>> = Vec::with_capacity(index.len());
    let tl = table.len();
    let mut k: usize = 0;
    while k < index.len()
        invariant
            tl == table@.len(),
            k <= index@.len(),
            forall|j: int| 0 <= j < index@.len() ==> (#[trigger] index@[j])@ < table@.len(),
            r@.len() == k,
            forall|j: int| 0 <= j < k ==> #[trigger] r@[j] == table@[index@[j]@ as int],
        decreases index@.len() - k,
    {
        let v = index[k].value();
        proof {
            assert(index@[k as int]@ < table@.len());
        }
        let idx = v as usize;
        r.push(table[idx]);
        k = k + 1;
    }
    r
}


/// The limbs of the constant compared against (`P - 1` when `lt_constant` is `None`, with
/// its lowest limb raised by one), up to its highest nonzero limb. Also returns what is
/// left of the constant once every limb is split off, which is zero.
pub(crate) fn lt_limb_constants<const P: u64>(mask: u64, bits: u32, lt_constant: Option<Fp<P>>) -> (r: (
    Vec<Fp<P>>,
    Fp<P>,
))
    requires
        P > 1,
        0 < bits < 64,
        mask == low_bits_mask(bits as nat),
    ensures
        r.0@.len() == limb_count(lt_bound(lt_constant), bits as nat),
        r.1@ == 0,
        forall|i: int| 0 <= i < r.0@.len() ==> (#[trigger] r.0@[i])@ == lt_limb(lt_constant, bits as nat, i as nat),
{
    let mut decomposed_constant = match lt_constant {
        Some(c) => c,
        None => Fp::<P>::one().neg(),
    };
    let ghost c = lt_bound(lt_constant);
    let start = decomposed_constant.value();
    proof {
        if lt_constant is None {
            lemma_mod_add_multiples_vanish(-1, P as int);
            lemma_small_mod((P - 1) as nat, P as nat);
        }
        assert(start == c);
        lemma_pow2_pos(bits as nat);
        lemma_shift_zero(c, bits as nat);
        crate::basis::lemma_limb_count_bound(c, bits as nat);
    }
    let mut gadgets: Vec<Fp<P>> = Vec::new();
    let mut count: usize = 0;
    while !decomposed_constant.is_zero()
        invariant
            P > 1,
            0 < bits < 64,
            mask == low_bits_mask(bits as nat),
            c == lt_bound(lt_constant),
            decomposed_constant@ == c / pow2(bits as nat * count as nat),
            limb_count(c, bits as nat) == count + limb_count(decomposed_constant@, bits as nat),
            gadgets@.len() == count,
            limb_count(c, bits as nat) <= 64,
            forall|i: int| 0 <= i < count ==> (#[trigger] gadgets@[i])@ == digit(c, bits as nat, i as nat),
        decreases decomposed_constant@,
    {
        let ghost before = decomposed_constant@;
        let g = decomposed_constant.decompose_lsb_bits(mask, bits);
        proof {
            lemma_shift_step(c, bits as nat, count as nat);
            lemma_pow2_strictly_increases(0, bits as nat);
            lemma2_to64();
            lemma_div_decreases(before as int, pow2(bits as nat) as int);
        }
        gadgets.push(g);
        count = count + 1;
    }
    if lt_constant.is_none() && count > 0 {
        let g0 = gadgets[0].add(Fp::<P>::one());
        gadgets.set(0, g0);
    }
    proof {
        if lt_constant is None {
            assert(c > 0);
            assert(count > 0);
        }
    }
    (gadgets, decomposed_constant)
}

} // verus!
