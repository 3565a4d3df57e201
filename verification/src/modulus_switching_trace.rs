//! Trace of switching the modulus from the field modulus `Q = P` down to `q`, where
//! `2q` divides `Q - 1`.
//!
//! With `k = (Q - 1) / 2q`, an input `a` is switched to `b = round(a * q / Q)` in `Z_q`.
//! The trace also holds the witness `b'` in `[1, q]` with `b' = b mod q`, and the helper
//! `e = a - (2b' - 1) * k - 1`, which lies in `[0, 2k]`:
//! - an indexed lookup into the table `[q, 1, ..., q - 1]` ties `b'` to `b`;
//! - comparison traces check `e < 2k + 1`, `a == k` and `e == 2k`.
use crate::basic_ops::row_perm_trace::lemma_pow2_fits_usize;
use crate::basis::{digit, lemma_bit_len_u64, Basis};
use crate::comparison::eq_trace::{EQTables, EQTablesMLE, EQTraceMLE};
use crate::comparison::lt_trace::{LTTables, LTTablesMLE, LTTraceMLE};
use crate::field::{invertible, lemma_cancel_invertible, Fp};
use crate::lookup_trace::indexed_table::IndexedLookupTraceMLE;
use crate::mle::DenseMultilinearExtension;
use std::rc::Rc;
use vstd::arithmetic::div_mod::*;
use vstd::arithmetic::power2::*;
use vstd::prelude::*;

verus! {

/// The helper `e = a - (2b' - 1) * k - 1` of a row, reduced modulo `p`.
pub open spec fn helper_value(a: nat, b_wit: nat, k: nat, p: nat) -> nat {
    ((a - (2 * b_wit - 1) * k - 1) % (p as int)) as nat
}

/// The witness `b'` of an output `b`: `q` in place of zero, `b` otherwise.
pub open spec fn output_witness_value(b: nat, q: nat) -> nat {
    if b == 0 {
        q
    } else {
        b
    }
}

/// If `u` is invertible modulo `p`, so is each factor of it.
proof fn lemma_invertible_factor(x: nat, c: nat, p: nat)
    requires
        p > 1,
        invertible((c * x) % p, p),
    ensures
        invertible(x, p),
{
    let y = choose|y: nat| y < p && #[trigger] ((((c * x) % p) * y) % p) == 1;
    let pi = p as int;
    let w = ((c * y) % p) as nat;
    lemma_mul_mod_noop_left((c * x) as int, y as int, pi);
    lemma_mul_mod_noop_right(x as int, (c * y) as int, pi);
    vstd::arithmetic::mul::lemma_mul_is_associative(c as int, x as int, y as int);
    vstd::arithmetic::mul::lemma_mul_is_associative(x as int, c as int, y as int);
    vstd::arithmetic::mul::lemma_mul_is_commutative(c as int, x as int);
    lemma_mod_bound((c * y) as int, pi);
    assert(w < p && ((x * w) % p) == 1);
}

/// The quotient that field division computes is the integer quotient when the
/// divisor divides `p - 1`.
proof fn lemma_exact_quotient(r: nat, d: nat, p: nat)
    requires
        p > 1,
        r < p,
        d > 0,
        invertible(d % p, p),
        (r * (d % p)) % p == (p - 1) as nat,
        ((p - 1) as nat) % d == 0,
    ensures
        r == ((p - 1) as nat) / d,
{
    let n = (p - 1) as nat;
    let m = n / d;
    lemma_fundamental_div_mod(n as int, d as int);
    assert(n == d * m);
    assert(d <= n) by (nonlinear_arith)
        requires
            n == d * m,
            n > 0,
            d > 0,
    ;
    lemma_small_mod(d, p);
    assert(m <= n) by (nonlinear_arith)
        requires
            n == d * m,
            d > 0,
    ;
    vstd::arithmetic::mul::lemma_mul_is_commutative(d as int, m as int);
    lemma_small_mod(n, p);
    assert((m * d) % p == (r * d) % p);
    lemma_cancel_invertible(r, m, d, p);
}

/// The field operations of the trace compute the helper of a row.
proof fn lemma_helper_steps(a: nat, b: nat, k: nat, p: nat)
    requires
        p > 1,
        a < p,
    ensures
        ({
            let pi = p as int;
            let two_b_minus_one = (((b + b) % p) as int - 1) % pi;
            let scaled = (two_b_minus_one * k) % pi;
            let shifted = (a as int - scaled) % pi;
            (shifted - 1) % pi
        }) == helper_value(a, b, k, p),
{
    let pi = p as int;
    lemma_small_mod(1, p);
    lemma_sub_mod_noop((b + b) as int, 1, pi);
    let t = (((b + b) % p) as int - 1) % pi;
    assert(t == (2 * b - 1) % pi);
    lemma_mul_mod_noop_left(2 * b - 1, k as int, pi);
    let s = (t * k) % pi;
    assert(s == ((2 * b - 1) * k) % pi);
    lemma_small_mod(a, p);
    lemma_sub_mod_noop(a as int, (2 * b - 1) * k, pi);
    let u = (a as int - s) % pi;
    assert(u == (a - (2 * b - 1) * k) % pi);
    lemma_sub_mod_noop(a - (2 * b - 1) * k, 1, pi);
    lemma_mod_bound(a - (2 * b - 1) * k - 1, pi);
}

/// A padding row (`a = 0`, `b' = q`) has the helper `k` exactly when `2qk = -1`.
proof fn lemma_padding_helper(q: nat, k: nat, p: nat)
    requires
        p > 1,
        k < p,
        (k * ((2 * q) % p)) % p == (p - 1) as nat,
    ensures
        helper_value(0, q, k, p) == k,
{
    let pi = p as int;
    let t = (k * (2 * q)) as int;
    lemma_mul_mod_noop_right(k as int, (2 * q) as int, pi);
    lemma_fundamental_div_mod(t, pi);
    let m = t / pi;
    assert(t == pi * m + (pi - 1));
    assert(0 - (2 * q - 1) * k - 1 == pi * (-(m + 1)) + k) by (nonlinear_arith)
        requires
            t == k * (2 * q),
            t == pi * m + (pi - 1),
    ;
    lemma_mod_multiples_vanish(-(m + 1), k as int, pi);
    lemma_small_mod(k, p);
}

/// Rows of a modulus-switching instance before and after padding to `2^log_num` rows.
pub struct ModulusSwitchingTrace<const P: u64> {
    pub log_num: usize,
    /// `q`, the modulus after switching, with `2q | Q - 1`
    pub modulus_after: Fp<P>,
    /// `k = (Q - 1) / 2q`
    pub blk_param: Fp<P>,
    /// `a`
    pub input: Vec<Fp<P>>,
    /// `b = round(a * q / Q)` in `Z_q`
    pub output: Vec<Fp<P>>,
    /// `b'` with `b' = b mod q` and `b'` in `[1, q]`
    pub output_witness: Vec<Fp<P>>,
    /// `e = a - (2b' - 1) * k - 1` in `[0, 2k]`
    pub helper: Vec<Fp<P>>,
    /// `2k = (Q - 1) / q`
    pub helper_upper_bound: Fp<P>,
    pub a_eq_k_tables: EQTables<P>,
    pub e_lt_2k_plus_1_tables: LTTables<P>,
    pub e_eq_2k_tables: EQTables<P>,
}

/// The basis of the comparison tables: limbs of this many bits.
pub open spec fn comparison_basis_bits() -> nat {
    10
}

impl<const P: u64> ModulusSwitchingTrace<P> {
    /// `k` and `2k` are the field quotients `-1 / 2q` and `-1 / q`.
    pub open spec fn parameters_hold(&self) -> bool {
        &&& (self.blk_param@ * ((2 * self.modulus_after@) % (P as nat))) % (P as nat) == P - 1
        &&& (self.helper_upper_bound@ * self.modulus_after@) % (P as nat) == P - 1
    }

    /// The three families of comparison tables test against `k`, `2k + 1` and `2k`.
    pub open spec fn tables_hold(&self) -> bool {
        &&& self.a_eq_k_tables.wf()
        &&& self.a_eq_k_tables.eq_constant == self.blk_param
        &&& self.a_eq_k_tables.basis_bits == comparison_basis_bits()
        &&& self.e_lt_2k_plus_1_tables.wf()
        &&& self.e_lt_2k_plus_1_tables.lt_constant matches Some(c) && c@ == (
        self.helper_upper_bound@ + 1) % (P as nat)
        &&& self.e_lt_2k_plus_1_tables.basis_bits == comparison_basis_bits()
        &&& self.e_eq_2k_tables.wf()
        &&& self.e_eq_2k_tables.eq_constant == self.helper_upper_bound
        &&& self.e_eq_2k_tables.basis_bits == comparison_basis_bits()
    }

    /// An empty trace for `2^log_num` rows switching to the modulus `q = modulus_after`:
    /// computes `k = -1 / 2q` and `2k = -1 / q` in the field, and the comparison tables
    /// over limbs of ten bits.
    pub fn new(log_num: usize, modulus_after: Fp<P>) -> (r: Self)
        requires
            P > 1,
            invertible((2 * modulus_after@) % (P as nat), P as nat),
        ensures
            r.log_num == log_num,
            r.modulus_after == modulus_after,
            r.parameters_hold(),
            ((P - 1) as nat) % (2 * modulus_after@) == 0 ==> r.blk_param@ == ((P - 1) as nat) / (2
                * modulus_after@),
            ((P - 1) as nat) % modulus_after@ == 0 ==> r.helper_upper_bound@ == ((P - 1) as nat)
                / modulus_after@,
            r.tables_hold(),
            r.input@.len() == 0,
            r.output@.len() == 0,
            r.output_witness@.len() == 0,
            r.helper@.len() == 0,
    {
        let ghost p = P as nat;
        let q = modulus_after;
        let qv = q.value();
        proof {
            lemma_invertible_factor(qv as nat, 2, p);
            lemma_small_mod(qv as nat, p);
        }
        let minus_one = Fp::<P>::one().neg();
        proof {
            lemma_mod_add_multiples_vanish(-1, P as int);
            lemma_small_mod((P - 1) as nat, p);
        }
        let two_q = q.add(q);
        let blk_size = minus_one.div(two_q);
        let helper_upper_bound = minus_one.div(q);
        proof {
            let bv = blk_size@;
            let hv = helper_upper_bound@;
            assert(qv > 0) by {
                if qv == 0 {
                    let y = choose|y: nat| y < p && #[trigger] ((qv as nat * y) % p) == 1;
                    assert(qv as nat * y == 0);
                    lemma_small_mod(0, p);
                }
            }
            if ((P - 1) as nat) % (2 * qv as nat) == 0 {
                lemma_exact_quotient(bv, 2 * qv as nat, p);
            }
            if ((P - 1) as nat) % (qv as nat) == 0 {
                lemma_exact_quotient(hv, qv as nat, p);
            }
        }
        let basis = Basis::<P>::new(10);
        proof {
            lemma_bit_len_u64(P as nat);
        }
        let a_eq_k_tables = EQTables::<P>::new(blk_size, &basis);
        let bound_plus_one = helper_upper_bound.add(Fp::one());
        let e_lt_2k_plus_1_tables = LTTables::<P>::new(&basis, Some(bound_plus_one));
        let e_eq_2k_tables = EQTables::<P>::new(helper_upper_bound, &basis);
        ModulusSwitchingTrace {
            log_num,
            modulus_after,
            blk_param: blk_size,
            input: Vec::new(),
            output: Vec::new(),
            output_witness: Vec::new(),
            helper: Vec::new(),
            helper_upper_bound,
            a_eq_k_tables,
            e_lt_2k_plus_1_tables,
            e_eq_2k_tables,
        }
    }
}

/// Appends `count` copies of `value` to `v`.
fn pad_with<const P: u64>(v: &mut Vec<Fp<P>>, value: Fp<P>, count: usize)
    requires
        old(v)@.len() + count <= usize::MAX,
    ensures
        final(v)@.len() == old(v)@.len() + count,
        forall|i: int| 0 <= i < old(v)@.len() ==> #[trigger] final(v)@[i] == old(v)@[i],
        forall|i: int| old(v)@.len() <= i < final(v)@.len() ==> #[trigger] final(v)@[i] == value,
{
    let ghost start = v@;
    let mut j: usize = 0;
    while j < count
        invariant
            j <= count,
            start.len() + count <= usize::MAX,
            v@.len() == start.len() + j,
            forall|i: int| 0 <= i < start.len() ==> #[trigger] v@[i] == start[i],
            forall|i: int| start.len() <= i < v@.len() ==> #[trigger] v@[i] == value,
        decreases count - j,
    {
        v.push(value);
        j = j + 1;
    }
}

/// Appends every element of `items` to `v`.
fn extend_from<const P: u64>(v: &mut Vec<Fp<P>>, items: &[Fp<P>])
    requires
        old(v)@.len() + items@.len() <= usize::MAX,
    ensures
        final(v)@ == old(v)@ + items@,
{
    let ghost start = v@;
    let mut j: usize = 0;
    while j < items.len()
        invariant
            j <= items@.len(),
            start.len() + items@.len() <= usize::MAX,
            v@ == start + items@.subrange(0, j as int),
        decreases items@.len() - j,
    {
        v.push(items[j]);
        j = j + 1;
        proof {
            assert(items@.subrange(0, j as int) == items@.subrange(0, j - 1) + seq![items@[j - 1]]);
        }
    }
    proof {
        assert(items@.subrange(0, items@.len() as int) == items@);
    }
}

impl<const P: u64> ModulusSwitchingTrace<P> {
    /// Appends inputs `a`.
    pub fn append_input(&mut self, input: &[Fp<P>])
        requires
            old(self).input@.len() + input@.len() <= usize::MAX,
        ensures
            final(self).input@ == old(self).input@ + input@,
            final(self).output@ == old(self).output@,
            final(self).output_witness@ == old(self).output_witness@,
            final(self).helper@ == old(self).helper@,
            final(self).log_num == old(self).log_num,
            final(self).modulus_after == old(self).modulus_after,
            final(self).blk_param == old(self).blk_param,
            final(self).helper_upper_bound == old(self).helper_upper_bound,
            final(self).a_eq_k_tables == old(self).a_eq_k_tables,
            final(self).e_lt_2k_plus_1_tables == old(self).e_lt_2k_plus_1_tables,
            final(self).e_eq_2k_tables == old(self).e_eq_2k_tables,
    {
        extend_from(&mut self.input, input);
    }

    /// Appends outputs `b`.
    pub fn append_output(&mut self, output: &[Fp<P>])
        requires
            old(self).output@.len() + output@.len() <= usize::MAX,
        ensures
            final(self).output@ == old(self).output@ + output@,
            final(self).input@ == old(self).input@,
            final(self).output_witness@ == old(self).output_witness@,
            final(self).helper@ == old(self).helper@,
            final(self).log_num == old(self).log_num,
            final(self).modulus_after == old(self).modulus_after,
            final(self).blk_param == old(self).blk_param,
            final(self).helper_upper_bound == old(self).helper_upper_bound,
            final(self).a_eq_k_tables == old(self).a_eq_k_tables,
            final(self).e_lt_2k_plus_1_tables == old(self).e_lt_2k_plus_1_tables,
            final(self).e_eq_2k_tables == old(self).e_eq_2k_tables,
    {
        extend_from(&mut self.output, output);
    }

    /// Every row `i` relates its columns: `b'` is the witness of `b`, and `e` is the helper
    /// of `a` and `b'`.
    pub open spec fn rows_hold(&self) -> bool {
        &&& self.output@.len() == self.input@.len()
        &&& self.output_witness@.len() == self.input@.len()
        &&& self.helper@.len() == self.input@.len()
        &&& forall|i: int|
            0 <= i < self.input@.len() ==> {
                &&& (#[trigger] self.output_witness@[i])@ == output_witness_value(
                    self.output@[i]@,
                    self.modulus_after@,
                )
                &&& self.helper@[i]@ == helper_value(
                    self.input@[i]@,
                    self.output_witness@[i]@,
                    self.blk_param@,
                    P as nat,
                )
            }
    }

    /// Computes the witnesses `b'` and the helpers `e` of the `num` rows appended so far,
    /// then pads every column to `2^log_num` rows: `a = b = 0`, `b' = q`, `e = k`.
    pub fn finalize(&mut self, num: usize)
        requires
            P > 1,
            num <= pow2(old(self).log_num as nat) <= usize::MAX,
            old(self).input@.len() + pow2(old(self).log_num as nat) - num <= usize::MAX,
            old(self).output@.len() + pow2(old(self).log_num as nat) - num <= usize::MAX,
        ensures
            ({
                let pad = pow2(old(self).log_num as nat) - num;
                let n_in = old(self).input@.len();
                let n_out = old(self).output@.len();
                let n_help = if n_in <= n_out { n_in } else { n_out };
                &&& final(self).input@.len() == n_in + pad
                &&& final(self).output@.len() == n_out + pad
                &&& final(self).output_witness@.len() == n_out + pad
                &&& final(self).helper@.len() == n_help + pad
                &&& forall|i: int| 0 <= i < n_in ==> #[trigger] final(self).input@[i] == old(self).input@[i]
                &&& forall|i: int| n_in <= i < n_in + pad ==> (#[trigger] final(self).input@[i])@ == 0
                &&& forall|i: int| 0 <= i < n_out ==> #[trigger] final(self).output@[i] == old(self).output@[i]
                &&& forall|i: int| n_out <= i < n_out + pad ==> (#[trigger] final(self).output@[i])@ == 0
                &&& forall|i: int|
                    0 <= i < n_out ==> (#[trigger] final(self).output_witness@[i])@ == output_witness_value(
                        old(self).output@[i]@,
                        old(self).modulus_after@,
                    )
                &&& forall|i: int|
                    n_out <= i < n_out + pad ==> #[trigger] final(self).output_witness@[i]
                        == old(self).modulus_after
                &&& forall|i: int|
                    0 <= i < n_help ==> (#[trigger] final(self).helper@[i])@ == helper_value(
                        old(self).input@[i]@,
                        final(self).output_witness@[i]@,
                        old(self).blk_param@,
                        P as nat,
                    )
                &&& forall|i: int| n_help <= i < n_help + pad ==> #[trigger] final(self).helper@[i]
                    == old(self).blk_param
            }),
            old(self).parameters_hold() && old(self).input@.len() == old(self).output@.len()
                ==> final(self).rows_hold(),
            final(self).log_num == old(self).log_num,
            final(self).modulus_after == old(self).modulus_after,
            final(self).blk_param == old(self).blk_param,
            final(self).helper_upper_bound == old(self).helper_upper_bound,
            final(self).a_eq_k_tables == old(self).a_eq_k_tables,
            final(self).e_lt_2k_plus_1_tables == old(self).e_lt_2k_plus_1_tables,
            final(self).e_eq_2k_tables == old(self).e_eq_2k_tables,
    {
        let q = self.modulus_after;
        let k = self.blk_param;
        let kv = k.value();
        let _qv = q.value();
        let n_out = self.output.len();
        let n_in = self.input.len();
        let mut witness: Vec<Fp<P>> = Vec::with_capacity(n_out);
        let mut i: usize = 0;
        while i < n_out
            invariant
                n_out == self.output@.len(),
                i <= n_out,
                witness@.len() == i,
                forall|t: int|
                    0 <= t < i ==> (#[trigger] witness@[t])@ == output_witness_value(
                        self.output@[t]@,
                        q@,
                    ),
            decreases n_out - i,
        {
            let b = self.output[i];
            if b.is_zero() {
                witness.push(q);
            } else {
                witness.push(b);
            }
            i = i + 1;
        }
        let n_help = if n_in <= n_out {
            n_in
        } else {
            n_out
        };
        let mut helper: Vec<Fp<P>> = Vec::with_capacity(n_help);
        let mut i: usize = 0;
        while i < n_help
            invariant
                P > 1,
                n_in == self.input@.len(),
                n_help <= n_in,
                n_help <= witness@.len(),
                i <= n_help,
                helper@.len() == i,
                forall|t: int|
                    0 <= t < i ==> (#[trigger] helper@[t])@ == helper_value(
                        self.input@[t]@,
                        witness@[t]@,
                        k@,
                        P as nat,
                    ),
            decreases n_help - i,
        {
            let a = self.input[i];
            let b_wit = witness[i];
            let av = a.value();
            let bv = b_wit.value();
            let two_b_minus_one = b_wit.add(b_wit).sub(Fp::one());
            let h = a.sub(two_b_minus_one.mul(k)).sub(Fp::one());
            proof {
                lemma_helper_steps(av as nat, bv as nat, k@, P as nat);
            }
            helper.push(h);
            i = i + 1;
        }
        proof {
            lemma_pow2_fits_usize(self.log_num as nat);
        }
        let pad = crate::basis::pow2_usize(self.log_num) - num;
        pad_with(&mut self.input, Fp::zero(), pad);
        pad_with(&mut self.output, Fp::zero(), pad);
        pad_with(&mut witness, q, pad);
        pad_with(&mut helper, k, pad);
        self.output_witness = witness;
        self.helper = helper;
        proof {
            if old(self).parameters_hold() && n_in == n_out {
                lemma_padding_helper(q@, k@, P as nat);
            }
        }
    }
}

/// The modulus-switching trace with every column as a multilinear extension in
/// `log_num` variables.
pub struct ModulusSwitchingTraceMLE<const P: u64> {
    pub log_num: usize,
    pub modulus_after: Fp<P>,
    pub blk_param: Fp<P>,
    pub input: Rc<DenseMultilinearExtension<P>>,
    pub output: Rc<DenseMultilinearExtension<P>>,
    pub output_witness: Rc<DenseMultilinearExtension<P>>,
    pub helper: Rc<DenseMultilinearExtension<P>>,
    pub helper_upper_bound: Fp<P>,
    pub a_eq_k_tables: EQTablesMLE<P>,
    pub e_lt_2k_plus_1_tables: LTTablesMLE<P>,
    pub e_eq_2k_tables: EQTablesMLE<P>,
}

impl<const P: u64> ModulusSwitchingTraceMLE<P> {
    /// Every column has `2^log_num` evaluations; the tables are well formed.
    pub open spec fn wf(&self) -> bool {
        &&& self.input.wf()
        &&& self.input.num_vars == self.log_num
        &&& self.output.wf()
        &&& self.output.num_vars == self.log_num
        &&& self.output_witness.wf()
        &&& self.output_witness.num_vars == self.log_num
        &&& self.helper.wf()
        &&& self.helper.num_vars == self.log_num
        &&& self.a_eq_k_tables.wf()
        &&& self.e_lt_2k_plus_1_tables.wf()
        &&& self.e_lt_2k_plus_1_tables.lt_constant is Some
        &&& self.e_eq_2k_tables.wf()
    }

    /// Wraps the columns of a finalized trace, and its tables, into multilinear extensions.
    pub fn from_trace(trace: ModulusSwitchingTrace<P>) -> (r: Self)
        requires
            trace.input@.len() == pow2(trace.log_num as nat),
            trace.output@.len() == pow2(trace.log_num as nat),
            trace.output_witness@.len() == pow2(trace.log_num as nat),
            trace.helper@.len() == pow2(trace.log_num as nat),
            trace.tables_hold(),
        ensures
            r.wf(),
            r.log_num == trace.log_num,
            r.modulus_after == trace.modulus_after,
            r.blk_param == trace.blk_param,
            r.helper_upper_bound == trace.helper_upper_bound,
            r.input.evaluations@ == trace.input@,
            r.output.evaluations@ == trace.output@,
            r.output_witness.evaluations@ == trace.output_witness@,
            r.helper.evaluations@ == trace.helper@,
            r.a_eq_k_tables.eq_constant == trace.a_eq_k_tables.eq_constant,
            r.a_eq_k_tables.same_tables(trace.a_eq_k_tables),
            r.e_lt_2k_plus_1_tables.lt_constant == trace.e_lt_2k_plus_1_tables.lt_constant,
            r.e_lt_2k_plus_1_tables.same_tables(trace.e_lt_2k_plus_1_tables),
            r.e_eq_2k_tables.eq_constant == trace.e_eq_2k_tables.eq_constant,
            r.e_eq_2k_tables.same_tables(trace.e_eq_2k_tables),
    {
        let log_num = trace.log_num;
        ModulusSwitchingTraceMLE {
            log_num,
            modulus_after: trace.modulus_after,
            blk_param: trace.blk_param,
            input: Rc::new(DenseMultilinearExtension::from_evaluations_vec(log_num, trace.input)),
            output: Rc::new(DenseMultilinearExtension::from_evaluations_vec(log_num, trace.output)),
            output_witness: Rc::new(
                DenseMultilinearExtension::from_evaluations_vec(log_num, trace.output_witness),
            ),
            helper: Rc::new(DenseMultilinearExtension::from_evaluations_vec(log_num, trace.helper)),
            helper_upper_bound: trace.helper_upper_bound,
            a_eq_k_tables: EQTablesMLE::from_tables(trace.a_eq_k_tables),
            e_lt_2k_plus_1_tables: LTTablesMLE::from_tables(trace.e_lt_2k_plus_1_tables),
            e_eq_2k_tables: EQTablesMLE::from_tables(trace.e_eq_2k_tables),
        }
    }

    /// The indexed lookup of `b'` (input) at index `b` in the table `[q, 1, ..., q - 1]`,
    /// which holds exactly when `b' = b mod q` with `b'` in `[1, q]`.
    pub fn extract_output_eq_output_witness_trace(&self) -> (r: IndexedLookupTraceMLE<P>)
        requires
            P > 1,
            self.wf(),
            exists|t: nat| pow2(t) == self.modulus_after@,
            self.modulus_after@ <= usize::MAX,
        ensures
            r.wf(),
            r.num_input_vars == self.log_num,
            pow2(r.num_table_vars as nat) == self.modulus_after@,
            r.index == self.output,
            r.input == self.output_witness,
            r.table.evaluations@.len() == self.modulus_after@,
            r.table.evaluations@[0] == self.modulus_after,
            forall|y: int| 1 <= y < self.modulus_after@ ==> (#[trigger] r.table.evaluations@[y])@ == y,
            r.table_point is None,
            (forall|x: int|
                0 <= x < self.output.evaluations@.len() ==> {
                    &&& (#[trigger] self.output.evaluations@[x])@ < self.modulus_after@
                    &&& self.output_witness.evaluations@[x]@ == output_witness_value(
                        self.output.evaluations@[x]@,
                        self.modulus_after@,
                    )
                }) ==> r.relation_holds(),
    {
        let qv = self.modulus_after.value();
        let q = qv as usize;
        proof {
            let t = choose|t: nat| pow2(t) == self.modulus_after@;
            lemma_pow2_pos(t);
        }
        let num_table_vars = crate::basic_ops::row_perm_trace::log2_of_power_of_two(q);
        let mut table: Vec<Fp<P>> = Vec::with_capacity(q);
        table.push(self.modulus_after);
        let mut y: usize = 1;
        while y < q
            invariant
                P > 1,
                q == self.modulus_after@,
                q < P,
                1 <= y <= q,
                table@.len() == y,
                table@[0] == self.modulus_after,
                forall|t: int| 1 <= t < y ==> (#[trigger] table@[t])@ == t,
            decreases q - y,
        {
            let e = Fp::<P>::new(y as u64);
            proof {
                lemma_small_mod(y as nat, P as nat);
            }
            table.push(e);
            y = y + 1;
        }
        let table = Rc::new(DenseMultilinearExtension::from_evaluations_vec(num_table_vars, table));
        let r = IndexedLookupTraceMLE {
            num_input_vars: self.log_num,
            num_table_vars,
            index: Rc::clone(&self.output),
            input: Rc::clone(&self.output_witness),
            table,
            table_point: None,
        };
        proof {
            if forall|x: int|
                0 <= x < self.output.evaluations@.len() ==> {
                    &&& (#[trigger] self.output.evaluations@[x])@ < self.modulus_after@
                    &&& self.output_witness.evaluations@[x]@ == output_witness_value(
                        self.output.evaluations@[x]@,
                        self.modulus_after@,
                    )
                } {
                assert forall|x: int| 0 <= x < r.input.evaluations@.len() implies {
                    &&& #[trigger] r.index.evaluations@[x]@ < r.table.evaluations@.len()
                    &&& r.input.evaluations@[x] == r.table.evaluations@[r.index.evaluations@[x]@ as int]
                } by {
                    let b = self.output.evaluations@[x]@;
                    let entry = r.table.evaluations@[b as int];
                    crate::field::lemma_fp_view_injective(self.output_witness.evaluations@[x], entry);
                }
            }
        }
        r
    }

    /// Compares every helper `e` with `2k + 1`.
    pub fn extract_helper_lt_2k_plus_1(&self) -> (r: LTTraceMLE<P>)
        requires
            P > 1,
            self.wf(),
        ensures
            r.num_vars == self.log_num,
            *r.input == *self.helper,
            r.num_bits == self.e_lt_2k_plus_1_tables.decomp_len,
            r.lt_result.wf(),
            forall|i: int|
                0 <= i < self.helper.evaluations@.len() ==> (#[trigger] r.lt_result.evaluations@[i])@
                    == (if self.helper.evaluations@[i]@
                    < self.e_lt_2k_plus_1_tables.lt_constant->0@ {
                    1nat
                } else {
                    0nat
                }),
            r.bits@.len() == self.e_lt_2k_plus_1_tables.decomp_len,
            r.bit_lt@.len() == self.e_lt_2k_plus_1_tables.decomp_len,
            forall|j: int, i: int|
                0 <= j < self.e_lt_2k_plus_1_tables.decomp_len && 0 <= i < self.helper.evaluations@.len() ==> {
                    &&& (#[trigger] r.bits@[j].evaluations@[i])@ == digit(
                        self.helper.evaluations@[i]@,
                        self.e_lt_2k_plus_1_tables.basis_bits as nat,
                        j as nat,
                    )
                    &&& r.bit_lt@[j].evaluations@[i] == self.e_lt_2k_plus_1_tables.tables@[j].evaluations@[
                        r.bits@[j].evaluations@[i]@ as int]
                },
            r.lookups_hold(self.e_lt_2k_plus_1_tables),
    {
        LTTraceMLE::from(&self.helper, &self.e_lt_2k_plus_1_tables)
    }

    /// Tests every input `a` for equality with `k`.
    pub fn extract_a_eq_k_trace(&self) -> (r: EQTraceMLE<P>)
        requires
            P > 1,
            self.wf(),
        ensures
            r.num_vars == self.log_num,
            *r.input == *self.input,
            r.num_bits == self.a_eq_k_tables.decomp_len,
            r.eq_result.wf(),
            forall|i: int|
                0 <= i < self.input.evaluations@.len() ==> (#[trigger] r.eq_result.evaluations@[i])@
                    == (if self.input.evaluations@[i]@ == self.a_eq_k_tables.eq_constant@ {
                    1nat
                } else {
                    0nat
                }),
            r.bits@.len() == self.a_eq_k_tables.decomp_len,
            r.bit_eq@.len() == self.a_eq_k_tables.decomp_len,
            forall|j: int, i: int|
                0 <= j < self.a_eq_k_tables.decomp_len && 0 <= i < self.input.evaluations@.len() ==> {
                    &&& (#[trigger] r.bits@[j].evaluations@[i])@ == digit(
                        self.input.evaluations@[i]@,
                        self.a_eq_k_tables.basis_bits as nat,
                        j as nat,
                    )
                    &&& r.bit_eq@[j].evaluations@[i] == self.a_eq_k_tables.tables@[j].evaluations@[
                        r.bits@[j].evaluations@[i]@ as int]
                },
            r.lookups_hold(self.a_eq_k_tables),
    {
        EQTraceMLE::from(&self.input, &self.a_eq_k_tables)
    }

    /// Tests every helper `e` for equality with `2k`.
    pub fn extract_e_eq_2k_trace(&self) -> (r: EQTraceMLE<P>)
        requires
            P > 1,
            self.wf(),
        ensures
            r.num_vars == self.log_num,
            *r.input == *self.helper,
            r.num_bits == self.e_eq_2k_tables.decomp_len,
            r.eq_result.wf(),
            forall|i: int|
                0 <= i < self.helper.evaluations@.len() ==> (#[trigger] r.eq_result.evaluations@[i])@
                    == (if self.helper.evaluations@[i]@ == self.e_eq_2k_tables.eq_constant@ {
                    1nat
                } else {
                    0nat
                }),
            r.bits@.len() == self.e_eq_2k_tables.decomp_len,
            r.bit_eq@.len() == self.e_eq_2k_tables.decomp_len,
            forall|j: int, i: int|
                0 <= j < self.e_eq_2k_tables.decomp_len && 0 <= i < self.helper.evaluations@.len() ==> {
                    &&& (#[trigger] r.bits@[j].evaluations@[i])@ == digit(
                        self.helper.evaluations@[i]@,
                        self.e_eq_2k_tables.basis_bits as nat,
                        j as nat,
                    )
                    &&& r.bit_eq@[j].evaluations@[i] == self.e_eq_2k_tables.tables@[j].evaluations@[
                        r.bits@[j].evaluations@[i]@ as int]
                },
            r.lookups_hold(self.e_eq_2k_tables),
    {
        EQTraceMLE::from(&self.helper, &self.e_eq_2k_tables)
    }
}

} // verus!
