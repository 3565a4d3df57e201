//! Indexed lookup traces.
//!
//! The indexed table consists of `n` pairs `(y, T[y])` for `y` in `[n]`. The input
//! consists of `m` pairs `(I[x], E[x])` for `x` in `[m]`, where `I[x]` indexes the table.
//! The relation to prove is `E[x] = T[I[x]]` for every `x` in `[m]`.
use super::{
    all_invertible, batch_inverse, count_occurrences, count_value, field_sum, sum_all,
};
use crate::field::{invertible, Fp};
use crate::mle::{eq_eval, gen_identity_evaluations, DenseMultilinearExtension};
use crate::random::random_below;
use rand::rngs::ThreadRng;
use std::rc::Rc;
use vstd::arithmetic::div_mod::*;
use vstd::arithmetic::power2::*;
use vstd::prelude::*;

verus! {

/// An indexed lookup instance `(index, input)` against `table`.
#[derive(Clone, Debug)]
pub struct IndexedLookupTraceMLE<const P: u64> {
    pub num_input_vars: usize,
    pub num_table_vars: usize,
    /// `I[x]` for `x` in `[m]`
    pub index: Rc<DenseMultilinearExtension<P>>,
    /// `E[x]` for `x` in `[m]`
    pub input: Rc<DenseMultilinearExtension<P>>,
    pub table: Rc<DenseMultilinearExtension<P>>,
    /// When the table is `T[y] = eq(y, ry)`, the point `ry`.
    pub table_point: Option<Vec<Fp<P>>>,
}

impl<const P: u64> IndexedLookupTraceMLE<P> {
    /// Every input entry is the table entry that its index points to: `E[x] = T[I[x]]`.
    pub open spec fn relation_holds(&self) -> bool {
        &&& self.index.evaluations@.len() == self.input.evaluations@.len()
        &&& forall|x: int|
            0 <= x < self.input.evaluations@.len() ==> {
                &&& #[trigger] self.index.evaluations@[x]@ < self.table.evaluations@.len()
                &&& self.input.evaluations@[x] == self.table.evaluations@[self.index.evaluations@[x]@ as int]
            }
    }

    /// The sizes of the three oracles match their numbers of variables.
    pub open spec fn wf(&self) -> bool {
        &&& self.index.wf()
        &&& self.input.wf()
        &&& self.table.wf()
        &&& self.index.num_vars == self.num_input_vars
        &&& self.input.num_vars == self.num_input_vars
        &&& self.table.num_vars == self.num_table_vars
    }
}

/// An indexed lookup instance as plain columns.
pub struct IndexedLookupTrace<const P: u64> {
    pub num_input_vars: usize,
    pub num_table_vars: usize,
    pub index: Vec<Fp<P>>,
    pub input: Vec<Fp<P>>,
    pub table: Vec<Fp<P>>,
    pub table_point: Option<Vec<Fp<P>>>,
}

/// The multiplicity of every table entry: how many inputs have its value. Only the first
/// entry with a given value counts it; later ones with the same value get zero.
pub struct IndexedLookupWitness<const P: u64> {
    pub num_table_vars: usize,
    pub table_point: Option<Vec<Fp<P>>>,
    pub multiplicity: Rc<DenseMultilinearExtension<P>>,
}

/// The LogUp helper columns of an indexed lookup, for the challenges `r` (`random_value`)
/// and `s` (`random_s_hash`).
pub struct IndexedLookupWitnessHelper<const P: u64> {
    pub random_value: Fp<P>,
    pub random_s_hash: Fp<P>,
    /// `1 / (E[x] + s * I[x] + r)`
    pub helper_input: Rc<DenseMultilinearExtension<P>>,
    /// `m[y] / (T[y] + s * y + r)`
    pub helper_table: Rc<DenseMultilinearExtension<P>>,
    /// the sum of `helper_table`
    pub sum: Fp<P>,
    /// `E[x] + s * I[x] + r`
    pub phi_input: Rc<DenseMultilinearExtension<P>>,
    /// `T[y] + s * y + r`
    pub phi_table: Rc<DenseMultilinearExtension<P>>,
}

/// The hash `v + s * i + r` of a value `v` at index `i`.
pub open spec fn lookup_hash(v: nat, i: nat, s: nat, r: nat, p: nat) -> nat {
    (v + s * i + r) % p
}

/// The multiplicity of table entry `y`: the number of inputs whose index is `y`, in the
/// field. Each pair `(y, T[y])` is counted as often as the inputs point at it, which is
/// what the hashed table entries `T[y] + s * y` need.
pub open spec fn multiplicity_value<const P: u64>(index: Seq<Fp<P>>, y: int) -> nat {
    count_value(index, y as nat) % (P as nat)
}

/// The two optional points hold the same coordinates.
pub open spec fn same_point<const P: u64>(a: Option<Vec<Fp<P>>>, b: Option<Vec<Fp<P>>>) -> bool {
    match (a, b) {
        (Some(u), Some(v)) => u@ == v@,
        (None, None) => true,
        _ => false,
    }
}

/// A copy of an optional point.
pub fn copy_point<const P: u64>(point: &Option<Vec<Fp<P>>>) -> (r: Option<Vec<Fp<P>>>)
    ensures
        same_point(r, *point),
{
    match point {
        Some(v) => {
            let mut c: Vec<Fp<P>> = Vec::with_capacity(v.len());
            let mut i: usize = 0;
            while i < v.len()
                invariant
                    i <= v@.len(),
                    c@ == v@.take(i as int),
                decreases v@.len() - i,
            {
                c.push(v[i]);
                i = i + 1;
                proof {
                    assert(c@ =~= v@.take(i as int));
                }
            }
            proof {
                assert(v@.take(v@.len() as int) =~= v@);
            }
            Some(c)
        },
        None => None,
    }
}

/// Each of the first `n` inputs is the table entry at an index `y` whose residue is its
/// index entry.
pub open spec fn drawn_from_table<const P: u64>(
    index: Seq<Fp<P>>,
    input: Seq<Fp<P>>,
    table: Seq<Fp<P>>,
    n: int,
) -> bool {
    forall|x: int|
        0 <= x < n ==> exists|y: int|
            #![trigger table[y]]
            0 <= y < table.len() && (#[trigger] index[x])@ == y % (P as int) && input[x] == table[y]
}

/// The field operations of the hash compute `v + s * i + r`.
proof fn lemma_hash_steps(v: nat, i: nat, s: nat, r: nat, p: nat)
    requires
        p > 1,
        v < p,
        r < p,
    ensures
        ((v + (s * i) % p) % p + r) % p == lookup_hash(v, i, s, r, p),
        ((v + (s * (i % p)) % p) % p + r) % p == lookup_hash(v, i, s, r, p),
{
    let pi = p as int;
    lemma_add_mod_noop(v as int, (s * i) as int, pi);
    lemma_small_mod(v, p);
    lemma_add_mod_noop((v + s * i) as int, r as int, pi);
    lemma_small_mod(r, p);
    lemma_mod_twice((v + s * i) as int, pi);
    lemma_mul_mod_noop_right(s as int, i as int, pi);
}

/// If `inv * phi = 1`, then `(inv * m) * phi = m`.
pub proof fn lemma_scaled_inverse(inv: nat, m: nat, phi: nat, p: nat)
    requires
        p > 1,
        m < p,
        (inv * phi) % p == 1,
    ensures
        (((inv * m) % p) * phi) % p == m,
{
    let pi = p as int;
    lemma_mul_mod_noop_left((inv * m) as int, phi as int, pi);
    vstd::arithmetic::mul::lemma_mul_is_associative(inv as int, m as int, phi as int);
    vstd::arithmetic::mul::lemma_mul_is_commutative(m as int, phi as int);
    vstd::arithmetic::mul::lemma_mul_is_associative(inv as int, phi as int, m as int);
    vstd::arithmetic::mul::lemma_mul_is_commutative((inv * phi) as int, m as int);
    lemma_mul_mod_noop_right(m as int, (inv * phi) as int, pi);
    lemma_small_mod(m, p);
}

impl<const P: u64> IndexedLookupTrace<P> {
    /// A random instance: the table is the equality polynomial at a random point, every
    /// index is drawn from the table, and every input is the entry at its index.
    pub fn random(rng: &mut ThreadRng, num_input_vars: usize, num_table_vars: usize) -> (r: Self)
        requires
            P > 1,
            num_input_vars < usize::BITS,
            num_table_vars < usize::BITS,
            pow2(num_table_vars as nat) <= u32::MAX + 1,
        ensures
            r.num_input_vars == num_input_vars,
            r.num_table_vars == num_table_vars,
            r.index@.len() == pow2(num_input_vars as nat),
            r.input@.len() == pow2(num_input_vars as nat),
            r.table@.len() == pow2(num_table_vars as nat),
            r.table_point matches Some(point) && point@.len() == num_table_vars && forall|y: int|
                0 <= y < r.table@.len() ==> (#[trigger] r.table@[y])@ == eq_eval(
                    point@,
                    num_table_vars as nat,
                    y as nat,
                ),
            drawn_from_table(r.index@, r.input@, r.table@, r.input@.len() as int),
    {
        proof {
            lemma2_to64();
            if num_table_vars >= 33 {
                lemma_pow2_strictly_increases(32, num_table_vars as nat);
            }
            vstd::bits::lemma_usize_pow2_no_overflow(num_input_vars as nat);
            lemma_pow2_pos(num_table_vars as nat);
        }
        let mut table_point: Vec<Fp<P>> = Vec::with_capacity(num_table_vars);
        let mut k: usize = 0;
        while k < num_table_vars
            invariant
                P > 1,
                k <= num_table_vars,
                table_point@.len() == k,
            decreases num_table_vars - k,
        {
            table_point.push(Fp::random(rng));
            k = k + 1;
        }
        let table = gen_identity_evaluations(table_point.as_slice()).evaluations;
        let num_inputs = crate::basis::pow2_usize(num_input_vars);
        let table_len = crate::basis::pow2_u64(num_table_vars as u64);
        let mut index: Vec<Fp<P>> = Vec::with_capacity(num_inputs);
        let mut input: Vec<Fp<P>> = Vec::with_capacity(num_inputs);
        let mut x: usize = 0;
        while x < num_inputs
            invariant
                P > 1,
                x <= num_inputs,
                table@.len() == table_len,
                table_len == pow2(num_table_vars as nat),
                table_len <= u32::MAX + 1,
                table_len > 0,
                index@.len() == x,
                input@.len() == x,
                drawn_from_table(index@, input@, table@, x as int),
            decreases num_inputs - x,
        {
            let y = random_below(rng, table_len);
            let y_index = y as usize;
            input.push(table[y_index]);
            index.push(Fp::new(y));
            proof {
                assert forall|t: int| 0 <= t <= x implies exists|w: int|
                    #![trigger table@[w]]
                    0 <= w < table@.len() && (#[trigger] index@[t])@ == w % (P as int) && input@[t]
                        == table@[w] by {
                    if t == x {
                        assert(index@[t]@ == y as int % (P as int) && input@[t] == table@[y as int]);
                    }
                }
            }
            x = x + 1;
        }
        IndexedLookupTrace {
            num_input_vars,
            num_table_vars,
            index,
            input,
            table,
            table_point: Some(table_point),
        }
    }
}

impl<const P: u64> IndexedLookupTraceMLE<P> {
    /// Wraps the columns of an indexed lookup instance into multilinear extensions.
    pub fn from_trace(trace: IndexedLookupTrace<P>) -> (r: Self)
        requires
            trace.index@.len() == pow2(trace.num_input_vars as nat),
            trace.input@.len() == pow2(trace.num_input_vars as nat),
            trace.table@.len() == pow2(trace.num_table_vars as nat),
        ensures
            r.wf(),
            r.num_input_vars == trace.num_input_vars,
            r.num_table_vars == trace.num_table_vars,
            r.index.evaluations@ == trace.index@,
            r.input.evaluations@ == trace.input@,
            r.table.evaluations@ == trace.table@,
            r.table_point == trace.table_point,
    {
        IndexedLookupTraceMLE {
            num_input_vars: trace.num_input_vars,
            num_table_vars: trace.num_table_vars,
            index: Rc::new(DenseMultilinearExtension::from_evaluations_vec(trace.num_input_vars, trace.index)),
            input: Rc::new(DenseMultilinearExtension::from_evaluations_vec(trace.num_input_vars, trace.input)),
            table: Rc::new(DenseMultilinearExtension::from_evaluations_vec(trace.num_table_vars, trace.table)),
            table_point: trace.table_point,
        }
    }

    /// Counts, for every table entry, the inputs whose index points at it.
    pub fn compute_witness(&self) -> (r: IndexedLookupWitness<P>)
        requires
            P > 1,
            self.wf(),
        ensures
            r.num_table_vars == self.num_table_vars,
            same_point(r.table_point, self.table_point),
            r.multiplicity.wf(),
            r.multiplicity.num_vars == self.num_table_vars,
            forall|y: int|
                0 <= y < self.table.evaluations@.len() ==> (#[trigger] r.multiplicity.evaluations@[y])@
                    == multiplicity_value(self.index.evaluations@, y),
    {
        let n = self.table.evaluations.len();
        let index = &self.index.evaluations;
        let mut multiplicity: Vec<Fp<P>> = Vec::with_capacity(n);
        let mut y: usize = 0;
        while y < n
            invariant
                P > 1,
                y <= n,
                multiplicity@.len() == y,
                forall|t: int| 0 <= t < y ==> (#[trigger] multiplicity@[t])@ == 0,
            decreases n - y,
        {
            multiplicity.push(Fp::zero());
            y = y + 1;
        }
        proof {
            assert(index@.take(0) =~= Seq::<Fp<P>>::empty());
            lemma_small_mod(0, P as nat);
        }
        let mut x: usize = 0;
        while x < index.len()
            invariant
                P > 1,
                x <= index@.len(),
                multiplicity@.len() == n,
                forall|t: int|
                    0 <= t < n ==> (#[trigger] multiplicity@[t])@ == count_value(index@.take(x as int), t as nat)
                        % (P as nat),
            decreases index@.len() - x,
        {
            let i = index[x].value();
            proof {
                assert(index@.take(x + 1).drop_last() =~= index@.take(x as int));
                assert(index@.take(x + 1).last() == index@[x as int]);
            }
            if i < n as u64 {
                let k = i as usize;
                let old_count = multiplicity[k];
                multiplicity.set(k, old_count.add(Fp::one()));
                proof {
                    let c = count_value(index@.take(x as int), k as nat) as int;
                    lemma_add_mod_noop(c, 1, P as int);
                    lemma_small_mod(1, P as nat);
                    lemma_mod_twice(c, P as int);
                }
            }
            x = x + 1;
        }
        proof {
            assert(index@.take(index@.len() as int) =~= index@);
        }
        IndexedLookupWitness {
            num_table_vars: self.num_table_vars,
            table_point: copy_point(&self.table_point),
            multiplicity: Rc::new(DenseMultilinearExtension::from_evaluations_vec(self.num_table_vars, multiplicity)),
        }
    }

    /// The hashes `E[x] + s * I[x] + r` of the inputs are invertible, and so are the hashes
    /// `T[y] + s * y + r` of the table entries.
    pub open spec fn hashes_invertible(&self, randomness: Fp<P>, s_hash: Fp<P>) -> bool {
        &&& forall|x: int|
            0 <= x < self.input.evaluations@.len() ==> invertible(
                lookup_hash(
                    (#[trigger] self.input.evaluations@[x])@,
                    self.index.evaluations@[x]@,
                    s_hash@,
                    randomness@,
                    P as nat,
                ),
                P as nat,
            )
        &&& forall|y: int|
            0 <= y < self.table.evaluations@.len() ==> invertible(
                lookup_hash((#[trigger] self.table.evaluations@[y])@, y as nat, s_hash@, randomness@, P as nat),
                P as nat,
            )
    }

    /// The LogUp helper columns for the challenges `randomness` and `s_hash`.
    pub fn compute_helper_functions(
        &self,
        witness: &IndexedLookupWitness<P>,
        randomness: Fp<P>,
        s_hash: Fp<P>,
    ) -> (r: IndexedLookupWitnessHelper<P>)
        requires
            P > 1,
            self.wf(),
            witness.num_table_vars == self.num_table_vars,
            witness.multiplicity.wf(),
            witness.multiplicity.num_vars == self.num_table_vars,
            self.table.evaluations@.len() <= u32::MAX + 1,
            self.hashes_invertible(randomness, s_hash),
        ensures
            r.random_value == randomness,
            r.random_s_hash == s_hash,
            r.phi_input.wf(),
            r.phi_input.num_vars == self.num_input_vars,
            r.helper_input.wf(),
            r.helper_input.num_vars == self.num_input_vars,
            r.phi_table.wf(),
            r.phi_table.num_vars == self.num_table_vars,
            r.helper_table.wf(),
            r.helper_table.num_vars == self.num_table_vars,
            forall|x: int|
                0 <= x < self.input.evaluations@.len() ==> {
                    &&& (#[trigger] r.phi_input.evaluations@[x])@ == lookup_hash(
                        self.input.evaluations@[x]@,
                        self.index.evaluations@[x]@,
                        s_hash@,
                        randomness@,
                        P as nat,
                    )
                    &&& (r.helper_input.evaluations@[x]@ * r.phi_input.evaluations@[x]@) % (P as nat) == 1
                },
            forall|y: int|
                0 <= y < self.table.evaluations@.len() ==> {
                    &&& (#[trigger] r.phi_table.evaluations@[y])@ == lookup_hash(
                        self.table.evaluations@[y]@,
                        y as nat,
                        s_hash@,
                        randomness@,
                        P as nat,
                    )
                    &&& (r.helper_table.evaluations@[y]@ * r.phi_table.evaluations@[y]@) % (P as nat)
                        == witness.multiplicity.evaluations@[y]@
                },
            forall|x: int| 0 <= x < self.input.evaluations@.len() ==> (#[trigger] r.helper_input.evaluations@[x])@ < P,
            forall|y: int| 0 <= y < self.table.evaluations@.len() ==> (#[trigger] r.helper_table.evaluations@[y])@ < P,
            r.sum@ == field_sum(r.helper_table.evaluations@),
    {
        let input = &self.input.evaluations;
        let index = &self.index.evaluations;
        let table = &self.table.evaluations;
        let n_in = input.len();
        let mut phi_input: Vec<Fp<P>> = Vec::with_capacity(n_in);
        let mut x: usize = 0;
        while x < n_in
            invariant
                P > 1,
                n_in == input@.len(),
                input@.len() == index@.len(),
                x <= n_in,
                phi_input@.len() == x,
                forall|t: int|
                    0 <= t < x ==> (#[trigger] phi_input@[t])@ == lookup_hash(
                        input@[t]@,
                        index@[t]@,
                        s_hash@,
                        randomness@,
                        P as nat,
                    ),
            decreases n_in - x,
        {
            let e = input[x];
            let i = index[x];
            let h = e.add(s_hash.mul(i)).add(randomness);
            let _ev = e.value();
            let _rv = randomness.value();
            proof {
                lemma_hash_steps(e@, i@, s_hash@, randomness@, P as nat);
            }
            phi_input.push(h);
            x = x + 1;
        }
        let n_t = table.len();
        let mut phi_table: Vec<Fp<P>> = Vec::with_capacity(n_t);
        let mut y: usize = 0;
        while y < n_t
            invariant
                P > 1,
                n_t == table@.len(),
                n_t <= u32::MAX + 1,
                y <= n_t,
                phi_table@.len() == y,
                forall|t: int|
                    0 <= t < y ==> (#[trigger] phi_table@[t])@ == lookup_hash(
                        table@[t]@,
                        t as nat,
                        s_hash@,
                        randomness@,
                        P as nat,
                    ),
            decreases n_t - y,
        {
            let t = table[y];
            let position = Fp::<P>::new(y as u64);
            let h = t.add(s_hash.mul(position)).add(randomness);
            let _tv = t.value();
            let _rv = randomness.value();
            proof {
                lemma_hash_steps(t@, y as nat, s_hash@, randomness@, P as nat);
            }
            phi_table.push(h);
            y = y + 1;
        }
        proof {
            assert(all_invertible(phi_input@));
            assert(all_invertible(phi_table@));
        }
        let helper_input = batch_inverse(&phi_input);
        let table_inverses = batch_inverse(&phi_table);
        let m = &witness.multiplicity.evaluations;
        let mut helper_table: Vec<Fp<P>> = Vec::with_capacity(n_t);
        let mut y: usize = 0;
        while y < n_t
            invariant
                P > 1,
                n_t == table_inverses@.len(),
                n_t == m@.len(),
                n_t == phi_table@.len(),
                y <= n_t,
                helper_table@.len() == y,
                forall|t: int| 0 <= t < n_t ==> ((#[trigger] table_inverses@[t])@ * phi_table@[t]@) % (P as nat) == 1,
                forall|t: int|
                    0 <= t < y ==> ((#[trigger] helper_table@[t])@ * phi_table@[t]@) % (P as nat) == m@[t]@,
                forall|t: int| 0 <= t < y ==> (#[trigger] helper_table@[t])@ < P,
            decreases n_t - y,
        {
            let inv = table_inverses[y];
            let v = inv.mul(m[y]);
            let _mv = m[y].value();
            proof {
                lemma_scaled_inverse(inv@, m@[y as int]@, phi_table@[y as int]@, P as nat);
            }
            helper_table.push(v);
            y = y + 1;
        }
        let sum = sum_all(&helper_table);
        IndexedLookupWitnessHelper {
            random_value: randomness,
            random_s_hash: s_hash,
            helper_input: Rc::new(DenseMultilinearExtension::from_evaluations_vec(self.num_input_vars, helper_input)),
            helper_table: Rc::new(DenseMultilinearExtension::from_evaluations_vec(self.num_table_vars, helper_table)),
            sum,
            phi_input: Rc::new(DenseMultilinearExtension::from_evaluations_vec(self.num_input_vars, phi_input)),
            phi_table: Rc::new(DenseMultilinearExtension::from_evaluations_vec(self.num_table_vars, phi_table)),
        }
    }
}

} // verus!
