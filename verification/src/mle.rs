//! Multilinear extensions given by their evaluations over the boolean hypercube.
use crate::field::Fp;
use vstd::arithmetic::div_mod::*;
use vstd::arithmetic::power2::*;
use vstd::prelude::*;

verus! {

/// A multilinear polynomial in `num_vars` variables, stored as its `2^num_vars`
/// evaluations over the boolean hypercube (variable 0 is the least significant bit
/// of the index).
#[derive(Clone, Debug)]
pub struct DenseMultilinearExtension<const P: u64> {
    pub num_vars: usize,
    pub evaluations: Vec<Fp<P>>,
}

impl<const P: u64> DenseMultilinearExtension<P> {
    /// The evaluation vector has exactly one entry per point of the hypercube.
    pub open spec fn wf(&self) -> bool {
        self.evaluations@.len() == pow2(self.num_vars as nat)
    }

    /// The evaluations as a sequence.
    pub open spec fn evals(&self) -> Seq<Fp<P>> {
        self.evaluations@
    }

    /// Builds the extension from its `2^num_vars` evaluations.
    pub fn from_evaluations_vec(num_vars: usize, evaluations: Vec<Fp<P>>) -> (r: Self)
        requires
            evaluations@.len() == pow2(num_vars as nat),
        ensures
            r.num_vars == num_vars,
            r.evaluations@ == evaluations@,
            r.wf(),
    {
        DenseMultilinearExtension { num_vars, evaluations }
    }

    pub fn num_vars(&self) -> (r: usize)
        ensures
            r == self.num_vars,
    {
        self.num_vars
    }
}

/// One factor of the equality polynomial: `r` where the bit is set, `1 - r` elsewhere.
pub open spec fn eq_factor<const P: u64>(r: nat, bit: bool) -> nat {
    if bit {
        r
    } else {
        ((1 - r) % (P as int)) as nat
    }
}

/// Bit `i` of `x`.
pub open spec fn bit_of(x: nat, i: nat) -> bool {
    (x / pow2(i)) % 2 == 1
}

/// `eq(x, r) = prod_{i < n} (x_i r_i + (1 - x_i)(1 - r_i))` over the field, where `x_i` is
/// bit `i` of `x` and `r = point`.
pub open spec fn eq_eval<const P: u64>(point: Seq<Fp<P>>, n: nat, x: nat) -> nat
    decreases n,
{
    if n == 0 {
        1
    } else {
        (eq_eval(point, (n - 1) as nat, x) * eq_factor::<P>(point[n - 1]@, bit_of(x, (n - 1) as nat))) % (
        P as nat)
    }
}

/// Adding a multiple of `2^i` leaves the bits below `i` alone.
proof fn lemma_bit_of_shift(x: nat, i: nat, m: nat)
    requires
        m < i,
    ensures
        bit_of(x + pow2(i), m) == bit_of(x, m),
{
    lemma_pow2_pos(m);
    lemma_pow2_adds(m, (i - m) as nat);
    let q = pow2((i - m) as nat);
    lemma_pow2_unfold((i - m) as nat);
    lemma_pow2_pos((i - m) as nat);
    // (x + 2^m * q) / 2^m == x / 2^m + q with q even
    vstd::arithmetic::mul::lemma_mul_is_commutative(pow2(m) as int, q as int);
    lemma_div_plus_multiple(x, pow2(m), q);
    lemma_mod_add_multiples_vanish_even(x / pow2(m), q);
}

proof fn lemma_div_plus_multiple(x: nat, d: nat, q: nat)
    requires
        d > 0,
    ensures
        (x + q * d) / d == x / d + q,
{
    lemma_fundamental_div_mod(x as int, d as int);
    lemma_mod_pos_bound(x as int, d as int);
    lemma_div_multiples_vanish_fancy((x / d + q) as int, (x % d) as int, d as int);
    assert(x + q * d == d * (x / d + q) + x % d) by (nonlinear_arith)
        requires
            x == d * (x / d) + x % d,
    ;
}

proof fn lemma_mod_add_multiples_vanish_even(y: nat, q: nat)
    requires
        q % 2 == 0,
        q > 0,
    ensures
        (y + q) % 2 == y % 2,
{
    lemma_fundamental_div_mod(q as int, 2);
    lemma_mod_multiples_vanish((q / 2) as int, y as int, 2);
    assert(y + q == 2 * (q / 2) + y);
}

/// The equality polynomial only reads the first `n` bits of `x`.
pub proof fn lemma_eq_eval_shift<const P: u64>(point: Seq<Fp<P>>, n: nat, x: nat, i: nat)
    requires
        n <= i,
    ensures
        eq_eval(point, n, x + pow2(i)) == eq_eval(point, n, x),
    decreases n,
{
    if n > 0 {
        lemma_eq_eval_shift(point, (n - 1) as nat, x, i);
        lemma_bit_of_shift(x, i, (n - 1) as nat);
    }
}

/// The evaluations of `eq(x, point)` over the hypercube in `point.len()` variables.
pub fn gen_identity_evaluations<const P: u64>(point: &[Fp<P>]) -> (r: DenseMultilinearExtension<P>)
    requires
        P > 1,
        point@.len() < usize::BITS,
    ensures
        r.wf(),
        r.num_vars == point@.len(),
        forall|x: int|
            0 <= x < r.evaluations@.len() ==> (#[trigger] r.evaluations@[x])@ == eq_eval(
                point@,
                point@.len() as nat,
                x as nat,
            ),
{
    let n = point.len();
    let one = Fp::<P>::one();
    let mut evals: Vec<Fp<P>> = Vec::new();
    evals.push(one);
    proof {
        lemma2_to64();
    }
    let mut i: usize = 0;
    while i < n
        invariant
            P > 1,
            n == point@.len(),
            n < usize::BITS,
            one@ == 1,
            i <= n,
            evals@.len() == pow2(i as nat),
            forall|x: int| 0 <= x < evals@.len() ==> (#[trigger] evals@[x])@ == eq_eval(point@, i as nat, x as nat),
        decreases n - i,
    {
        let half = evals.len();
        let r = point[i];
        let not_r = one.sub(r);
        proof {
            vstd::bits::lemma_usize_pow2_no_overflow((i + 1) as nat);
            lemma_pow2_unfold((i + 1) as nat);
        }
        let mut next: Vec<Fp<P>> = Vec::with_capacity(2 * half);
        let mut j: usize = 0;
        while j < half
            invariant
                half == evals@.len(),
                half == pow2(i as nat),
                i < n,
                not_r@ == ((1 - r@) % (P as int)) as nat,
                r == point@[i as int],
                forall|x: int| 0 <= x < evals@.len() ==> (#[trigger] evals@[x])@ == eq_eval(point@, i as nat, x as nat),
                j <= half,
                next@.len() == j,
                forall|x: int| 0 <= x < j ==> (#[trigger] next@[x])@ == eq_eval(point@, (i + 1) as nat, x as nat),
            decreases half - j,
        {
            proof {
                lemma_small_div(j as nat, pow2(i as nat));
            }
            next.push(evals[j].mul(not_r));
            j = j + 1;
        }
        let mut j: usize = 0;
        while j < half
            invariant
                half == evals@.len(),
                half == pow2(i as nat),
                2 * half <= usize::MAX,
                i < n,
                r == point@[i as int],
                forall|x: int| 0 <= x < evals@.len() ==> (#[trigger] evals@[x])@ == eq_eval(point@, i as nat, x as nat),
                j <= half,
                next@.len() == half + j,
                forall|x: int| 0 <= x < half + j ==> (#[trigger] next@[x])@ == eq_eval(point@, (i + 1) as nat, x as nat),
            decreases half - j,
        {
            proof {
                lemma_eq_eval_shift(point@, i as nat, j as nat, i as nat);
                lemma_div_plus_multiple(j as nat, pow2(i as nat), 1);
                lemma_small_div(j as nat, pow2(i as nat));
            }
            next.push(evals[j].mul(r));
            j = j + 1;
        }
        evals = next;
        i = i + 1;
    }
    DenseMultilinearExtension::from_evaluations_vec(n, evals)
}

proof fn lemma_small_div(x: nat, d: nat)
    requires
        x < d,
    ensures
        x / d == 0,
{
    lemma_basic_div(x as int, d as int);
}

/// `sum_{x < n} eq(x, point) * f(x)` in the field, where `f` is given by `evals`.
pub open spec fn eq_weighted_sum<const P: u64>(point: Seq<Fp<P>>, evals: Seq<Fp<P>>, n: int) -> nat
    decreases n,
{
    if n <= 0 {
        0
    } else {
        (eq_weighted_sum(point, evals, n - 1) + (eq_eval(point, point.len(), (n - 1) as nat)
            * evals[n - 1]@) % (P as nat)) % (P as nat)
    }
}

impl<const P: u64> DenseMultilinearExtension<P> {
    /// The value at `point`: the sum over the hypercube of `eq(x, point) * f(x)`.
    pub open spec fn spec_evaluate(&self, point: Seq<Fp<P>>) -> nat {
        eq_weighted_sum(point, self.evaluations@, self.evaluations@.len() as int)
    }

    /// Evaluates the multilinear extension at `point`.
    pub fn evaluate(&self, point: &[Fp<P>]) -> (r: Fp<P>)
        requires
            P > 1,
            self.wf(),
            point@.len() == self.num_vars,
        ensures
            r@ == self.spec_evaluate(point@),
    {
        let n = self.evaluations.len();
        proof {
            crate::basic_ops::row_perm_trace::lemma_pow2_fits_usize(self.num_vars as nat);
        }
        let eq = gen_identity_evaluations(point);
        let mut acc = Fp::<P>::zero();
        let mut x: usize = 0;
        while x < n
            invariant
                P > 1,
                n == self.evaluations@.len(),
                eq.evaluations@.len() == n,
                point@.len() == self.num_vars,
                forall|t: int| 0 <= t < n ==> (#[trigger] eq.evaluations@[t])@ == eq_eval(
                    point@,
                    point@.len() as nat,
                    t as nat,
                ),
                x <= n,
                acc@ == eq_weighted_sum(point@, self.evaluations@, x as int),
            decreases n - x,
        {
            acc = acc.add(eq.evaluations[x].mul(self.evaluations[x]));
            x = x + 1;
        }
        acc
    }
}

} // verus!
