//! Prime-field elements with a compile-time modulus.
use vstd::arithmetic::div_mod::*;
use vstd::arithmetic::power2::*;
use vstd::bits::*;
use vstd::prelude::*;

verus! {

/// An element of the prime field with modulus `P`, always kept in canonical form
/// (its representative lies in `[0, P)`).
#[derive(Clone, Copy, Debug)]
pub struct Fp<const P: u64> {
    v: u64,
}

impl<const P: u64> View for Fp<P> {
    type V = nat;

    closed spec fn view(&self) -> nat {
        self.v as nat
    }
}

impl<const P: u64> PartialEq for Fp<P> {
    fn eq(&self, other: &Self) -> (r: bool) {
        self.v == other.v
    }
}

impl<const P: u64> vstd::std_specs::cmp::PartialEqSpecImpl for Fp<P> {
    open spec fn obeys_eq_spec() -> bool {
        true
    }

    open spec fn eq_spec(&self, other: &Self) -> bool {
        self@ == other@
    }
}

impl<const P: u64> Eq for Fp<P> {}

/// Two field elements are equal exactly when their canonical values are equal.
pub proof fn lemma_fp_view_injective<const P: u64>(a: Fp<P>, b: Fp<P>)
    ensures
        (a@ == b@) <==> a == b,
{
}

impl<const P: u64> Fp<P> {
    #[verifier::type_invariant]
    spec fn canonical(self) -> bool {
        self.v < P
    }

    /// The modulus of the field.
    pub fn modulus() -> (r: u64)
        ensures
            r == P,
    {
        P
    }

    /// The field element `x mod P`.
    pub fn new(x: u64) -> (r: Self)
        requires
            P > 1,
        ensures
            r@ == (x as nat) % (P as nat),
            r@ < P,
    {
        Fp { v: x % P }
    }

    pub fn zero() -> (r: Self)
        requires
            P > 1,
        ensures
            r@ == 0,
    {
        Fp { v: 0 }
    }

    pub fn one() -> (r: Self)
        requires
            P > 1,
        ensures
            r@ == 1,
    {
        Fp { v: 1 }
    }

    /// A field element sampled from `rng`.
    pub fn random(rng: &mut rand::rngs::ThreadRng) -> (r: Self)
        requires
            P > 1,
        ensures
            r@ < P,
    {
        let v = crate::random::random_below(rng, P);
        Fp { v }
    }

    /// The canonical representative of this element.
    pub fn value(&self) -> (r: u64)
        ensures
            r == self@,
            r < P,
    {
        proof {
            use_type_invariant(self);
        }
        self.v
    }

    pub fn is_zero(&self) -> (r: bool)
        ensures
            r == (self@ == 0),
    {
        self.v == 0
    }

    pub fn add(self, other: Self) -> (r: Self)
        ensures
            r@ == (self@ + other@) % (P as nat),
            r@ < P,
    {
        proof {
            use_type_invariant(&self);
            use_type_invariant(&other);
        }
        let s: u128 = self.v as u128 + other.v as u128;
        let r: u128 = s % (P as u128);
        Fp { v: r as u64 }
    }

    pub fn neg(self) -> (r: Self)
        ensures
            r@ == (-(self@ as int)) % (P as int),
            r@ < P,
    {
        proof {
            use_type_invariant(&self);
            lemma_mod_add_multiples_vanish(-(self.v as int), P as int);
        }
        let r: u64 = (P - self.v) % P;
        Fp { v: r }
    }

    pub fn sub(self, other: Self) -> (r: Self)
        ensures
            r@ == (self@ - other@) % (P as int),
            r@ < P,
    {
        proof {
            use_type_invariant(&self);
            use_type_invariant(&other);
            lemma_mod_add_multiples_vanish(self.v as int - other.v as int, P as int);
        }
        let s: u128 = self.v as u128 + (P - other.v) as u128;
        let r: u128 = s % (P as u128);
        Fp { v: r as u64 }
    }

    pub fn mul(self, other: Self) -> (r: Self)
        ensures
            r@ == (self@ * other@) % (P as nat),
            r@ < P,
    {
        proof {
            use_type_invariant(&self);
            use_type_invariant(&other);
            vstd::arithmetic::mul::lemma_mul_upper_bound(
                self.v as int, u64::MAX as int, other.v as int, u64::MAX as int);
        }
        let m: u128 = (self.v as u128) * (other.v as u128);
        let r: u128 = m % (P as u128);
        Fp { v: r as u64 }
    }

    /// Splits off the least significant `bits` bits of this element:
    /// returns them as a field element and shifts this element right by `bits`.
    pub fn decompose_lsb_bits(&mut self, mask: u64, bits: u32) -> (r: Self)
        requires
            bits < 64,
            mask == low_bits_mask(bits as nat),
        ensures
            r@ == old(self)@ % pow2(bits as nat),
            final(self)@ == old(self)@ / pow2(bits as nat),
            r@ < pow2(bits as nat),
    {
        proof {
            use_type_invariant(&*self);
            lemma_u64_low_bits_mask_is_mod(self.v, bits as nat);
            lemma_u64_shr_is_div(self.v, bits as u64);
            lemma_pow2_pos(bits as nat);
            lemma_u64_pow2_no_overflow(bits as nat);
            lemma_mod_decreases(self.v as nat, pow2(bits as nat));
            lemma_div_is_ordered_by_denominator(self.v as int, 1, pow2(bits as nat) as int);
        }
        let digit = self.v & mask;
        let rest = self.v >> (bits as u64);
        self.v = rest;
        Fp { v: digit }
    }
}

/// `x` has a multiplicative inverse modulo `P`.
pub open spec fn invertible(x: nat, p: nat) -> bool {
    exists|y: nat| y < p && #[trigger] ((x * y) % p) == 1
}

/// `d` divides `a`.
pub open spec fn divides(d: int, a: int) -> bool {
    a % d == 0
}

proof fn lemma_divides_linear(d: int, a: int, b: int, q: int)
    requires
        d > 0,
        divides(d, a),
        divides(d, b),
    ensures
        divides(d, a + q * b),
        divides(d, a - q * b),
{
    lemma_fundamental_div_mod(a, d);
    lemma_fundamental_div_mod(b, d);
    let ka = a / d;
    let kb = b / d;
    assert(a + q * b == d * (ka + q * kb)) by (nonlinear_arith)
        requires
            a == d * ka,
            b == d * kb,
    ;
    assert(a - q * b == d * (ka - q * kb)) by (nonlinear_arith)
        requires
            a == d * ka,
            b == d * kb,
    ;
    lemma_mod_multiples_basic(ka + q * kb, d);
    lemma_mod_multiples_basic(ka - q * kb, d);
    vstd::arithmetic::mul::lemma_mul_is_commutative(d, ka + q * kb);
    vstd::arithmetic::mul::lemma_mul_is_commutative(d, ka - q * kb);
}

/// A common divisor above one of `x` and `p` rules out an inverse of `x` modulo `p`.
proof fn lemma_common_divisor_not_invertible(g: int, x: nat, p: nat)
    requires
        g > 1,
        p > 1,
        divides(g, x as int),
        divides(g, p as int),
    ensures
        !invertible(x, p),
{
    if invertible(x, p) {
        let y = choose|y: nat| y < p && #[trigger] ((x * y) % p) == 1;
        lemma_fundamental_div_mod((x * y) as int, p as int);
        let m = (x * y) / p;
        // x * y == p * m + 1, so g divides 1
        lemma_fundamental_div_mod(x as int, g);
        let kx = x as int / g;
        assert(x * y == g * (kx * y)) by (nonlinear_arith)
            requires
                x as int == g * kx,
        ;
        lemma_mod_multiples_basic(kx * y, g);
        vstd::arithmetic::mul::lemma_mul_is_commutative(g, kx * y);
        assert(divides(g, (x * y) as int));
        lemma_divides_linear(g, (x * y) as int, p as int, m as int);
        assert((x * y) as int - m * p == 1) by (nonlinear_arith)
            requires
                (x * y) as int == p * m + 1,
        ;
        lemma_small_mod(1, g as nat);
    }
}

impl<const P: u64> Fp<P> {
    /// The multiplicative inverse, when there is one (extended Euclidean algorithm).
    pub fn inverse(&self) -> (r: Option<Self>)
        requires
            P > 1,
        ensures
            r is Some <==> invertible(self@, P as nat),
            r matches Some(y) ==> (self@ * y@) % (P as nat) == 1,
    {
        proof {
            use_type_invariant(self);
        }
        let x = self.v;
        let mut r0: u64 = P;
        let mut r1: u64 = x;
        let mut t0: Self = Fp { v: 0 };
        let mut t1: Self = Fp { v: 1 % P };
        proof {
            lemma_small_mod(0, P as nat);
            lemma_mod_self_0(P as int);
            lemma_mod_multiples_basic(x as int, P as int);
            vstd::arithmetic::mul::lemma_mul_is_commutative(x as int, P as int);
            lemma_small_mod(1, P as nat);
            assert(t1@ == 1);
            assert(t1@ * x == x);
        }
        while r1 != 0
            invariant
                P > 1,
                P > x,
                r1 < r0 <= P,
                (r0 as int) % (P as int) == (t0@ * x) as int % (P as int),
                (r1 as int) % (P as int) == (t1@ * x) as int % (P as int),
                forall|d: int| d > 0 && #[trigger] divides(d, r0 as int) && divides(d, r1 as int) ==> divides(d, P as int)
                    && divides(d, x as int),
            decreases r1,
        {
            let q = r0 / r1;
            let r2 = r0 % r1;
            let qf = Fp::<P>::new(q);
            let t2 = t0.sub(qf.mul(t1));
            proof {
                lemma_fundamental_div_mod(r0 as int, r1 as int);
                lemma_mod_pos_bound(r0 as int, r1 as int);
                assert(r2 as int == r0 as int - q * r1) by (nonlinear_arith)
                    requires
                        r0 as int == r1 * (r0 as int / r1 as int) + r0 as int % r1 as int,
                        q == r0 / r1,
                        r2 == r0 % r1,
                ;
                // r2 == t2 * x (mod P)
                lemma_mod_mul_congruence_step(r0 as int, r1 as int, q as int, t0@ as int, t1@ as int, qf@ as int, t2@ as int, x as int, P as int);
                assert forall|d: int| d > 0 && #[trigger] divides(d, r1 as int) && divides(d, r2 as int) implies divides(d, P as int)
                    && divides(d, x as int) by {
                    lemma_divides_linear(d, r2 as int, r1 as int, q as int);
                    assert(r2 + q * r1 == r0);
                    assert(divides(d, r0 as int));
                }
            }
            r0 = r1;
            r1 = r2;
            t0 = t1;
            t1 = t2;
        }
        if r0 == 1 {
            proof {
                lemma_small_mod(1, P as nat);
                vstd::arithmetic::mul::lemma_mul_is_commutative(t0@ as int, x as int);
                lemma_mod_pos_bound(t0@ as int, P as int);
                use_type_invariant(&t0);
                assert(((x as nat) * t0@) % (P as nat) == 1);
                let y = t0@;
                assert(y < P as nat && ((self@ * y) % (P as nat)) == 1);
                assert(invertible(self@, P as nat));
            }
            Some(t0)
        } else {
            proof {
                assert(divides(r0 as int, r0 as int)) by {
                    lemma_mod_self_0(r0 as int);
                }
                assert(divides(r0 as int, 0)) by {
                    lemma_small_mod(0, r0 as nat);
                }
                lemma_common_divisor_not_invertible(r0 as int, x as nat, P as nat);
            }
            None
        }
    }
}

/// One step of the extended Euclidean algorithm keeps `r = t * x (mod P)`.
proof fn lemma_mod_mul_congruence_step(r0: int, r1: int, q: int, t0: int, t1: int, qf: int, t2: int, x: int, p: int)
    requires
        p > 1,
        r0 % p == (t0 * x) % p,
        r1 % p == (t1 * x) % p,
        qf == q % p,
        t2 == (t0 - (qf * t1) % p) % p,
    ensures
        (r0 - q * r1) % p == (t2 * x) % p,
{
    let a = t0 * x;
    let b = q * (t1 * x);
    // left side
    lemma_sub_mod_noop(r0, q * r1, p);
    lemma_mul_mod_noop_right(q, r1, p);
    lemma_mul_mod_noop_right(q, t1 * x, p);
    assert((q * r1) % p == b % p);
    lemma_sub_mod_noop(a, b, p);
    assert((r0 - q * r1) % p == (a - b) % p);
    // right side
    lemma_mul_mod_noop_left(t0 - (qf * t1) % p, x, p);
    lemma_sub_mod_noop(t0, (qf * t1) % p, p);
    lemma_mod_twice(qf * t1, p);
    lemma_sub_mod_noop(t0, qf * t1, p);
    assert((t0 - (qf * t1) % p) % p == (t0 - qf * t1) % p);
    lemma_mul_mod_noop_left(t0 - qf * t1, x, p);
    assert((t2 * x) % p == ((t0 - qf * t1) * x) % p);
    assert((t0 - qf * t1) * x == a - qf * (t1 * x)) by (nonlinear_arith)
        requires
            a == t0 * x,
    ;
    lemma_mul_mod_noop_left(qf, t1 * x, p);
    lemma_mul_mod_noop_left(q, t1 * x, p);
    lemma_mod_twice(q, p);
    assert((qf * (t1 * x)) % p == b % p);
    lemma_sub_mod_noop(a, qf * (t1 * x), p);
}

impl<const P: u64> Fp<P> {
    /// The quotient `self / other`: the element whose product with `other` is `self`.
    pub fn div(self, other: Self) -> (r: Self)
        requires
            P > 1,
            invertible(other@, P as nat),
        ensures
            (r@ * other@) % (P as nat) == self@,
            r@ < P,
    {
        proof {
            use_type_invariant(&self);
        }
        let inv = other.inverse().unwrap();
        let r = self.mul(inv);
        proof {
            let p = P as int;
            // r * other = self * inv * other = self * (inv * other) = self
            lemma_mul_mod_noop_left(self@ as int * inv@ as int, other@ as int, p);
            vstd::arithmetic::mul::lemma_mul_is_associative(self@ as int, inv@ as int, other@ as int);
            vstd::arithmetic::mul::lemma_mul_is_commutative(inv@ as int, other@ as int);
            lemma_mul_mod_noop_right(self@ as int, inv@ as int * other@ as int, p);
            lemma_small_mod(self@, P as nat);
        }
        r
    }
}

/// Multiplying by an invertible element is one-to-one on canonical values.
pub proof fn lemma_cancel_invertible(r1: nat, r2: nat, b: nat, p: nat)
    requires
        p > 1,
        r1 < p,
        r2 < p,
        invertible(b, p),
        (r1 * b) % p == (r2 * b) % p,
    ensures
        r1 == r2,
{
    let y = choose|y: nat| y < p && #[trigger] ((b * y) % p) == 1;
    let pi = p as int;
    // r = r * (b * y) = (r * b) * y  (mod p)
    lemma_mul_mod_noop_right(r1 as int, (b * y) as int, pi);
    lemma_mul_mod_noop_right(r2 as int, (b * y) as int, pi);
    vstd::arithmetic::mul::lemma_mul_is_associative(r1 as int, b as int, y as int);
    vstd::arithmetic::mul::lemma_mul_is_associative(r2 as int, b as int, y as int);
    lemma_mul_mod_noop_left((r1 * b) as int, y as int, pi);
    lemma_mul_mod_noop_left((r2 * b) as int, y as int, pi);
    lemma_small_mod(r1, p);
    lemma_small_mod(r2, p);
    // r1 = (r1 * (b * y)) % p = ((r1 * b) * y) % p
    assert((r1 * (b * y)) % p == r1) by {
        lemma_mul_mod_noop_right(r1 as int, (b * y) as int, pi);
        assert(r1 * 1 == r1);
    }
    assert((r2 * (b * y)) % p == r2) by {
        lemma_mul_mod_noop_right(r2 as int, (b * y) as int, pi);
        assert(r2 * 1 == r2);
    }
    assert(r1 * (b * y) == (r1 * b) * y);
    assert(r2 * (b * y) == (r2 * b) * y);
    assert((((r1 * b) % p) * y) % p == (((r2 * b) % p) * y) % p);
}

} // verus!
