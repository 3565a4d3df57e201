//! Radix-`2^bits` decomposition of field elements into limbs.
use crate::field::Fp;
use vstd::arithmetic::div_mod::*;
use vstd::arithmetic::mul::*;
use vstd::arithmetic::power2::*;
use vstd::bits::*;
use vstd::prelude::*;

verus! {

/// Number of binary digits of `n` (0 for `n == 0`).
pub open spec fn bit_len(n: nat) -> nat
    decreases n,
{
    if n == 0 {
        0
    } else {
        1 + bit_len(n / 2)
    }
}

/// The `j`-th limb of `x` in radix `2^bits`, least significant first.
pub open spec fn digit(x: nat, bits: nat, j: nat) -> nat {
    (x / pow2(bits * j)) % pow2(bits)
}

/// The first `n` limbs of `x` in radix `2^bits`.
pub open spec fn digits(x: nat, bits: nat, n: nat) -> Seq<nat> {
    Seq::new(n, |j: int| digit(x, bits, j as nat))
}

/// The integer whose radix-`2^bits` limbs (least significant first) are `ds`.
pub open spec fn recompose(ds: Seq<nat>, bits: nat) -> nat
    decreases ds.len(),
{
    if ds.len() == 0 {
        0
    } else {
        ds[0] + pow2(bits) * recompose(ds.drop_first(), bits)
    }
}

/// Every number is below two to the power of its bit length.
pub proof fn lemma_bit_len_bound(n: nat)
    ensures
        n < pow2(bit_len(n)),
    decreases n,
{
    if n == 0 {
        lemma_pow2_pos(0);
    } else {
        lemma_bit_len_bound(n / 2);
        lemma_pow2_unfold(bit_len(n));
    }
}

/// Dropping the lowest limb of `x` is the same as taking the limbs of `x / 2^bits`.
pub proof fn lemma_digit_shift(x: nat, bits: nat, j: nat)
    ensures
        digit(x, bits, j + 1) == digit(x / pow2(bits), bits, j),
{
    lemma_pow2_pos(bits);
    lemma_pow2_pos(bits * j);
    assert(bits * (j + 1) == bits + bits * j) by (nonlinear_arith);
    lemma_pow2_adds(bits, bits * j);
    lemma_div_denominator(x as int, pow2(bits) as int, pow2(bits * j) as int);
}

/// Shifting `x / 2^(bits * j)` right by `bits` more bits gives `x / 2^(bits * (j + 1))`.
pub proof fn lemma_shift_step(x: nat, bits: nat, j: nat)
    ensures
        (x / pow2(bits * j)) / pow2(bits) == x / pow2(bits * (j + 1)),
        (x / pow2(bits * j)) % pow2(bits) == digit(x, bits, j),
{
    lemma_pow2_pos(bits);
    lemma_pow2_pos(bits * j);
    lemma_div_denominator(x as int, pow2(bits * j) as int, pow2(bits) as int);
    lemma_pow2_adds(bits * j, bits);
    assert(bits * j + bits == bits * (j + 1)) by (nonlinear_arith);
}

/// No division happens before the first limb.
pub proof fn lemma_shift_zero(x: nat, bits: nat)
    ensures
        x / pow2(bits * 0) == x,
{
    assert(bits * 0 == 0);
    lemma2_to64();
}

/// Splits off the lowest `bits` bits of every entry of `rest`, returning them.
pub fn decompose_all<const P: u64>(rest: &mut Vec<Fp<P>>, mask: u64, bits: u32) -> (r: Vec<Fp<P>>)
    requires
        bits < 64,
        mask == low_bits_mask(bits as nat),
    ensures
        r@.len() == old(rest)@.len(),
        final(rest)@.len() == old(rest)@.len(),
        forall|i: int|
            0 <= i < r@.len() ==> {
                &&& (#[trigger] r@[i])@ == old(rest)@[i]@ % pow2(bits as nat)
                &&& final(rest)@[i]@ == old(rest)@[i]@ / pow2(bits as nat)
                &&& r@[i]@ < pow2(bits as nat)
            },
{
    let n = rest.len();
    let mut r: Vec<Fp<P>> = Vec::with_capacity(n);
    let mut i: usize = 0;
    while i < n
        invariant
            bits < 64,
            mask == low_bits_mask(bits as nat),
            n == old(rest)@.len(),
            rest@.len() == n,
            i <= n,
            r@.len() == i,
            forall|k: int|
                0 <= k < i ==> {
                    &&& (#[trigger] r@[k])@ == old(rest)@[k]@ % pow2(bits as nat)
                    &&& rest@[k]@ == old(rest)@[k]@ / pow2(bits as nat)
                    &&& r@[k]@ < pow2(bits as nat)
                },
            forall|k: int| i <= k < n ==> #[trigger] rest@[k] == old(rest)@[k],
        decreases n - i,
    {
        let mut x = rest[i];
        let d = x.decompose_lsb_bits(mask, bits);
        rest.set(i, x);
        r.push(d);
        i = i + 1;
    }
    r
}

/// The limbs of `x` recompose to `x` as soon as there are enough of them.
pub proof fn lemma_recompose_digits(x: nat, bits: nat, n: nat)
    requires
        x < pow2(bits * n),
    ensures
        recompose(digits(x, bits, n), bits) == x,
    decreases n,
{
    let ds = digits(x, bits, n);
    lemma_pow2_pos(bits);
    if n == 0 {
        assert(pow2(0) == 1) by {
            lemma2_to64();
        }
        assert(x == 0);
    } else {
        let y = x / pow2(bits);
        assert(bits * n == bits + bits * ((n - 1) as nat)) by (nonlinear_arith)
            requires
                n >= 1,
        ;
        lemma_pow2_adds(bits, bits * ((n - 1) as nat));
        lemma_pow2_pos(bits * ((n - 1) as nat));
        lemma_multiply_divide_lt(x as int, pow2(bits) as int, pow2(bits * ((n - 1) as nat)) as int);
        lemma_recompose_digits(y, bits, (n - 1) as nat);
        assert(ds.drop_first() =~= digits(y, bits, (n - 1) as nat)) by {
            assert forall|j: int| 0 <= j < n - 1 implies ds.drop_first()[j] == digits(
                y,
                bits,
                (n - 1) as nat,
            )[j] by {
                lemma_digit_shift(x, bits, j as nat);
            }
        }
        assert(ds[0] == x % pow2(bits)) by {
            assert(bits * 0 == 0);
            lemma2_to64();
        }
        lemma_fundamental_div_mod(x as int, pow2(bits) as int);
    }
}

/// A recomposition of limbs that are each below `2^bits` is below `2^(bits * len)`.
pub proof fn lemma_recompose_bound(ds: Seq<nat>, bits: nat)
    requires
        forall|j: int| 0 <= j < ds.len() ==> ds[j] < pow2(bits),
    ensures
        recompose(ds, bits) < pow2(bits * ds.len()),
    decreases ds.len(),
{
    lemma_pow2_pos(bits);
    if ds.len() == 0 {
        lemma2_to64();
    } else {
        let n = ds.len();
        lemma_recompose_bound(ds.drop_first(), bits);
        let r = recompose(ds.drop_first(), bits);
        assert(bits * n == bits + bits * ((n - 1) as nat)) by (nonlinear_arith)
            requires
                n >= 1,
        ;
        lemma_pow2_adds(bits, bits * ((n - 1) as nat));
        // ds[0] + 2^b * r <= (2^b - 1) + 2^b * (2^(b(n-1)) - 1) < 2^b * 2^(b(n-1))
        let bb = pow2(bits);
        let rr = pow2(bits * ((n - 1) as nat));
        assert(ds[0] + bb * r < bb * rr) by (nonlinear_arith)
            requires
                ds[0] < bb,
                r < rr,
        {
            assert(bb * r <= bb * (rr - 1));
        }
    }
}

/// Limbs below position `m` do not change when `x` is reduced modulo `2^(bits * m)`.
pub proof fn lemma_digit_of_low(x: nat, bits: nat, j: nat, m: nat)
    requires
        j < m,
    ensures
        digit(x % pow2(bits * m), bits, j) == digit(x, bits, j),
{
    let y = pow2(bits * j);
    let z = pow2(bits * ((m - j) as nat));
    let w = pow2(bits * ((m - j - 1) as nat));
    let bb = pow2(bits);
    lemma_pow2_pos(bits * j);
    lemma_pow2_pos(bits * ((m - j) as nat));
    lemma_pow2_pos(bits * ((m - j - 1) as nat));
    lemma_pow2_pos(bits);
    assert(bits * j + bits * ((m - j) as nat) == bits * m) by (nonlinear_arith)
        requires
            j < m,
    ;
    lemma_pow2_adds(bits * j, bits * ((m - j) as nat));
    assert(bits + bits * ((m - j - 1) as nat) == bits * ((m - j) as nat)) by (nonlinear_arith)
        requires
            j < m,
    ;
    lemma_pow2_adds(bits, bits * ((m - j - 1) as nat));
    lemma_mod_breakdown(x as int, y as int, z as int);
    lemma_mod_pos_bound(x as int, y as int);
    lemma_mod_pos_bound((x / y) as int, z as int);
    lemma_div_multiples_vanish_fancy(((x / y) % z) as int, (x % y) as int, y as int);
    lemma_mod_mod((x / y) as int, bb as int, w as int);
}

/// The top limb of a number with `m + 1` limbs is its quotient by `2^(bits * m)`.
pub proof fn lemma_top_digit(x: nat, bits: nat, m: nat)
    requires
        x < pow2(bits * (m + 1)),
    ensures
        digit(x, bits, m) == x / pow2(bits * m),
        x == pow2(bits * m) * digit(x, bits, m) + x % pow2(bits * m),
{
    let h = pow2(bits * m);
    lemma_pow2_pos(bits * m);
    lemma_pow2_pos(bits);
    assert(bits * m + bits == bits * (m + 1)) by (nonlinear_arith);
    lemma_pow2_adds(bits * m, bits);
    lemma_multiply_divide_lt(x as int, h as int, pow2(bits) as int);
    lemma_small_mod(x / h, pow2(bits));
    lemma_fundamental_div_mod(x as int, h as int);
}

/// Some limb of `x` is below the matching limb of `c` while all higher limbs agree.
pub open spec fn limbs_less(x: nat, c: nat, bits: nat, n: nat) -> bool {
    exists|j: nat|
        j < n && #[trigger] digit(x, bits, j) < digit(c, bits, j) && forall|k: nat|
            j < k < n ==> #[trigger] digit(x, bits, k) == digit(c, bits, k)
}

/// Comparing two `n`-limb numbers is comparing their limbs from the top down:
/// `x < c` exactly when, at the highest limb where they differ, the limb of `x` is smaller.
pub proof fn lemma_lt_by_limbs(x: nat, c: nat, bits: nat, n: nat)
    requires
        x < pow2(bits * n),
        c < pow2(bits * n),
    ensures
        x < c <==> limbs_less(x, c, bits, n),
    decreases n,
{
    if n == 0 {
        assert(bits * 0 == 0);
        lemma2_to64();
    } else {
        let m = (n - 1) as nat;
        let h = pow2(bits * m);
        lemma_pow2_pos(bits * m);
        lemma_top_digit(x, bits, m);
        lemma_top_digit(c, bits, m);
        let hx = digit(x, bits, m);
        let hc = digit(c, bits, m);
        let lx = x % h;
        let lc = c % h;
        lemma_mod_pos_bound(x as int, h as int);
        lemma_mod_pos_bound(c as int, h as int);
        lemma_lt_by_limbs(lx, lc, bits, m);
        assert forall|j: nat| j < m implies #[trigger] digit(lx, bits, j) == digit(x, bits, j) && digit(
            lc,
            bits,
            j,
        ) == digit(c, bits, j) by {
            lemma_digit_of_low(x, bits, j, m);
            lemma_digit_of_low(c, bits, j, m);
        }
        if hx < hc {
            assert(x < c) by (nonlinear_arith)
                requires
                    x == h * hx + lx,
                    c == h * hc + lc,
                    lx < h,
                    hx < hc,
            {
                assert(h * hx + h <= h * hc);
            }
            assert(digit(x, bits, m) < digit(c, bits, m));
            assert(limbs_less(x, c, bits, n));
        } else if hx > hc {
            assert(x > c) by (nonlinear_arith)
                requires
                    x == h * hx + lx,
                    c == h * hc + lc,
                    lc < h,
                    hx > hc,
            {
                assert(h * hc + h <= h * hx);
            }
            if limbs_less(x, c, bits, n) {
                let j = choose|j: nat|
                    j < n && #[trigger] digit(x, bits, j) < digit(c, bits, j) && forall|k: nat|
                        j < k < n ==> #[trigger] digit(x, bits, k) == digit(c, bits, k);
                if j < m {
                    assert(digit(x, bits, m) == digit(c, bits, m));
                }
            }
        } else {
            assert(x < c <==> lx < lc);
            if limbs_less(lx, lc, bits, m) {
                let j = choose|j: nat|
                    j < m && #[trigger] digit(lx, bits, j) < digit(lc, bits, j) && forall|k: nat|
                        j < k < m ==> #[trigger] digit(lx, bits, k) == digit(lc, bits, k);
                assert forall|k: nat| j < k < n implies #[trigger] digit(x, bits, k) == digit(
                    c,
                    bits,
                    k,
                ) by {
                    if k < m {
                        assert(digit(lx, bits, k) == digit(lc, bits, k));
                    }
                }
                assert(digit(x, bits, j) < digit(c, bits, j));
                assert(limbs_less(x, c, bits, n));
            }
            if limbs_less(x, c, bits, n) {
                let j = choose|j: nat|
                    j < n && #[trigger] digit(x, bits, j) < digit(c, bits, j) && forall|k: nat|
                        j < k < n ==> #[trigger] digit(x, bits, k) == digit(c, bits, k);
                assert(j < m);
                assert forall|k: nat| j < k < m implies #[trigger] digit(lx, bits, k) == digit(
                    lc,
                    bits,
                    k,
                ) by {
                    assert(digit(x, bits, k) == digit(c, bits, k));
                }
                assert(digit(lx, bits, j) < digit(lc, bits, j));
                assert(limbs_less(lx, lc, bits, m));
            }
        }
    }
}

/// Two `n`-limb numbers are equal exactly when all their limbs are.
pub proof fn lemma_eq_by_limbs(x: nat, c: nat, bits: nat, n: nat)
    requires
        x < pow2(bits * n),
        c < pow2(bits * n),
    ensures
        x == c <==> forall|j: nat| j < n ==> #[trigger] digit(x, bits, j) == digit(c, bits, j),
{
    if forall|j: nat| j < n ==> #[trigger] digit(x, bits, j) == digit(c, bits, j) {
        lemma_recompose_digits(x, bits, n);
        lemma_recompose_digits(c, bits, n);
        assert(digits(x, bits, n) =~= digits(c, bits, n));
    }
}

/// The number of limbs of `c` in radix `2^bits` up to its highest nonzero limb.
pub open spec fn limb_count(c: nat, bits: nat) -> nat
    decreases c,
{
    if c == 0 || bits == 0 {
        0
    } else {
        proof {
            lemma_pow2_strictly_increases(0, bits);
            lemma2_to64();
            lemma_div_decreases(c as int, pow2(bits) as int);
        }
        1 + limb_count(c / pow2(bits), bits)
    }
}

/// A `u64` has at most 64 limbs.
pub proof fn lemma_limb_count_bound(c: nat, bits: nat)
    requires
        bits > 0,
        c <= u64::MAX,
    ensures
        limb_count(c, bits) <= bit_len(c),
        limb_count(c, bits) <= 64,
    decreases c,
{
    if c > 0 {
        lemma_pow2_strictly_increases(0, bits);
        lemma2_to64();
        lemma_div_is_ordered_by_denominator(c as int, 2, pow2(bits) as int);
        lemma_div_decreases(c as int, pow2(bits) as int);
        lemma_limb_count_bound(c / pow2(bits), bits);
        lemma_bit_len_mono(c / pow2(bits), c / 2);
    }
    lemma_bit_len_u64(c);
}

/// The low `bits`-bit mask `2^bits - 1`.
pub fn mask(bits: u32) -> (r: u64)
    requires
        bits < 64,
    ensures
        r == low_bits_mask(bits as nat),
{
    proof {
        lemma_u64_pow2_no_overflow(bits as nat);
        lemma_u64_shl_is_mul(1, bits as u64);
    }
    (1u64 << (bits as u64)) - 1
}

/// `2^n` as a `usize`.
pub fn pow2_usize(n: usize) -> (r: usize)
    requires
        n < usize::BITS,
    ensures
        r == pow2(n as nat),
{
    proof {
        lemma_usize_pow2_no_overflow(n as nat);
        lemma_usize_shl_is_mul(1, n);
    }
    1usize << n
}

/// `2^n` as a `u64`.
pub fn pow2_u64(n: u64) -> (r: u64)
    requires
        n < 64,
    ensures
        r == pow2(n as nat),
{
    proof {
        lemma_u64_pow2_no_overflow(n as nat);
        lemma_u64_shl_is_mul(1, n);
    }
    1u64 << n
}

/// The number of binary digits of `n`.
pub fn bit_length(n: u64) -> (r: u32)
    ensures
        r == bit_len(n as nat),
        r <= 64,
{
    let mut m = n;
    let mut c: u32 = 0;
    proof {
        lemma_bit_len_u64(n as nat);
    }
    while m > 0
        invariant
            c + bit_len(m as nat) == bit_len(n as nat),
            c + m <= 64 + m,
            bit_len(m as nat) + c <= 64,
        decreases m,
    {
        m = m / 2;
        c = c + 1;
    }
    c
}

pub proof fn lemma_bit_len_u64(n: nat)
    requires
        n <= u64::MAX,
    ensures
        bit_len(n) <= 64,
{
    lemma2_to64_rest();
    lemma_bit_len_le(n, 64);
}

/// A larger number has at least as many binary digits.
pub proof fn lemma_bit_len_mono(a: nat, b: nat)
    requires
        a <= b,
    ensures
        bit_len(a) <= bit_len(b),
    decreases b,
{
    if a > 0 {
        lemma_bit_len_mono(a / 2, b / 2);
    }
}

/// A number below `2^k` has at most `k` binary digits.
pub proof fn lemma_bit_len_le(n: nat, k: nat)
    requires
        n < pow2(k),
    ensures
        bit_len(n) <= k,
    decreases k,
{
    if n > 0 {
        if k == 0 {
            lemma2_to64();
        } else {
            lemma_pow2_unfold(k);
            lemma_bit_len_le(n / 2, (k - 1) as nat);
        }
    }
}

/// Parameters of a radix-`2^bits` decomposition of the elements of the field `Fp<P>`.
#[derive(Clone, Copy, Debug)]
pub struct Basis<const P: u64> {
    bits: u32,
    decompose_len: usize,
    mask: u64,
}

impl<const P: u64> Basis<P> {
    /// Well-formedness: the mask and the number of limbs match `bits` and `P`.
    pub open spec fn wf(self) -> bool {
        &&& 0 < self.spec_bits() < 64
        &&& self.spec_mask() == low_bits_mask(self.spec_bits() as nat)
        &&& self.spec_decompose_len() == (bit_len(P as nat) + self.spec_bits() - 1) / (
        self.spec_bits() as int)
    }

    pub closed spec fn spec_bits(self) -> u32 {
        self.bits
    }

    pub closed spec fn spec_decompose_len(self) -> usize {
        self.decompose_len
    }

    pub closed spec fn spec_mask(self) -> u64 {
        self.mask
    }

    /// The basis with limbs of `bits` bits; the number of limbs covers every element of the field.
    pub fn new(bits: u32) -> (r: Self)
        requires
            0 < bits < 64,
        ensures
            r.wf(),
            r.spec_bits() == bits,
    {
        let len_p = bit_length(P);
        let decompose_len = ((len_p + bits - 1) / bits) as usize;
        Basis { bits, decompose_len, mask: mask(bits) }
    }

    pub fn bits(&self) -> (r: u32)
        ensures
            r == self.spec_bits(),
    {
        self.bits
    }

    pub fn decompose_len(&self) -> (r: usize)
        ensures
            r == self.spec_decompose_len(),
    {
        self.decompose_len
    }

    pub fn mask(&self) -> (r: u64)
        ensures
            r == self.spec_mask(),
    {
        self.mask
    }
}

/// With a well-formed basis, the limbs cover every canonical field element.
pub proof fn lemma_basis_covers<const P: u64>(basis: Basis<P>, x: nat)
    requires
        basis.wf(),
        x < P,
    ensures
        x < pow2(basis.spec_bits() as nat * basis.spec_decompose_len() as nat),
{
    let b = basis.spec_bits() as nat;
    let l = bit_len(P as nat);
    let n = basis.spec_decompose_len() as nat;
    lemma_bit_len_bound(P as nat);
    assert(b * n >= l) by (nonlinear_arith)
        requires
            b > 0,
            n == (l + b - 1) / (b as int),
    {
        lemma_fundamental_div_mod((l + b - 1) as int, b as int);
    }
    if b * n > l {
        lemma_pow2_strictly_increases(l, b * n);
    }
}

} // verus!
