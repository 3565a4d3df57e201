//! Row permutations of a matrix stored row by row, optionally with a sign per row.
use crate::basis::pow2_usize;
use crate::field::Fp;
use crate::lookup_trace::indexed_table::IndexedLookupTraceMLE;
use crate::mle::{eq_eval, gen_identity_evaluations, DenseMultilinearExtension};
use rand::rngs::ThreadRng;
use std::rc::Rc;
use vstd::arithmetic::power2::*;
use vstd::prelude::*;
use vstd::relations::injective_on;
use vstd::set_lib::*;

verus! {

/// `t` maps `[0, n)` one-to-one onto itself.
pub open spec fn is_permutation(t: Seq<usize>, n: nat) -> bool {
    &&& t.len() == n
    &&& forall|i: int| 0 <= i < n ==> #[trigger] t[i] < n
    &&& forall|i: int, j: int| 0 <= i < n && 0 <= j < n && i != j ==> #[trigger] t[i] != #[trigger] t[j]
}

/// Some position of `t` below `n` holds `j`.
pub open spec fn hits(t: Seq<usize>, n: nat, j: int) -> bool {
    exists|i: int| 0 <= i < n && #[trigger] t[i] == j
}

/// A permutation of `[0, n)` reaches every element of `[0, n)`.
pub proof fn lemma_permutation_surjective(t: Seq<usize>, n: nat)
    requires
        is_permutation(t, n),
    ensures
        forall|j: int| 0 <= j < n ==> #[trigger] hits(t, n, j),
{
    let x = set_int_range(0, n as int);
    let f = |i: int| t[i] as int;
    let y = x.map(f);
    lemma_int_range(0, n as int);
    assert(injective_on(f, x)) by {
        assert forall|a: int, b: int| x.contains(a) && x.contains(b) && #[trigger] f(a) == #[trigger] f(b) implies a == b by {
            if a != b {
                assert(t[a] != t[b]);
            }
        }
    }
    lemma_map_size(x, y, f);
    assert(y.subset_of(x)) by {
        assert forall|v: int| y.contains(v) implies x.contains(v) by {
            let i = choose|i: int| x.contains(i) && f(i) == v;
            assert(t[i] < n);
        }
    }
    lemma_subset_equality(y, x);
    assert forall|j: int| 0 <= j < n implies #[trigger] hits(t, n, j) by {
        assert(x.contains(j));
        assert(y.contains(j));
        let i = choose|i: int| x.contains(i) && f(i) == j;
        assert(t[i] == j);
    }
}

/// The rotation of `[0, range)` to the left by `offset`, identity beyond `range`.
pub open spec fn rotation_left(range: nat, offset: nat, x: nat) -> nat {
    if x < range {
        (x + offset) % range
    } else {
        x
    }
}

/// The key-switching permutation of `[0, num)` in blocks of `blk_size`: block starts map to
/// `num - x` (and `0` to itself), the rest of block `c` maps onto block `num/blk_size - 1 - c`
/// in the same place.
pub open spec fn ks_permutation(num: nat, blk_size: nat, x: nat) -> nat {
    let s = (x - x % blk_size) as nat;
    if x == s {
        if x == 0 {
            0
        } else {
            (num - x) as nat
        }
    } else {
        (num - 2 * s - blk_size + x) as nat
    }
}

/// The sign of the key-switching permutation: minus one at every block start except `0`.
pub open spec fn ks_sign_is_negative(blk_size: nat, x: nat) -> bool {
    x % blk_size == 0 && x != 0
}

/// The sample-extraction permutation of `[0, num)`: `0` to itself, `x` to `num - x`.
pub open spec fn sample_extraction_permutation(num: nat, x: nat) -> nat {
    if x == 0 {
        0
    } else {
        (num - x) as nat
    }
}

/// The sign and the permutation as field elements, for a signed permutation.
#[derive(Clone, Debug)]
pub struct PermutationSignedInfo<const P: u64> {
    pub log_dim: usize,
    pub permutation: Vec<Fp<P>>,
    pub sign: Vec<Fp<P>>,
}

/// A permutation of `[0, 2^log_num)`, optionally with a sign per position.
#[derive(Clone, Debug)]
pub struct PermutationInfo<const P: u64> {
    pub log_num: usize,
    pub permutation_table: Vec<usize>,
    pub signed: Option<PermutationSignedInfo<P>>,
}

/// A power of two that fits in a `usize` has an exponent below `usize::BITS`.
pub proof fn lemma_pow2_fits_usize(k: nat)
    requires
        pow2(k) <= usize::MAX,
    ensures
        k < usize::BITS,
{
    lemma2_to64();
    lemma2_to64_rest();
    if k > usize::BITS {
        lemma_pow2_strictly_increases(usize::BITS as nat, k);
    }
}

/// The base-two logarithm of a power of two.
pub fn log2_of_power_of_two(num: usize) -> (r: usize)
    requires
        exists|k: nat| pow2(k) == num,
    ensures
        pow2(r as nat) == num,
        r < usize::BITS,
{
    let ghost k = choose|k: nat| pow2(k) == num;
    proof {
        lemma_pow2_fits_usize(k);
        lemma2_to64();
    }
    let mut m = num;
    let mut r: usize = 0;
    while m > 1
        invariant
            k < usize::BITS,
            r <= k,
            m == pow2((k - r) as nat),
            num == pow2(k),
        decreases m,
    {
        proof {
            if k == r {
                lemma2_to64();
            }
            lemma_pow2_unfold((k - r) as nat);
        }
        m = m / 2;
        r = r + 1;
    }
    proof {
        if k > r {
            lemma_pow2_strictly_increases(0, (k - r) as nat);
        }
    }
    r
}

impl<const P: u64> PermutationInfo<P> {
    /// The permutation table is defined on the whole of `[0, 2^log_num)`.
    pub open spec fn covers(&self) -> bool {
        &&& self.log_num < usize::BITS
        &&& self.permutation_table@.len() == pow2(self.log_num as nat)
        &&& forall|i: int|
            0 <= i < self.permutation_table@.len() ==> #[trigger] self.permutation_table@[i] < pow2(
                self.log_num as nat,
            )
    }

    /// Rotation of the first `range` positions to the left by `offset`.
    pub fn new_rotation_left(log_num: usize, range: usize, offset: usize) -> (r: Self)
        requires
            log_num < usize::BITS,
            range <= pow2(log_num as nat),
            offset <= range,
        ensures
            r.log_num == log_num,
            r.signed is None,
            r.permutation_table@.len() == pow2(log_num as nat),
            forall|x: int|
                0 <= x < pow2(log_num as nat) ==> #[trigger] r.permutation_table@[x] == rotation_left(
                    range as nat,
                    offset as nat,
                    x as nat,
                ),
    {
        let n = pow2_usize(log_num);
        let mut table: Vec<usize> = Vec::with_capacity(n);
        let mut x: usize = 0;
        while x < n
            invariant
                n == pow2(log_num as nat),
                range <= n,
                offset <= range,
                x <= n,
                table@.len() == x,
                forall|k: int| 0 <= k < x ==> #[trigger] table@[k] == rotation_left(range as nat, offset as nat, k as nat),
            decreases n - x,
        {
            if x < range {
                let y = if x < range - offset { x + offset } else { x - (range - offset) };
                proof {
                    if x < range - offset {
                        vstd::arithmetic::div_mod::lemma_small_mod((x + offset) as nat, range as nat);
                    } else {
                        vstd::arithmetic::div_mod::lemma_mod_sub_multiples_vanish((x + offset) as int, range as int);
                        vstd::arithmetic::div_mod::lemma_small_mod((x + offset - range) as nat, range as nat);
                    }
                }
                table.push(y);
            } else {
                table.push(x);
            }
            x = x + 1;
        }
        PermutationInfo { log_num, permutation_table: table, signed: None }
    }

    /// The key-switching permutation of `[0, num)` in blocks of `blk_size`, with its signs.
    pub fn new_ks_permutation(num: usize, blk_size: usize) -> (r: Self)
        requires
            P > 1,
            exists|k: nat| pow2(k) == num,
            exists|k: nat| pow2(k) == blk_size,
            num % blk_size == 0,
        ensures
            pow2(r.log_num as nat) == num,
            r.permutation_table@.len() == num,
            forall|x: int|
                0 <= x < num ==> #[trigger] r.permutation_table@[x] == ks_permutation(
                    num as nat,
                    blk_size as nat,
                    x as nat,
                ),
            r.signed is Some,
            r.signed->0.log_dim == r.log_num,
            r.signed->0.permutation@.len() == num,
            r.signed->0.sign@.len() == num,
            forall|x: int|
                0 <= x < num ==> (#[trigger] r.signed->0.permutation@[x])@ == ((r.permutation_table@[x] as u32) as nat) % (P as nat),
            forall|x: int|
                0 <= x < num ==> (#[trigger] r.signed->0.sign@[x])@ == (if ks_sign_is_negative(blk_size as nat, x as nat) {
                    (P - 1) as nat
                } else {
                    1nat
                }),
    {
        let log_num = log2_of_power_of_two(num);
        let _log_blk = log2_of_power_of_two(blk_size);
        let one = Fp::<P>::one();
        let minus_one = one.neg();
        proof {
            vstd::arithmetic::div_mod::lemma_mod_add_multiples_vanish(-1, P as int);
            vstd::arithmetic::div_mod::lemma_small_mod((P - 1) as nat, P as nat);
            lemma_pow2_pos(_log_blk as nat);
        }
        let mut table: Vec<usize> = Vec::with_capacity(num);
        let mut sign: Vec<Fp<P>> = Vec::with_capacity(num);
        let mut x: usize = 0;
        while x < num
            invariant
                P > 1,
                blk_size > 0,
                num % blk_size == 0,
                one@ == 1,
                minus_one@ == (P - 1) as nat,
                x <= num,
                table@.len() == x,
                sign@.len() == x,
                forall|k: int| 0 <= k < x ==> #[trigger] table@[k] == ks_permutation(num as nat, blk_size as nat, k as nat),
                forall|k: int|
                    0 <= k < x ==> (#[trigger] sign@[k])@ == (if ks_sign_is_negative(blk_size as nat, k as nat) {
                        (P - 1) as nat
                    } else {
                        1nat
                    }),
            decreases num - x,
        {
            let d = x % blk_size;
            proof {
                lemma_block_start_bound(x as nat, num as nat, blk_size as nat);
            }
            let s = x - d;
            if d == 0 {
                if x == 0 {
                    table.push(0);
                } else {
                    table.push(num - x);
                }
            } else {
                table.push((num - blk_size - s) + x - s);
            }
            if d == 0 && x != 0 {
                sign.push(minus_one);
            } else {
                sign.push(one);
            }
            x = x + 1;
        }
        let permutation = table_to_field(&table);
        PermutationInfo {
            log_num,
            permutation_table: table,
            signed: Some(PermutationSignedInfo { log_dim: log_num, permutation, sign }),
        }
    }

    /// The sample-extraction permutation of `[0, num)`, with sign `+1` at `0` and `-1` elsewhere.
    pub fn new_sample_extraction_permutation(num: usize) -> (r: Self)
        requires
            P > 1,
            exists|k: nat| pow2(k) == num,
        ensures
            pow2(r.log_num as nat) == num,
            r.permutation_table@.len() == num,
            forall|x: int|
                0 <= x < num ==> #[trigger] r.permutation_table@[x] == sample_extraction_permutation(
                    num as nat,
                    x as nat,
                ),
            r.signed is Some,
            r.signed->0.log_dim == r.log_num,
            r.signed->0.permutation@.len() == num,
            r.signed->0.sign@.len() == num,
            forall|x: int|
                0 <= x < num ==> (#[trigger] r.signed->0.permutation@[x])@ == ((r.permutation_table@[x] as u32) as nat) % (P as nat),
            forall|x: int|
                0 <= x < num ==> (#[trigger] r.signed->0.sign@[x])@ == (if x == 0 {
                    1nat
                } else {
                    (P - 1) as nat
                }),
    {
        let log_num = log2_of_power_of_two(num);
        let one = Fp::<P>::one();
        let minus_one = one.neg();
        proof {
            vstd::arithmetic::div_mod::lemma_mod_add_multiples_vanish(-1, P as int);
            vstd::arithmetic::div_mod::lemma_small_mod((P - 1) as nat, P as nat);
        }
        let mut table: Vec<usize> = Vec::with_capacity(num);
        let mut sign: Vec<Fp<P>> = Vec::with_capacity(num);
        let mut x: usize = 0;
        while x < num
            invariant
                P > 1,
                one@ == 1,
                minus_one@ == (P - 1) as nat,
                x <= num,
                table@.len() == x,
                sign@.len() == x,
                forall|k: int| 0 <= k < x ==> #[trigger] table@[k] == sample_extraction_permutation(num as nat, k as nat),
                forall|k: int|
                    0 <= k < x ==> (#[trigger] sign@[k])@ == (if k == 0 {
                        1nat
                    } else {
                        (P - 1) as nat
                    }),
            decreases num - x,
        {
            if x == 0 {
                table.push(0);
                sign.push(one);
            } else {
                table.push(num - x);
                sign.push(minus_one);
            }
            x = x + 1;
        }
        let permutation = table_to_field(&table);
        PermutationInfo {
            log_num,
            permutation_table: table,
            signed: Some(PermutationSignedInfo { log_dim: log_num, permutation, sign }),
        }
    }

    /// The inverse permutation: position `p` holds the (last) index `i` with `table[i] == p`.
    pub fn get_inverse_permutation(&self) -> (r: Self)
        requires
            self.log_num < usize::BITS,
            forall|i: int|
                0 <= i < self.permutation_table@.len() ==> #[trigger] self.permutation_table@[i] < pow2(
                    self.log_num as nat,
                ),
        ensures
            r.log_num == self.log_num,
            r.signed is None,
            r.permutation_table@.len() == pow2(self.log_num as nat),
            forall|j: int|
                0 <= j < pow2(self.log_num as nat) ==> is_last_preimage(
                    self.permutation_table@,
                    j,
                    #[trigger] r.permutation_table@[j],
                ),
    {
        let n = pow2_usize(self.log_num);
        let t = &self.permutation_table;
        let mut inv: Vec<usize> = Vec::with_capacity(n);
        let mut j: usize = 0;
        while j < n
            invariant
                j <= n,
                inv@.len() == j,
                forall|k: int| 0 <= k < j ==> #[trigger] inv@[k] == 0,
            decreases n - j,
        {
            inv.push(0);
            j = j + 1;
        }
        let mut i: usize = 0;
        while i < t.len()
            invariant
                n == pow2(self.log_num as nat),
                *t == self.permutation_table,
                forall|k: int| 0 <= k < t@.len() ==> #[trigger] t@[k] < n,
                i <= t@.len(),
                inv@.len() == n,
                forall|p: int| 0 <= p < n ==> is_last_preimage(t@.take(i as int), p, #[trigger] inv@[p]),
            decreases t@.len() - i,
        {
            let p = t[i];
            let ghost old_inv = inv@;
            inv.set(p, i);
            proof {
                assert forall|q: int| 0 <= q < n implies is_last_preimage(t@.take(i + 1), q, #[trigger] inv@[q]) by {
                    assert(is_last_preimage(t@.take(i as int), q, old_inv[q]));
                    assert(t@.take(i + 1)[i as int] == p);
                    assert forall|k: int| 0 <= k < i implies t@.take(i + 1)[k] == #[trigger] t@.take(i as int)[k] by {}
                }
            }
            i = i + 1;
        }
        proof {
            assert(t@.take(t@.len() as int) =~= t@);
        }
        PermutationInfo { log_num: self.log_num, permutation_table: inv, signed: None }
    }
}

impl<const P: u64> PermutationInfo<P> {
    /// `output[x] = input[table[x]]`.
    pub fn permute<T: Copy>(&self, input: &[T]) -> (r: Vec<T>)
        requires
            self.log_num < usize::BITS,
            input@.len() == pow2(self.log_num as nat),
            self.signed is None,
            self.permutation_table@.len() >= pow2(self.log_num as nat),
            forall|x: int| 0 <= x < pow2(self.log_num as nat) ==> #[trigger] self.permutation_table@[x] < input@.len(),
        ensures
            r@ == permuted(self.permutation_table@, input@),
    {
        let n = pow2_usize(self.log_num);
        let mut output: Vec<T> = Vec::with_capacity(n);
        let mut x: usize = 0;
        while x < n
            invariant
                n == input@.len(),
                self.permutation_table@.len() >= n,
                forall|k: int| 0 <= k < n ==> #[trigger] self.permutation_table@[k] < input@.len(),
                x <= n,
                output@.len() == x,
                forall|k: int| 0 <= k < x ==> #[trigger] output@[k] == input@[self.permutation_table@[k] as int],
            decreases n - x,
        {
            let y = self.permutation_table[x];
            output.push(input[y]);
            x = x + 1;
        }
        proof {
            assert(output@ =~= permuted(self.permutation_table@, input@));
        }
        output
    }

    /// `output[x] = input[table[x]] * sign[x]`.
    pub fn permute_signed(&self, input: &[Fp<P>]) -> (r: Vec<Fp<P>>)
        requires
            self.log_num < usize::BITS,
            input@.len() == pow2(self.log_num as nat),
            self.signed is Some,
            self.signed->0.sign@.len() >= pow2(self.log_num as nat),
            self.permutation_table@.len() >= pow2(self.log_num as nat),
            forall|x: int| 0 <= x < pow2(self.log_num as nat) ==> #[trigger] self.permutation_table@[x] < input@.len(),
        ensures
            r@.len() == input@.len(),
            forall|x: int|
                0 <= x < input@.len() ==> (#[trigger] r@[x])@ == (input@[self.permutation_table@[x] as int]@
                    * self.signed->0.sign@[x]@) % (P as nat),
    {
        let n = pow2_usize(self.log_num);
        let sign = &self.signed.as_ref().unwrap().sign;
        let mut output: Vec<Fp<P>> = Vec::with_capacity(n);
        let mut x: usize = 0;
        while x < n
            invariant
                n == input@.len(),
                *sign == self.signed->0.sign,
                sign@.len() >= n,
                self.permutation_table@.len() >= n,
                forall|k: int| 0 <= k < n ==> #[trigger] self.permutation_table@[k] < input@.len(),
                x <= n,
                output@.len() == x,
                forall|k: int|
                    0 <= k < x ==> (#[trigger] output@[k])@ == (input@[self.permutation_table@[k] as int]@
                        * sign@[k]@) % (P as nat),
            decreases n - x,
        {
            let y = self.permutation_table[x];
            output.push(input[y].mul(sign[x]));
            x = x + 1;
        }
        output
    }

    /// Permutes the rows of a `2^log_num_rows` by `2^log_num_cols` matrix stored row by row:
    /// row `x` of the output is row `table[x]` of the input.
    pub fn permute_row_wise<T: Copy>(&self, log_num_rows: usize, log_num_cols: usize, input: &[T]) -> (r: Vec<T>)
        requires
            self.log_num == log_num_rows,
            log_num_rows + log_num_cols < usize::BITS,
            input@.len() == pow2((log_num_rows + log_num_cols) as nat),
            self.signed is None,
            self.permutation_table@.len() >= pow2(log_num_rows as nat),
            forall|x: int| 0 <= x < pow2(log_num_rows as nat) ==> #[trigger] self.permutation_table@[x] < pow2(log_num_rows as nat),
        ensures
            r@ == row_permuted(self.permutation_table@, pow2(log_num_rows as nat), pow2(log_num_cols as nat), input@),
    {
        let rows = pow2_usize(log_num_rows);
        let cols = pow2_usize(log_num_cols);
        proof {
            lemma_pow2_adds(log_num_rows as nat, log_num_cols as nat);
        }
        let total = input.len();
        let mut output: Vec<T> = Vec::with_capacity(total);
        let mut x: usize = 0;
        while x < rows
            invariant
                total == input@.len(),
                rows == pow2(log_num_rows as nat),
                cols == pow2(log_num_cols as nat),
                input@.len() == rows * cols,
                self.permutation_table@.len() >= rows,
                forall|k: int| 0 <= k < rows ==> #[trigger] self.permutation_table@[k] < rows,
                x <= rows,
                output@.len() == x * cols,
                forall|k: int|
                    0 <= k < x * cols ==> #[trigger] output@[k] == input@[self.permutation_table@[k / cols as int] * cols
                        + k % cols as int],
            decreases rows - x,
        {
            let z = self.permutation_table[x];
            proof {
                assert(z * cols + cols <= rows * cols) by (nonlinear_arith)
                    requires
                        z < rows,
                ;
                assert(x * cols + cols <= rows * cols) by (nonlinear_arith)
                    requires
                        x < rows,
                ;
            }
            let mut y: usize = 0;
            while y < cols
                invariant
                    total == input@.len(),
                    rows == pow2(log_num_rows as nat),
                    cols == pow2(log_num_cols as nat),
                    input@.len() == rows * cols,
                    x < rows,
                    z < rows,
                    z == self.permutation_table@[x as int],
                    z * cols + cols <= rows * cols,
                    x * cols + cols <= rows * cols,
                    y <= cols,
                    output@.len() == x * cols + y,
                    forall|k: int|
                        0 <= k < x * cols ==> #[trigger] output@[k] == input@[self.permutation_table@[k / cols as int]
                            * cols + k % cols as int],
                    forall|k: int| 0 <= k < y ==> #[trigger] output@[x * cols + k] == input@[z * cols + k],
                decreases cols - y,
            {
                output.push(input[z * cols + y]);
                y = y + 1;
            }
            proof {
                assert forall|k: int| 0 <= k < (x + 1) * cols implies #[trigger] output@[k] == input@[
                    self.permutation_table@[k / cols as int] * cols + k % cols as int] by {
                    if k >= x * cols {
                        let y0 = k - x * cols;
                        assert((x + 1) * cols == x * cols + cols) by (nonlinear_arith);
                        assert(0 <= y0 < cols);
                        vstd::arithmetic::mul::lemma_mul_is_commutative(x as int, cols as int);
                        vstd::arithmetic::div_mod::lemma_div_multiples_vanish_fancy(x as int, y0, cols as int);
                        vstd::arithmetic::div_mod::lemma_fundamental_div_mod(k, cols as int);
                        assert(k == cols * x + y0);
                        assert(k / cols as int == x);
                        assert(k % cols as int == y0);
                        assert(output@[x * cols + y0] == input@[z * cols + y0]);
                    }
                }
                assert((x + 1) * cols == x * cols + cols) by (nonlinear_arith);
            }
            x = x + 1;
        }
        proof {
            assert(output@ =~= row_permuted(self.permutation_table@, rows as nat, cols as nat, input@));
        }
        output
    }

    /// Permutes the rows of a `2^log_num_rows` by `2^log_num_cols` matrix stored row by row
    /// and signs them: row `x` of the output is row `table[x]` of the input times `sign[x]`.
    pub fn permute_row_wise_signed(&self, log_num_rows: usize, log_num_cols: usize, input: &[Fp<P>]) -> (r: Vec<Fp<P>>)
        requires
            self.log_num == log_num_rows,
            log_num_rows + log_num_cols < usize::BITS,
            input@.len() == pow2((log_num_rows + log_num_cols) as nat),
            self.signed is Some,
            self.signed->0.sign@.len() >= pow2(log_num_rows as nat),
            self.permutation_table@.len() >= pow2(log_num_rows as nat),
            forall|x: int| 0 <= x < pow2(log_num_rows as nat) ==> #[trigger] self.permutation_table@[x] < pow2(log_num_rows as nat),
        ensures
            r@.len() == input@.len(),
            forall|k: int|
                0 <= k < input@.len() ==> (#[trigger] r@[k])@ == (input@[self.permutation_table@[k / pow2(log_num_cols as nat) as int]
                    * pow2(log_num_cols as nat) + k % pow2(log_num_cols as nat) as int]@ * self.signed->0.sign@[k
                    / pow2(log_num_cols as nat) as int]@) % (P as nat),
    {
        let rows = pow2_usize(log_num_rows);
        let cols = pow2_usize(log_num_cols);
        proof {
            lemma_pow2_adds(log_num_rows as nat, log_num_cols as nat);
        }
        let total = input.len();
        let sign = &self.signed.as_ref().unwrap().sign;
        let mut output: Vec<Fp<P>> = Vec::with_capacity(total);
        let mut x: usize = 0;
        while x < rows
            invariant
                total == input@.len(),
                rows == pow2(log_num_rows as nat),
                cols == pow2(log_num_cols as nat),
                input@.len() == rows * cols,
                self.permutation_table@.len() >= rows,
                forall|k: int| 0 <= k < rows ==> #[trigger] self.permutation_table@[k] < rows,
                x <= rows,
                output@.len() == x * cols,
                *sign == self.signed->0.sign,
                sign@.len() >= rows,
                forall|k: int|
                    0 <= k < x * cols ==> (#[trigger] output@[k])@ == (input@[self.permutation_table@[k / cols as int] * cols
                        + k % cols as int]@ * sign@[k / cols as int]@) % (P as nat),
            decreases rows - x,
        {
            let z = self.permutation_table[x];
            proof {
                assert(z * cols + cols <= rows * cols) by (nonlinear_arith)
                    requires
                        z < rows,
                ;
                assert(x * cols + cols <= rows * cols) by (nonlinear_arith)
                    requires
                        x < rows,
                ;
            }
            let mut y: usize = 0;
            while y < cols
                invariant
                    total == input@.len(),
                    rows == pow2(log_num_rows as nat),
                    cols == pow2(log_num_cols as nat),
                    input@.len() == rows * cols,
                    x < rows,
                    z < rows,
                    z == self.permutation_table@[x as int],
                    z * cols + cols <= rows * cols,
                    x * cols + cols <= rows * cols,
                    y <= cols,
                    output@.len() == x * cols + y,
                    *sign == self.signed->0.sign,
                    sign@.len() >= rows,
                    forall|k: int|
                        0 <= k < x * cols ==> (#[trigger] output@[k])@ == (input@[self.permutation_table@[k / cols as int]
                            * cols + k % cols as int]@ * sign@[k / cols as int]@) % (P as nat),
                    forall|k: int| 0 <= k < y ==> (#[trigger] output@[x * cols + k])@ == (input@[z * cols + k]@ * sign@[x as int]@) % (P as nat),
                decreases cols - y,
            {
                output.push(input[z * cols + y].mul(sign[x]));
                y = y + 1;
            }
            proof {
                assert forall|k: int| 0 <= k < (x + 1) * cols implies (#[trigger] output@[k])@ == (input@[
                    self.permutation_table@[k / cols as int] * cols + k % cols as int]@ * sign@[k / cols as int]@) % (P as nat) by {
                    if k >= x * cols {
                        let y0 = k - x * cols;
                        assert((x + 1) * cols == x * cols + cols) by (nonlinear_arith);
                        assert(0 <= y0 < cols);
                        vstd::arithmetic::mul::lemma_mul_is_commutative(x as int, cols as int);
                        vstd::arithmetic::div_mod::lemma_div_multiples_vanish_fancy(x as int, y0, cols as int);
                        vstd::arithmetic::div_mod::lemma_fundamental_div_mod(k, cols as int);
                        assert(k == cols * x + y0);
                        assert(k / cols as int == x);
                        assert(k % cols as int == y0);
                        assert(output@[x * cols + y0]@ == (input@[z * cols + y0]@ * sign@[x as int]@) % (P as nat));
                    }
                }
                assert((x + 1) * cols == x * cols + cols) by (nonlinear_arith);
            }
            x = x + 1;
        }
        output
    }
}

/// `output[x] = input[t[x]]` for every position `x` of `input`.
pub open spec fn permuted<T>(t: Seq<usize>, input: Seq<T>) -> Seq<T> {
    Seq::new(input.len(), |x: int| input[t[x] as int])
}

/// Row `x` of the output is row `t[x]` of the input, for a `rows` by `cols` matrix stored
/// row by row.
pub open spec fn row_permuted<T>(t: Seq<usize>, rows: nat, cols: nat, input: Seq<T>) -> Seq<T> {
    Seq::new(rows * cols, |k: int| input[t[k / cols as int] * cols + k % cols as int])
}

impl<const P: u64> PermutationInfo<P> {
    /// The permutation matrix at a point, `P(k, rx) = eq(rx, inv(k))`, as an indexed lookup
    /// into the table `eq(., rx)` with index `inv(k)`.
    pub fn extract_indexed_lookup_trace(&self, point: &[Fp<P>]) -> (r: IndexedLookupTraceMLE<P>)
        requires
            P > 1,
            self.covers(),
            point@.len() == self.log_num,
        ensures
            r.num_input_vars == self.log_num,
            r.num_table_vars == self.log_num,
            r.wf(),
            r.table.evaluations@.len() == pow2(self.log_num as nat),
            forall|y: int|
                0 <= y < pow2(self.log_num as nat) ==> (#[trigger] r.table.evaluations@[y])@ == eq_eval(
                    point@,
                    self.log_num as nat,
                    y as nat,
                ),
            r.table_point is Some,
            r.table_point->0@ == point@,
            exists|inv: Seq<usize>|
                {
                    &&& inv.len() == pow2(self.log_num as nat)
                    &&& forall|j: int|
                        0 <= j < pow2(self.log_num as nat) ==> is_last_preimage(
                            self.permutation_table@,
                            j,
                            #[trigger] inv[j],
                        )
                    &&& forall|k: int|
                        0 <= k < pow2(self.log_num as nat) ==> {
                            &&& (#[trigger] r.index.evaluations@[k])@ == ((inv[k] as u32) as nat) % (P as nat)
                            &&& r.input.evaluations@[k] == r.table.evaluations@[inv[k] as int]
                        }
                },
    {
        let eq_at_rx = gen_identity_evaluations(point);
        let inversed_permutation = self.get_inverse_permutation();
        let ghost inv = inversed_permutation.permutation_table@;
        proof {
            assert forall|x: int| 0 <= x < pow2(self.log_num as nat) implies #[trigger] inv[x] < eq_at_rx.evaluations@.len() by {
                assert(is_last_preimage(self.permutation_table@, x, inv[x]));
                lemma_pow2_pos(self.log_num as nat);
            }
        }
        let inversed_permutation_field = table_to_field(&inversed_permutation.permutation_table);
        let permutation_at_rx = inversed_permutation.permute(eq_at_rx.evaluations.as_slice());
        let lookup_input = DenseMultilinearExtension::from_evaluations_vec(self.log_num, permutation_at_rx);
        let lookup_index = DenseMultilinearExtension::from_evaluations_vec(self.log_num, inversed_permutation_field);
        IndexedLookupTraceMLE {
            num_input_vars: self.log_num,
            num_table_vars: self.log_num,
            index: Rc::new(lookup_index),
            input: Rc::new(lookup_input),
            table: Rc::new(eq_at_rx),
            table_point: Some(vstd::slice::slice_to_vec(point)),
        }
    }

    /// The signed permutation matrix at a point: `P(k, rx) = eq(rx, inv(k)) * sign(inv(k))`.
    pub fn fixed_variable(&self, point: &[Fp<P>]) -> (r: DenseMultilinearExtension<P>)
        requires
            P > 1,
            self.covers(),
            point@.len() == self.log_num,
            self.signed is Some,
            self.signed->0.sign@.len() == pow2(self.log_num as nat),
        ensures
            r.wf(),
            r.num_vars == self.log_num,
            exists|inv: Seq<usize>|
                {
                    &&& inv.len() == pow2(self.log_num as nat)
                    &&& forall|j: int|
                        0 <= j < pow2(self.log_num as nat) ==> is_last_preimage(
                            self.permutation_table@,
                            j,
                            #[trigger] inv[j],
                        )
                    &&& forall|k: int|
                        0 <= k < pow2(self.log_num as nat) ==> (#[trigger] r.evaluations@[k])@ == (eq_eval(
                            point@,
                            self.log_num as nat,
                            inv[k] as nat,
                        ) * self.signed->0.sign@[inv[k] as int]@) % (P as nat)
                },
    {
        let eq_at_rx = gen_identity_evaluations(point);
        let inversed_permutation = self.get_inverse_permutation();
        let ghost inv = inversed_permutation.permutation_table@;
        let sign_info = self.signed.as_ref().unwrap();
        proof {
            assert forall|x: int| 0 <= x < pow2(self.log_num as nat) implies #[trigger] inv[x] < eq_at_rx.evaluations@.len() by {
                assert(is_last_preimage(self.permutation_table@, x, inv[x]));
                lemma_pow2_pos(self.log_num as nat);
            }
        }
        let sign_permutated = inversed_permutation.permute(sign_info.sign.as_slice());
        let eq_permutated = inversed_permutation.permute(eq_at_rx.evaluations.as_slice());
        let n = eq_permutated.len();
        let mut evals: Vec<Fp<P>> = Vec::with_capacity(n);
        let mut k: usize = 0;
        while k < n
            invariant
                n == eq_permutated@.len(),
                n == sign_permutated@.len(),
                k <= n,
                evals@.len() == k,
                forall|j: int| 0 <= j < k ==> (#[trigger] evals@[j])@ == (eq_permutated@[j]@ * sign_permutated@[j]@) % (P as nat),
            decreases n - k,
        {
            evals.push(eq_permutated[k].mul(sign_permutated[k]));
            k = k + 1;
        }
        DenseMultilinearExtension::from_evaluations_vec(self.log_num, evals)
    }
}

/// When `2^log_num` is below both `P` and `2^32`, the lookup extracted from a permutation
/// satisfies the indexed lookup relation `input[k] = table[index[k]]`.
pub proof fn lemma_permutation_lookup_relation<const P: u64>(
    info: PermutationInfo<P>,
    r: IndexedLookupTraceMLE<P>,
    inv: Seq<usize>,
)
    requires
        info.covers(),
        pow2(info.log_num as nat) <= P,
        pow2(info.log_num as nat) <= u32::MAX,
        r.table.evaluations@.len() == pow2(info.log_num as nat),
        r.index.evaluations@.len() == pow2(info.log_num as nat),
        r.input.evaluations@.len() == pow2(info.log_num as nat),
        inv.len() == pow2(info.log_num as nat),
        forall|j: int|
            0 <= j < pow2(info.log_num as nat) ==> is_last_preimage(info.permutation_table@, j, #[trigger] inv[j]),
        forall|k: int|
            0 <= k < pow2(info.log_num as nat) ==> {
                &&& (#[trigger] r.index.evaluations@[k])@ == ((inv[k] as u32) as nat) % (P as nat)
                &&& r.input.evaluations@[k] == r.table.evaluations@[inv[k] as int]
            },
    ensures
        r.relation_holds(),
{
    assert forall|k: int| 0 <= k < r.input.evaluations@.len() implies {
        &&& #[trigger] r.index.evaluations@[k]@ < r.table.evaluations@.len()
        &&& r.input.evaluations@[k] == r.table.evaluations@[r.index.evaluations@[k]@ as int]
    } by {
        assert(is_last_preimage(info.permutation_table@, k, inv[k]));
        lemma_pow2_pos(info.log_num as nat);
        assert(inv[k] < pow2(info.log_num as nat));
        assert((inv[k] as u32) as nat == inv[k]);
        vstd::arithmetic::div_mod::lemma_small_mod(inv[k] as nat, P as nat);
    }
}

impl<const P: u64> RowPermTraceMLE<P> {
    /// Wraps the input and output of a row-permutation trace into multilinear extensions.
    pub fn from_trace(trace: RowPermTrace<P>) -> (r: Self)
        requires
            trace.input@.len() == pow2((trace.log_num_rows + trace.log_num_cols) as nat),
            trace.output@.len() == pow2((trace.log_num_rows + trace.log_num_cols) as nat),
            trace.log_num_rows + trace.log_num_cols <= usize::MAX,
        ensures
            r.log_num_rows == trace.log_num_rows,
            r.log_num_cols == trace.log_num_cols,
            r.input.num_vars == trace.log_num_rows + trace.log_num_cols,
            r.output.num_vars == trace.log_num_rows + trace.log_num_cols,
            r.input.evaluations@ == trace.input@,
            r.output.evaluations@ == trace.output@,
            r.permutation_info == trace.permutation_info,
    {
        let num_vars = trace.log_num_rows + trace.log_num_cols;
        let input = DenseMultilinearExtension::from_evaluations_vec(num_vars, trace.input);
        let output = DenseMultilinearExtension::from_evaluations_vec(num_vars, trace.output);
        RowPermTraceMLE {
            log_num_rows: trace.log_num_rows,
            log_num_cols: trace.log_num_cols,
            input: Rc::new(input),
            output: Rc::new(output),
            permutation_info: trace.permutation_info,
        }
    }
}

/// `v` is the last position of `t` that holds `p`, or `0` when no position does.
pub open spec fn is_last_preimage(t: Seq<usize>, p: int, v: usize) -> bool {
    if hits(t, t.len(), p) {
        &&& v < t.len()
        &&& t[v as int] == p
        &&& forall|k: int| v < k < t.len() ==> #[trigger] t[k] != p
    } else {
        v == 0
    }
}

/// The start of the block of `x` leaves room for a whole block below `num`.
proof fn lemma_block_start_bound(x: nat, num: nat, blk_size: nat)
    requires
        blk_size > 0,
        x < num,
        num % blk_size == 0,
    ensures
        (x - x % blk_size) + blk_size <= num,
        x % blk_size <= x,
        x - x % blk_size == blk_size * (x / blk_size),
{
    vstd::arithmetic::div_mod::lemma_fundamental_div_mod(x as int, blk_size as int);
    vstd::arithmetic::div_mod::lemma_fundamental_div_mod(num as int, blk_size as int);
    vstd::arithmetic::div_mod::lemma_mod_pos_bound(x as int, blk_size as int);
    vstd::arithmetic::div_mod::lemma_div_is_ordered(x as int, num as int, blk_size as int);
    let q = x / blk_size;
    let qn = num / blk_size;
    if q >= qn {
        assert(blk_size * q >= blk_size * qn) by (nonlinear_arith)
            requires
                q >= qn,
                blk_size > 0,
        ;
    }
    assert(blk_size * q + blk_size <= blk_size * qn) by (nonlinear_arith)
        requires
            q < qn,
            blk_size > 0,
    ;
}

/// Every entry of `table` as a field element (through a `u32`).
fn table_to_field<const P: u64>(table: &Vec<usize>) -> (r: Vec<Fp<P>>)
    requires
        P > 1,
    ensures
        r@.len() == table@.len(),
        forall|x: int| 0 <= x < table@.len() ==> (#[trigger] r@[x])@ == ((table@[x] as u32) as nat) % (P as nat),
{
    let mut r: Vec<Fp<P>> = Vec::with_capacity(table.len());
    let mut x: usize = 0;
    while x < table.len()
        invariant
            P > 1,
            x <= table@.len(),
            r@.len() == x,
            forall|k: int| 0 <= k < x ==> (#[trigger] r@[k])@ == ((table@[k] as u32) as nat) % (P as nat),
        decreases table@.len() - x,
    {
        let v = #[verifier::truncate] (table[x] as u32);
        r.push(Fp::new(v as u64));
        x = x + 1;
    }
    r
}

/// For a permutation `t` of `[0, n)`, the table that `get_inverse_permutation` builds is a
/// permutation too, and the two undo each other: `inv[t[i]] == i` and `t[inv[j]] == j`.
pub proof fn lemma_inverse_of_permutation(t: Seq<usize>, inv: Seq<usize>, n: nat)
    requires
        is_permutation(t, n),
        inv.len() == n,
        forall|j: int| 0 <= j < n ==> is_last_preimage(t, j, #[trigger] inv[j]),
    ensures
        forall|i: int| 0 <= i < n ==> #[trigger] inv[t[i] as int] == i,
        forall|j: int| 0 <= j < n ==> #[trigger] t[inv[j] as int] == j,
        is_permutation(inv, n),
{
    lemma_permutation_surjective(t, n);
    assert forall|j: int| 0 <= j < n implies #[trigger] t[inv[j] as int] == j && inv[j] < n by {
        assert(hits(t, n, j));
        assert(is_last_preimage(t, j, inv[j]));
    }
    assert forall|i: int| 0 <= i < n implies #[trigger] inv[t[i] as int] == i by {
        let j = t[i] as int;
        assert(hits(t, n, j));
        assert(is_last_preimage(t, j, inv[j]));
        if inv[j] != i {
            assert(t[inv[j] as int] == t[i]);
        }
    }
    assert forall|a: int, b: int| 0 <= a < n && 0 <= b < n && a != b implies #[trigger] inv[a] != #[trigger] inv[b] by {
        assert(t[inv[a] as int] == a);
        assert(t[inv[b] as int] == b);
    }
}

/// `get_inverse_permutation` undoes `permute`, on either side: for a permutation `p` of
/// `[0, 2^log_num)` and the table `q` that `get_inverse_permutation` builds from it, `q` sends
/// `p.permutation_table[i]` back to `i`, is a permutation itself, and permuting any vector of
/// length `2^log_num` by `p` and then by `q` (or by `q` and then by `p`) gives it back.
pub proof fn lemma_inverse_undoes_permute<const P: u64, T>(
    p: PermutationInfo<P>,
    q: PermutationInfo<P>,
    v: Seq<T>,
)
    requires
        is_permutation(p.permutation_table@, pow2(p.log_num as nat)),
        q.log_num == p.log_num,
        q.permutation_table@.len() == pow2(p.log_num as nat),
        forall|j: int|
            0 <= j < pow2(p.log_num as nat) ==> is_last_preimage(
                p.permutation_table@,
                j,
                #[trigger] q.permutation_table@[j],
            ),
        v.len() == pow2(p.log_num as nat),
    ensures
        forall|i: int|
            0 <= i < pow2(p.log_num as nat) ==> #[trigger] q.permutation_table@[p.permutation_table@[i] as int] == i,
        is_permutation(q.permutation_table@, pow2(p.log_num as nat)),
        permuted(q.permutation_table@, permuted(p.permutation_table@, v)) == v,
        permuted(p.permutation_table@, permuted(q.permutation_table@, v)) == v,
{
    let t = p.permutation_table@;
    let inv = q.permutation_table@;
    lemma_inverse_of_permutation(t, inv, pow2(p.log_num as nat));
    assert(permuted(inv, permuted(t, v)) =~= v);
    assert(permuted(t, permuted(inv, v)) =~= v);
}

/// The key-switching permutation stays in `[0, num)` and is its own inverse.
pub proof fn lemma_ks_permutation_involution(num: nat, blk_size: nat, x: nat)
    requires
        blk_size > 0,
        num % blk_size == 0,
        x < num,
    ensures
        ks_permutation(num, blk_size, x) < num,
        ks_permutation(num, blk_size, ks_permutation(num, blk_size, x)) == x,
{
    let b = blk_size as int;
    let nb = num as int / b;
    let c = x as int / b;
    let d = x as int % b;
    vstd::arithmetic::div_mod::lemma_fundamental_div_mod(x as int, b);
    vstd::arithmetic::div_mod::lemma_fundamental_div_mod(num as int, b);
    vstd::arithmetic::div_mod::lemma_mod_pos_bound(x as int, b);
    lemma_block_start_bound(x, num, blk_size);
    let y = ks_permutation(num, blk_size, x) as int;
    // y lies in block nb - c (start) or nb - 1 - c (interior), at offset 0 or d.
    if d == 0 {
        if x == 0 {
            vstd::arithmetic::div_mod::lemma_small_mod(0, blk_size);
        } else {
            assert(c >= 1) by (nonlinear_arith)
                requires
                    x == b * c + d,
                    d == 0,
                    x > 0,
                    b > 0,
            ;
            assert(y == b * (nb - c)) by (nonlinear_arith)
                requires
                    y == num - x,
                    num == b * nb,
                    x == b * c,
            ;
            assert(nb - c >= 1) by (nonlinear_arith)
                requires
                    x < num,
                    num == b * nb,
                    x == b * c,
                    b > 0,
            ;
            vstd::arithmetic::div_mod::lemma_mod_multiples_basic(nb - c, b);
            vstd::arithmetic::mul::lemma_mul_is_commutative(nb - c, b);
            assert(y % b == 0);
            assert(y > 0) by (nonlinear_arith)
                requires
                    y == b * (nb - c),
                    nb - c >= 1,
                    b > 0,
            ;
        }
    } else {
        assert(y == b * (nb - 1 - c) + d) by (nonlinear_arith)
            requires
                y == num - 2 * (x - d) - b + x,
                num == b * nb,
                x == b * c + d,
        ;
        assert(nb - 1 - c >= 0) by (nonlinear_arith)
            requires
                x < num,
                num == b * nb,
                x == b * c + d,
                0 <= d < b,
        ;
        vstd::arithmetic::div_mod::lemma_div_multiples_vanish_fancy(nb - 1 - c, d, b);
        vstd::arithmetic::div_mod::lemma_fundamental_div_mod(y, b);
        assert(y % b == d) by (nonlinear_arith)
            requires
                y == b * (nb - 1 - c) + d,
                y == b * (y / b) + y % b,
                y / b == nb - 1 - c,
        ;
        assert(y - y % b == b * (nb - 1 - c));
        assert(y < num) by (nonlinear_arith)
            requires
                y == b * (nb - 1 - c) + d,
                num == b * nb,
                0 <= d < b,
                c >= 0,
        ;
    }
}

/// The key-switching permutation is a permutation of `[0, num)`.
pub proof fn lemma_ks_permutation_is_permutation(t: Seq<usize>, num: nat, blk_size: nat)
    requires
        blk_size > 0,
        num % blk_size == 0,
        t.len() == num,
        forall|x: int| 0 <= x < num ==> #[trigger] t[x] == ks_permutation(num, blk_size, x as nat),
    ensures
        is_permutation(t, num),
{
    assert forall|x: int| 0 <= x < num implies #[trigger] t[x] < num by {
        lemma_ks_permutation_involution(num, blk_size, x as nat);
    }
    assert forall|i: int, j: int| 0 <= i < num && 0 <= j < num && i != j implies #[trigger] t[i] != #[trigger] t[j] by {
        lemma_ks_permutation_involution(num, blk_size, i as nat);
        lemma_ks_permutation_involution(num, blk_size, j as nat);
    }
}

/// The sample-extraction permutation stays in `[0, num)` and is its own inverse.
pub proof fn lemma_sample_extraction_involution(num: nat, x: nat)
    requires
        x < num,
    ensures
        sample_extraction_permutation(num, x) < num,
        sample_extraction_permutation(num, sample_extraction_permutation(num, x)) == x,
{
}

/// Rotating `[0, range)` left by `offset` and then by `range - offset` restores every position.
pub proof fn lemma_rotation_left_undone(range: nat, offset: nat, x: nat)
    requires
        offset <= range,
    ensures
        rotation_left(range, (range - offset) as nat, rotation_left(range, offset, x)) == x,
        x < range ==> rotation_left(range, offset, x) < range,
{
    if x < range {
        let y = (x + offset) % range;
        vstd::arithmetic::div_mod::lemma_mod_pos_bound((x + offset) as int, range as int);
        if x + offset < range {
            vstd::arithmetic::div_mod::lemma_small_mod((x + offset) as nat, range as nat);
            vstd::arithmetic::div_mod::lemma_mod_add_multiples_vanish(x as int, range as int);
            vstd::arithmetic::div_mod::lemma_small_mod(x, range);
        } else {
            vstd::arithmetic::div_mod::lemma_mod_sub_multiples_vanish((x + offset) as int, range as int);
            vstd::arithmetic::div_mod::lemma_small_mod((x + offset - range) as nat, range as nat);
            vstd::arithmetic::div_mod::lemma_small_mod(x, range);
        }
    }
}

/// `n` field elements sampled from `rng`.
pub fn random_vec<const P: u64>(rng: &mut ThreadRng, n: usize) -> (r: Vec<Fp<P>>)
    requires
        P > 1,
    ensures
        r@.len() == n,
{
    let mut r: Vec<Fp<P>> = Vec::with_capacity(n);
    let mut i: usize = 0;
    while i < n
        invariant
            P > 1,
            i <= n,
            r@.len() == i,
        decreases n - i,
    {
        r.push(Fp::random(rng));
        i = i + 1;
    }
    r
}

/// The trace of a row permutation: `output` is `input` with its rows permuted (and signed).
#[derive(Clone, Debug)]
pub struct RowPermTrace<const P: u64> {
    pub log_num_rows: usize,
    pub log_num_cols: usize,
    pub input: Vec<Fp<P>>,
    pub output: Vec<Fp<P>>,
    pub permutation_info: PermutationInfo<P>,
}

/// The row-permutation trace with its columns as multilinear extensions.
#[derive(Clone, Debug)]
pub struct RowPermTraceMLE<const P: u64> {
    pub log_num_rows: usize,
    pub log_num_cols: usize,
    pub input: Rc<DenseMultilinearExtension<P>>,
    pub output: Rc<DenseMultilinearExtension<P>>,
    pub permutation_info: PermutationInfo<P>,
}

impl<const P: u64> RowPermTrace<P> {
    /// A random matrix and the same matrix with its rows cyclically shifted up by one.
    pub fn random_rotation_left(rng: &mut ThreadRng, log_num_rows: usize, log_num_cols: usize) -> (r: Self)
        requires
            P > 1,
            log_num_rows + log_num_cols < usize::BITS,
        ensures
            r.log_num_rows == log_num_rows,
            r.log_num_cols == log_num_cols,
            r.permutation_info.log_num == log_num_rows,
            r.permutation_info.signed is None,
            r.permutation_info.permutation_table@.len() == pow2(log_num_rows as nat),
            forall|x: int|
                0 <= x < pow2(log_num_rows as nat) ==> #[trigger] r.permutation_info.permutation_table@[x]
                    == rotation_left(pow2(log_num_rows as nat), 1, x as nat),
            r.input@.len() == pow2((log_num_rows + log_num_cols) as nat),
            r.output@ == row_permuted(
                r.permutation_info.permutation_table@,
                pow2(log_num_rows as nat),
                pow2(log_num_cols as nat),
                r.input@,
            ),
    {
        let rows = pow2_usize(log_num_rows);
        proof {
            lemma_pow2_pos(log_num_rows as nat);
        }
        let permutation_info = PermutationInfo::new_rotation_left(log_num_rows, rows, 1);
        let input = random_vec(rng, pow2_usize(log_num_rows + log_num_cols));
        proof {
            assert forall|x: int| 0 <= x < pow2(log_num_rows as nat) implies #[trigger] permutation_info.permutation_table@[x]
                < pow2(log_num_rows as nat) by {
                lemma_rotation_left_undone(rows as nat, 1, x as nat);
            }
        }
        let output = permutation_info.permute_row_wise(log_num_rows, log_num_cols, input.as_slice());
        RowPermTrace { log_num_rows, log_num_cols, input, output, permutation_info }
    }

    /// A random matrix and the same matrix with its rows permuted and signed by the
    /// key-switching permutation in blocks of `2^log_blk_size` rows.
    pub fn random_ks_permutation(
        rng: &mut ThreadRng,
        log_num_rows: usize,
        log_num_cols: usize,
        log_blk_size: usize,
    ) -> (r: Self)
        requires
            P > 1,
            log_num_rows + log_num_cols < usize::BITS,
            log_blk_size <= log_num_rows,
        ensures
            r.log_num_rows == log_num_rows,
            r.log_num_cols == log_num_cols,
            r.permutation_info.log_num == log_num_rows,
            r.permutation_info.signed is Some,
            r.permutation_info.permutation_table@.len() == pow2(log_num_rows as nat),
            forall|x: int|
                0 <= x < pow2(log_num_rows as nat) ==> #[trigger] r.permutation_info.permutation_table@[x]
                    == ks_permutation(pow2(log_num_rows as nat), pow2(log_blk_size as nat), x as nat),
            r.permutation_info.signed->0.log_dim == log_num_rows,
            r.permutation_info.signed->0.permutation@.len() == pow2(log_num_rows as nat),
            r.permutation_info.signed->0.sign@.len() == pow2(log_num_rows as nat),
            forall|x: int|
                0 <= x < pow2(log_num_rows as nat) ==> (#[trigger] r.permutation_info.signed->0.permutation@[x])@
                    == ((r.permutation_info.permutation_table@[x] as u32) as nat) % (P as nat),
            forall|x: int|
                0 <= x < pow2(log_num_rows as nat) ==> (#[trigger] r.permutation_info.signed->0.sign@[x])@ == (if ks_sign_is_negative(
                    pow2(log_blk_size as nat),
                    x as nat,
                ) {
                    (P - 1) as nat
                } else {
                    1nat
                }),
            r.input@.len() == pow2((log_num_rows + log_num_cols) as nat),
            r.output@.len() == r.input@.len(),
            forall|k: int|
                0 <= k < r.input@.len() ==> (#[trigger] r.output@[k])@ == (r.input@[r.permutation_info.permutation_table@[k
                    / pow2(log_num_cols as nat) as int] * pow2(log_num_cols as nat) + k % pow2(log_num_cols as nat) as int]@
                    * r.permutation_info.signed->0.sign@[k / pow2(log_num_cols as nat) as int]@) % (P as nat),
    {
        let num = pow2_usize(log_num_rows);
        let blk_size = pow2_usize(log_blk_size);
        proof {
            lemma_pow2_pos(log_blk_size as nat);
            lemma_pow2_adds(log_blk_size as nat, (log_num_rows - log_blk_size) as nat);
            vstd::arithmetic::div_mod::lemma_mod_multiples_basic(pow2((log_num_rows - log_blk_size) as nat) as int, blk_size as int);
            vstd::arithmetic::mul::lemma_mul_is_commutative(pow2((log_num_rows - log_blk_size) as nat) as int, blk_size as int);
        }
        let permutation_info = PermutationInfo::<P>::new_ks_permutation(num, blk_size);
        proof {
            lemma_pow2_injective(permutation_info.log_num as nat, log_num_rows as nat);
            assert forall|x: int| 0 <= x < pow2(log_num_rows as nat) implies #[trigger] permutation_info.permutation_table@[x]
                < pow2(log_num_rows as nat) by {
                lemma_ks_permutation_involution(num as nat, blk_size as nat, x as nat);
            }
        }
        let input = random_vec(rng, pow2_usize(log_num_rows + log_num_cols));
        let output = permutation_info.permute_row_wise_signed(log_num_rows, log_num_cols, input.as_slice());
        RowPermTrace { log_num_rows, log_num_cols, input, output, permutation_info }
    }

    /// Interleaves a power-of-two number of traces: entry `r` of trace `i` goes to position
    /// `r * traces.len() + i`, for every row index `r` of the first trace.
    pub fn from_batch_trace(traces: Vec<RowPermTrace<P>>) -> (r: Self)
        requires
            P > 1,
            traces@.len() > 0,
            exists|k: nat| pow2(k) == traces@.len(),
            traces@[0].log_num_rows < usize::BITS,
            traces@[0].log_num_cols + usize::BITS <= usize::MAX,
            pow2(traces@[0].log_num_rows as nat) * traces@.len() <= usize::MAX,
            forall|i: int|
                0 <= i < traces@.len() ==> {
                    &&& (#[trigger] traces@[i]).input@.len() >= pow2(traces@[0].log_num_rows as nat)
                    &&& traces@[i].output@.len() >= pow2(traces@[0].log_num_rows as nat)
                },
        ensures
            r.log_num_rows == traces@[0].log_num_rows,
            pow2((r.log_num_cols - traces@[0].log_num_cols) as nat) == traces@.len(),
            r.log_num_cols >= traces@[0].log_num_cols,
            r.permutation_info == traces@[0].permutation_info,
            r.input@.len() == pow2(r.log_num_rows as nat) * traces@.len(),
            r.output@.len() == pow2(r.log_num_rows as nat) * traces@.len(),
            forall|row: int, i: int|
                0 <= row < pow2(r.log_num_rows as nat) && 0 <= i < traces@.len() ==> {
                    &&& #[trigger] r.input@[row * traces@.len() + i] == traces@[i].input@[row]
                    &&& r.output@[row * traces@.len() + i] == traces@[i].output@[row]
                },
    {
        let num_trace = traces.len();
        let log_num_trace = log2_of_power_of_two(num_trace);
        let log_num_rows = traces[0].log_num_rows;
        let rows = pow2_usize(log_num_rows);
        let (input, output) = interleave_traces(&traces, rows);
        proof {
            assert forall|row: int, i: int| 0 <= row < pow2(log_num_rows as nat) && 0 <= i < traces@.len() implies {
                &&& #[trigger] input@[row * traces@.len() + i] == traces@[i].input@[row]
                &&& output@[row * traces@.len() + i] == traces@[i].output@[row]
            } by {
                assert(input@[row * traces@.len() + i] == traces@[i].input@[row]);
            }
        }
        let log_num_cols = traces[0].log_num_cols;
        let mut rest = traces;
        let first = rest.remove(0);
        RowPermTrace {
            log_num_rows,
            log_num_cols: log_num_cols + log_num_trace,
            input,
            output,
            permutation_info: first.permutation_info,
        }
    }
}

/// Entry `r` of trace `i` goes to position `r * traces.len() + i`, for `r < rows`.
fn interleave_traces<const P: u64>(traces: &Vec<RowPermTrace<P>>, rows: usize) -> (r: (Vec<Fp<P>>, Vec<Fp<P>>))
    requires
        rows * traces@.len() <= usize::MAX,
        forall|i: int|
            0 <= i < traces@.len() ==> {
                &&& (#[trigger] traces@[i]).input@.len() >= rows
                &&& traces@[i].output@.len() >= rows
            },
    ensures
        r.0@.len() == rows * traces@.len(),
        r.1@.len() == rows * traces@.len(),
        forall|row: int, i: int|
            0 <= row < rows && 0 <= i < traces@.len() ==> {
                &&& #[trigger] r.0@[row * traces@.len() + i] == traces@[i].input@[row]
                &&& r.1@[row * traces@.len() + i] == traces@[i].output@[row]
            },
{
    let num_trace = traces.len();
    let mut input: Vec<Fp<P>> = Vec::new();
    let mut output: Vec<Fp<P>> = Vec::new();
    let mut row: usize = 0;
    while row < rows
        invariant
            num_trace == traces@.len(),
            rows * num_trace <= usize::MAX,
            forall|i: int|
                0 <= i < traces@.len() ==> {
                    &&& (#[trigger] traces@[i]).input@.len() >= rows
                    &&& traces@[i].output@.len() >= rows
                },
            row <= rows,
            input@.len() == row * num_trace,
            output@.len() == row * num_trace,
            forall|rr: int, i: int|
                0 <= rr < row && 0 <= i < num_trace ==> {
                    &&& #[trigger] input@[rr * num_trace + i] == traces@[i].input@[rr]
                    &&& output@[rr * num_trace + i] == traces@[i].output@[rr]
                },
        decreases rows - row,
    {
        let mut i: usize = 0;
        while i < num_trace
            invariant
                num_trace == traces@.len(),
                forall|k: int|
                    0 <= k < traces@.len() ==> {
                        &&& (#[trigger] traces@[k]).input@.len() >= rows
                        &&& traces@[k].output@.len() >= rows
                    },
                row < rows,
                i <= num_trace,
                input@.len() == row * num_trace + i,
                output@.len() == row * num_trace + i,
                forall|rr: int, k: int|
                    0 <= rr < row && 0 <= k < num_trace ==> {
                        &&& #[trigger] input@[rr * num_trace + k] == traces@[k].input@[rr]
                        &&& output@[rr * num_trace + k] == traces@[k].output@[rr]
                    },
                forall|k: int|
                    0 <= k < i ==> {
                        &&& #[trigger] input@[row * num_trace + k] == traces@[k].input@[row as int]
                        &&& output@[row * num_trace + k] == traces@[k].output@[row as int]
                    },
            decreases num_trace - i,
        {
            let ghost old_input = input@;
            let ghost old_output = output@;
            input.push(traces[i].input[row]);
            output.push(traces[i].output[row]);
            proof {
                assert forall|rr: int, k: int| 0 <= rr < row && 0 <= k < num_trace implies {
                    &&& #[trigger] input@[rr * num_trace + k] == traces@[k].input@[rr]
                    &&& output@[rr * num_trace + k] == traces@[k].output@[rr]
                } by {
                    assert(rr * num_trace + k < row * num_trace) by (nonlinear_arith)
                        requires
                            rr < row,
                            k < num_trace,
                    ;
                    assert(old_input[rr * num_trace + k] == traces@[k].input@[rr]);
                }
            }
            i = i + 1;
        }
        proof {
            assert((row + 1) * num_trace == row * num_trace + num_trace) by (nonlinear_arith);
            assert forall|rr: int, k: int| 0 <= rr < row + 1 && 0 <= k < num_trace implies {
                &&& #[trigger] input@[rr * num_trace + k] == traces@[k].input@[rr]
                &&& output@[rr * num_trace + k] == traces@[k].output@[rr]
            } by {
                if rr == row {
                    assert(input@[row * num_trace + k] == traces@[k].input@[row as int]);
                }
            }
        }
        row = row + 1;
    }
    (input, output)
}

/// Equal powers of two have equal exponents.
pub proof fn lemma_pow2_injective(a: nat, b: nat)
    requires
        pow2(a) == pow2(b),
    ensures
        a == b,
{
    if a < b {
        lemma_pow2_strictly_increases(a, b);
    } else if b < a {
        lemma_pow2_strictly_increases(b, a);
    }
}

} // verus!
