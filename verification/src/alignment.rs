//! Divisibility and powers of two, the arithmetic of alignment.

use vstd::arithmetic::div_mod::*;
use vstd::arithmetic::mul::*;
use vstd::arithmetic::power2::*;
use vstd::prelude::*;

verus! {

/// The largest power of two that divides `n` (zero for zero): the value of the
/// lowest bit that is set in `n`.
pub open spec fn lowest_bit(n: nat) -> nat
    decreases n,
{
    if n == 0 {
        0
    } else if n % 2 == 1 {
        1
    } else {
        2 * lowest_bit(n / 2)
    }
}

/// A divisor of a divisor divides.
pub proof fn lemma_divides_trans(a: int, b: int, x: int)
    requires
        a > 0,
        b > 0,
        b % a == 0,
        x % b == 0,
    ensures
        x % a == 0,
{
    lemma_fundamental_div_mod(b, a);
    lemma_fundamental_div_mod(x, b);
    lemma_mul_is_associative(a, b / a, x / b);
    lemma_mod_multiples_vanish((b / a) * (x / b), 0, a);
}

/// A common divisor divides the sum.
pub proof fn lemma_divides_sum(a: int, x: int, y: int)
    requires
        a > 0,
        x % a == 0,
        y % a == 0,
    ensures
        (x + y) % a == 0,
{
    lemma_add_mod_noop(x, y, a);
    lemma_small_mod(0, a as nat);
}

/// A divisor of a factor divides the product.
pub proof fn lemma_divides_product(a: int, x: int, k: int)
    requires
        a > 0,
        x % a == 0,
    ensures
        (k * x) % a == 0,
{
    lemma_fundamental_div_mod(x, a);
    lemma_mul_is_associative(k, a, x / a);
    lemma_mul_is_commutative(k, a);
    lemma_mul_is_associative(a, k, x / a);
    lemma_mod_multiples_vanish(k * (x / a), 0, a);
}

/// Of two powers of two the smaller divides the larger.
pub proof fn lemma_pow2_divides(p: int, q: int)
    requires
        is_pow2(p),
        is_pow2(q),
        p <= q,
    ensures
        0 < p,
        q % p == 0,
    decreases p,
{
    reveal(is_pow2);
    if p > 1 {
        lemma_pow2_divides(p / 2, q / 2);
        lemma_fundamental_div_mod(q / 2, p / 2);
        let k = (q / 2) / (p / 2);
        assert(q == p * k) by (nonlinear_arith)
            requires
                q / 2 == (p / 2) * k,
                q % 2 == 0,
                p % 2 == 0,
        ;
        lemma_mod_multiples_vanish(k, 0, p);
    }
}

/// [`lowest_bit`] is a power of two, divides its argument, and every power of
/// two that divides the argument is at most as large.
pub proof fn lemma_lowest_bit(n: nat)
    requires
        n > 0,
    ensures
        is_pow2(lowest_bit(n) as int),
        0 < lowest_bit(n) <= n,
        n as int % lowest_bit(n) as int == 0,
        forall|p: int| is_pow2(p) && n as int % p == 0 ==> p <= lowest_bit(n),
    decreases n,
{
    reveal(is_pow2);
    if n % 2 == 1 {
        assert forall|p: int| is_pow2(p) && n as int % p == 0 implies p <= lowest_bit(n) by {
            if p > 1 {
                lemma_divides_trans(2, p, n as int);
            }
        }
    } else {
        lemma_lowest_bit(n / 2);
        let half = lowest_bit(n / 2) as int;
        lemma_fundamental_div_mod((n / 2) as int, half);
        assert(n == (2 * half) * ((n / 2) as int / half)) by (nonlinear_arith)
            requires
                (n / 2) as int == half * ((n / 2) as int / half),
                n % 2 == 0,
        ;
        lemma_mod_multiples_vanish((n / 2) as int / half, 0, 2 * half);
        assert forall|p: int| is_pow2(p) && n as int % p == 0 implies p <= lowest_bit(n) by {
            if p > 1 {
                lemma_fundamental_div_mod(n as int, p);
                let k = n as int / p;
                assert((n / 2) as int == (p / 2) * k) by (nonlinear_arith)
                    requires
                        n == p * k,
                        p % 2 == 0,
                        n % 2 == 0,
                ;
                lemma_mod_multiples_vanish(k, 0, p / 2);
                assert(is_pow2(p / 2));
            }
        }
    }
}

/// Returns the largest power of two that divides `n`.
pub fn lowest_set_bit(n: usize) -> (bit: usize)
    requires
        n > 0,
    ensures
        bit == lowest_bit(n as nat),
    decreases n,
{
    if n % 2 == 1 {
        1
    } else {
        proof {
            lemma_lowest_bit((n / 2) as nat);
        }
        2 * lowest_set_bit(n / 2)
    }
}

} // verus!
