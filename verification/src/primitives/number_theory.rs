//! Primes, inverses modulo a prime, and Fermat's little theorem.

use vstd::arithmetic::div_mod::{
    lemma_add_mod_noop, lemma_fundamental_div_mod, lemma_mod_multiples_vanish,
    lemma_mul_mod_noop_left, lemma_mul_mod_noop_right, lemma_small_mod, lemma_sub_mod_noop,
};
use vstd::arithmetic::power::{lemma0_pow, lemma_pow_mod_noop, pow};
use vstd::prelude::*;

verus! {

/// Whether `n` is a multiple of `d`.
pub open spec fn divides(d: int, n: int) -> bool {
    n % d == 0
}

/// Whether `p` is a prime: at least two, and a multiple of no number strictly
/// between one and itself.
pub open spec fn is_prime(p: int) -> bool {
    &&& p >= 2
    &&& forall|d: int| 1 < d < p ==> !#[trigger] divides(d, p)
}

/// Every nonzero residue of a prime has an inverse, which this gives.
pub proof fn lemma_inverse_exists(a: int, p: int) -> (x: int)
    requires
        is_prime(p),
        0 < a < p,
    ensures
        (a * x) % p == 1,
    decreases a,
{
    if a == 1 {
        lemma_small_mod(1, p as nat);
        1
    } else {
        let q = p / a;
        let r = p % a;
        lemma_fundamental_div_mod(p, a);
        assert(r != 0) by {
            assert(!divides(a, p));
        }
        let y = lemma_inverse_exists(r, p);
        let x = -(q * y);
        assert(a * x == p * (-y) + r * y) by (nonlinear_arith)
            requires
                p == a * q + r,
                x == -(q * y),
        ;
        lemma_mod_multiples_vanish(-y, r * y, p);
        x
    }
}

/// A prime that divides a product divides one of the factors.
pub proof fn lemma_prime_divides_factor(p: int, a: int, b: int)
    requires
        is_prime(p),
        (a * b) % p == 0,
    ensures
        a % p == 0 || b % p == 0,
{
    let r = a % p;
    if r != 0 {
        let x = lemma_inverse_exists(r, p);
        assert((b * (r * x)) % p == b % p) by {
            lemma_mul_mod_noop_right(b, r * x, p);
        }
        assert((b * r) % p == 0) by {
            lemma_mul_mod_noop_right(b, a, p);
            assert(b * a == a * b) by (nonlinear_arith);
        }
        assert(((b * r) * x) % p == 0) by {
            lemma_mul_mod_noop_left(b * r, x, p);
            lemma_small_mod(0, p as nat);
        }
        assert(b * (r * x) == (b * r) * x) by (nonlinear_arith);
    }
}

/// The number of ways to pick `k` things out of `n`, by Pascal's rule.
pub open spec fn binomial(n: nat, k: nat) -> nat
    decreases n,
{
    if k == 0 {
        1
    } else if n == 0 {
        0
    } else {
        binomial((n - 1) as nat, (k - 1) as nat) + binomial((n - 1) as nat, k)
    }
}

/// There is no way to pick more than there is.
proof fn lemma_binomial_above(n: nat, k: nat)
    requires
        k > n,
    ensures
        binomial(n, k) == 0,
    decreases n,
{
    if n > 0 {
        lemma_binomial_above((n - 1) as nat, (k - 1) as nat);
        lemma_binomial_above((n - 1) as nat, k);
    }
}

/// There is one way to pick everything.
proof fn lemma_binomial_full(n: nat)
    ensures
        binomial(n, n) == 1,
    decreases n,
{
    if n > 0 {
        lemma_binomial_full((n - 1) as nat);
        lemma_binomial_above((n - 1) as nat, n);
    }
}

/// `k` times `n` choose `k` is `n` times `n - 1` choose `k - 1`.
proof fn lemma_binomial_absorption(n: nat, k: nat)
    requires
        n >= 1,
        k >= 1,
    ensures
        k * binomial(n, k) == n * binomial((n - 1) as nat, (k - 1) as nat),
    decreases n,
{
    let m = (n - 1) as nat;
    let j = (k - 1) as nat;
    let left = binomial(m, j);
    let right = binomial(m, k);
    if n == 1 {
        lemma_binomial_above(0, k);
        if k > 1 {
            lemma_binomial_above(0, j);
        }
        assert(k * (left + right) == n * left) by (nonlinear_arith)
            requires
                right == 0,
                n == 1,
                k == 1 || left == 0,
        ;
    } else {
        lemma_binomial_absorption(m, k);
        let below = binomial((m - 1) as nat, j);
        if k == 1 {
            assert(k * (left + right) == n * left) by (nonlinear_arith)
                requires
                    k == 1,
                    left == 1,
                    k * right == m * below,
                    below == 1,
                    n == m + 1,
            ;
        } else {
            lemma_binomial_absorption(m, j);
            let corner = binomial((m - 1) as nat, (j - 1) as nat);
            assert(k * (left + right) == n * left) by (nonlinear_arith)
                requires
                    k == j + 1,
                    n == m + 1,
                    j * left == m * corner,
                    k * right == m * below,
                    left == corner + below,
            ;
        }
    }
}

/// A prime divides each of its binomial coefficients but the first and last.
proof fn lemma_prime_divides_binomial(p: nat, k: nat)
    requires
        is_prime(p as int),
        0 < k < p,
    ensures
        binomial(p, k) % p == 0,
{
    lemma_binomial_absorption(p, k);
    let c = binomial(p, k) as int;
    let below = binomial((p - 1) as nat, (k - 1) as nat) as int;
    assert((k * c) % (p as int) == 0) by {
        lemma_mod_multiples_vanish(below, 0, p as int);
        lemma_small_mod(0, p);
    }
    lemma_prime_divides_factor(p as int, k as int, c);
    lemma_small_mod(k, p);
}

/// The sum of the first `k + 1` terms of the binomial expansion of
/// `(a + 1)^n`.
pub open spec fn binomial_sum(n: nat, a: int, k: nat) -> int
    decreases k,
{
    if k == 0 {
        1
    } else {
        binomial_sum(n, a, (k - 1) as nat) + binomial(n, k) * pow(a, k)
    }
}

/// Multiplying a partial expansion for `n` by `a + 1` gives the partial
/// expansion for `n + 1` and one more term.
proof fn lemma_binomial_sum_step(n: nat, a: int, k: nat)
    ensures
        (a + 1) * binomial_sum(n, a, k) == binomial_sum(n + 1, a, k) + binomial(n, k) * pow(
            a,
            k + 1,
        ),
    decreases k,
{
    reveal(pow);
    if k == 0 {
        assert(pow(a, 0) == 1);
        assert((a + 1) * 1 == 1 + 1 * (a * 1)) by (nonlinear_arith);
    } else {
        let j = (k - 1) as nat;
        lemma_binomial_sum_step(n, a, j);
        let s = binomial_sum(n, a, j);
        let t = binomial_sum(n + 1, a, j);
        let c_low = binomial(n, j) as int;
        let c = binomial(n, k) as int;
        let ak = pow(a, k);
        let ak1 = pow(a, k + 1);
        assert((a + 1) * (s + c * ak) == (t + (c_low + c) * ak) + c * ak1) by (nonlinear_arith)
            requires
                (a + 1) * s == t + c_low * ak,
                ak1 == a * ak,
        ;
    }
}

/// The binomial theorem for `(a + 1)^n`.
proof fn lemma_binomial_theorem(a: int, n: nat)
    ensures
        pow(a + 1, n) == binomial_sum(n, a, n),
    decreases n,
{
    reveal(pow);
    if n > 0 {
        let m = (n - 1) as nat;
        lemma_binomial_theorem(a, m);
        lemma_binomial_sum_step(m, a, m);
        lemma_binomial_full(m);
        lemma_binomial_full(n);
    }
}

/// Modulo a prime `p`, the expansion of `(a + 1)^p` is one until its last
/// term.
proof fn lemma_binomial_sum_residue(p: nat, a: int, k: nat)
    requires
        is_prime(p as int),
        k < p,
    ensures
        binomial_sum(p, a, k) % (p as int) == 1,
    decreases k,
{
    if k == 0 {
        lemma_small_mod(1, p);
    } else {
        lemma_binomial_sum_residue(p, a, (k - 1) as nat);
        lemma_prime_divides_binomial(p, k);
        let s = binomial_sum(p, a, (k - 1) as nat);
        let term = binomial(p, k) * pow(a, k);
        assert(term % (p as int) == 0) by {
            lemma_mul_mod_noop_left(binomial(p, k) as int, pow(a, k), p as int);
            lemma_small_mod(0, p);
        }
        lemma_add_mod_noop(s, term, p as int);
        lemma_small_mod(1, p);
    }
}

/// Modulo a prime `p`, raising to the power `p` commutes with adding one.
proof fn lemma_power_of_successor(p: nat, a: int)
    requires
        is_prime(p as int),
    ensures
        pow(a + 1, p) % (p as int) == (pow(a, p) + 1) % (p as int),
{
    lemma_binomial_theorem(a, p);
    lemma_binomial_sum_residue(p, a, (p - 1) as nat);
    lemma_binomial_full(p);
    let s = binomial_sum(p, a, (p - 1) as nat);
    lemma_add_mod_noop(s, pow(a, p), p as int);
    lemma_add_mod_noop(1, pow(a, p), p as int);
    lemma_small_mod(1, p);
}

/// Modulo a prime `p`, the power `p` of a number is the number.
proof fn lemma_power_prime(p: nat, a: nat)
    requires
        is_prime(p as int),
    ensures
        pow(a as int, p) % (p as int) == a % p,
    decreases a,
{
    if a == 0 {
        lemma0_pow(p);
    } else {
        let b = (a - 1) as nat;
        lemma_power_prime(p, b);
        lemma_power_of_successor(p, b as int);
        lemma_add_mod_noop(pow(b as int, p), 1, p as int);
        lemma_add_mod_noop(b as int, 1, p as int);
    }
}

/// Fermat's little theorem: modulo a prime `p`, a number that `p` does not
/// divide gives one when raised to the power `p - 1`.
pub proof fn lemma_fermat_little(a: int, p: int)
    requires
        is_prime(p),
        a % p != 0,
    ensures
        pow(a, (p - 1) as nat) % p == 1,
{
    let r = a % p;
    vstd::arithmetic::div_mod::lemma_mod_bound(a, p);
    let e = (p - 1) as nat;
    let t = pow(r, e);
    lemma_power_prime(p as nat, r as nat);
    lemma_small_mod(r as nat, p as nat);
    assert(pow(r, p as nat) == r * t) by {
        reveal(pow);
    }
    assert((r * (t - 1)) % p == 0) by {
        assert(r * (t - 1) == r * t - r) by (nonlinear_arith);
        lemma_sub_mod_noop(r * t, r, p);
        lemma_small_mod(0, p as nat);
    }
    lemma_prime_divides_factor(p, r, t - 1);
    assert(t % p == 1) by {
        lemma_sub_mod_noop(t, 1, p);
        lemma_small_mod(1, p as nat);
        vstd::arithmetic::div_mod::lemma_mod_bound(t, p);
        let u = t % p;
        if u != 1 {
            if u == 0 {
                assert((u - 1) % p == p - 1) by {
                    lemma_small_mod((p - 1) as nat, p as nat);
                    vstd::arithmetic::div_mod::lemma_mod_add_multiples_vanish(-1, p);
                }
            } else {
                lemma_small_mod((u - 1) as nat, p as nat);
            }
        }
    }
    lemma_pow_mod_noop(a, e, p);
}

} // verus!
