//! The two arithmetics that a coordinate can have, under one name each: that
//! of the integers, and that of the residues of a modulus.

use crate::primitives::field_element::{
    difference_residue, product_residue, quotient_residue, sum_residue,
};
use vstd::arithmetic::div_mod::{
    lemma_add_mod_noop, lemma_mul_mod_noop, lemma_small_mod, lemma_sub_mod_noop,
};
use vstd::arithmetic::power::pow;
use vstd::prelude::*;

verus! {

/// The distance of `v` from zero.
pub open spec fn magnitude(v: int) -> int {
    if v < 0 {
        -v
    } else {
        v
    }
}

/// The quotient of `n` by `d` rounded toward zero, for `d` other than zero.
pub open spec fn truncated_quotient(n: int, d: int) -> int {
    if (n < 0) == (d < 0) {
        magnitude(n) / magnitude(d)
    } else {
        -(magnitude(n) / magnitude(d))
    }
}

/// Whether `v` lies between `lo` and `hi`.
pub open spec fn within(lo: int, hi: int, v: int) -> bool {
    lo <= v <= hi
}

/// `v` as the arithmetic `m` holds it: itself among the integers, its residue
/// modulo `m` among the residues.
pub open spec fn reduce(m: Option<int>, v: int) -> int {
    match m {
        None => v,
        Some(m) => v % m,
    }
}

/// Whether `v` is a value of the arithmetic `m`: any integer, or a residue of
/// the modulus.
pub open spec fn reduced(m: Option<int>, v: int) -> bool {
    match m {
        None => true,
        Some(m) => 0 <= v < m,
    }
}

/// The one of the arithmetic `m`.
pub open spec fn unit(m: Option<int>) -> int {
    reduce(m, 1)
}

/// The sum of `a` and `b` in the arithmetic `m`.
pub open spec fn plus(m: Option<int>, a: int, b: int) -> int {
    match m {
        None => a + b,
        Some(m) => sum_residue(a, b, m),
    }
}

/// The difference of `a` and `b` in the arithmetic `m`.
pub open spec fn minus(m: Option<int>, a: int, b: int) -> int {
    match m {
        None => a - b,
        Some(m) => difference_residue(a, b, m),
    }
}

/// The product of `a` and `b` in the arithmetic `m`.
pub open spec fn times(m: Option<int>, a: int, b: int) -> int {
    match m {
        None => a * b,
        Some(m) => product_residue(a, b, m),
    }
}

/// The quotient of `a` by `b` in the arithmetic `m`: rounded toward zero among
/// the integers, and `a` times the power of `b` that inverts it modulo a prime
/// among the residues.
pub open spec fn over(m: Option<int>, a: int, b: int) -> int {
    match m {
        None => truncated_quotient(a, b),
        Some(m) => quotient_residue(a, b, m),
    }
}

/// `a` to the power `e` in the arithmetic `m`.
pub open spec fn raised(m: Option<int>, a: int, e: nat) -> int {
    reduce(m, pow(a, e))
}

/// The sum of two reduced numbers is the reduced sum.
pub proof fn lemma_plus_reduces(m: Option<int>, u: int, v: int)
    requires
        m matches Some(p) ==> p > 0,
    ensures
        plus(m, reduce(m, u), reduce(m, v)) == reduce(m, u + v),
{
    if let Some(p) = m {
        lemma_add_mod_noop(u, v, p);
    }
}

/// The difference of two reduced numbers is the reduced difference.
pub proof fn lemma_minus_reduces(m: Option<int>, u: int, v: int)
    requires
        m matches Some(p) ==> p > 0,
    ensures
        minus(m, reduce(m, u), reduce(m, v)) == reduce(m, u - v),
{
    if let Some(p) = m {
        lemma_sub_mod_noop(u, v, p);
    }
}

/// The product of two reduced numbers is the reduced product.
pub proof fn lemma_times_reduces(m: Option<int>, u: int, v: int)
    requires
        m matches Some(p) ==> p > 0,
    ensures
        times(m, reduce(m, u), reduce(m, v)) == reduce(m, u * v),
{
    if let Some(p) = m {
        lemma_mul_mod_noop(u, v, p);
    }
}

/// A quotient is a value of its arithmetic.
pub proof fn lemma_over_reduced(m: Option<int>, a: int, b: int)
    requires
        m matches Some(p) ==> p > 0,
    ensures
        reduced(m, over(m, a, b)),
{
}

/// Reducing gives a value of the arithmetic, and leaves such a value as it is.
pub proof fn lemma_reduce(m: Option<int>, v: int)
    requires
        m matches Some(p) ==> p > 0,
    ensures
        reduced(m, reduce(m, v)),
        reduced(m, v) ==> reduce(m, v) == v,
{
    if let Some(p) = m {
        if 0 <= v < p {
            lemma_small_mod(v as nat, p as nat);
        }
    }
}

} // verus!
