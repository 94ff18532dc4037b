//! The two kinds of coordinate: machine integers, with the arithmetic of the
//! integers, and residues, with the arithmetic of their field.

use crate::primitives::elliptic_curve::arithmetic::{magnitude, within};
use crate::primitives::elliptic_curve::point::Number;
use crate::primitives::field_element::FieldElement;
use crate::primitives::text::format_integer;
use vstd::arithmetic::power::pow;
use vstd::pervasive::unreached;
use vstd::prelude::*;

verus! {

/// Dividing by a negative number negates the quotient by its magnitude.
proof fn lemma_quotient_by_negative(n: int, d: int)
    requires
        0 <= n,
        0 < d,
    ensures
        n / (-d) == -(n / d),
{
    let q = n / d;
    let r = n % d;
    assert(n == d * q + r && 0 <= r < d) by (nonlinear_arith)
        requires
            q == n / d,
            r == n % d,
            0 < d,
    ;
    assert(n == (-d) * (-q) + r) by (nonlinear_arith)
        requires
            n == d * q + r,
    ;
    let e = -d;
    assert(n / e == -q) by (nonlinear_arith)
        requires
            n == e * (-q) + r,
            0 <= r < -e,
            e < 0,
    ;
}

/// A power of a negative base is the power of its magnitude, negated where
/// the exponent is odd.
proof fn lemma_pow_of_negative(y: int, e: nat)
    ensures
        pow(-y, e) == if e % 2 == 0 {
            pow(y, e)
        } else {
            -pow(y, e)
        },
    decreases e,
{
    reveal(pow);
    if e > 0 {
        lemma_pow_of_negative(y, (e - 1) as nat);
        let q = pow(y, (e - 1) as nat);
        assert((-y) * q == -(y * q)) by (nonlinear_arith);
        assert((-y) * (-q) == y * q) by (nonlinear_arith);
    }
}

/// Where a base and one of its powers lie in the range of a machine integer,
/// so does every lower power.
proof fn lemma_lower_power_fits(lo: int, hi: int, x: int, j: nat, e: nat)
    requires
        lo == 0 || lo == -hi - 1,
        1 <= hi,
        lo <= x <= hi,
        lo <= pow(x, e) <= hi,
        j <= e,
    ensures
        lo <= pow(x, j) <= hi,
{
    if j == e {
    } else if j == 0 {
        vstd::arithmetic::power::lemma_pow0(x);
    } else if x == 0 {
        vstd::arithmetic::power::lemma0_pow(j);
    } else if x > 0 {
        vstd::arithmetic::power::lemma_pow_positive(x, j);
        vstd::arithmetic::power::lemma_pow_increases(x as nat, j, e);
    } else {
        let y = -x;
        let top = pow(y, (e - 1) as nat);
        lemma_pow_of_negative(y, e);
        lemma_pow_of_negative(y, j);
        vstd::arithmetic::power::lemma_pow_positive(y, j);
        vstd::arithmetic::power::lemma_pow_increases(y as nat, j, (e - 1) as nat);
        assert(pow(y, e) == y * top) by {
            reveal(pow);
        }
        if y >= 2 {
            assert(top + top <= y * top) by (nonlinear_arith)
                requires
                    y >= 2,
                    top >= 0,
            ;
        } else {
            vstd::arithmetic::power::lemma1_pow(j);
        }
    }
}

/// A machine integer is a coordinate with the arithmetic of the integers. It
/// computes in `i128`, which holds every result that fits the type.
impl<T: crate::primitives::field_element::Number> Number for T {
    open spec fn value(self) -> int {
        crate::primitives::field_element::Number::value(self)
    }

    open spec fn modulus(self) -> Option<int> {
        None
    }

    open spec fn least() -> int {
        T::min_value()
    }

    open spec fn greatest() -> int {
        T::max_value()
    }

    proof fn lemma_range(self) {
        crate::primitives::field_element::Number::lemma_range(self);
    }

    proof fn lemma_value_injective(self, other: Self) {
        crate::primitives::field_element::Number::lemma_value_injective(self, other);
    }

    fn is_equal(&self, rhs: &Self) -> (b: bool) {
        self.to_wide() == rhs.to_wide()
    }

    fn to_decimal(&self) -> (s: String) {
        format_integer(self.to_wide())
    }

    fn zero_like(self) -> (r: Self) {
        proof {
            crate::primitives::field_element::Number::lemma_range(self);
        }
        T::from_wide(0)
    }

    fn one_like(self) -> (r: Self) {
        proof {
            crate::primitives::field_element::Number::lemma_range(self);
        }
        T::from_wide(1)
    }

    fn add(self, rhs: Self) -> (r: Self) {
        proof {
            crate::primitives::field_element::Number::lemma_range(rhs);
        }
        T::from_wide(self.to_wide() + rhs.to_wide())
    }

    fn sub(self, rhs: Self) -> (r: Self) {
        proof {
            crate::primitives::field_element::Number::lemma_range(rhs);
        }
        T::from_wide(self.to_wide() - rhs.to_wide())
    }

    fn mul(self, rhs: Self) -> (r: Self) {
        proof {
            crate::primitives::field_element::Number::lemma_range(self);
        }
        T::from_wide(self.to_wide() * rhs.to_wide())
    }

    fn div(self, rhs: Self) -> (r: Self) {
        let n = self.to_wide();
        let d = rhs.to_wide();
        proof {
            crate::primitives::field_element::Number::lemma_range(self);
            if n >= 0 && d < 0 {
                lemma_quotient_by_negative(n as int, -(d as int));
            }
            if n < 0 && d < 0 {
                lemma_quotient_by_negative(-(n as int), -(d as int));
            }
        }
        T::from_wide(n / d)
    }

    fn pow(self, exp: u8) -> (r: Self) {
        let base = self.to_wide();
        let mut power: i128 = 1;
        let mut done: u8 = 0;
        proof {
            vstd::arithmetic::power::lemma_pow0(base as int);
            crate::primitives::field_element::Number::lemma_range(self);
        }
        while done < exp
            invariant
                done <= exp,
                base == self.value(),
                power == pow(base as int, done as nat),
                T::min_value() <= base <= T::max_value(),
                T::min_value() == 0 || T::min_value() == -T::max_value() - 1,
                127 <= T::max_value() <= 0xffff_ffff_ffff_ffff,
                within(T::min_value(), T::max_value(), pow(base as int, exp as nat)),
            decreases exp - done,
        {
            proof {
                lemma_lower_power_fits(
                    T::min_value(),
                    T::max_value(),
                    base as int,
                    (done + 1) as nat,
                    exp as nat,
                );
                assert(pow(base as int, (done + 1) as nat) == base * pow(base as int, done as nat))
                    by {
                    reveal(pow);
                }
            }
            power = power * base;
            done = done + 1;
        }
        T::from_wide(power)
    }
}

/// A residue is a coordinate with the arithmetic of its field.
impl<T: crate::primitives::field_element::Number> Number for FieldElement<T> {
    open spec fn value(self) -> int {
        FieldElement::value(self)
    }

    open spec fn modulus(self) -> Option<int> {
        Some(FieldElement::modulus(self))
    }

    open spec fn least() -> int {
        T::min_value()
    }

    open spec fn greatest() -> int {
        T::max_value()
    }

    proof fn lemma_range(self) {
        crate::primitives::field_element::Number::lemma_range(arbitrary::<T>());
    }

    proof fn lemma_value_injective(self, other: Self) {
        self.lemma_same(other);
    }

    fn is_equal(&self, rhs: &Self) -> (b: bool) {
        *self == *rhs
    }

    fn to_decimal(&self) -> (s: String) {
        self.to_string()
    }

    fn zero_like(self) -> (r: Self) {
        match FieldElement::new(T::zero(), self.prime()) {
            Ok(zero) => zero,
            Err(_) => unreached(),
        }
    }

    fn one_like(self) -> (r: Self) {
        let prime = self.prime();
        let one = if prime.to_wide() == 1 {
            T::zero()
        } else {
            T::one()
        };
        proof {
            if FieldElement::modulus(self) != 1 {
                vstd::arithmetic::div_mod::lemma_small_mod(1, FieldElement::modulus(self) as nat);
            }
        }
        match FieldElement::new(one, prime) {
            Ok(one) => one,
            Err(_) => unreached(),
        }
    }

    fn add(self, rhs: Self) -> (r: Self) {
        match self + rhs {
            Ok(sum) => sum,
            Err(_) => unreached(),
        }
    }

    fn sub(self, rhs: Self) -> (r: Self) {
        match self - rhs {
            Ok(difference) => difference,
            Err(_) => unreached(),
        }
    }

    fn mul(self, rhs: Self) -> (r: Self) {
        match self * rhs {
            Ok(product) => product,
            Err(_) => unreached(),
        }
    }

    fn div(self, rhs: Self) -> (r: Self) {
        if self.prime().to_wide() == 1 {
            return self;
        }
        match self / rhs {
            Ok(quotient) => quotient,
            Err(_) => unreached(),
        }
    }

    fn pow(self, exp: u8) -> (r: Self) {
        let ghost base = FieldElement::value(self);
        let ghost m = FieldElement::modulus(self);
        let mut power = self.one_like();
        let mut done: u8 = 0;
        proof {
            vstd::arithmetic::power::lemma_pow0(base);
        }
        while done < exp
            invariant
                done <= exp,
                m >= 1,
                base == FieldElement::value(self),
                m == FieldElement::modulus(self),
                FieldElement::modulus(power) == m,
                FieldElement::value(power) == pow(base, done as nat) % m,
            decreases exp - done,
        {
            proof {
                assert(pow(base, (done + 1) as nat) == base * pow(base, done as nat)) by {
                    reveal(pow);
                }
                vstd::arithmetic::div_mod::lemma_mul_mod_noop_left(
                    pow(base, done as nat),
                    base,
                    m,
                );
                assert(pow(base, done as nat) * base == base * pow(base, done as nat))
                    by (nonlinear_arith);
            }
            power = power.mul(self);
            done = done + 1;
        }
        power
    }
}

} // verus!
