//! Residues modulo a prime, their arithmetic, and the laws that make them a
//! field.

use crate::primitives::number_theory::{is_prime, lemma_fermat_little};
use crate::primitives::text::{decimal, format_integer};
use vstd::arithmetic::power::pow;
use vstd::prelude::*;
use vstd::string::StringExecFns;

verus! {

/// What an integer type must offer to carry a residue: identities, equality
/// and order, sums and differences, and a way to and from `i128`.
///
/// A value stands for the mathematical integer `value()`, which lies between
/// `min_value()` and `max_value()`; every operation says what it does to that
/// integer and asks that the result fit the type. The type holds at most 64
/// bits, so that the product of two residues fits 128.
pub trait Number: Copy + Sized {
    /// The integer that `self` stands for.
    spec fn value(self) -> int;

    /// The least integer the type can hold.
    spec fn min_value() -> int;

    /// The greatest integer the type can hold.
    spec fn max_value() -> int;

    /// Every value lies in the type's range. The range starts at zero or is
    /// that of a two's complement type, and its end fits 64 bits.
    proof fn lemma_range(self)
        ensures
            Self::min_value() <= self.value() <= Self::max_value(),
            Self::min_value() == 0 || Self::min_value() == -Self::max_value() - 1,
            127 <= Self::max_value() <= 0xffff_ffff_ffff_ffff,
    ;

    /// Two values that stand for the same integer are the same value.
    proof fn lemma_value_injective(self, other: Self)
        requires
            self.value() == other.value(),
        ensures
            self == other,
    ;

    /// The additive identity.
    fn zero() -> (r: Self)
        ensures
            r.value() == 0,
    ;

    /// The multiplicative identity.
    fn one() -> (r: Self)
        ensures
            r.value() == 1,
    ;

    /// Whether both stand for the same integer.
    fn is_equal(&self, rhs: &Self) -> (b: bool)
        ensures
            b == (self.value() == rhs.value()),
    ;

    /// Whether `self` stands for the smaller integer.
    fn is_less(&self, rhs: &Self) -> (b: bool)
        ensures
            b == (self.value() < rhs.value()),
    ;

    /// The sum, where it fits.
    fn add(self, rhs: Self) -> (r: Self)
        requires
            Self::min_value() <= self.value() + rhs.value() <= Self::max_value(),
        ensures
            r.value() == self.value() + rhs.value(),
    ;

    /// The difference, where it fits.
    fn sub(self, rhs: Self) -> (r: Self)
        requires
            Self::min_value() <= self.value() - rhs.value() <= Self::max_value(),
        ensures
            r.value() == self.value() - rhs.value(),
    ;

    /// The same integer as an `i128`.
    fn to_wide(self) -> (w: i128)
        ensures
            w == self.value(),
    ;

    /// The value that stands for `w`, where the type can hold it.
    fn from_wide(w: i128) -> (r: Self)
        requires
            Self::min_value() <= w <= Self::max_value(),
        ensures
            r.value() == w,
    ;
}

/// The value of type `T` that stands for `v`, where there is one.
pub open spec fn of_value<T: Number>(v: int) -> T {
    choose|t: T| t.value() == v
}

/// `of_value` gives back the value it is asked for.
pub proof fn lemma_of_value<T: Number>(t: T)
    ensures
        of_value::<T>(t.value()) == t,
{
    of_value::<T>(t.value()).lemma_value_injective(t);
}

/// The residue of `a + b` modulo `m`.
pub open spec fn sum_residue(a: int, b: int, m: int) -> int {
    (a + b) % m
}

/// The residue of `a - b` modulo `m`.
pub open spec fn difference_residue(a: int, b: int, m: int) -> int {
    (a - b) % m
}

/// The residue of `a * b` modulo `m`.
pub open spec fn product_residue(a: int, b: int, m: int) -> int {
    (a * b) % m
}

/// The residue of `b` to the power `m - 2` modulo `m`: the inverse of `b`
/// where `m` is prime and `b` is not zero.
pub open spec fn inverse_residue(b: int, m: int) -> int {
    pow(b, (m - 2) as nat) % m
}

/// The residue of `a` times the inverse residue of `b`, modulo `m`.
pub open spec fn quotient_residue(a: int, b: int, m: int) -> int {
    (a * inverse_residue(b, m)) % m
}

/// The residue that raising `a` to the exponent `e` gives: one for `e` zero,
/// and otherwise the power of `a` whose exponent is the least nonnegative
/// remainder of `e` on division by `m - 1`, reduced modulo `m`.
pub open spec fn power_residue(a: int, e: int, m: int) -> int {
    if e == 0 {
        1
    } else {
        pow(a, (e % (m - 1)) as nat) % m
    }
}

/// Calls `mod_exp::mod_exp` at `u128` and is trusted to return what that
/// function is written to compute: `base` to the power `exponent`, reduced
/// modulo `modulus`. The outside function stops the program unless
/// `modulus - 1 < MAX / (modulus - 1)`, which keeps every product it forms
/// within the type; callers must show that much.
#[verifier::external_body]
fn modular_power(base: u128, exponent: u128, modulus: u128) -> (r: u128)
    requires
        modulus >= 2,
        modulus - 1 < u128::MAX / ((modulus - 1) as u128),
    ensures
        r == pow(base as int, exponent as nat) % (modulus as int),
{
    mod_exp::mod_exp(base, exponent, modulus)
}

/// Calls `num::traits::Euclid::rem_euclid` at `i128` and is trusted to return
/// what that function is documented to: the least nonnegative remainder of `n`
/// on division by `d`. Only a positive `d` is passed on.
#[verifier::external_body]
fn euclidean_remainder(n: i128, d: i128) -> (r: i128)
    requires
        d > 0,
    ensures
        r == n % d,
{
    num::traits::Euclid::rem_euclid(&n, &d)
}

/// A modulus whose carrier fits 64 bits passes the test that the outside
/// exponentiation makes before it starts.
proof fn lemma_modulus_admitted(m: int)
    requires
        2 <= m <= 0xffff_ffff_ffff_ffff,
    ensures
        m - 1 < (u128::MAX as int) / (m - 1),
{
    let k = m - 1;
    assert(k * (k + 1) <= u128::MAX) by (nonlinear_arith)
        requires
            1 <= k <= 0xffff_ffff_ffff_fffe,
    ;
    vstd::arithmetic::div_mod::lemma_div_by_multiple(k + 1, k);
    vstd::arithmetic::div_mod::lemma_div_is_ordered(k * (k + 1), u128::MAX as int, k);
}

/// Why a residue could not be made or combined.
#[derive(Clone, Copy, Debug, PartialEq, Eq)]
pub enum Error<T> {
    /// The value, given first, is not in `[0, modulus)`.
    NotInRange(T, T),
    /// The two operands have different moduli.
    DifferentFields,
}

impl<T: Number> Error<T> {
    /// The message that describes the error, with numbers in decimal.
    pub fn to_string(&self) -> (s: String)
        ensures
            s@ == match *self {
                Error::NotInRange(num, prime) => decimal(num.value())
                    + " is not in field range 0 to "@ + decimal(prime.value()),
                Error::DifferentFields => "Sides are of different fields"@,
            },
    {
        match *self {
            Error::NotInRange(num, prime) => {
                let text = format_integer(num.to_wide());
                let text = text.concat(" is not in field range 0 to ");
                text.concat(format_integer(prime.to_wide()).as_str())
            },
            Error::DifferentFields => String::from_str("Sides are of different fields"),
        }
    }
}

/// A residue together with its modulus. The residue is at least zero and
/// below the modulus for as long as the value lives.
#[derive(Debug)]
pub struct FieldElement<T: Number>(T, T);

impl<T: Number> Clone for FieldElement<T> {
    fn clone(&self) -> (r: Self)
        ensures
            r == *self,
    {
        *self
    }
}

impl<T: Number> Copy for FieldElement<T> {

}

impl<T: Number> FieldElement<T> {
    /// The residue.
    pub closed spec fn value(self) -> int {
        self.0.value()
    }

    /// The modulus.
    pub closed spec fn modulus(self) -> int {
        self.1.value()
    }

    /// The residue is at least zero and below the modulus.
    pub open spec fn in_range(self) -> bool {
        0 <= self.value() < self.modulus()
    }

    /// The element of the same field whose residue is `v`.
    pub closed spec fn with_value(self, v: int) -> FieldElement<T> {
        FieldElement(of_value(v), self.1)
    }

    #[verifier::type_invariant]
    spec fn inv(self) -> bool {
        self.in_range()
    }

    /// Two elements with the same residue and the same modulus are the same.
    pub proof fn lemma_same(self, other: FieldElement<T>)
        requires
            self.value() == other.value(),
            self.modulus() == other.modulus(),
        ensures
            self == other,
    {
        self.0.lemma_value_injective(other.0);
        self.1.lemma_value_injective(other.1);
    }

    /// Whether `num` is a residue modulo `prime`: at least zero and below it.
    pub fn has_valid_range(num: T, prime: T) -> (valid: bool)
        ensures
            valid == (0 <= num.value() < prime.value()),
    {
        if !num.is_less(&prime) || num.is_less(&T::zero()) {
            return false;
        }
        true
    }

    /// The residue `num` modulo `prime`, or `NotInRange` where `num` is not in
    /// `[0, prime)`.
    pub fn new(num: T, prime: T) -> (r: Result<FieldElement<T>, Error<T>>)
        ensures
            0 <= num.value() < prime.value() ==> r is Ok && r->Ok_0.value() == num.value()
                && r->Ok_0.modulus() == prime.value(),
            !(0 <= num.value() < prime.value()) ==> r == Err::<FieldElement<T>, Error<T>>(
                Error::NotInRange(num, prime),
            ),
    {
        if !Self::has_valid_range(num, prime) {
            return Err(Error::NotInRange(num, prime));
        }
        Ok(FieldElement(num, prime))
    }

    /// The residue, as it was given.
    pub fn num(&self) -> (num: T)
        ensures
            num.value() == self.value(),
            0 <= num.value() < self.modulus(),
    {
        proof {
            use_type_invariant(self);
        }
        self.0
    }

    /// The modulus, as it was given.
    pub fn prime(&self) -> (prime: T)
        ensures
            prime.value() == self.modulus(),
            0 <= self.value() < prime.value(),
    {
        proof {
            use_type_invariant(self);
        }
        self.1
    }

    /// The element raised to the exponent `exp`. The exponent zero gives one.
    /// Any other exponent is first replaced by its least nonnegative remainder
    /// on division by the modulus less one, which by Fermat's little theorem
    /// leaves the power of a nonzero element of a prime field unchanged and
    /// gives a negative exponent a meaning. The modulus is at least two.
    pub fn pow(&self, exp: T) -> (r: FieldElement<T>)
        requires
            self.modulus() >= 2,
        ensures
            r.modulus() == self.modulus(),
            r.value() == power_residue(self.value(), exp.value(), self.modulus()),
            0 <= r.value() < r.modulus(),
            exp.value() == 0 ==> r.value() == 1,
    {
        proof {
            use_type_invariant(self);
            self.0.lemma_range();
            self.1.lemma_range();
            exp.lemma_range();
        }
        if exp.is_equal(&T::zero()) {
            return FieldElement(T::one(), self.1);
        }
        let modulus = self.1.to_wide();
        let n = euclidean_remainder(exp.to_wide(), modulus - 1);
        proof {
            lemma_modulus_admitted(modulus as int);
            vstd::arithmetic::div_mod::lemma_mod_bound(exp.value(), modulus - 1);
            vstd::arithmetic::div_mod::lemma_mod_bound(
                pow(self.value(), n as nat),
                modulus as int,
            );
        }
        let num = modular_power(self.0.to_wide() as u128, n as u128, modulus as u128);
        FieldElement(T::from_wide(num as i128), self.1)
    }

    /// The residue in decimal.
    pub fn to_string(&self) -> (s: String)
        ensures
            s@ == decimal(self.value()),
    {
        format_integer(self.0.to_wide())
    }
}

impl<T: Number> PartialEq for FieldElement<T> {
    /// Two elements are equal where their residues are; the moduli are not
    /// compared.
    fn eq(&self, other: &Self) -> (b: bool) {
        self.0.is_equal(&other.0)
    }
}

impl<T: Number> vstd::std_specs::cmp::PartialEqSpecImpl for FieldElement<T> {
    open spec fn obeys_eq_spec() -> bool {
        true
    }

    open spec fn eq_spec(&self, other: &Self) -> bool {
        self.value() == other.value()
    }
}

impl<T: Number> core::ops::Add for FieldElement<T> {
    type Output = Result<FieldElement<T>, Error<T>>;

    /// The sum of two elements of one field; `DifferentFields` where the
    /// moduli differ.
    fn add(self, rhs: Self) -> (r: Self::Output)
        ensures
            self.modulus() != rhs.modulus() ==> r == Err::<FieldElement<T>, Error<T>>(
                Error::DifferentFields,
            ),
            self.modulus() == rhs.modulus() ==> r is Ok && r->Ok_0.modulus() == self.modulus()
                && r->Ok_0.value() == sum_residue(self.value(), rhs.value(), self.modulus())
                && 0 <= r->Ok_0.value() < self.modulus(),
    {
        proof {
            use_type_invariant(&self);
            use_type_invariant(&rhs);
            self.1.lemma_range();
        }
        if !self.1.is_equal(&rhs.1) {
            return Err(Error::DifferentFields);
        }
        let gap = self.1.sub(rhs.0);
        let num = if self.0.is_less(&gap) {
            self.0.add(rhs.0)
        } else {
            self.0.sub(gap)
        };
        proof {
            let a = self.value();
            let b = rhs.value();
            let m = self.modulus();
            if a + b < m {
                vstd::arithmetic::div_mod::lemma_small_mod((a + b) as nat, m as nat);
            } else {
                vstd::arithmetic::div_mod::lemma_small_mod((a + b - m) as nat, m as nat);
                vstd::arithmetic::div_mod::lemma_mod_add_multiples_vanish(a + b - m, m);
            }
            lemma_of_value(num);
        }
        Ok(FieldElement(num, self.1))
    }
}

impl<T: Number> vstd::std_specs::ops::AddSpecImpl for FieldElement<T> {
    open spec fn obeys_add_spec() -> bool {
        true
    }

    open spec fn add_req(self, rhs: Self) -> bool {
        true
    }

    open spec fn add_spec(self, rhs: Self) -> Self::Output {
        if self.modulus() != rhs.modulus() {
            Err(Error::DifferentFields)
        } else {
            Ok(self.with_value(sum_residue(self.value(), rhs.value(), self.modulus())))
        }
    }
}

impl<T: Number> core::ops::Sub for FieldElement<T> {
    type Output = Result<FieldElement<T>, Error<T>>;

    /// The difference of two elements of one field; `DifferentFields` where
    /// the moduli differ.
    fn sub(self, rhs: Self) -> (r: Self::Output)
        ensures
            self.modulus() != rhs.modulus() ==> r == Err::<FieldElement<T>, Error<T>>(
                Error::DifferentFields,
            ),
            self.modulus() == rhs.modulus() ==> r is Ok && r->Ok_0.modulus() == self.modulus()
                && r->Ok_0.value() == difference_residue(
                self.value(),
                rhs.value(),
                self.modulus(),
            ) && 0 <= r->Ok_0.value() < self.modulus(),
    {
        proof {
            use_type_invariant(&self);
            use_type_invariant(&rhs);
            self.1.lemma_range();
        }
        if !self.1.is_equal(&rhs.1) {
            return Err(Error::DifferentFields);
        }
        let num = if self.0.is_less(&rhs.0) {
            self.1.sub(rhs.0.sub(self.0))
        } else {
            self.0.sub(rhs.0)
        };
        proof {
            let a = self.value();
            let b = rhs.value();
            let m = self.modulus();
            if a < b {
                vstd::arithmetic::div_mod::lemma_small_mod((a - b + m) as nat, m as nat);
                vstd::arithmetic::div_mod::lemma_mod_add_multiples_vanish(a - b, m);
            } else {
                vstd::arithmetic::div_mod::lemma_small_mod((a - b) as nat, m as nat);
            }
            lemma_of_value(num);
        }
        Ok(FieldElement(num, self.1))
    }
}

impl<T: Number> vstd::std_specs::ops::SubSpecImpl for FieldElement<T> {
    open spec fn obeys_sub_spec() -> bool {
        true
    }

    open spec fn sub_req(self, rhs: Self) -> bool {
        true
    }

    open spec fn sub_spec(self, rhs: Self) -> Self::Output {
        if self.modulus() != rhs.modulus() {
            Err(Error::DifferentFields)
        } else {
            Ok(self.with_value(difference_residue(self.value(), rhs.value(), self.modulus())))
        }
    }
}

impl<T: Number> core::ops::Mul for FieldElement<T> {
    type Output = Result<FieldElement<T>, Error<T>>;

    /// The product of two elements of one field; `DifferentFields` where the
    /// moduli differ.
    fn mul(self, rhs: Self) -> (r: Self::Output)
        ensures
            self.modulus() != rhs.modulus() ==> r == Err::<FieldElement<T>, Error<T>>(
                Error::DifferentFields,
            ),
            self.modulus() == rhs.modulus() ==> r is Ok && r->Ok_0.modulus() == self.modulus()
                && r->Ok_0.value() == product_residue(self.value(), rhs.value(), self.modulus())
                && 0 <= r->Ok_0.value() < self.modulus(),
    {
        proof {
            use_type_invariant(&self);
            use_type_invariant(&rhs);
            self.1.lemma_range();
        }
        if !self.1.is_equal(&rhs.1) {
            return Err(Error::DifferentFields);
        }
        let a = self.0.to_wide() as u128;
        let b = rhs.0.to_wide() as u128;
        let m = self.1.to_wide() as u128;
        proof {
            assert(a * b <= u128::MAX) by (nonlinear_arith)
                requires
                    a <= 0xffff_ffff_ffff_ffff,
                    b <= 0xffff_ffff_ffff_ffff,
            ;
            vstd::arithmetic::div_mod::lemma_mod_bound(a * b, m as int);
        }
        let num = T::from_wide(((a * b) % m) as i128);
        proof {
            lemma_of_value(num);
        }
        Ok(FieldElement(num, self.1))
    }
}

impl<T: Number> vstd::std_specs::ops::MulSpecImpl for FieldElement<T> {
    open spec fn obeys_mul_spec() -> bool {
        true
    }

    open spec fn mul_req(self, rhs: Self) -> bool {
        true
    }

    open spec fn mul_spec(self, rhs: Self) -> Self::Output {
        if self.modulus() != rhs.modulus() {
            Err(Error::DifferentFields)
        } else {
            Ok(self.with_value(product_residue(self.value(), rhs.value(), self.modulus())))
        }
    }
}

impl<T: Number> core::ops::Div for FieldElement<T> {
    type Output = Result<FieldElement<T>, Error<T>>;

    /// The quotient of two elements of one field, as the product of the first
    /// and the second raised to the power of the modulus less two;
    /// `DifferentFields` where the moduli differ. Only in a field of prime
    /// modulus is that power the inverse; nothing tests that the modulus is
    /// prime.
    fn div(self, rhs: Self) -> (r: Self::Output)
        ensures
            self.modulus() != rhs.modulus() ==> r == Err::<FieldElement<T>, Error<T>>(
                Error::DifferentFields,
            ),
            self.modulus() == rhs.modulus() ==> r is Ok && r->Ok_0.modulus() == self.modulus()
                && r->Ok_0.value() == quotient_residue(self.value(), rhs.value(), self.modulus())
                && 0 <= r->Ok_0.value() < self.modulus(),
    {
        proof {
            use_type_invariant(&self);
            use_type_invariant(&rhs);
            self.1.lemma_range();
        }
        if !self.1.is_equal(&rhs.1) {
            return Err(Error::DifferentFields);
        }
        let a = self.0.to_wide() as u128;
        let b = rhs.0.to_wide() as u128;
        let m = self.1.to_wide() as u128;
        proof {
            lemma_modulus_admitted(m as int);
            vstd::arithmetic::div_mod::lemma_mod_bound(pow(b as int, (m - 2) as nat), m as int);
        }
        let inverse = modular_power(b, m - 2, m);
        proof {
            assert(a * inverse <= u128::MAX) by (nonlinear_arith)
                requires
                    a <= 0xffff_ffff_ffff_ffff,
                    inverse <= 0xffff_ffff_ffff_ffff,
            ;
            vstd::arithmetic::div_mod::lemma_mod_bound(a * inverse, m as int);
        }
        let num = T::from_wide(((a * inverse) % m) as i128);
        proof {
            lemma_of_value(num);
        }
        Ok(FieldElement(num, self.1))
    }
}

impl<T: Number> vstd::std_specs::ops::DivSpecImpl for FieldElement<T> {
    open spec fn obeys_div_spec() -> bool {
        true
    }

    /// The modulus is at least two.
    open spec fn div_req(self, rhs: Self) -> bool {
        self.modulus() >= 2
    }

    open spec fn div_spec(self, rhs: Self) -> Self::Output {
        if self.modulus() != rhs.modulus() {
            Err(Error::DifferentFields)
        } else {
            Ok(self.with_value(quotient_residue(self.value(), rhs.value(), self.modulus())))
        }
    }
}

/// In a field of prime modulus dividing one by a nonzero element gives its
/// inverse: the element times that quotient is one.
pub proof fn lemma_inverse_round_trip(a: int, p: int)
    requires
        is_prime(p),
        0 < a < p,
    ensures
        product_residue(a, quotient_residue(1, a, p), p) == 1,
{
    let e = (p - 2) as nat;
    let inverse = inverse_residue(a, p);
    vstd::arithmetic::div_mod::lemma_mod_bound(pow(a, e), p);
    assert(quotient_residue(1, a, p) == inverse) by {
        vstd::arithmetic::div_mod::lemma_small_mod(inverse as nat, p as nat);
    }
    lemma_power_times_base(a, e, p);
}

/// Modulo a prime `p`, a number that `p` does not divide, times its power
/// `p - 2` reduced modulo `p`, is one.
proof fn lemma_power_times_base(a: int, e: nat, p: int)
    requires
        is_prime(p),
        0 < a < p,
        e == p - 2,
    ensures
        (a * (pow(a, e) % p)) % p == 1,
{
    vstd::arithmetic::div_mod::lemma_mul_mod_noop_right(a, pow(a, e), p);
    assert(pow(a, (p - 1) as nat) == a * pow(a, e)) by {
        reveal(pow);
    }
    vstd::arithmetic::div_mod::lemma_small_mod(a as nat, p as nat);
    lemma_fermat_little(a, p);
}

/// In a field of prime modulus division undoes multiplication: the quotient
/// of `a` by a nonzero `b`, times `b`, is `a`.
pub proof fn lemma_quotient_times_divisor(a: int, b: int, p: int)
    requires
        is_prime(p),
        0 <= a < p,
        0 < b < p,
    ensures
        product_residue(quotient_residue(a, b, p), b, p) == a,
{
    let e = (p - 2) as nat;
    let inverse = inverse_residue(b, p);
    lemma_power_times_base(b, e, p);
    assert(((a * inverse) % p * b) % p == (a * inverse * b) % p) by {
        vstd::arithmetic::div_mod::lemma_mul_mod_noop_left(a * inverse, b, p);
    }
    assert(a * inverse * b == a * (b * inverse)) by (nonlinear_arith);
    assert((a * (b * inverse)) % p == a) by {
        vstd::arithmetic::div_mod::lemma_mul_mod_noop_right(a, b * inverse, p);
        vstd::arithmetic::div_mod::lemma_small_mod(a as nat, p as nat);
    }
}

/// In a field of prime modulus, replacing an exponent by its remainder on
/// division by the modulus less one leaves the power of a nonzero element
/// unchanged: for an exponent that is not negative, `pow` gives the true power.
pub proof fn lemma_power_is_true_power(a: int, e: nat, p: int)
    requires
        is_prime(p),
        0 < a < p,
    ensures
        power_residue(a, e as int, p) == pow(a, e) % p,
{
    if e == 0 {
        vstd::arithmetic::power::lemma_pow0(a);
        vstd::arithmetic::div_mod::lemma_small_mod(1, p as nat);
    } else {
        let n = (p - 1) as nat;
        let q = (e / n) as nat;
        let r = (e % n) as nat;
        vstd::arithmetic::div_mod::lemma_fundamental_div_mod(e as int, n as int);
        vstd::arithmetic::div_mod::lemma_small_mod(a as nat, p as nat);
        lemma_fermat_little(a, p);
        assert(pow(a, e) == pow(pow(a, n), q) * pow(a, r)) by {
            vstd::arithmetic::power::lemma_pow_multiplies(a, n, q);
            vstd::arithmetic::power::lemma_pow_adds(a, n * q, r);
        }
        assert(pow(pow(a, n), q) % p == 1) by {
            vstd::arithmetic::power::lemma_pow_mod_noop(pow(a, n), q, p);
            vstd::arithmetic::power::lemma1_pow(q);
            vstd::arithmetic::div_mod::lemma_small_mod(1, p as nat);
        }
        assert((pow(pow(a, n), q) * pow(a, r)) % p == pow(a, r) % p) by {
            vstd::arithmetic::div_mod::lemma_mul_mod_noop_left(pow(pow(a, n), q), pow(a, r), p);
        }
    }
}

} // verus!
