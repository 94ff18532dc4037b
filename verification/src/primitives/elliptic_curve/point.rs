//! Points of a curve in short Weierstrass form, and their addition.

use crate::primitives::elliptic_curve::arithmetic::{
    lemma_minus_reduces, lemma_over_reduced, lemma_plus_reduces, lemma_reduce,
    lemma_times_reduces, minus, over, plus, raised, reduce, reduced, times, truncated_quotient,
    unit, within,
};
use crate::primitives::elliptic_curve::weierstrass::{
    equation_fits, line_meets_curve, satisfies_equation, slope_is_exact, CurvePoint,
};
use crate::primitives::number_theory::is_prime;
use crate::primitives::text::decimal;
use vstd::arithmetic::power::{lemma_pow1, lemma_pow_adds, lemma_square_is_pow2, pow};
use vstd::prelude::*;
use vstd::string::StringExecFns;

verus! {

/// What a type must offer to be a coordinate: identities, equality, the four
/// operations and raising to a small power.
///
/// A coordinate stands for the integer `value()`. Its arithmetic is that of
/// the integers, where `modulus()` is `None`, and results must then lie
/// between `least()` and `greatest()`; or it is that of the residues of
/// `modulus()`, where every result is reduced. Two coordinates are combined
/// only where their arithmetic is the same, and what comes out belongs to
/// that arithmetic.
pub trait Number: Copy + Sized {
    /// The integer that `self` stands for.
    spec fn value(self) -> int;

    /// The modulus that the arithmetic reduces by, if it reduces.
    spec fn modulus(self) -> Option<int>;

    /// The least integer that a coordinate without a modulus can hold.
    spec fn least() -> int;

    /// The greatest integer that a coordinate without a modulus can hold.
    spec fn greatest() -> int;

    /// A coordinate without a modulus lies in the range of its type, which
    /// starts at zero or is that of a two's complement type.
    proof fn lemma_range(self)
        ensures
            self.modulus() is None ==> Self::least() <= self.value() <= Self::greatest(),
            Self::least() == 0 || Self::least() == -Self::greatest() - 1,
            127 <= Self::greatest(),
    ;

    /// Two coordinates that stand for the same integer in the same
    /// arithmetic are the same.
    proof fn lemma_value_injective(self, other: Self)
        requires
            self.value() == other.value(),
            self.modulus() == other.modulus(),
        ensures
            self == other,
    ;

    /// Whether both stand for the same integer.
    fn is_equal(&self, rhs: &Self) -> (b: bool)
        ensures
            b == (self.value() == rhs.value()),
    ;

    /// The integer that `self` stands for, in decimal.
    fn to_decimal(&self) -> (s: String)
        ensures
            s@ == decimal(self.value()),
    ;

    /// The additive identity of the arithmetic of `self`.
    fn zero_like(self) -> (r: Self)
        ensures
            r.value() == 0,
            r.modulus() == self.modulus(),
            reduced(self.modulus(), r.value()),
    ;

    /// The multiplicative identity of the arithmetic of `self`.
    fn one_like(self) -> (r: Self)
        ensures
            r.value() == unit(self.modulus()),
            r.modulus() == self.modulus(),
            reduced(self.modulus(), r.value()),
    ;

    /// The sum.
    fn add(self, rhs: Self) -> (r: Self)
        requires
            self.modulus() == rhs.modulus(),
            self.modulus() is None ==> within(
                Self::least(),
                Self::greatest(),
                self.value() + rhs.value(),
            ),
        ensures
            r.value() == plus(self.modulus(), self.value(), rhs.value()),
            r.modulus() == self.modulus(),
            reduced(self.modulus(), r.value()),
    ;

    /// The difference.
    fn sub(self, rhs: Self) -> (r: Self)
        requires
            self.modulus() == rhs.modulus(),
            self.modulus() is None ==> within(
                Self::least(),
                Self::greatest(),
                self.value() - rhs.value(),
            ),
        ensures
            r.value() == minus(self.modulus(), self.value(), rhs.value()),
            r.modulus() == self.modulus(),
            reduced(self.modulus(), r.value()),
    ;

    /// The product.
    fn mul(self, rhs: Self) -> (r: Self)
        requires
            self.modulus() == rhs.modulus(),
            self.modulus() is None ==> within(
                Self::least(),
                Self::greatest(),
                self.value() * rhs.value(),
            ),
        ensures
            r.value() == times(self.modulus(), self.value(), rhs.value()),
            r.modulus() == self.modulus(),
            reduced(self.modulus(), r.value()),
    ;

    /// The quotient. Among the integers the divisor is not zero.
    fn div(self, rhs: Self) -> (r: Self)
        requires
            self.modulus() == rhs.modulus(),
            self.modulus() is None ==> rhs.value() != 0 && within(
                Self::least(),
                Self::greatest(),
                truncated_quotient(self.value(), rhs.value()),
            ),
        ensures
            r.value() == over(self.modulus(), self.value(), rhs.value()),
            r.modulus() == self.modulus(),
            reduced(self.modulus(), r.value()),
    ;

    /// `self` raised to the power `exp`.
    fn pow(self, exp: u8) -> (r: Self)
        requires
            self.modulus() is None ==> within(
                Self::least(),
                Self::greatest(),
                pow(self.value(), exp as nat),
            ),
        ensures
            r.value() == raised(self.modulus(), self.value(), exp as nat),
            r.modulus() == self.modulus(),
            reduced(self.modulus(), r.value()),
    ;
}

/// The coordinate of type `T` that stands for `v` in the arithmetic `m`,
/// where there is one.
pub open spec fn coordinate<T: Number>(m: Option<int>, v: int) -> T {
    choose|t: T| t.value() == v && t.modulus() == m
}

/// `coordinate` gives back the coordinate it is asked for.
pub proof fn lemma_coordinate<T: Number>(t: T)
    ensures
        coordinate::<T>(t.modulus(), t.value()) == t,
{
    coordinate::<T>(t.modulus(), t.value()).lemma_value_injective(t);
}

/// Whether `t` has the arithmetic `m` and is a value of it.
pub open spec fn belongs<T: Number>(t: T, m: Option<int>) -> bool {
    t.modulus() == m && reduced(m, t.value())
}

/// Why a point could not be made.
#[derive(Clone, Copy, Debug, PartialEq, Eq)]
pub enum Error<T> {
    /// Only one of the two coordinates was given.
    InvalidPoint,
    /// The coordinates, `x` first, do not solve the curve's equation.
    NotOnCurve(T, T),
}

impl<T: Number> Error<T> {
    /// The message that describes the error, with numbers in decimal.
    pub fn to_string(&self) -> (s: String)
        ensures
            s@ == match *self {
                Error::InvalidPoint => "Invalid point"@,
                Error::NotOnCurve(x, y) => "("@ + decimal(x.value()) + ", "@ + decimal(y.value())
                    + ") is not on the curve"@,
            },
    {
        match *self {
            Error::InvalidPoint => String::from_str("Invalid point"),
            Error::NotOnCurve(x, y) => {
                let text = String::from_str("(");
                let text = text.concat(x.to_decimal().as_str());
                let text = text.concat(", ");
                let text = text.concat(y.to_decimal().as_str());
                text.concat(") is not on the curve")
            },
        }
    }
}

/// A point of the curve `y^2 = x^3 + a x + b`.
#[derive(Debug, Clone, Copy, PartialEq, Eq)]
pub enum Point<T> {
    /// The point with coordinates `x` and `y`.
    Affine { a: T, b: T, x: T, y: T },
    /// The point at infinity, the identity of the group.
    Infinity { a: T, b: T },
}

impl<T: Number> View for Point<T> {
    type V = CurvePoint;

    open spec fn view(&self) -> CurvePoint {
        match *self {
            Point::Affine { a, b, x, y } => CurvePoint::Affine {
                a: a.value(),
                b: b.value(),
                x: x.value(),
                y: y.value(),
            },
            Point::Infinity { a, b } => CurvePoint::Infinity { a: a.value(), b: b.value() },
        }
    }
}

/// The third power is the product of three equal factors.
proof fn lemma_cube_is_pow3(x: int)
    ensures
        pow(x, 3) == x * x * x,
{
    lemma_square_is_pow2(x);
    lemma_pow_adds(x, 2, 1);
    lemma_pow1(x);
}

impl<T: Number> Point<T> {
    /// The arithmetic of the curve, which is that of its coefficient `a`.
    pub open spec fn arithmetic(self) -> Option<int> {
        match self {
            Point::Affine { a, .. } => a.modulus(),
            Point::Infinity { a, .. } => a.modulus(),
        }
    }

    /// Whether every part of the point has the arithmetic of the curve and
    /// is a value of it.
    pub open spec fn well_formed(self) -> bool {
        let m = self.arithmetic();
        match self {
            Point::Affine { a, b, x, y } => belongs(a, m) && belongs(b, m) && belongs(x, m)
                && belongs(y, m),
            Point::Infinity { a, b } => belongs(a, m) && belongs(b, m),
        }
    }

    /// The point with the arithmetic `m` whose parts stand for the integers
    /// of `p`.
    pub open spec fn of_model(p: CurvePoint, m: Option<int>) -> Point<T> {
        match p {
            CurvePoint::Affine { a, b, x, y } => Point::Affine {
                a: coordinate(m, a),
                b: coordinate(m, b),
                x: coordinate(m, x),
                y: coordinate(m, y),
            },
            CurvePoint::Infinity { a, b } => Point::Infinity {
                a: coordinate(m, a),
                b: coordinate(m, b),
            },
        }
    }

    /// A well-formed point is the one that its model names.
    pub proof fn lemma_of_model(self)
        requires
            self.well_formed(),
        ensures
            Self::of_model(self@, self.arithmetic()) == self,
    {
        match self {
            Point::Affine { a, b, x, y } => {
                lemma_coordinate(a);
                lemma_coordinate(b);
                lemma_coordinate(x);
                lemma_coordinate(y);
            },
            Point::Infinity { a, b } => {
                lemma_coordinate(a);
                lemma_coordinate(b);
            },
        }
    }

    /// Whether the point lies on its curve; the point at infinity always does.
    /// Among the integers the numbers formed while testing the equation must
    /// fit `T`.
    pub fn is_valid(&self) -> (valid: bool)
        requires
            self.well_formed(),
            self.arithmetic() is None ==> (self matches Point::Affine { a, b, x, y }
                ==> equation_fits(
                T::least(),
                T::greatest(),
                a.value(),
                b.value(),
                x.value(),
                y.value(),
            )),
        ensures
            valid == self@.on_curve(self.arithmetic()),
    {
        match *self {
            Point::Affine { a, b, x, y } => {
                let ghost m = a.modulus();
                proof {
                    lemma_square_is_pow2(y.value());
                    lemma_cube_is_pow3(x.value());
                    lemma_reduce(m, b.value());
                    lemma_plus_reduces(
                        m,
                        x.value() * x.value() * x.value(),
                        a.value() * x.value(),
                    );
                    lemma_plus_reduces(
                        m,
                        x.value() * x.value() * x.value() + a.value() * x.value(),
                        b.value(),
                    );
                }
                y.pow(2).is_equal(&x.pow(3).add(a.mul(x)).add(b))
            },
            Point::Infinity { .. } => true,
        }
    }

    /// The point of the curve given by `a` and `b` that the coordinates name:
    /// the point at infinity where both are absent, the point `(x, y)` where
    /// both are present and solve the equation. Coordinates that do not solve
    /// it give `NotOnCurve`, and a single coordinate gives `InvalidPoint`. All
    /// that is given has one arithmetic; among the integers the numbers
    /// formed while testing the equation must fit `T`.
    pub fn new(x: Option<T>, y: Option<T>, a: T, b: T) -> (r: Result<Point<T>, Error<T>>)
        requires
            belongs(a, a.modulus()),
            belongs(b, a.modulus()),
            x matches Some(x) ==> belongs(x, a.modulus()),
            y matches Some(y) ==> belongs(y, a.modulus()),
            a.modulus() is None && x is Some && y is Some ==> equation_fits(
                T::least(),
                T::greatest(),
                a.value(),
                b.value(),
                x->Some_0.value(),
                y->Some_0.value(),
            ),
        ensures
            r == match (x, y) {
                (None, None) => Ok::<Point<T>, Error<T>>(Point::Infinity { a, b }),
                (Some(x), Some(y)) => if satisfies_equation(
                    a.modulus(),
                    a.value(),
                    b.value(),
                    x.value(),
                    y.value(),
                ) {
                    Ok::<Point<T>, Error<T>>(Point::Affine { a, b, x, y })
                } else {
                    Err::<Point<T>, Error<T>>(Error::NotOnCurve(x, y))
                },
                _ => Err::<Point<T>, Error<T>>(Error::InvalidPoint),
            },
            r matches Ok(point) ==> point.well_formed() && point@.on_curve(point.arithmetic()),
    {
        match (x, y) {
            (None, None) => Ok(Point::Infinity { a, b }),
            (Some(x), Some(y)) => {
                let point = Point::Affine { a, b, x, y };
                if !point.is_valid() {
                    return Err(Error::NotOnCurve(x, y));
                }
                Ok(point)
            },
            _ => Err(Error::InvalidPoint),
        }
    }
}

impl<T: Number> core::ops::Add for Point<T> {
    type Output = Point<T>;

    /// The sum of two points of one curve under the group law. The point at
    /// infinity leaves the other operand as it is. Two points with one `x`
    /// and different `y`, and a point with `y` zero added to itself, give the
    /// point at infinity. Any other point added to itself is doubled along its
    /// tangent, and two points with different `x` are joined by their chord.
    ///
    /// Among the residues of a prime other than two the sum lies on the
    /// curve. Among the integers the slope is a quotient rounded toward zero,
    /// and the sum lies on the curve only where the line still meets it.
    fn add(self, rhs: Self) -> (r: Point<T>)
        ensures
            r@ == self@.sum(rhs@, self.arithmetic()),
            r.arithmetic() == self.arithmetic(),
            r.well_formed(),
            self is Infinity ==> r == rhs,
            rhs is Infinity ==> r == self,
            r@.same_curve(self@),
            self.arithmetic() is None ==> (r@.on_curve(None) <==> line_meets_curve(self@, rhs@)),
            self.arithmetic() is None && slope_is_exact(self@, rhs@) ==> r@.on_curve(None),
            self.arithmetic() matches Some(p) ==> (is_prime(p) && p > 2 ==> r@.on_curve(Some(p))),
    {
        let ghost m = self.arithmetic();
        proof {
            match m {
                None => {
                    self@.lemma_sum_on_curve_exactly(rhs@);
                },
                Some(p) => {
                    if is_prime(p) && p > 2 {
                        self@.lemma_sum_on_curve_modulo(rhs@, p);
                    }
                },
            }
        }
        match self {
            Point::Infinity { a, b } => {
                proof {
                    rhs.lemma_of_model();
                    if let Point::Infinity { a: rhs_a, b: rhs_b } = rhs {
                        a.lemma_value_injective(rhs_a);
                        b.lemma_value_injective(rhs_b);
                    }
                }
                rhs
            },
            Point::Affine { a, b, x, y } => match rhs {
                Point::Infinity { .. } => {
                    proof {
                        self.lemma_of_model();
                    }
                    self
                },
                Point::Affine { a: _, b: _, x: rhs_x, y: rhs_y } => {
                    proof {
                        x.lemma_range();
                        lemma_coordinate(a);
                        lemma_coordinate(b);
                        lemma_reduce(m, a.value());
                        lemma_reduce(m, x.value());
                        lemma_reduce(m, y.value());
                        lemma_reduce(m, rhs_x.value());
                    }
                    if x.is_equal(&rhs_x) && !y.is_equal(&rhs_y) {
                        Point::Infinity { a, b }
                    } else if x.is_equal(&rhs_x) && y.is_equal(&y.zero_like()) {
                        Point::Infinity { a, b }
                    } else if x.is_equal(&rhs_x) {
                        let one = x.one_like();
                        let two = one.add(one);
                        let three = two.add(one);
                        proof {
                            lemma_plus_reduces(m, 1, 1);
                            lemma_plus_reduces(m, 2, 1);
                            lemma_square_is_pow2(x.value());
                            lemma_times_reduces(m, 3, x.value() * x.value());
                            lemma_plus_reduces(m, 3 * (x.value() * x.value()), a.value());
                            lemma_times_reduces(m, 2, y.value());
                        }
                        let s = three.mul(x.pow(2)).add(a).div(two.mul(y));
                        proof {
                            lemma_over_reduced(
                                m,
                                reduce(m, 3 * (x.value() * x.value()) + a.value()),
                                reduce(m, 2 * y.value()),
                            );
                            lemma_reduce(m, s.value());
                            lemma_square_is_pow2(s.value());
                            lemma_times_reduces(m, 2, x.value());
                            lemma_minus_reduces(m, s.value() * s.value(), 2 * x.value());
                        }
                        let new_x = s.pow(2).sub(two.mul(x));
                        proof {
                            lemma_times_reduces(m, s.value(), x.value() - new_x.value());
                            lemma_minus_reduces(
                                m,
                                s.value() * (x.value() - new_x.value()),
                                y.value(),
                            );
                        }
                        let new_y = s.mul(x.sub(new_x)).sub(y);
                        proof {
                            lemma_coordinate(new_x);
                            lemma_coordinate(new_y);
                        }
                        Point::Affine { a, b, x: new_x, y: new_y }
                    } else {
                        let s = rhs_y.sub(y).div(rhs_x.sub(x));
                        proof {
                            lemma_over_reduced(
                                m,
                                reduce(m, rhs_y.value() - y.value()),
                                reduce(m, rhs_x.value() - x.value()),
                            );
                            lemma_reduce(m, s.value());
                            lemma_square_is_pow2(s.value());
                            lemma_minus_reduces(m, s.value() * s.value(), x.value());
                            lemma_minus_reduces(
                                m,
                                s.value() * s.value() - x.value(),
                                rhs_x.value(),
                            );
                        }
                        let new_x = s.pow(2).sub(x).sub(rhs_x);
                        proof {
                            lemma_times_reduces(m, s.value(), x.value() - new_x.value());
                            lemma_minus_reduces(
                                m,
                                s.value() * (x.value() - new_x.value()),
                                y.value(),
                            );
                        }
                        let new_y = s.mul(x.sub(new_x)).sub(y);
                        proof {
                            lemma_coordinate(new_x);
                            lemma_coordinate(new_y);
                        }
                        Point::Affine { a, b, x: new_x, y: new_y }
                    }
                },
            },
        }
    }
}

impl<T: Number> vstd::std_specs::ops::AddSpecImpl for Point<T> {
    open spec fn obeys_add_spec() -> bool {
        true
    }

    /// Both points are well formed and lie on one curve in one arithmetic.
    /// Among the integers the numbers formed on the way fit `T`.
    open spec fn add_req(self, rhs: Self) -> bool {
        &&& self.well_formed()
        &&& rhs.well_formed()
        &&& self.arithmetic() == rhs.arithmetic()
        &&& self@.on_curve(self.arithmetic())
        &&& rhs@.on_curve(self.arithmetic())
        &&& self@.same_curve(rhs@)
        &&& self.arithmetic() is None ==> self@.sum_fits(rhs@, T::least(), T::greatest())
    }

    open spec fn add_spec(self, rhs: Self) -> Point<T> {
        Self::of_model(self@.sum(rhs@, self.arithmetic()), self.arithmetic())
    }
}

} // verus!
