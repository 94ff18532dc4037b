//! The curve `y^2 = x^3 + a x + b`: its points, the chord and tangent rule
//! that adds them, the bounds within which a machine integer can follow the
//! rule, and the proof that the rule stays on the curve.
//!
//! Everything is stated for an arithmetic `m`: that of the integers, where
//! quotients are rounded toward zero, or that of the residues of a modulus.

use crate::primitives::elliptic_curve::arithmetic::{
    magnitude, over, reduce, reduced, truncated_quotient, within,
};
use crate::primitives::field_element::lemma_quotient_times_divisor;
use crate::primitives::number_theory::{is_prime, lemma_prime_divides_factor};
use vstd::arithmetic::div_mod::{
    lemma_add_mod_noop, lemma_fundamental_div_mod, lemma_mod_add_multiples_vanish,
    lemma_mod_equivalence, lemma_mod_twice, lemma_mul_mod_noop, lemma_mul_mod_noop_left,
    lemma_mul_mod_noop_right, lemma_small_mod, lemma_sub_mod_noop,
};
use vstd::arithmetic::mul::lemma_mul_nonzero;
use vstd::prelude::*;

verus! {

/// A point of the curve with coefficients `a` and `b`: a pair of coordinates,
/// or the point at infinity.
pub enum CurvePoint {
    /// The point with coordinates `x` and `y`.
    Affine { a: int, b: int, x: int, y: int },
    /// The identity of the group.
    Infinity { a: int, b: int },
}

/// Whether `x` and `y` solve `y^2 = x^3 + a x + b` in the arithmetic `m`.
pub open spec fn satisfies_equation(m: Option<int>, a: int, b: int, x: int, y: int) -> bool {
    reduce(m, y * y) == reduce(m, x * x * x + a * x + b)
}

/// The quotient of `n` by `d` in the arithmetic `m`.
pub open spec fn quotient(m: Option<int>, n: int, d: int) -> int {
    over(m, reduce(m, n), reduce(m, d))
}

/// The slope of the tangent at `(x, y)`.
pub open spec fn tangent_slope(m: Option<int>, a: int, x: int, y: int) -> int {
    quotient(m, 3 * (x * x) + a, 2 * y)
}

/// The slope of the chord from `(x1, y1)` to `(x2, y2)`.
pub open spec fn chord_slope(m: Option<int>, x1: int, y1: int, x2: int, y2: int) -> int {
    quotient(m, y2 - y1, x2 - x1)
}

/// Twice the point `(x, y)`, whose `y` is not zero.
pub open spec fn doubled(m: Option<int>, a: int, b: int, x: int, y: int) -> CurvePoint {
    let s = tangent_slope(m, a, x, y);
    let x3 = reduce(m, s * s - 2 * x);
    CurvePoint::Affine { a, b, x: x3, y: reduce(m, s * (x - x3) - y) }
}

/// The sum of `(x1, y1)` and `(x2, y2)`, where `x1` and `x2` differ.
pub open spec fn joined(
    m: Option<int>,
    a: int,
    b: int,
    x1: int,
    y1: int,
    x2: int,
    y2: int,
) -> CurvePoint {
    let s = chord_slope(m, x1, y1, x2, y2);
    let x3 = reduce(m, s * s - x1 - x2);
    CurvePoint::Affine { a, b, x: x3, y: reduce(m, s * (x1 - x3) - y1) }
}

/// Whether every integer formed while testing the curve equation at `(x, y)`
/// lies between `lo` and `hi`.
pub open spec fn equation_fits(lo: int, hi: int, a: int, b: int, x: int, y: int) -> bool {
    &&& within(lo, hi, y * y)
    &&& within(lo, hi, x * x * x)
    &&& within(lo, hi, a * x)
    &&& within(lo, hi, x * x * x + a * x)
    &&& within(lo, hi, x * x * x + a * x + b)
}

/// Whether every integer formed while doubling `(x, y)` lies between `lo` and
/// `hi`.
pub open spec fn doubling_fits(lo: int, hi: int, a: int, x: int, y: int) -> bool {
    let s = tangent_slope(None, a, x, y);
    let x3 = s * s - 2 * x;
    &&& within(lo, hi, x * x)
    &&& within(lo, hi, 3 * (x * x))
    &&& within(lo, hi, 3 * (x * x) + a)
    &&& within(lo, hi, 2 * y)
    &&& within(lo, hi, s)
    &&& within(lo, hi, s * s)
    &&& within(lo, hi, 2 * x)
    &&& within(lo, hi, x3)
    &&& within(lo, hi, x - x3)
    &&& within(lo, hi, s * (x - x3))
    &&& within(lo, hi, s * (x - x3) - y)
}

/// Whether every integer formed while joining `(x1, y1)` and `(x2, y2)` lies
/// between `lo` and `hi`.
pub open spec fn joining_fits(lo: int, hi: int, x1: int, y1: int, x2: int, y2: int) -> bool {
    let s = chord_slope(None, x1, y1, x2, y2);
    let x3 = s * s - x1 - x2;
    &&& within(lo, hi, y2 - y1)
    &&& within(lo, hi, x2 - x1)
    &&& within(lo, hi, s)
    &&& within(lo, hi, s * s)
    &&& within(lo, hi, s * s - x1)
    &&& within(lo, hi, x3)
    &&& within(lo, hi, x1 - x3)
    &&& within(lo, hi, s * (x1 - x3))
    &&& within(lo, hi, s * (x1 - x3) - y1)
}

impl CurvePoint {
    /// The coefficient of `x` in the curve's equation.
    pub open spec fn a(self) -> int {
        match self {
            CurvePoint::Affine { a, .. } => a,
            CurvePoint::Infinity { a, .. } => a,
        }
    }

    /// The constant of the curve's equation.
    pub open spec fn b(self) -> int {
        match self {
            CurvePoint::Affine { b, .. } => b,
            CurvePoint::Infinity { b, .. } => b,
        }
    }

    /// Whether every part of the point is a value of the arithmetic `m`.
    pub open spec fn reduced(self, m: Option<int>) -> bool {
        match self {
            CurvePoint::Affine { a, b, x, y } => reduced(m, a) && reduced(m, b) && reduced(m, x)
                && reduced(m, y),
            CurvePoint::Infinity { a, b } => reduced(m, a) && reduced(m, b),
        }
    }

    /// Whether the point lies on its curve. The point at infinity always does.
    pub open spec fn on_curve(self, m: Option<int>) -> bool {
        match self {
            CurvePoint::Affine { a, b, x, y } => satisfies_equation(m, a, b, x, y),
            CurvePoint::Infinity { .. } => true,
        }
    }

    /// Whether both points name the same curve.
    pub open spec fn same_curve(self, other: CurvePoint) -> bool {
        self.a() == other.a() && self.b() == other.b()
    }

    /// The sum of the two points under the group law. The first case that
    /// applies decides: an operand at infinity gives the other operand; two
    /// points with one `x` and different `y` give infinity; so does a point
    /// with `y` zero added to itself; a point added to itself is doubled along
    /// its tangent; two points with different `x` are joined by their chord.
    pub open spec fn sum(self, other: CurvePoint, m: Option<int>) -> CurvePoint {
        match (self, other) {
            (CurvePoint::Infinity { .. }, _) => other,
            (_, CurvePoint::Infinity { .. }) => self,
            (
                CurvePoint::Affine { a, b, x: x1, y: y1 },
                CurvePoint::Affine { x: x2, y: y2, .. },
            ) => {
                if x1 == x2 && y1 != y2 {
                    CurvePoint::Infinity { a, b }
                } else if x1 == x2 && y1 == 0 {
                    CurvePoint::Infinity { a, b }
                } else if x1 == x2 {
                    doubled(m, a, b, x1, y1)
                } else {
                    joined(m, a, b, x1, y1, x2, y2)
                }
            },
        }
    }

    /// Whether every integer formed while adding the two points in the
    /// arithmetic of the integers lies between `lo` and `hi`.
    pub open spec fn sum_fits(self, other: CurvePoint, lo: int, hi: int) -> bool {
        match (self, other) {
            (
                CurvePoint::Affine { a, x: x1, y: y1, .. },
                CurvePoint::Affine { x: x2, y: y2, .. },
            ) => {
                if x1 == x2 && y1 == y2 && y1 != 0 {
                    doubling_fits(lo, hi, a, x1, y1)
                } else if x1 != x2 {
                    joining_fits(lo, hi, x1, y1, x2, y2)
                } else {
                    true
                }
            },
            _ => true,
        }
    }
}

/// Whether the slope that adding the two points among the integers uses is
/// the true quotient, so that nothing was lost in rounding: the slope times
/// the divisor gives the dividend back. Where no slope is formed this holds.
pub open spec fn slope_is_exact(p: CurvePoint, q: CurvePoint) -> bool {
    match (p, q) {
        (CurvePoint::Affine { a, x: x1, y: y1, .. }, CurvePoint::Affine { x: x2, y: y2, .. }) => {
            if x1 == x2 && y1 == y2 && y1 != 0 {
                tangent_slope(None, a, x1, y1) * (2 * y1) == 3 * (x1 * x1) + a
            } else if x1 != x2 {
                chord_slope(None, x1, y1, x2, y2) * (x2 - x1) == y2 - y1
            } else {
                true
            }
        },
        _ => true,
    }
}

/// Whether the line that adding the two points among the integers follows
/// meets the curve where the rule looks for the sum. It does where the slope
/// is exact. A rounded slope still does in two cases: where the line leads
/// back to the `x` of the first point, and where a chord's slope, times the
/// difference of the two `x`, is the negated sum of the two `y`. Where no
/// slope is formed this holds.
pub open spec fn line_meets_curve(p: CurvePoint, q: CurvePoint) -> bool {
    match (p, q) {
        (CurvePoint::Affine { a, x: x1, y: y1, .. }, CurvePoint::Affine { x: x2, y: y2, .. }) => {
            if x1 == x2 && y1 == y2 && y1 != 0 {
                let s = tangent_slope(None, a, x1, y1);
                s * (2 * y1) == 3 * (x1 * x1) + a || s * s == 3 * x1
            } else if x1 != x2 {
                let s = chord_slope(None, x1, y1, x2, y2);
                ||| s * (x2 - x1) == y2 - y1
                ||| s * (x2 - x1) == -(y1 + y2)
                ||| s * s == 2 * x1 + x2
            } else {
                true
            }
        },
        _ => true,
    }
}

/// A quotient rounded toward zero is the true quotient where the divisor
/// divides the dividend.
pub proof fn lemma_truncated_quotient_exact(n: int, d: int)
    requires
        d != 0,
        n % d == 0,
    ensures
        truncated_quotient(n, d) * d == n,
{
    let k = n / d;
    assert(n == d * k) by {
        lemma_fundamental_div_mod(n, d);
    }
    let mk = magnitude(k);
    let md = magnitude(d);
    assert(magnitude(n) == mk * md) by (nonlinear_arith)
        requires
            n == d * k,
            mk == magnitude(k),
            md == magnitude(d),
    ;
    assert(magnitude(n) / md == mk) by {
        vstd::arithmetic::div_mod::lemma_div_by_multiple(mk, md);
    }
    assert(truncated_quotient(n, d) * d == n) by (nonlinear_arith)
        requires
            n == d * k,
            d != 0,
            truncated_quotient(n, d) == if (n < 0) == (d < 0) {
                mk
            } else {
                -mk
            },
            mk == magnitude(k),
    ;
}

/// By how much `(x, y)` fails the curve's equation.
spec fn defect(a: int, b: int, x: int, y: int) -> int {
    y * y - (x * x * x + a * x + b)
}

/// By how much the line of slope `s` through `(x1, y1)` fails, at `x3`, the
/// equation that the `x` of its third meeting with the curve obeys.
spec fn line_defect(a: int, x1: int, y1: int, s: int, x3: int) -> int {
    s * s * (x3 - x1) + 2 * (s * y1) - (x3 * x3 + x3 * x1 + x1 * x1 + a)
}

/// The defect of the point that the rule reaches along a line of slope `s`
/// through `(x1, y1)`, in terms of the defect of `(x1, y1)` and of the line.
proof fn lemma_line_identity(a: int, b: int, x1: int, y1: int, s: int, x3: int)
    ensures
        defect(a, b, x3, s * (x1 - x3) - y1) == (x3 - x1) * line_defect(a, x1, y1, s, x3) + defect(
            a,
            b,
            x1,
            y1,
        ),
{
    let t = x3 - x1;
    let y3 = s * (x1 - x3) - y1;
    let g = x3 * x3 + x3 * x1 + x1 * x1 + a;
    let h = s * s * t + 2 * (s * y1);
    assert(y3 * y3 == t * h + y1 * y1) by (nonlinear_arith)
        requires
            y3 == s * (x1 - x3) - y1,
            t == x3 - x1,
            h == s * s * t + 2 * (s * y1),
    ;
    assert(x3 * x3 * x3 + a * x3 + b == t * g + (x1 * x1 * x1 + a * x1 + b))
        by (nonlinear_arith)
        requires
            t == x3 - x1,
            g == x3 * x3 + x3 * x1 + x1 * x1 + a,
    ;
    assert(t * h - t * g == t * (h - g)) by (nonlinear_arith);
}

/// The defect of the tangent of slope `s` at `(x, y)` where the rule looks.
proof fn lemma_tangent_identity(a: int, x: int, y: int, s: int)
    ensures
        line_defect(a, x, y, s, s * s - 2 * x) == s * (2 * y) - (3 * (x * x) + a),
{
    let q = s * s;
    let x3 = q - 2 * x;
    assert(q * (x3 - x) + 2 * (s * y) - (x3 * x3 + x3 * x + x * x + a) == s * (2 * y) - (3 * (x
        * x) + a)) by (nonlinear_arith)
        requires
            x3 == q - 2 * x,
    ;
}

/// The defect of the chord of slope `s` from `(x1, y1)` to `(x2, y2)` where
/// the rule looks, times the difference of the two `x`.
proof fn lemma_chord_identity(a: int, b: int, x1: int, y1: int, x2: int, y2: int, s: int)
    ensures
        (x2 - x1) * line_defect(a, x1, y1, s, s * s - x1 - x2) == (s * (x2 - x1) - (y2 - y1)) * (s
            * (x2 - x1) + y1 + y2) - (defect(a, b, x1, y1) - defect(a, b, x2, y2)),
{
    let d = x2 - x1;
    let q = s * s;
    let x3 = q - x1 - x2;
    let rise = s * d;
    let w = line_defect(a, x1, y1, s, x3);
    let square_sum = x2 * x2 + x1 * x2 + x1 * x1;
    let first = rise - (y2 - y1);
    let second = rise + y1 + y2;
    assert(w == x3 * d - 2 * (x1 * x1) - x1 * x2 + 2 * (s * y1) - a) by (nonlinear_arith)
        requires
            w == q * (x3 - x1) + 2 * (s * y1) - (x3 * x3 + x3 * x1 + x1 * x1 + a),
            x3 == q - x1 - x2,
            d == x2 - x1,
    ;
    assert(first * second == rise * rise + 2 * (rise * y1) + y1 * y1 - y2 * y2)
        by (nonlinear_arith)
        requires
            first == rise - (y2 - y1),
            second == rise + y1 + y2,
    ;
    assert(x2 * x2 * x2 - x1 * x1 * x1 == d * square_sum) by (nonlinear_arith)
        requires
            d == x2 - x1,
            square_sum == x2 * x2 + x1 * x2 + x1 * x1,
    ;
    assert(a * x2 - a * x1 == d * a) by (nonlinear_arith)
        requires
            d == x2 - x1,
    ;
    assert(rise * rise == d * (q * d)) by (nonlinear_arith)
        requires
            rise == s * d,
            q == s * s,
    ;
    assert(q * d == x3 * d + x2 * x2 - x1 * x1) by (nonlinear_arith)
        requires
            x3 == q - x1 - x2,
            d == x2 - x1,
    ;
    assert(rise * y1 == d * (s * y1)) by (nonlinear_arith)
        requires
            rise == s * d,
    ;
    assert(d * w == first * second - (defect(a, b, x1, y1) - defect(a, b, x2, y2)))
        by (nonlinear_arith)
        requires
            w == x3 * d - 2 * (x1 * x1) - x1 * x2 + 2 * (s * y1) - a,
            first * second == d * (q * d) + 2 * (d * (s * y1)) + y1 * y1 - y2 * y2,
            q * d == x3 * d + x2 * x2 - x1 * x1,
            square_sum == x2 * x2 + x1 * x2 + x1 * x1,
            x2 * x2 * x2 - x1 * x1 * x1 == d * square_sum,
            a * x2 - a * x1 == d * a,
            defect(a, b, x1, y1) == y1 * y1 - (x1 * x1 * x1 + a * x1 + b),
            defect(a, b, x2, y2) == y2 * y2 - (x2 * x2 * x2 + a * x2 + b),
    ;
}

/// Among the integers, doubling a point of the curve gives a point of the
/// curve exactly where the tangent's slope is exact or its square is three
/// times the point's `x`.
pub proof fn lemma_doubled_on_curve(a: int, b: int, x: int, y: int)
    requires
        satisfies_equation(None, a, b, x, y),
    ensures
        doubled(None, a, b, x, y).on_curve(None) <==> {
            let s = tangent_slope(None, a, x, y);
            s * (2 * y) == 3 * (x * x) + a || s * s == 3 * x
        },
{
    let s = tangent_slope(None, a, x, y);
    let x3 = s * s - 2 * x;
    lemma_tangent_identity(a, x, y, s);
    lemma_line_identity(a, b, x, y, s, x3);
    lemma_mul_nonzero(x3 - x, line_defect(a, x, y, s, x3));
}

/// Among the integers, joining two points of the curve gives a point of the
/// curve exactly where the chord's slope is exact, or its product with the
/// difference of the two `x` is the negated sum of the two `y`, or its square
/// is twice the first `x` and the second.
pub proof fn lemma_joined_on_curve(a: int, b: int, x1: int, y1: int, x2: int, y2: int)
    requires
        satisfies_equation(None, a, b, x1, y1),
        satisfies_equation(None, a, b, x2, y2),
        x1 != x2,
    ensures
        joined(None, a, b, x1, y1, x2, y2).on_curve(None) <==> {
            let s = chord_slope(None, x1, y1, x2, y2);
            ||| s * (x2 - x1) == y2 - y1
            ||| s * (x2 - x1) == -(y1 + y2)
            ||| s * s == 2 * x1 + x2
        },
{
    let s = chord_slope(None, x1, y1, x2, y2);
    let d = x2 - x1;
    let x3 = s * s - x1 - x2;
    let w = line_defect(a, x1, y1, s, x3);
    lemma_chord_identity(a, b, x1, y1, x2, y2, s);
    lemma_line_identity(a, b, x1, y1, s, x3);
    lemma_mul_nonzero(d, w);
    lemma_mul_nonzero(s * d - (y2 - y1), s * d + y1 + y2);
    lemma_mul_nonzero(x3 - x1, w);
}

/// Numbers with the same residue have the same residue after the step from
/// `x` to `y` that the rule makes along a line of slope `s`.
proof fn lemma_line_congruent(s: int, x1: int, y1: int, u: int, v: int, p: int)
    requires
        p > 0,
        u % p == v % p,
    ensures
        (s * (x1 - u) - y1) % p == (s * (x1 - v) - y1) % p,
{
    lemma_sub_mod_noop(x1, u, p);
    lemma_sub_mod_noop(x1, v, p);
    lemma_mul_mod_noop_right(s, x1 - u, p);
    lemma_mul_mod_noop_right(s, x1 - v, p);
    lemma_sub_mod_noop(s * (x1 - u), y1, p);
    lemma_sub_mod_noop(s * (x1 - v), y1, p);
}

/// Numbers with the same residue have squares with the same residue.
proof fn lemma_square_congruent(u: int, v: int, p: int)
    requires
        p > 0,
        u % p == v % p,
    ensures
        (u * u) % p == (v * v) % p,
{
    lemma_mul_mod_noop(u, u, p);
    lemma_mul_mod_noop(v, v, p);
}

/// Numbers with the same residue give the curve's cubic the same residue.
proof fn lemma_cubic_congruent(a: int, b: int, u: int, v: int, p: int)
    requires
        p > 0,
        u % p == v % p,
    ensures
        (u * u * u + a * u + b) % p == (v * v * v + a * v + b) % p,
{
    lemma_square_congruent(u, v, p);
    lemma_mul_mod_noop(u * u, u, p);
    lemma_mul_mod_noop(v * v, v, p);
    lemma_mul_mod_noop_right(a, u, p);
    lemma_mul_mod_noop_right(a, v, p);
    lemma_add_mod_noop(u * u * u, a * u, p);
    lemma_add_mod_noop(v * v * v, a * v, p);
    lemma_add_mod_noop(u * u * u + a * u, b, p);
    lemma_add_mod_noop(v * v * v + a * v, b, p);
}

/// Modulo a prime `p`, the point that the rule reaches along a line through
/// a point of the curve lies on the curve, where the line has no defect at
/// the place where the rule looks.
proof fn lemma_reaches_curve_modulo(
    p: int,
    a: int,
    b: int,
    x1: int,
    y1: int,
    s: int,
    target: int,
)
    requires
        p > 0,
        satisfies_equation(Some(p), a, b, x1, y1),
        line_defect(a, x1, y1, s, target) % p == 0,
    ensures
        ({
            let x3 = target % p;
            satisfies_equation(Some(p), a, b, x3, (s * (x1 - x3) - y1) % p)
        }),
{
    let x3 = target % p;
    let y3 = (s * (x1 - x3) - y1) % p;
    let far = s * (x1 - target) - y1;
    let w = line_defect(a, x1, y1, s, target);
    let t = target - x1;
    lemma_line_identity(a, b, x1, y1, s, target);
    lemma_mod_equivalence(y1 * y1, x1 * x1 * x1 + a * x1 + b, p);
    assert((t * w) % p == 0) by {
        lemma_mul_mod_noop_right(t, w, p);
        lemma_small_mod(0, p as nat);
    }
    assert(defect(a, b, target, far) % p == 0) by {
        lemma_add_mod_noop(t * w, defect(a, b, x1, y1), p);
    }
    lemma_mod_equivalence(far * far, target * target * target + a * target + b, p);
    lemma_mod_twice(target, p);
    lemma_cubic_congruent(a, b, x3, target, p);
    lemma_line_congruent(s, x1, y1, x3, target, p);
    lemma_mod_twice(s * (x1 - x3) - y1, p);
    lemma_square_congruent(y3, far, p);
}

/// A nonzero number of smaller magnitude than `p` has a nonzero residue.
proof fn lemma_small_residue(d: int, p: int)
    requires
        d != 0,
        -p < d < p,
    ensures
        d % p != 0,
{
    if d > 0 {
        lemma_small_mod(d as nat, p as nat);
    } else {
        lemma_small_mod((d + p) as nat, p as nat);
        lemma_mod_add_multiples_vanish(d, p);
    }
}

/// Modulo a prime `p`, the slope `n / d` times `d` has the residue of `n`,
/// where `p` does not divide `d`.
proof fn lemma_slope_modulo(p: int, n: int, d: int)
    requires
        is_prime(p),
        d % p != 0,
    ensures
        (quotient(Some(p), n, d) * d - n) % p == 0,
{
    let s = quotient(Some(p), n, d);
    lemma_quotient_times_divisor(n % p, d % p, p);
    lemma_mul_mod_noop_right(s, d, p);
    lemma_mod_equivalence(s * d, n, p);
}

/// Modulo a prime other than two, doubling a point of the curve gives a point
/// of the curve.
pub proof fn lemma_doubled_on_curve_modulo(p: int, a: int, b: int, x: int, y: int)
    requires
        is_prime(p),
        p > 2,
        0 < y < p,
        satisfies_equation(Some(p), a, b, x, y),
    ensures
        doubled(Some(p), a, b, x, y).on_curve(Some(p)),
{
    let s = tangent_slope(Some(p), a, x, y);
    assert((2 * y) % p != 0) by {
        if (2 * y) % p == 0 {
            lemma_prime_divides_factor(p, 2, y);
            lemma_small_mod(2, p as nat);
            lemma_small_mod(y as nat, p as nat);
        }
    }
    lemma_slope_modulo(p, 3 * (x * x) + a, 2 * y);
    lemma_tangent_identity(a, x, y, s);
    lemma_reaches_curve_modulo(p, a, b, x, y, s, s * s - 2 * x);
}

/// Modulo a prime, joining two points of the curve gives a point of the
/// curve.
pub proof fn lemma_joined_on_curve_modulo(
    p: int,
    a: int,
    b: int,
    x1: int,
    y1: int,
    x2: int,
    y2: int,
)
    requires
        is_prime(p),
        0 <= x1 < p,
        0 <= x2 < p,
        x1 != x2,
        satisfies_equation(Some(p), a, b, x1, y1),
        satisfies_equation(Some(p), a, b, x2, y2),
    ensures
        joined(Some(p), a, b, x1, y1, x2, y2).on_curve(Some(p)),
{
    let s = chord_slope(Some(p), x1, y1, x2, y2);
    let d = x2 - x1;
    let target = s * s - x1 - x2;
    let w = line_defect(a, x1, y1, s, target);
    let first = s * d - (y2 - y1);
    let second = s * d + y1 + y2;
    let gap = defect(a, b, x1, y1) - defect(a, b, x2, y2);
    lemma_small_residue(d, p);
    lemma_slope_modulo(p, y2 - y1, d);
    lemma_chord_identity(a, b, x1, y1, x2, y2, s);
    lemma_mod_equivalence(y1 * y1, x1 * x1 * x1 + a * x1 + b, p);
    lemma_mod_equivalence(y2 * y2, x2 * x2 * x2 + a * x2 + b, p);
    assert((d * w) % p == 0) by {
        lemma_mul_mod_noop_left(first, second, p);
        lemma_sub_mod_noop(defect(a, b, x1, y1), defect(a, b, x2, y2), p);
        lemma_sub_mod_noop(first * second, gap, p);
    }
    lemma_prime_divides_factor(p, d, w);
    lemma_reaches_curve_modulo(p, a, b, x1, y1, s, target);
}

impl CurvePoint {
    /// The point at infinity of a curve is the identity: adding it to a point
    /// of that curve, on either side, gives the point back.
    pub proof fn lemma_sum_identity(self, identity: CurvePoint, m: Option<int>)
        requires
            identity is Infinity,
            self.same_curve(identity),
        ensures
            self.sum(identity, m) == self,
            identity.sum(self, m) == self,
    {
    }

    /// Among the integers, the sum of two points of one curve names that
    /// curve, and lies on it exactly where the line that the rule follows
    /// meets the curve.
    pub proof fn lemma_sum_on_curve_exactly(self, other: CurvePoint)
        requires
            self.on_curve(None),
            other.on_curve(None),
            self.same_curve(other),
        ensures
            self.sum(other, None).same_curve(self),
            self.sum(other, None).on_curve(None) <==> line_meets_curve(self, other),
    {
        match (self, other) {
            (
                CurvePoint::Affine { a, b, x: x1, y: y1 },
                CurvePoint::Affine { x: x2, y: y2, .. },
            ) => {
                if x1 == x2 && y1 == y2 && y1 != 0 {
                    lemma_doubled_on_curve(a, b, x1, y1);
                } else if x1 != x2 {
                    lemma_joined_on_curve(a, b, x1, y1, x2, y2);
                }
            },
            _ => {},
        }
    }

    /// Among the integers, the sum of two points of one curve lies on that
    /// curve where the slope formed on the way is exact.
    pub proof fn lemma_sum_on_curve(self, other: CurvePoint)
        requires
            self.on_curve(None),
            other.on_curve(None),
            self.same_curve(other),
            slope_is_exact(self, other),
        ensures
            self.sum(other, None).on_curve(None),
    {
        self.lemma_sum_on_curve_exactly(other);
    }

    /// Among the residues of a prime other than two, the sum of two points of
    /// one curve is a point of that curve.
    pub proof fn lemma_sum_on_curve_modulo(self, other: CurvePoint, p: int)
        requires
            is_prime(p),
            p > 2,
            self.reduced(Some(p)),
            other.reduced(Some(p)),
            self.on_curve(Some(p)),
            other.on_curve(Some(p)),
            self.same_curve(other),
        ensures
            self.sum(other, Some(p)).same_curve(self),
            self.sum(other, Some(p)).reduced(Some(p)),
            self.sum(other, Some(p)).on_curve(Some(p)),
    {
        match (self, other) {
            (
                CurvePoint::Affine { a, b, x: x1, y: y1 },
                CurvePoint::Affine { x: x2, y: y2, .. },
            ) => {
                if x1 == x2 && y1 == y2 && y1 != 0 {
                    lemma_doubled_on_curve_modulo(p, a, b, x1, y1);
                } else if x1 != x2 {
                    lemma_joined_on_curve_modulo(p, a, b, x1, y1, x2, y2);
                }
            },
            _ => {},
        }
    }
}

} // verus!
