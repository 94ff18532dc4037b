use ecc_primitives::primitives::elliptic_curve::point::{Error, Number, Point};
use ecc_primitives::primitives::field_element::FieldElement;

type Residue = FieldElement<u32>;

fn residue(num: u32, prime: u32) -> Residue {
    FieldElement::new(num, prime).unwrap()
}

fn point(x: u32, y: u32) -> Point<Residue> {
    Point::new(
        Some(residue(x, 223)),
        Some(residue(y, 223)),
        residue(0, 223),
        residue(7, 223),
    )
    .unwrap()
}

fn coordinates(point: Point<Residue>) -> Option<(u32, u32)> {
    match point {
        Point::Affine { x, y, .. } => Some((x.num(), y.num())),
        Point::Infinity { .. } => None,
    }
}

#[test]
fn points_of_a_curve_over_a_prime_field_are_accepted() {
    for (x, y) in [(192, 105), (17, 56), (1, 193)] {
        let made = Point::new(
            Some(residue(x, 223)),
            Some(residue(y, 223)),
            residue(0, 223),
            residue(7, 223),
        );
        assert!(made.is_ok());
        assert!(made.unwrap().is_valid());
    }
}

#[test]
fn points_off_a_curve_over_a_prime_field_are_rejected() {
    for (x, y) in [(200, 119), (42, 99)] {
        let made = Point::new(
            Some(residue(x, 223)),
            Some(residue(y, 223)),
            residue(0, 223),
            residue(7, 223),
        );
        assert_eq!(made, Err(Error::NotOnCurve(residue(x, 223), residue(y, 223))));
    }
}

#[test]
fn chords_over_a_prime_field() {
    assert_eq!(coordinates(point(170, 142) + point(60, 139)), Some((220, 181)));
    assert_eq!(coordinates(point(47, 71) + point(17, 56)), Some((215, 68)));
    assert_eq!(coordinates(point(143, 98) + point(76, 66)), Some((47, 71)));
}

#[test]
fn tangent_over_a_prime_field() {
    assert_eq!(coordinates(point(47, 71) + point(47, 71)), Some((36, 111)));
}

#[test]
fn multiples_over_a_prime_field_stay_on_the_curve_and_close_up() {
    let generator = point(47, 71);
    let expected = [
        (47, 71),
        (36, 111),
        (15, 137),
        (194, 51),
        (126, 96),
        (139, 137),
        (92, 47),
        (116, 55),
        (69, 86),
        (154, 150),
        (154, 73),
        (69, 137),
        (116, 168),
        (92, 176),
        (139, 86),
        (126, 127),
        (194, 172),
        (15, 86),
        (36, 112),
        (47, 152),
    ];
    let mut multiple = Point::new(None, None, residue(0, 223), residue(7, 223)).unwrap();
    for pair in expected {
        multiple = multiple + generator;
        assert_eq!(coordinates(multiple), Some(pair));
        assert!(multiple.is_valid());
    }
    multiple = multiple + generator;
    assert_eq!(coordinates(multiple), None);
}

#[test]
fn infinity_is_the_identity_over_a_prime_field() {
    let p = point(192, 105);
    let infinity = Point::new(None, None, residue(0, 223), residue(7, 223)).unwrap();
    assert_eq!(coordinates(p + infinity), Some((192, 105)));
    assert_eq!(coordinates(infinity + p), Some((192, 105)));
    assert_eq!(coordinates(infinity + infinity), None);
}

#[test]
fn opposite_points_over_a_prime_field_add_to_infinity() {
    assert_eq!(coordinates(point(47, 71) + point(47, 152)), None);
}

#[test]
fn point_with_zero_ordinate_over_a_prime_field_doubles_to_infinity() {
    let p = Point::new(
        Some(residue(3, 17)),
        Some(residue(0, 17)),
        residue(0, 17),
        residue(7, 17),
    )
    .unwrap();
    assert_eq!(p + p, Point::Infinity { a: residue(0, 17), b: residue(7, 17) });
}

#[test]
fn every_sum_over_a_small_prime_field_is_on_the_curve() {
    let prime = 13_u32;
    let curve_a = residue(0, prime);
    let curve_b = residue(7, prime);
    let mut points = vec![Point::new(None, None, curve_a, curve_b).unwrap()];
    for x in 0..prime {
        for y in 0..prime {
            if let Ok(p) = Point::new(Some(residue(x, prime)), Some(residue(y, prime)), curve_a, curve_b) {
                points.push(p);
            }
        }
    }
    assert_eq!(points.len(), 7);
    for p in &points {
        for q in &points {
            let sum = *p + *q;
            assert!(sum.is_valid());
            assert!(points.contains(&sum));
        }
    }
}

#[test]
fn residues_are_coordinates_with_reduced_arithmetic() {
    let a = residue(200, 223);
    let b = residue(100, 223);
    assert_eq!(Number::add(a, b).num(), 77);
    assert_eq!(Number::sub(b, a).num(), 123);
    assert_eq!(Number::mul(a, b).num(), 153);
    assert_eq!(Number::mul(Number::div(a, b), b).num(), 200);
    assert_eq!(Number::pow(a, 3).num(), 8000000 % 223);
    assert_eq!(Number::pow(a, 0).num(), 1);
    assert_eq!(a.zero_like().num(), 0);
    assert_eq!(a.one_like().num(), 1);
    assert_eq!(a.zero_like().prime(), 223);
    assert_eq!(a.to_decimal(), "200");
    assert!(Number::is_equal(&a, &residue(200, 223)));
}

#[test]
fn the_field_of_one_element_has_zero_as_its_one() {
    let zero = residue(0, 1);
    assert_eq!(zero.one_like().num(), 0);
    assert_eq!(Number::div(zero, zero).num(), 0);
    assert_eq!(Number::pow(zero, 0).num(), 0);
}

#[test]
fn power_of_a_coordinate_is_the_true_power() {
    let zero = residue(0, 13);
    assert_eq!(Number::pow(zero, 12).num(), 0);
    assert_eq!(Number::pow(residue(2, 13), 12).num(), 1);
    assert_eq!(Number::pow(residue(2, 13), 5).num(), 6);
}
