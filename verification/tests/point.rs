use ecc_primitives::primitives::elliptic_curve::point::{Error, Number, Point};

#[test]
fn can_create_point_on_curve() {
    Point::new(Some(-1), Some(-1), 5, 7).unwrap();
}

#[test]
fn eq_and_neq_works() {
    let a = Point::new(Some(-1), Some(-1), 5, 7).unwrap();
    let b = Point::new(Some(-1), Some(-1), 5, 7).unwrap();
    let c = Point::new(None, None, 0, 0).unwrap();
    assert_eq!(a, b);
    assert_ne!(a, c);
}

#[test]
fn can_not_create_point_not_on_curve() {
    assert_eq!(
        Point::new(Some(-1), Some(-2), 5, 7),
        Err(Error::NotOnCurve(-1, -2))
    );
}

#[test]
fn new_without_coordinates_is_the_point_at_infinity() {
    assert_eq!(Point::new(None, None, 5, 7), Ok(Point::Infinity { a: 5, b: 7 }));
}

#[test]
fn new_with_one_coordinate_is_invalid() {
    assert_eq!(Point::new(Some(-1), None, 5, 7), Err(Error::InvalidPoint));
    assert_eq!(Point::new(None, Some(-1), 5, 7), Err(Error::InvalidPoint));
}

#[test]
fn new_keeps_coordinates_and_curve() {
    assert_eq!(
        Point::new(Some(18_i64), Some(77), 5, 7),
        Ok(Point::Affine { a: 5, b: 7, x: 18, y: 77 })
    );
}

#[test]
fn is_valid_tests_the_equation() {
    assert!(Point::Affine { a: 5, b: 7, x: -1, y: 1 }.is_valid());
    assert!(Point::Affine { a: 5, b: 7, x: 18, y: -77 }.is_valid());
    assert!(!Point::Affine { a: 5, b: 7, x: 2, y: 4 }.is_valid());
    assert!(Point::Infinity { a: 5, b: 7 }.is_valid());
    assert!(Point::Affine { a: 0_u8, b: 7, x: 1, y: 0 }.is_valid() == false);
    assert!(Point::Affine { a: 0_u8, b: 0, x: 4, y: 8 }.is_valid());
}

#[test]
fn infinity_is_the_identity_on_both_sides() {
    let p = Point::new(Some(-1), Some(-1), 5, 7).unwrap();
    let infinity = Point::new(None, None, 5, 7).unwrap();
    assert_eq!(p + infinity, p);
    assert_eq!(infinity + p, p);
    assert_eq!(infinity + infinity, infinity);
}

#[test]
fn opposite_points_add_to_infinity() {
    let p = Point::new(Some(-1), Some(-1), 5, 7).unwrap();
    let q = Point::new(Some(-1), Some(1), 5, 7).unwrap();
    assert_eq!(p + q, Point::Infinity { a: 5, b: 7 });
}

#[test]
fn doubling_a_point_with_zero_ordinate_gives_infinity() {
    let p = Point::new(Some(2), Some(0), 0, -8).unwrap();
    assert_eq!(p + p, Point::Infinity { a: 0, b: -8 });
}

#[test]
fn doubling_follows_the_tangent() {
    let p = Point::new(Some(-1), Some(-1), 5, 7).unwrap();
    let doubled = p + p;
    assert_eq!(doubled, Point::Affine { a: 5, b: 7, x: 18, y: 77 });
    assert!(doubled.is_valid());
    assert_eq!(Point::new(Some(18), Some(77), 5, 7), Ok(doubled));
}

#[test]
fn joining_follows_the_chord() {
    let p = Point::new(Some(-1_i64), Some(1), 5, 7).unwrap();
    let q = Point::new(Some(18), Some(77), 5, 7).unwrap();
    let sum = p + q;
    assert_eq!(sum, Point::Affine { a: 5, b: 7, x: -1, y: -1 });
    assert!(sum.is_valid());
    assert_eq!(q + p, sum);
}

#[test]
fn joining_on_another_curve() {
    let p = Point::new(Some(2_i32), Some(5), 5, 7).unwrap();
    let q = Point::new(Some(-1), Some(-1), 5, 7).unwrap();
    let sum = p + q;
    assert_eq!(sum, Point::Affine { a: 5, b: 7, x: 3, y: -7 });
    assert!(sum.is_valid());
}

#[test]
fn rounded_slope_may_leave_the_curve() {
    let p = Point::new(Some(18_i64), Some(77), 5, 7).unwrap();
    let doubled = p + p;
    assert_eq!(doubled, Point::Affine { a: 5, b: 7, x: 0, y: 31 });
    assert!(!doubled.is_valid());
}

#[test]
fn integers_are_coordinates_with_plain_arithmetic() {
    assert_eq!(Number::add(-7_i32, 9), 2);
    assert_eq!(Number::sub(7_u8, 7), 0);
    assert_eq!(Number::mul(-7_i64, 9), -63);
    assert_eq!(Number::div(-7_i32, 2), -3);
    assert_eq!(Number::div(7_i32, -2), -3);
    assert_eq!(Number::div(-7_i32, -2), 3);
    assert_eq!(Number::div(7_u16, 2), 3);
    assert_eq!(5_i8.zero_like(), 0);
    assert_eq!(5_i8.one_like(), 1);
    assert_eq!((-5_i8).to_decimal(), "-5");
    assert!(Number::is_equal(&5_usize, &5));
    assert!(!Number::is_equal(&5_isize, &-5));
}

#[test]
fn pow_raises_to_small_powers() {
    assert_eq!(Number::pow(3_u8, 0), 1);
    assert_eq!(Number::pow(3_u8, 1), 3);
    assert_eq!(Number::pow(3_u8, 5), 243);
    assert_eq!(Number::pow(-2_i8, 7), -128);
    assert_eq!(Number::pow(-3_i64, 4), 81);
    assert_eq!(Number::pow(0_u32, 0), 1);
    assert_eq!(Number::pow(0_u32, 3), 0);
}

#[test]
fn error_messages_name_the_coordinates() {
    let error = Point::new(Some(-1), Some(-2), 5, 7).unwrap_err();
    assert_eq!(error.to_string(), "(-1, -2) is not on the curve");
    let error = Point::new(Some(1_u8), None, 5, 7).unwrap_err();
    assert_eq!(error.to_string(), "Invalid point");
}
