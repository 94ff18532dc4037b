use ecc_primitives::primitives::field_element::{Error, FieldElement};

fn element(num: u8, prime: u8) -> FieldElement<u8> {
    FieldElement::new(num, prime).unwrap()
}

#[test]
fn can_not_create_out_of_range_field_element() {
    assert_eq!(
        FieldElement::new(13_u8, 7_u8),
        Err(Error::NotInRange(13_u8, 7_u8))
    );
}

#[test]
fn add_works() {
    let a = element(7_u8, 13_u8);
    let b = element(12_u8, 13_u8);
    let c = element(6_u8, 13_u8);
    assert_eq!(a + b, Ok(c));
}

#[test]
fn sub_works() {
    let a = element(35_u8, 40_u8);
    let b = element(7_u8, 40_u8);
    let c = element(28_u8, 40_u8);
    assert_eq!(a - b, Ok(c));
}

#[test]
fn mul_works() {
    let a = element(3_u8, 13_u8);
    let b = element(12_u8, 13_u8);
    let c = element(10_u8, 13_u8);
    assert_eq!(a * b, Ok(c));
}

#[test]
fn pow_works() {
    let a = element(3_u8, 13_u8);
    let b = element(1_u8, 13_u8);
    assert_eq!(a.pow(3_u8), b);

    let a = element(7_u8, 13_u8);
    let b = element(1_u8, 13_u8);
    assert_eq!(a.pow(0_u8), b);
}

#[test]
fn pow_works_with_negative_exponential() {
    let a = FieldElement::new(7, 13).unwrap();
    let b = FieldElement::new(8, 13).unwrap();
    assert_eq!(a.pow(-3), b);
}

#[test]
fn div_works() {
    let a = element(10_u8, 13_u8);
    let b = element(2_u8, 13_u8);
    let c = element(5_u8, 13_u8);
    assert_eq!(a / b, Ok(c));
}

#[test]
fn debug_and_display_impl_works() {
    let a = element(10_u8, 13_u8);
    assert_eq!(format!("{:?}", a.num()), "10".to_string());
    assert_eq!(a.to_string(), "10".to_string());
}

#[test]
fn new_keeps_value_and_modulus() {
    let a = element(0_u8, 1_u8);
    assert_eq!(a.num(), 0);
    assert_eq!(a.prime(), 1);
    let b = FieldElement::new(12_u64, 13_u64).unwrap();
    assert_eq!(b.num(), 12);
    assert_eq!(b.prime(), 13);
}

#[test]
fn new_rejects_value_equal_to_modulus() {
    assert_eq!(FieldElement::new(7_u8, 7_u8), Err(Error::NotInRange(7, 7)));
    assert_eq!(FieldElement::new(0_u8, 0_u8), Err(Error::NotInRange(0, 0)));
}

#[test]
fn new_rejects_negative_value() {
    assert_eq!(FieldElement::new(-1_i32, 7_i32), Err(Error::NotInRange(-1, 7)));
    assert_eq!(FieldElement::new(3_i32, -7_i32), Err(Error::NotInRange(3, -7)));
}

#[test]
fn has_valid_range_tests_both_ends() {
    assert!(FieldElement::has_valid_range(0_u8, 13_u8));
    assert!(FieldElement::has_valid_range(12_u8, 13_u8));
    assert!(!FieldElement::has_valid_range(13_u8, 13_u8));
    assert!(!FieldElement::has_valid_range(-1_i64, 13_i64));
}

#[test]
fn operations_reject_different_fields() {
    let a = element(7, 13);
    let b = element(12, 100);
    assert_eq!(a + b, Err(Error::DifferentFields));
    assert_eq!(a - b, Err(Error::DifferentFields));
    assert_eq!(a * b, Err(Error::DifferentFields));
    assert_eq!(a / b, Err(Error::DifferentFields));
}

#[test]
fn equality_compares_residues_only() {
    assert_eq!(element(5, 13), element(5, 7));
    assert_ne!(element(5, 13), element(6, 13));
}

#[test]
fn add_wraps_past_the_type_without_overflow() {
    let a = element(250, 251);
    let b = element(249, 251);
    assert_eq!((a + b).unwrap().num(), 248);
    let c = FieldElement::new(u64::MAX - 1, u64::MAX).unwrap();
    assert_eq!((c + c).unwrap().num(), u64::MAX - 2);
}

#[test]
fn sub_below_zero_wraps_to_the_modulus() {
    let a = element(7, 40);
    let b = element(35, 40);
    assert_eq!((a - b).unwrap().num(), 12);
    assert_eq!((a - a).unwrap().num(), 0);
}

#[test]
fn mul_of_large_residues_is_exact() {
    let a = element(250, 251);
    let b = element(249, 251);
    assert_eq!((a * b).unwrap().num(), 2);
    let p = 18_446_744_073_709_551_557_u64;
    let c = FieldElement::new(p - 1, p).unwrap();
    assert_eq!((c * c).unwrap().num(), 1);
}

#[test]
fn sum_is_reduced_for_every_pair_modulo_thirteen() {
    for a in 0..13_u8 {
        for b in 0..13_u8 {
            let sum = (element(a, 13) + element(b, 13)).unwrap();
            assert_eq!(sum.num(), (a + b) % 13);
            assert!(sum.num() < 13);
            assert_eq!(sum.prime(), 13);
        }
    }
}

#[test]
fn nonzero_element_times_its_inverse_is_one() {
    for p in [2_u32, 3, 5, 7, 13, 251, 65_521] {
        let one = FieldElement::new(1, p).unwrap();
        for a in 1..p.min(300) {
            let a = FieldElement::new(a, p).unwrap();
            let inverse = (one / a).unwrap();
            assert_eq!((a * inverse).unwrap().num(), 1);
        }
    }
}

#[test]
fn division_undoes_multiplication() {
    for a in 0..13_u8 {
        for b in 1..13_u8 {
            let quotient = (element(a, 13) / element(b, 13)).unwrap();
            assert_eq!((quotient * element(b, 13)).unwrap().num(), a);
        }
    }
}

#[test]
fn div_in_a_field_too_large_for_squares_in_its_type() {
    let a = element(200, 251);
    let b = element(3, 251);
    assert_eq!((a / b).unwrap().num(), 234);
}

#[test]
fn div_by_zero_element_gives_zero() {
    assert_eq!((element(5, 13) / element(0, 13)).unwrap().num(), 0);
}

#[test]
fn pow_zero_is_one_for_every_element() {
    for a in 0..13_u8 {
        assert_eq!(element(a, 13).pow(0).num(), 1);
        assert_eq!(element(a, 13).pow(0).prime(), 13);
    }
}

#[test]
fn pow_agrees_with_repeated_multiplication() {
    for a in 1..13_u8 {
        let mut expected = element(1, 13);
        for e in 1..40_u8 {
            expected = (expected * element(a, 13)).unwrap();
            assert_eq!(element(a, 13).pow(e).num(), expected.num());
        }
    }
}

#[test]
fn pow_reduces_the_exponent_modulo_the_modulus_less_one() {
    assert_eq!(element(3, 13).pow(15).num(), 1);
    assert_eq!(element(3, 13).pow(13).num(), 3);
    assert_eq!(element(0, 13).pow(12).num(), 1);
    assert_eq!(element(0, 13).pow(5).num(), 0);
    assert_eq!(element(1, 2).pow(7).num(), 1);
}

#[test]
fn negative_exponent_gives_the_inverse_power() {
    let a = FieldElement::new(7_i64, 13_i64).unwrap();
    let inverse = a.pow(-1);
    assert_eq!(inverse.num(), 2);
    assert_eq!((a * inverse).unwrap().num(), 1);
    assert_eq!(a.pow(-12).num(), 1);
}

#[test]
fn to_string_writes_the_residue_in_decimal() {
    assert_eq!(element(0, 13).to_string(), "0");
    assert_eq!(element(250, 251).to_string(), "250");
    let big = FieldElement::new(u64::MAX - 1, u64::MAX).unwrap();
    assert_eq!(big.to_string(), "18446744073709551614");
}

#[test]
fn error_messages_name_the_numbers() {
    let error = FieldElement::new(13_u8, 7_u8).unwrap_err();
    assert_eq!(error.to_string(), "13 is not in field range 0 to 7");
    let error = FieldElement::new(-12_i32, 10_i32).unwrap_err();
    assert_eq!(error.to_string(), "-12 is not in field range 0 to 10");
    let error: Error<u8> = Error::DifferentFields;
    assert_eq!(error.to_string(), "Sides are of different fields");
}

#[test]
fn every_carrier_type_works() {
    assert_eq!((FieldElement::new(7_u16, 13).unwrap() + FieldElement::new(12, 13).unwrap()).unwrap().num(), 6);
    assert_eq!((FieldElement::new(7_u32, 13).unwrap() - FieldElement::new(12, 13).unwrap()).unwrap().num(), 8);
    assert_eq!((FieldElement::new(7_u64, 13).unwrap() * FieldElement::new(12, 13).unwrap()).unwrap().num(), 6);
    assert_eq!((FieldElement::new(10_usize, 13).unwrap() / FieldElement::new(2, 13).unwrap()).unwrap().num(), 5);
    assert_eq!(FieldElement::new(3_i8, 13).unwrap().pow(3).num(), 1);
    assert_eq!(FieldElement::new(3_i16, 13).unwrap().pow(-1).num(), 9);
    assert_eq!(FieldElement::new(3_isize, 13).unwrap().pow(2).num(), 9);
}

fn settled(result: Result<FieldElement<u8>, Error<u8>>) -> FieldElement<u8> {
    match result {
        Ok(element) => element,
        Err(error) => panic!("{}", error.to_string()),
    }
}

#[test]
#[should_panic(expected = "12 is not in field range 0 to 10")]
fn add_panics_on_lhs_out_of_range() {
    let a = settled(FieldElement::new(12_u8, 10_u8));
    let b = settled(FieldElement::new(3_u8, 10_u8));
    let _ = a + b;
}

#[test]
#[should_panic(expected = "12 is not in field range 0 to 10")]
fn add_panics_on_rhs_out_of_range() {
    let b = settled(FieldElement::new(3_u8, 10_u8));
    let a = settled(FieldElement::new(12_u8, 10_u8));
    let _ = b + a;
}

#[test]
#[should_panic(expected = "Sides are of different fields")]
fn add_panics_on_different_fields() {
    let a = settled(FieldElement::new(7_u8, 13_u8));
    let b = settled(FieldElement::new(12_u8, 100_u8));
    let _ = settled(a + b);
}

#[test]
#[should_panic(expected = "12 is not in field range 0 to 10")]
fn sub_panics_on_lhs_out_of_range() {
    let a = settled(FieldElement::new(12_u8, 10_u8));
    let b = settled(FieldElement::new(7_u8, 10_u8));
    let _ = a - b;
}

#[test]
#[should_panic(expected = "12 is not in field range 0 to 10")]
fn sub_panics_on_rhs_out_of_range() {
    let b = settled(FieldElement::new(7_u8, 10_u8));
    let a = settled(FieldElement::new(12_u8, 10_u8));
    let _ = b - a;
}

#[test]
#[should_panic(expected = "Sides are of different fields")]
fn sub_panics_on_different_fields() {
    let a = settled(FieldElement::new(12_u8, 13_u8));
    let b = settled(FieldElement::new(7_u8, 100_u8));
    let _ = settled(a - b);
}

#[test]
#[should_panic(expected = "12 is not in field range 0 to 10")]
fn mul_panics_on_lhs_out_of_range() {
    let a = settled(FieldElement::new(12_u8, 10_u8));
    let b = settled(FieldElement::new(7_u8, 10_u8));
    let _ = a * b;
}

#[test]
#[should_panic(expected = "12 is not in field range 0 to 10")]
fn mul_panics_on_rhs_out_of_range() {
    let b = settled(FieldElement::new(7_u8, 10_u8));
    let a = settled(FieldElement::new(12_u8, 10_u8));
    let _ = b * a;
}

#[test]
#[should_panic(expected = "Sides are of different fields")]
fn mul_panics_on_different_fields() {
    let a = settled(FieldElement::new(7_u8, 13_u8));
    let b = settled(FieldElement::new(12_u8, 100_u8));
    let _ = settled(a * b);
}

#[test]
#[should_panic(expected = "12 is not in field range 0 to 10")]
fn pow_panics_on_out_of_range() {
    let a = settled(FieldElement::new(12_u8, 10_u8));
    let _ = a.pow(3_u8);
}

#[test]
#[should_panic(expected = "12 is not in field range 0 to 10")]
fn div_panics_on_lhs_out_of_range() {
    let a = settled(FieldElement::new(12_u8, 10_u8));
    let b = settled(FieldElement::new(7_u8, 10_u8));
    let _ = a / b;
}

#[test]
#[should_panic(expected = "12 is not in field range 0 to 10")]
fn div_panics_on_rhs_out_of_range() {
    let b = settled(FieldElement::new(7_u8, 10_u8));
    let a = settled(FieldElement::new(12_u8, 10_u8));
    let _ = b / a;
}

#[test]
#[should_panic(expected = "Sides are of different fields")]
fn div_panics_on_different_fields() {
    let a = settled(FieldElement::new(12_u8, 13_u8));
    let b = settled(FieldElement::new(7_u8, 100_u8));
    let _ = settled(a / b);
}
