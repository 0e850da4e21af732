use beepee::decimal::r32_from_decimal;
use beepee::rational::{ArithmeticError, Rational};
use num_rational::Rational32;

fn exact(numer: i32, denom: i32) -> Rational {
    Rational::new(numer, denom).unwrap()
}

fn gcd(a: i64, b: i64) -> i64 {
    if b == 0 {
        a.abs()
    } else {
        gcd(b, a % b)
    }
}

fn assert_lowest_terms(v: &Rational) {
    assert!(v.denom() > 0);
    assert_eq!(gcd(v.numer() as i64, v.denom() as i64), 1);
}

#[test]
fn new_reduces_to_lowest_terms() {
    let v = exact(1234, 100);
    assert_eq!((v.numer(), v.denom()), (617, 50));
}

#[test]
fn new_moves_the_sign_to_the_numerator() {
    let v = exact(3, -6);
    assert_eq!((v.numer(), v.denom()), (-1, 2));
    let w = exact(-3, -6);
    assert_eq!((w.numer(), w.denom()), (1, 2));
}

#[test]
fn new_of_zero_has_denominator_one() {
    let v = exact(0, -17);
    assert_eq!((v.numer(), v.denom()), (0, 1));
}

#[test]
fn new_with_zero_denominator_is_a_division_by_zero() {
    assert_eq!(Rational::new(5, 0), Err(ArithmeticError::DivisionByZero));
}

#[test]
fn new_overflows_when_the_sign_cannot_move() {
    assert_eq!(Rational::new(i32::MIN, -1), Err(ArithmeticError::Overflow));
    assert_eq!(Rational::new(1, i32::MIN), Err(ArithmeticError::Overflow));
}

#[test]
fn new_keeps_the_least_numerator() {
    let v = exact(i32::MIN, 1);
    assert_eq!((v.numer(), v.denom()), (i32::MIN, 1));
}

#[test]
fn from_integer_is_over_one() {
    let v = Rational::from_integer(-7);
    assert_eq!((v.numer(), v.denom()), (-7, 1));
    assert_eq!(Rational::zero(), Rational::from_integer(0));
}

#[test]
fn parsed_decimal_equals_quotient_of_whole_numbers() {
    let v = r32_from_decimal("12.34").unwrap();
    let n = r32_from_decimal("1234").unwrap();
    let d = r32_from_decimal("100").unwrap();
    assert_eq!(n.checked_div(&d), Ok(v));
    assert_eq!((v.numer(), v.denom()), (617, 50));
}

#[test]
fn sum_is_cross_multiplied_and_reduced() {
    let sum = exact(1, 6).checked_add(&exact(1, 3)).unwrap();
    assert_eq!((sum.numer(), sum.denom()), (1, 2));
}

#[test]
fn difference_is_cross_multiplied_and_reduced() {
    let difference = exact(1, 6).checked_sub(&exact(1, 2)).unwrap();
    assert_eq!((difference.numer(), difference.denom()), (-1, 3));
}

#[test]
fn product_is_reduced() {
    let product = exact(2, 3).checked_mul(&exact(3, 4)).unwrap();
    assert_eq!((product.numer(), product.denom()), (1, 2));
}

#[test]
fn quotient_is_reduced_and_keeps_the_sign_in_the_numerator() {
    let quotient = exact(1, 2).checked_div(&exact(-3, 4)).unwrap();
    assert_eq!((quotient.numer(), quotient.denom()), (-2, 3));
}

#[test]
fn division_by_zero_is_reported() {
    let one = Rational::from_integer(1);
    assert_eq!(one.checked_div(&Rational::zero()), Err(ArithmeticError::DivisionByZero));
}

#[test]
fn sum_overflows_on_the_cross_multiplied_denominator() {
    // 50000 * 50000 cannot be stored, although the reduced sum 1/25000 could
    let small = exact(1, 50_000);
    assert_eq!(small.checked_add(&small), Err(ArithmeticError::Overflow));
}

#[test]
fn sum_overflows_on_the_numerator() {
    let big = Rational::from_integer(i32::MAX);
    assert_eq!(big.checked_add(&Rational::from_integer(1)), Err(ArithmeticError::Overflow));
}

#[test]
fn difference_overflows_on_the_numerator() {
    let least = Rational::from_integer(i32::MIN);
    assert_eq!(least.checked_sub(&Rational::from_integer(1)), Err(ArithmeticError::Overflow));
}

#[test]
fn product_overflows() {
    let big = Rational::from_integer(65_536);
    assert_eq!(big.checked_mul(&big), Err(ArithmeticError::Overflow));
    let tiny = exact(1, 65_536);
    assert_eq!(tiny.checked_mul(&tiny), Err(ArithmeticError::Overflow));
}

#[test]
fn quotient_overflows() {
    let big = Rational::from_integer(65_536);
    let tiny = exact(1, 65_536);
    assert_eq!(big.checked_div(&tiny), Err(ArithmeticError::Overflow));
}

#[test]
fn quotient_by_the_least_number_overflows() {
    // the denominator would have to be 2^31
    let one = Rational::from_integer(1);
    let least = Rational::from_integer(i32::MIN);
    assert_eq!(one.checked_div(&least), Err(ArithmeticError::Overflow));
}

#[test]
fn results_of_arithmetic_are_in_lowest_terms() {
    let values = [exact(6, 4), exact(-10, 4), exact(7, 1), exact(0, 5), exact(-9, 12), exact(25, 10)];
    for a in values.iter() {
        for b in values.iter() {
            assert_lowest_terms(&a.checked_add(b).unwrap());
            assert_lowest_terms(&a.checked_sub(b).unwrap());
            assert_lowest_terms(&a.checked_mul(b).unwrap());
            if !b.is_zero() {
                assert_lowest_terms(&a.checked_div(b).unwrap());
            }
        }
    }
}

#[test]
fn arithmetic_agrees_with_num_rational() {
    let pairs = [(1, 2), (-3, 4), (5, 6), (7, -8), (0, 3), (12, 1), (-9, 27), (100, 18)];
    for &(an, ad) in pairs.iter() {
        for &(bn, bd) in pairs.iter() {
            let (a, b) = (exact(an, ad), exact(bn, bd));
            let (x, y) = (Rational32::new(an, ad), Rational32::new(bn, bd));
            let sum = a.checked_add(&b).unwrap();
            assert_eq!((sum.numer(), sum.denom()), (*(x + y).numer(), *(x + y).denom()));
            let difference = a.checked_sub(&b).unwrap();
            assert_eq!(
                (difference.numer(), difference.denom()),
                (*(x - y).numer(), *(x - y).denom())
            );
            let product = a.checked_mul(&b).unwrap();
            assert_eq!((product.numer(), product.denom()), (*(x * y).numer(), *(x * y).denom()));
            if bn != 0 {
                let quotient = a.checked_div(&b).unwrap();
                assert_eq!(
                    (quotient.numer(), quotient.denom()),
                    (*(x / y).numer(), *(x / y).denom())
                );
            }
            assert_eq!(a.lt(&b), x < y);
            assert_eq!(a.le(&b), x <= y);
            assert_eq!(a.same_value(&b), x == y);
        }
    }
}

#[test]
fn order_is_by_value() {
    assert!(exact(1, 3).lt(&exact(1, 2)));
    assert!(!exact(1, 2).lt(&exact(1, 2)));
    assert!(exact(1, 2).le(&exact(2, 4)));
    assert!(exact(-1, 2).lt(&exact(-1, 3)));
    assert!(!exact(1, 2).le(&exact(1, 3)));
}

#[test]
fn order_is_total() {
    let values = [exact(1, 2), exact(-1, 2), exact(2, 4), exact(3, 1), exact(0, 1)];
    for a in values.iter() {
        for b in values.iter() {
            let outcomes = [a.lt(b), a.same_value(b), b.lt(a)];
            assert_eq!(outcomes.iter().filter(|x| **x).count(), 1);
        }
    }
}

#[test]
fn equal_values_are_equal() {
    assert_eq!(exact(2, 4), exact(1, 2));
    assert!(exact(2, 4).same_value(&exact(1, 2)));
    assert_ne!(exact(1, 2), exact(1, 3));
}

#[test]
fn sign_tests() {
    assert!(exact(-1, 2).is_negative());
    assert!(!exact(0, 2).is_negative());
    assert!(!exact(1, 2).is_negative());
    assert!(exact(0, 9).is_zero());
    assert!(!exact(1, 9).is_zero());
}
