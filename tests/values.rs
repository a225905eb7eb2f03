use calconsteroids::rational::{RationalValue, Sign};
use calconsteroids::value::{UndefinedValue, Value, ValueError};
use num::BigUint;
use std::cmp::Ordering;

fn rational(sign: Sign, numerator: u32, denominator: u32) -> RationalValue {
    RationalValue::new(sign, BigUint::from(numerator), BigUint::from(denominator))
}

fn value(sign: Sign, numerator: u32, denominator: u32) -> Value {
    Value::Rational(rational(sign, numerator, denominator))
}

#[test]
fn simplify() {
    let value = RationalValue::new(Sign::Positive, BigUint::from(6_u32), BigUint::from(4_u32));
    assert_eq!(
        Value::Rational(value.simplified())
            .cmp(&Value::Rational(RationalValue::new(Sign::Positive, BigUint::from(3_u32), BigUint::from(2_u32)))),
        Some(Ordering::Equal)
    );
}

#[test]
fn canonical_form_divides_out_common_factor() {
    let s = rational(Sign::Positive, 6, 4).simplified();
    assert_eq!(*s.get_numerator(), BigUint::from(3u32));
    assert_eq!(*s.get_denominator(), BigUint::from(2u32));
    assert_eq!(s.to_string(), "3/2");
    assert!(value(Sign::Positive, 6, 4).equals(&value(Sign::Positive, 3, 2)));
}

#[test]
fn zero_keeps_its_sign() {
    let s = rational(Sign::Negative, 0, 5).simplified();
    assert_eq!(*s.get_sign(), Sign::Negative);
    assert_eq!(*s.get_denominator(), BigUint::from(1u32));
    assert_eq!(s.to_string(), "-0");
    assert_eq!(value(Sign::Positive, 0, 1).neg().to_string(), "-0");
    assert_eq!(value(Sign::Negative, 1, 1).mul(&value(Sign::Positive, 0, 1)).to_string(), "-0");
    assert_eq!(value(Sign::Negative, 0, 1).cmp(&value(Sign::Positive, 0, 3)), Some(Ordering::Equal));
}

#[test]
fn construction_from_plain_integers() {
    let r = RationalValue::from_fraction(Sign::Negative, 6, 4);
    assert_eq!(r.to_string(), "-6/4");
    assert_eq!(r.simplified().to_string(), "-3/2");
    assert_eq!(Value::from_integer(-7).to_string(), "-7");
    assert_eq!(Value::from_integer(i64::MIN).to_string(), "-9223372036854775808");
    assert_eq!(Value::from_integer(12).to_string(), "12");
}

#[test]
fn addition_of_halves_and_thirds() {
    let sum = value(Sign::Positive, 1, 2).add(&value(Sign::Positive, 1, 3));
    assert_eq!(sum.to_string(), "5/6");
}

#[test]
fn subtraction_crosses_zero() {
    let d = value(Sign::Positive, 3, 1).sub(&value(Sign::Positive, 5, 1));
    assert_eq!(d.to_string(), "-2");
    let e = value(Sign::Negative, 1, 2).sub(&value(Sign::Negative, 1, 2));
    assert_eq!(e.to_string(), "0");
    let f = value(Sign::Negative, 1, 4).add(&value(Sign::Positive, 3, 4));
    assert_eq!(f.to_string(), "1/2");
}

#[test]
fn multiplication_sign_is_exclusive_or() {
    let p = value(Sign::Negative, 2, 3).mul(&value(Sign::Positive, 3, 4));
    assert_eq!(p.to_string(), "-1/2");
    let q = value(Sign::Negative, 2, 3).mul(&value(Sign::Negative, 3, 2));
    assert_eq!(q.to_string(), "1");
}

#[test]
fn division_multiplies_by_reciprocal() {
    let q = value(Sign::Positive, 1, 2).div(&value(Sign::Negative, 3, 4));
    assert_eq!(q.to_string(), "-2/3");
}

#[test]
fn division_by_zero_is_undefined() {
    let q = value(Sign::Positive, 1, 2).div(&value(Sign::Positive, 0, 5));
    assert!(q.is_undefined());
    assert_eq!(q.to_string(), "undefined");
    assert!(rational(Sign::Positive, 0, 3).get_reciprocal().is_none());
}

#[test]
fn divide_then_multiply_gives_back_dividend() {
    let a = value(Sign::Positive, 3, 4);
    let b = value(Sign::Negative, 2, 5);
    let back = a.div(&b).mul(&b);
    assert_eq!(back.cmp(&a), Some(Ordering::Equal));
    assert_eq!(back.to_string(), "3/4");
    let c = value(Sign::Negative, 6, 8);
    let back = c.div(&b).mul(&b);
    assert!(back.equals(&c));
}

#[test]
fn undefined_absorbs_every_operation() {
    let x = value(Sign::Positive, 7, 3);
    let u = Value::Undefined(UndefinedValue::new());
    assert!(x.add(&u).is_undefined());
    assert!(x.sub(&u).is_undefined());
    assert!(x.mul(&u).is_undefined());
    assert!(x.div(&u).is_undefined());
    assert!(u.add(&x).is_undefined());
    assert!(u.div(&x).is_undefined());
    assert!(u.neg().is_undefined());
    assert_eq!(x.cmp(&u), None);
    assert!(!u.equals(&u));
}

#[test]
fn factorial_domain() {
    assert_eq!(value(Sign::Positive, 5, 1).factorial().cmp(&value(Sign::Positive, 120, 1)), Some(Ordering::Equal));
    assert!(value(Sign::Negative, 1, 1).factorial().is_undefined());
    assert!(value(Sign::Positive, 1, 2).factorial().is_undefined());
    assert!(Value::undefined().factorial().is_undefined());
    assert_eq!(value(Sign::Positive, 0, 1).factorial().to_string(), "1");
    assert_eq!(value(Sign::Positive, 1, 1).factorial().to_string(), "1");
}

#[test]
fn factorial_is_arbitrary_precision() {
    assert_eq!(
        value(Sign::Positive, 30, 1).factorial().to_string(),
        "265252859812191058636308480000000"
    );
}

#[test]
fn comparison_accounts_for_signs() {
    assert_eq!(rational(Sign::Negative, 1, 2).cmp(&rational(Sign::Positive, 1, 3)), Ordering::Less);
    assert_eq!(rational(Sign::Negative, 1, 2).cmp(&rational(Sign::Negative, 1, 3)), Ordering::Less);
    assert_eq!(rational(Sign::Positive, 2, 3).cmp(&rational(Sign::Positive, 3, 5)), Ordering::Greater);
    assert_eq!(rational(Sign::Negative, 0, 1).cmp(&rational(Sign::Positive, 0, 9)), Ordering::Equal);
}

#[test]
fn decimal_literal_uses_digit_count() {
    let v = Value::from_str("1.05").unwrap();
    assert_eq!(v.to_string(), "21/20");
    let w = Value::from_str("123.045").unwrap();
    assert_eq!(w.to_string(), "24609/200");
    let n = Value::from_str("-0.5").unwrap();
    assert_eq!(n.to_string(), "-1/2");
    assert_eq!(Value::from_str("007").unwrap().to_string(), "7");
    assert_eq!(Value::from_str("-0").unwrap().to_string(), "-0");
    assert_eq!(Value::from_str("2.50").unwrap().to_string(), "5/2");
}

#[test]
fn malformed_literals_are_rejected() {
    for text in ["", "-", "1.", ".5", "1.2.3", "abc", "1e5", "+3", "1_0", "--1"] {
        assert!(RationalValue::from_str(text).is_err(), "{text}");
    }
}

#[test]
fn rendering_of_fractions_and_integers() {
    assert_eq!(rational(Sign::Negative, 3, 2).to_string(), "-3/2");
    assert_eq!(rational(Sign::Positive, 42, 1).to_string(), "42");
    assert_eq!(Value::undefined().to_string(), "undefined");
}

#[test]
fn sign_operations() {
    assert_eq!(Sign::Positive.opposite(), Sign::Negative);
    assert_eq!(Sign::Negative.opposite(), Sign::Positive);
    assert_eq!(Sign::Negative.xor(Sign::Negative), Sign::Positive);
    assert_eq!(Sign::Positive.xor(Sign::Negative), Sign::Negative);
    let o = rational(Sign::Positive, 2, 3).get_opposite();
    assert_eq!(o.to_string(), "-2/3");
}

#[test]
fn value_simplified_reports_bad_variant() {
    match Value::undefined().simplified() {
        Err(ValueError::BadVariant(v)) => assert!(v.is_undefined()),
        _ => panic!("expected BadVariant"),
    }
    assert_eq!(value(Sign::Positive, 10, 4).simplified().unwrap().to_string(), "5/2");
}

#[test]
fn sums_over_common_multiple_of_denominators() {
    let s = value(Sign::Positive, 1, 4).add(&value(Sign::Positive, 1, 6));
    assert_eq!(s.to_string(), "5/12");
    let d = value(Sign::Positive, 5, 6).sub(&value(Sign::Positive, 1, 10));
    assert_eq!(d.to_string(), "11/15");
    let n = value(Sign::Negative, 7, 9).add(&value(Sign::Negative, 2, 3));
    assert_eq!(n.to_string(), "-13/9");
}
