//! Values: an exact rational, or the `Undefined` sentinel that every
//! operation outside the arithmetic domain produces and every operation
//! propagates.
use crate::bignum::{big_add, big_cmp, big_from_u64, big_mul, big_value};
use crate::rational::{
    add_rat, cmp_rat, div_rat, mul_rat, neg_rat, render_rat, sub_rat, Rat, RationalValue, Sign,
    canon, decimal_literal, ValueParseError,
};
use std::cmp::Ordering;
use vstd::prelude::*;

verus! {

/// The domain-error sentinel.
#[derive(Debug, Clone, Copy, PartialEq, Eq, Structural)]
pub struct UndefinedValue;

impl UndefinedValue {
    pub fn new() -> (r: Self)
        ensures
            r == UndefinedValue,
    {
        UndefinedValue
    }
}

/// A value.
#[derive(Debug)]
pub enum Value {
    Rational(RationalValue),
    Undefined(UndefinedValue),
}

/// An error on a value.
#[derive(Debug)]
pub enum ValueError {
    /// A variant other than the one the operation needs was given.
    BadVariant(Value),
    /// A value outside the operation's domain was given.
    BadValue(Value),
}

impl View for Value {
    /// The rational, or `None` for `Undefined`.
    type V = Option<Rat>;

    open spec fn view(&self) -> Option<Rat> {
        match self {
            Value::Rational(r) => Some(r@),
            Value::Undefined(_) => None,
        }
    }
}

pub open spec fn add_value(a: Option<Rat>, b: Option<Rat>) -> Option<Rat> {
    match (a, b) {
        (Some(x), Some(y)) => Some(add_rat(x, y)),
        _ => None,
    }
}

pub open spec fn sub_value(a: Option<Rat>, b: Option<Rat>) -> Option<Rat> {
    match (a, b) {
        (Some(x), Some(y)) => Some(sub_rat(x, y)),
        _ => None,
    }
}

pub open spec fn mul_value(a: Option<Rat>, b: Option<Rat>) -> Option<Rat> {
    match (a, b) {
        (Some(x), Some(y)) => Some(mul_rat(x, y)),
        _ => None,
    }
}

/// Division by a zero numerator is undefined.
pub open spec fn div_value(a: Option<Rat>, b: Option<Rat>) -> Option<Rat> {
    match (a, b) {
        (Some(x), Some(y)) => if y.num == 0 {
            None
        } else {
            Some(div_rat(x, y))
        },
        _ => None,
    }
}

pub open spec fn neg_value(a: Option<Rat>) -> Option<Rat> {
    match a {
        Some(x) => Some(neg_rat(x)),
        None => None,
    }
}

/// `n!`, the product of the integers from 2 to `n`.
pub open spec fn fact(n: nat) -> nat
    decreases n,
{
    if n <= 1 {
        1
    } else {
        n * fact((n - 1) as nat)
    }
}

/// Defined for rationals with denominator exactly one and a numerator that
/// is not negative.
pub open spec fn factorial_value(a: Option<Rat>) -> Option<Rat> {
    match a {
        Some(x) => if x.den == 1 && x.int_num() >= 0 {
            Some(Rat { sign: Sign::Positive, num: fact(x.num), den: 1 })
        } else {
            None
        },
        None => None,
    }
}

/// The text of a value: "undefined" for the sentinel.
pub open spec fn render_value(a: Option<Rat>) -> Seq<char> {
    match a {
        Some(x) => render_rat(x),
        None => seq!['u', 'n', 'd', 'e', 'f', 'i', 'n', 'e', 'd'],
    }
}

impl Clone for Value {
    fn clone(&self) -> (r: Self)
        ensures
            r@ == self@,
    {
        match self {
            Value::Rational(x) => Value::Rational(x.clone()),
            Value::Undefined(u) => Value::Undefined(*u),
        }
    }
}

impl Value {
    /// The sentinel.
    pub fn undefined() -> (r: Self)
        ensures
            r@ is None,
    {
        Value::Undefined(UndefinedValue::new())
    }

    /// The integer `n` as a rational.
    pub fn from_integer(n: i64) -> (r: Self)
        ensures
            r@ == Some(
                Rat {
                    sign: if n < 0 {
                        Sign::Negative
                    } else {
                        Sign::Positive
                    },
                    num: if n < 0 {
                        (-n) as nat
                    } else {
                        n as nat
                    },
                    den: 1,
                },
            ),
    {
        let wide = n as i128;
        if wide < 0 {
            Value::Rational(RationalValue::from_integer(Sign::Negative, (-wide) as u64))
        } else {
            Value::Rational(RationalValue::from_integer(Sign::Positive, wide as u64))
        }
    }

    pub fn is_undefined(&self) -> (r: bool)
        ensures
            r == (self@ is None),
    {
        match self {
            Value::Rational(_) => false,
            Value::Undefined(_) => true,
        }
    }

    /// Parses a decimal literal into a canonical rational.
    pub fn from_str(s: &str) -> (r: Result<Self, ValueParseError>)
        ensures
            decimal_literal(s@) is None ==> r is Err,
            decimal_literal(s@) is Some ==> r is Ok && r->Ok_0@ == decimal_literal(s@),
    {
        match RationalValue::from_str(s) {
            Ok(x) => Ok(Value::Rational(x)),
            Err(e) => Err(e),
        }
    }

    /// The canonical form of a rational; `BadVariant` holding the given value
    /// for `Undefined`.
    pub fn simplified(&self) -> (r: Result<Self, ValueError>)
        ensures
            self@ is None ==> r is Err && r->Err_0 is BadVariant && r->Err_0->BadVariant_0@
                == self@,
            self@ is Some ==> r is Ok && r->Ok_0@ == Some(
                canon(self@->Some_0.sign, self@->Some_0.num, self@->Some_0.den),
            ),
    {
        match self {
            Value::Rational(x) => Ok(Value::Rational(x.simplified())),
            Value::Undefined(u) => Err(ValueError::BadVariant(Value::Undefined(*u))),
        }
    }

    pub fn add(&self, other: &Value) -> (r: Value)
        ensures
            r@ == add_value(self@, other@),
    {
        match (self, other) {
            (Value::Rational(a), Value::Rational(b)) => Value::Rational(a.add(b)),
            _ => Value::undefined(),
        }
    }

    pub fn sub(&self, other: &Value) -> (r: Value)
        ensures
            r@ == sub_value(self@, other@),
    {
        match (self, other) {
            (Value::Rational(a), Value::Rational(b)) => Value::Rational(a.sub(b)),
            _ => Value::undefined(),
        }
    }

    pub fn mul(&self, other: &Value) -> (r: Value)
        ensures
            r@ == mul_value(self@, other@),
    {
        match (self, other) {
            (Value::Rational(a), Value::Rational(b)) => Value::Rational(a.mul(b)),
            _ => Value::undefined(),
        }
    }

    pub fn div(&self, other: &Value) -> (r: Value)
        ensures
            r@ == div_value(self@, other@),
    {
        match (self, other) {
            (Value::Rational(a), Value::Rational(b)) => match a.div(b) {
                Some(q) => Value::Rational(q),
                None => Value::undefined(),
            },
            _ => Value::undefined(),
        }
    }

    pub fn neg(&self) -> (r: Value)
        ensures
            r@ == neg_value(self@),
    {
        match self {
            Value::Rational(a) => Value::Rational(a.neg()),
            Value::Undefined(_) => Value::undefined(),
        }
    }

    /// The order of two rationals; `None` when either is `Undefined`.
    pub fn cmp(&self, other: &Value) -> (r: Option<Ordering>)
        ensures
            r == match (self@, other@) {
                (Some(a), Some(b)) => Some(cmp_rat(a, b)),
                _ => None,
            },
    {
        match (self, other) {
            (Value::Rational(a), Value::Rational(b)) => Some(a.cmp(b)),
            _ => None,
        }
    }

    /// Whether both are rationals denoting the same number.
    pub fn equals(&self, other: &Value) -> (r: bool)
        ensures
            r == match (self@, other@) {
                (Some(a), Some(b)) => cmp_rat(a, b) == Ordering::Equal,
                _ => false,
            },
    {
        match self.cmp(other) {
            Some(Ordering::Equal) => true,
            _ => false,
        }
    }

    /// The text of the value, as `render_value` gives it.
    pub fn to_string(&self) -> (r: String)
        ensures
            r@ == render_value(self@),
    {
        match self {
            Value::Rational(a) => a.to_string(),
            Value::Undefined(_) => {
                proof {
                    reveal_strlit("undefined");
                }
                "undefined".to_owned()
            },
        }
    }

    /// The product of the integers from 2 to the numerator, for a rational
    /// with denominator exactly one and a numerator that is not negative;
    /// `Undefined` for any other value.
    pub fn factorial(&self) -> (r: Value)
        ensures
            r@ == factorial_value(self@),
    {
        match self {
            Value::Rational(a) => {
                let one = big_from_u64(1);
                let n = a.get_numerator();
                let negative = a.get_sign().is_negative() && !matches!(big_cmp(n, &big_from_u64(0)), Ordering::Equal);
                if negative || !matches!(big_cmp(a.get_denominator(), &one), Ordering::Equal) {
                    return Value::undefined();
                }
                let mut result = big_from_u64(1);
                let mut i = big_from_u64(2);
                while !matches!(big_cmp(&i, n), Ordering::Greater)
                    invariant
                        big_value(one) == 1,
                        big_value(*n) == a@.num,
                        2 <= big_value(i),
                        big_value(i) <= a@.num + 1 || big_value(i) == 2,
                        big_value(result) == fact((big_value(i) - 1) as nat),
                    decreases a@.num + 2 - big_value(i),
                {
                    let ghost k = big_value(i);
                    result = big_mul(&result, &i);
                    i = big_add(&i, &one);
                    proof {
                        assert(fact(k) == k * fact((k - 1) as nat));
                        assert(big_value(result) == fact(k)) by (nonlinear_arith)
                            requires
                                big_value(result) == fact((k - 1) as nat) * k,
                                fact(k) == k * fact((k - 1) as nat),
                        ;
                    }
                }
                Value::Rational(RationalValue::new(Sign::Positive, result, one))
            },
            Value::Undefined(_) => Value::undefined(),
        }
    }
}

/// `Undefined` absorbs: every binary operation with an undefined operand,
/// on either side, is undefined.
pub proof fn lemma_undefined_absorbs(x: Option<Rat>)
    ensures
        add_value(x, None) is None,
        sub_value(x, None) is None,
        mul_value(x, None) is None,
        div_value(x, None) is None,
        add_value(None, x) is None,
        sub_value(None, x) is None,
        mul_value(None, x) is None,
        div_value(None, x) is None,
{
}

} // verus!
