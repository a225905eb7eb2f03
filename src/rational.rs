//! Signed rational numbers over arbitrary-precision naturals.
//!
//! `Rat` is the mathematical model: a sign, a numerator and a denominator.
//! `canon` divides out the greatest common divisor and keeps the sign;
//! every arithmetic operation ends with it.
use crate::bignum::{
    all_digits, big_add, big_cmp, big_div, big_from_digits, big_from_u64, big_gcd, big_is_zero,
    big_lcm, big_mul, big_sub, big_to_decimal, big_value, decimal, digits_value, gcd,
};
use num::BigUint;
use std::cmp::Ordering;
use vstd::arithmetic::div_mod::*;
use vstd::prelude::*;

verus! {

/// The sign of a rational value.
#[derive(Debug, Clone, Copy, PartialEq, Eq, Structural)]
pub enum Sign {
    Positive,
    Negative,
}

/// The mathematical model of a rational value.
pub struct Rat {
    pub sign: Sign,
    pub num: nat,
    pub den: nat,
}

pub open spec fn opposite_sign(s: Sign) -> Sign {
    match s {
        Sign::Positive => Sign::Negative,
        Sign::Negative => Sign::Positive,
    }
}

/// Negative exactly when the two signs differ.
pub open spec fn xor_sign(a: Sign, b: Sign) -> Sign {
    if a == b {
        Sign::Positive
    } else {
        Sign::Negative
    }
}

/// A magnitude with a sign, as an integer.
pub open spec fn signed(s: Sign, m: nat) -> int {
    match s {
        Sign::Positive => m as int,
        Sign::Negative => -(m as int),
    }
}

impl Rat {
    /// The signed numerator.
    pub open spec fn int_num(self) -> int {
        signed(self.sign, self.num)
    }

    /// No common factor above one, and a positive denominator.
    pub open spec fn is_canonical(self) -> bool {
        &&& self.den > 0
        &&& gcd(self.num, self.den) == 1
    }
}

/// Two rationals with positive denominators denote the same number.
pub open spec fn same_value(a: Rat, b: Rat) -> bool {
    a.int_num() * b.den == b.int_num() * a.den
}

/// The canonical form of `s * m / d`.
pub open spec fn canon(s: Sign, m: nat, d: nat) -> Rat {
    let g = gcd(m, d);
    Rat { sign: s, num: m / g, den: d / g }
}

/// The canonical form of `n / d` for a signed `n`; an integer zero has the
/// positive sign.
pub open spec fn canon_int(n: int, d: nat) -> Rat {
    if n < 0 {
        canon(Sign::Negative, (-n) as nat, d)
    } else {
        canon(Sign::Positive, n as nat, d)
    }
}

pub open spec fn add_rat(a: Rat, b: Rat) -> Rat {
    canon_int(a.int_num() * b.den + b.int_num() * a.den, a.den * b.den)
}

pub open spec fn sub_rat(a: Rat, b: Rat) -> Rat {
    canon_int(a.int_num() * b.den - b.int_num() * a.den, a.den * b.den)
}

pub open spec fn mul_rat(a: Rat, b: Rat) -> Rat {
    canon(xor_sign(a.sign, b.sign), a.num * b.num, a.den * b.den)
}

/// Multiplication by the reciprocal; only meaningful for `b.num != 0`.
pub open spec fn div_rat(a: Rat, b: Rat) -> Rat {
    canon(xor_sign(a.sign, b.sign), a.num * b.den, a.den * b.num)
}

pub open spec fn neg_rat(a: Rat) -> Rat {
    canon(opposite_sign(a.sign), a.num, a.den)
}

/// The order of the two numbers, by cross-multiplication of signed numerators.
pub open spec fn cmp_rat(a: Rat, b: Rat) -> Ordering {
    let l = a.int_num() * b.den;
    let r = b.int_num() * a.den;
    if l < r {
        Ordering::Less
    } else if l == r {
        Ordering::Equal
    } else {
        Ordering::Greater
    }
}

/// The text of a rational: a leading '-' when negative, the numerator, and
/// "/denominator" unless the denominator is one.
pub open spec fn render_rat(r: Rat) -> Seq<char> {
    let sign = if r.sign == Sign::Negative {
        seq!['-']
    } else {
        Seq::<char>::empty()
    };
    let den = if r.den == 1 {
        Seq::<char>::empty()
    } else {
        seq!['/'] + decimal(r.den)
    };
    sign + decimal(r.num) + den
}

pub open spec fn pow10(n: nat) -> nat
    decreases n,
{
    if n == 0 {
        1
    } else {
        10 * pow10((n - 1) as nat)
    }
}

/// The position of the last '.' in `s`, or -1.
pub open spec fn last_dot(s: Seq<char>) -> int
    decreases s.len(),
{
    if s.len() == 0 {
        -1
    } else if s.last() == '.' {
        s.len() - 1
    } else {
        last_dot(s.drop_last())
    }
}

/// The digits before the decimal point.
pub open spec fn integer_digits(b: Seq<char>) -> Seq<char> {
    if last_dot(b) < 0 {
        b
    } else {
        b.take(last_dot(b))
    }
}

/// The digits after the decimal point (none without one).
pub open spec fn fraction_digits(b: Seq<char>) -> Seq<char> {
    if last_dot(b) < 0 {
        Seq::<char>::empty()
    } else {
        b.skip(last_dot(b) + 1)
    }
}

/// An unsigned decimal literal: digits, optionally followed by '.' and more
/// digits.
pub open spec fn is_unsigned_literal(b: Seq<char>) -> bool {
    &&& integer_digits(b).len() > 0
    &&& all_digits(integer_digits(b))
    &&& all_digits(fraction_digits(b))
    &&& (last_dot(b) >= 0 ==> fraction_digits(b).len() > 0)
}

/// The text without a leading '-'.
pub open spec fn unsigned_part(s: Seq<char>) -> Seq<char> {
    if s.len() > 0 && s[0] == '-' {
        s.drop_first()
    } else {
        s
    }
}

/// What a decimal literal denotes: the integer written by all its digits
/// over ten to the number of fraction digits, canonicalized; `None` for text
/// that is no literal.
pub open spec fn decimal_literal(s: Seq<char>) -> Option<Rat> {
    let b = unsigned_part(s);
    if is_unsigned_literal(b) {
        let sign = if s.len() > 0 && s[0] == '-' {
            Sign::Negative
        } else {
            Sign::Positive
        };
        Some(
            canon(
                sign,
                digits_value(integer_digits(b) + fraction_digits(b)),
                pow10(fraction_digits(b).len()),
            ),
        )
    } else {
        None
    }
}

/// `last_dot` is -1 or the position of a '.'.
pub proof fn lemma_last_dot(s: Seq<char>)
    ensures
        -1 <= last_dot(s) < s.len(),
        last_dot(s) >= 0 ==> s[last_dot(s)] == '.',
    decreases s.len(),
{
    if s.len() > 0 && s.last() != '.' {
        lemma_last_dot(s.drop_last());
    }
}

pub proof fn lemma_pow10_positive(n: nat)
    ensures
        pow10(n) > 0,
    decreases n,
{
    if n > 0 {
        lemma_pow10_positive((n - 1) as nat);
    }
}

/// The greatest common divisor of two naturals, not both zero, is positive
/// and divides both.
pub proof fn lemma_gcd_divides(a: nat, b: nat)
    requires
        a > 0 || b > 0,
    ensures
        gcd(a, b) > 0,
        a % gcd(a, b) == 0,
        b % gcd(a, b) == 0,
    decreases b,
{
    if b == 0 {
        lemma_mod_self_0(a as int);
        lemma_small_mod(0, a);
    } else {
        let r = a % b;
        lemma_gcd_divides(b, r);
        let g = gcd(b, r);
        lemma_fundamental_div_mod(a as int, b as int);
        lemma_fundamental_div_mod(b as int, g as int);
        lemma_fundamental_div_mod(r as int, g as int);
        let k = (b / g) * (a / b) + r / g;
        assert(a == k * g) by (nonlinear_arith)
            requires
                a == b * (a / b) + r,
                b == g * (b / g),
                r == g * (r / g),
                k == (b / g) * (a / b) + r / g,
        ;
        lemma_mod_multiples_basic(k as int, g as int);
    }
}

/// A common divisor of two naturals divides their greatest common divisor.
pub proof fn lemma_gcd_greatest(a: nat, b: nat, c: nat)
    requires
        c > 0,
        a % c == 0,
        b % c == 0,
    ensures
        gcd(a, b) % c == 0,
    decreases b,
{
    if b > 0 {
        let r = a % b;
        lemma_fundamental_div_mod(a as int, b as int);
        lemma_fundamental_div_mod(a as int, c as int);
        lemma_fundamental_div_mod(b as int, c as int);
        let k = a / c - (b / c) * (a / b);
        assert(r == k * c) by (nonlinear_arith)
            requires
                a == b * (a / b) + r,
                a == c * (a / c),
                b == c * (b / c),
                k == a / c - (b / c) * (a / b),
        ;
        lemma_mod_multiples_basic(k, c as int);
        lemma_gcd_greatest(b, r, c);
    }
}

/// `canon` keeps the number, and its result is canonical.
pub proof fn lemma_canon(s: Sign, m: nat, d: nat)
    requires
        d > 0,
    ensures
        same_value(canon(s, m, d), Rat { sign: s, num: m, den: d }),
        canon(s, m, d).is_canonical(),
{
    let g = gcd(m, d);
    lemma_gcd_divides(m, d);
    lemma_fundamental_div_mod(m as int, g as int);
    lemma_fundamental_div_mod(d as int, g as int);
    let c = canon(s, m, d);
    assert(c.num * d == m * c.den) by (nonlinear_arith)
        requires
            m == g * c.num,
            d == g * c.den,
    ;
    assert(c.den > 0) by (nonlinear_arith)
        requires
            d == g * c.den,
            d > 0,
    ;
    if m == 0 {
        assert(c.num == 0) by (nonlinear_arith)
            requires
                m == g * c.num,
                m == 0,
                g > 0,
        ;
        assert(c.int_num() == 0 && signed(s, m) == 0);
    } else {
        assert(c.int_num() * d == signed(s, m) * c.den) by (nonlinear_arith)
            requires
                c.num * d == m * c.den,
                c.int_num() == signed(s, c.num),
                s == Sign::Positive ==> signed(s, c.num) == c.num && signed(s, m) == m,
                s == Sign::Negative ==> signed(s, c.num) == -c.num && signed(s, m) == -m,
        ;
    }
    // coprimality: h = gcd(num, den) divides both, so h * g divides m and d,
    // hence divides g, which forces h == 1
    let h = gcd(c.num, c.den);
    lemma_gcd_divides(c.num, c.den);
    lemma_fundamental_div_mod(c.num as int, h as int);
    lemma_fundamental_div_mod(c.den as int, h as int);
    let hg = h * g;
    assert(hg > 0) by (nonlinear_arith)
        requires
            h > 0,
            g > 0,
            hg == h * g,
    ;
    assert(m == (c.num / h) * hg && d == (c.den / h) * hg) by (nonlinear_arith)
        requires
            m == g * c.num,
            d == g * c.den,
            c.num == h * (c.num / h),
            c.den == h * (c.den / h),
            hg == h * g,
    ;
    lemma_mod_multiples_basic((c.num / h) as int, hg as int);
    lemma_mod_multiples_basic((c.den / h) as int, hg as int);
    lemma_gcd_greatest(m, d, hg as nat);
    lemma_fundamental_div_mod(g as int, hg as int);
    assert(h == 1) by (nonlinear_arith)
        requires
            g == hg * (g / hg),
            hg == h * g,
            g > 0,
            h > 0,
    ;
}

/// `canon` of a magnitude with a sign is `canon_int` of the signed number.
pub proof fn lemma_canon_signed(s: Sign, m: nat, d: nat)
    requires
        m == 0 ==> s == Sign::Positive,
    ensures
        canon(s, m, d) == canon_int(signed(s, m), d),
{
}

/// Scaling a signed magnitude.
pub proof fn lemma_signed_mul(s: Sign, m: nat, k: nat)
    ensures
        signed(s, m) * k == signed(s, m * k),
{
    assert(signed(s, m) * k == signed(s, m * k)) by (nonlinear_arith)
        requires
            s == Sign::Positive ==> signed(s, m) == m && signed(s, m * k) == m * k,
            s == Sign::Negative ==> signed(s, m) == -m && signed(s, m * k) == -(m * k),
    ;
}

impl Sign {
    /// The other sign.
    pub fn opposite(&self) -> (r: Sign)
        ensures
            r == opposite_sign(*self),
    {
        match self {
            Sign::Positive => Sign::Negative,
            Sign::Negative => Sign::Positive,
        }
    }

    /// Negative exactly when the two signs differ: the sign of a product.
    pub fn xor(self, other: Sign) -> (r: Sign)
        ensures
            r == xor_sign(self, other),
    {
        if self == other {
            Sign::Positive
        } else {
            Sign::Negative
        }
    }

    /// Whether this is the negative sign.
    pub fn is_negative(&self) -> (r: bool)
        ensures
            r == (*self == Sign::Negative),
    {
        match self {
            Sign::Positive => false,
            Sign::Negative => true,
        }
    }
}

/// Scaling both arguments scales their greatest common divisor.
pub proof fn lemma_gcd_scale(a: nat, b: nat, k: nat)
    requires
        k > 0,
    ensures
        gcd(a * k, b * k) == gcd(a, b) * k,
    decreases b,
{
    if b > 0 {
        let r = a % b;
        lemma_fundamental_div_mod(a as int, b as int);
        assert(b * k > 0) by (nonlinear_arith)
            requires
                b > 0,
                k > 0,
        ;
        assert(a * k == (a / b) * (b * k) + r * k && 0 <= r * k < b * k) by (nonlinear_arith)
            requires
                a == b * (a / b) + r,
                0 <= r < b,
                k > 0,
        ;
        lemma_fundamental_div_mod_converse((a * k) as int, (b * k) as int, (a / b) as int, (r * k) as int);
        lemma_gcd_scale(b, r, k);
        assert(gcd(a * k, b * k) == gcd(b * k, (a * k) % (b * k)));
        assert(gcd(a, b) == gcd(b, r));
    } else {
        assert(b * k == 0) by (nonlinear_arith)
            requires
                b == 0,
        ;
    }
}

/// `canon` is unchanged when numerator and denominator are scaled alike.
pub proof fn lemma_canon_scale(s: Sign, m: nat, d: nat, k: nat)
    requires
        d > 0,
        k > 0,
    ensures
        canon(s, m * k, d * k) == canon(s, m, d),
{
    let g = gcd(m, d);
    lemma_gcd_scale(m, d, k);
    lemma_gcd_divides(m, d);
    lemma_fundamental_div_mod(m as int, g as int);
    lemma_fundamental_div_mod(d as int, g as int);
    let u = m / g;
    let v = d / g;
    let gk = g * k;
    assert(gk > 0 && m * k == gk * u && d * k == gk * v) by (nonlinear_arith)
        requires
            g > 0,
            k > 0,
            gk == g * k,
            m == g * u,
            d == g * v,
    ;
    lemma_div_multiples_vanish(u as int, gk as int);
    lemma_div_multiples_vanish(v as int, gk as int);
    assert(m * k == 0 <==> m == 0) by (nonlinear_arith)
        requires
            k > 0,
    ;
}

/// `canon_int` is unchanged when numerator and denominator are scaled alike.
pub proof fn lemma_canon_int_scale(n: int, d: nat, k: nat)
    requires
        d > 0,
        k > 0,
    ensures
        canon_int(n * k, d * k) == canon_int(n, d),
{
    if n < 0 {
        assert(n * k < 0 && (-(n * k)) as nat == ((-n) as nat) * k) by (nonlinear_arith)
            requires
                n < 0,
                k > 0,
        ;
        lemma_canon_scale(Sign::Negative, (-n) as nat, d, k);
    } else {
        assert(n * k >= 0 && (n * k) as nat == (n as nat) * k) by (nonlinear_arith)
            requires
                n >= 0,
                k > 0,
        ;
        lemma_canon_scale(Sign::Positive, n as nat, d, k);
    }
}

/// The sign of a product of signed magnitudes.
pub proof fn lemma_signed_xor(s: Sign, t: Sign, m: nat, n: nat)
    ensures
        signed(xor_sign(s, t), m * n) == signed(s, m) * signed(t, n),
{
    assert(signed(xor_sign(s, t), m * n) == signed(s, m) * signed(t, n)) by (nonlinear_arith)
        requires
            s == Sign::Positive ==> signed(s, m) == m,
            s == Sign::Negative ==> signed(s, m) == -m,
            t == Sign::Positive ==> signed(t, n) == n,
            t == Sign::Negative ==> signed(t, n) == -n,
            (s == t) ==> signed(xor_sign(s, t), m * n) == m * n,
            (s != t) ==> signed(xor_sign(s, t), m * n) == -(m * n),
            s == Sign::Positive || s == Sign::Negative,
            t == Sign::Positive || t == Sign::Negative,
    ;
}

/// Denoting the same number is transitive through a positive denominator.
pub proof fn lemma_same_value_trans(a: Rat, b: Rat, c: Rat)
    requires
        b.den > 0,
        same_value(a, b),
        same_value(b, c),
    ensures
        same_value(a, c),
{
    assert(a.int_num() * c.den * b.den == c.int_num() * a.den * b.den) by (nonlinear_arith)
        requires
            a.int_num() * b.den == b.int_num() * a.den,
            b.int_num() * c.den == c.int_num() * b.den,
    ;
    assert(a.int_num() * c.den == c.int_num() * a.den) by (nonlinear_arith)
        requires
            a.int_num() * c.den * b.den == c.int_num() * a.den * b.den,
            b.den > 0,
    ;
}

/// Dividing `a` by a nonzero `b` and multiplying the canonical quotient by
/// `b` gives back the number `a`, exactly.
pub proof fn lemma_div_then_mul(a: Rat, b: Rat)
    requires
        a.den > 0,
        b.den > 0,
        b.num != 0,
    ensures
        same_value(mul_rat(div_rat(a, b), b), a),
        cmp_rat(mul_rat(div_rat(a, b), b), a) == Ordering::Equal,
{
    let xs = xor_sign(a.sign, b.sign);
    let m = a.num * b.den;
    let d = a.den * b.num;
    assert(d > 0) by (nonlinear_arith)
        requires
            d == a.den * b.num,
            a.den > 0,
            b.num != 0,
    ;
    let q = div_rat(a, b);
    lemma_canon(xs, m, d);
    let x = Rat { sign: xor_sign(q.sign, b.sign), num: q.num * b.num, den: q.den * b.den };
    lemma_signed_xor(a.sign, b.sign, a.num, b.den);
    lemma_signed_xor(q.sign, b.sign, q.num, b.num);
    let sigma: int = if b.sign == Sign::Negative {
        -1
    } else {
        1
    };
    assert(signed(b.sign, b.den) == sigma * b.den && b.int_num() == sigma * b.num);
    assert(x.den > 0) by (nonlinear_arith)
        requires
            x.den == q.den * b.den,
            q.den > 0,
            b.den > 0,
    ;
    lemma_canon(x.sign, x.num, x.den);
    assert(same_value(x, a)) by (nonlinear_arith)
        requires
            q.int_num() * d == signed(xs, m) * q.den,
            signed(xs, m) == a.int_num() * (sigma * b.den),
            x.int_num() == q.int_num() * (sigma * b.num),
            d == a.den * b.num,
            x.den == q.den * b.den,
            sigma * sigma == 1,
    ;
    lemma_same_value_trans(mul_rat(q, b), x, a);
}

/// A rational value: a sign and two arbitrary-precision naturals, with a
/// denominator that is never zero.
/// Text that is no decimal literal.
#[derive(Debug, Clone)]
pub struct ValueParseError {
    pub text: String,
}

#[derive(Debug)]
pub struct RationalValue {
    sign: Sign,
    numerator: BigUint,
    denominator: BigUint,
}

impl View for RationalValue {
    type V = Rat;

    closed spec fn view(&self) -> Rat {
        Rat { sign: self.sign, num: big_value(self.numerator), den: big_value(self.denominator) }
    }
}

/// The position of the last '.' in `t`.
fn find_last_dot(t: &str) -> (r: Option<usize>)
    ensures
        r is None <==> last_dot(t@) == -1,
        r is Some ==> r->Some_0 == last_dot(t@),
{
    let n = t.unicode_len();
    let mut dot: Option<usize> = None;
    let mut i: usize = 0;
    while i < n
        invariant
            i <= n,
            n == t@.len(),
            dot is None ==> last_dot(t@.take(i as int)) == -1,
            dot is Some ==> last_dot(t@.take(i as int)) == dot->Some_0 as int,
        decreases n - i,
    {
        proof {
            assert(t@.take(i as int + 1).drop_last() =~= t@.take(i as int));
        }
        if t.get_char(i) == '.' {
            dot = Some(i);
        }
        i = i + 1;
    }
    proof {
        assert(t@.take(n as int) =~= t@);
    }
    dot
}

/// Whether every character of `t` is a decimal digit.
fn digits_only(t: &str) -> (r: bool)
    ensures
        r == all_digits(t@),
{
    let n = t.unicode_len();
    let mut i: usize = 0;
    while i < n
        invariant
            i <= n,
            n == t@.len(),
            forall|j: int| 0 <= j < i ==> '0' <= #[trigger] t@[j] <= '9',
        decreases n - i,
    {
        let c = t.get_char(i);
        if !('0' <= c && c <= '9') {
            return false;
        }
        i = i + 1;
    }
    true
}

impl Clone for RationalValue {
    fn clone(&self) -> (r: Self)
        ensures
            r@ == self@,
    {
        proof {
            use_type_invariant(self);
        }
        RationalValue {
            sign: self.sign,
            numerator: self.numerator.clone(),
            denominator: self.denominator.clone(),
        }
    }
}

impl RationalValue {
    #[verifier::type_invariant]
    spec fn denominator_positive(self) -> bool {
        big_value(self.denominator) > 0
    }

    /// A rational value from its raw parts, as given (not canonicalized).
    pub fn new(sign: Sign, numerator: BigUint, denominator: BigUint) -> (r: Self)
        requires
            big_value(denominator) > 0,
        ensures
            r@ == (Rat { sign, num: big_value(numerator), den: big_value(denominator) }),
    {
        RationalValue { sign, numerator, denominator }
    }

    /// The rational value `n / 1`.
    pub fn from_integer(sign: Sign, n: u64) -> (r: Self)
        ensures
            r@ == (Rat { sign, num: n as nat, den: 1 }),
    {
        RationalValue::new(sign, big_from_u64(n), big_from_u64(1))
    }

    /// The rational value `n / d` (not canonicalized).
    pub fn from_fraction(sign: Sign, n: u64, d: u64) -> (r: Self)
        requires
            d > 0,
        ensures
            r@ == (Rat { sign, num: n as nat, den: d as nat }),
    {
        RationalValue::new(sign, big_from_u64(n), big_from_u64(d))
    }

    pub fn get_sign(&self) -> (r: &Sign)
        ensures
            *r == self@.sign,
    {
        &self.sign
    }

    pub fn get_numerator(&self) -> (r: &BigUint)
        ensures
            big_value(*r) == self@.num,
    {
        &self.numerator
    }

    pub fn get_denominator(&self) -> (r: &BigUint)
        ensures
            big_value(*r) == self@.den,
    {
        &self.denominator
    }

    /// The canonical form of `s * m / d`.
    fn canonical(s: Sign, m: BigUint, d: BigUint) -> (r: Self)
        requires
            big_value(d) > 0,
        ensures
            r@ == canon(s, big_value(m), big_value(d)),
    {
        let g = big_gcd(&m, &d);
        proof {
            lemma_gcd_divides(big_value(m), big_value(d));
            lemma_canon(s, big_value(m), big_value(d));
        }
        let num = big_div(&m, &g);
        let den = big_div(&d, &g);
        RationalValue { sign: s, numerator: num, denominator: den }
    }

    /// The canonical form of this value: the greatest common divisor of the
    /// numerator and the denominator divided out, the sign kept.
    pub fn simplified(&self) -> (r: Self)
        ensures
            r@ == canon(self@.sign, self@.num, self@.den),
            r@.is_canonical(),
            same_value(r@, self@),
    {
        proof {
            use_type_invariant(self);
            lemma_canon(self.sign, self@.num, self@.den);
        }
        RationalValue::canonical(self.sign, self.numerator.clone(), self.denominator.clone())
    }

    /// The same magnitude with the other sign (not canonicalized).
    pub fn get_opposite(&self) -> (r: Self)
        ensures
            r@ == (Rat { sign: opposite_sign(self@.sign), num: self@.num, den: self@.den }),
    {
        proof {
            use_type_invariant(self);
        }
        RationalValue {
            sign: self.sign.opposite(),
            numerator: self.numerator.clone(),
            denominator: self.denominator.clone(),
        }
    }

    /// Numerator and denominator swapped, the sign kept; `None` for zero,
    /// which has no reciprocal.
    pub fn get_reciprocal(&self) -> (r: Option<Self>)
        ensures
            r is None <==> self@.num == 0,
            r is Some ==> r->Some_0@ == (Rat { sign: self@.sign, num: self@.den, den: self@.num }),
    {
        if big_is_zero(&self.numerator) {
            None
        } else {
            Some(
                RationalValue {
                    sign: self.sign,
                    numerator: self.denominator.clone(),
                    denominator: self.numerator.clone(),
                },
            )
        }
    }

    /// `self + other_sign * |other|`, canonical: both operands are scaled to
    /// the least common multiple of the denominators.
    fn combine(&self, other: &Self, other_sign: Sign) -> (r: Self)
        ensures
            r@ == canon_int(
                self@.int_num() * other@.den + signed(other_sign, other@.num) * self@.den,
                self@.den * other@.den,
            ),
    {
        proof {
            use_type_invariant(self);
            use_type_invariant(other);
        }
        let ghost da = self@.den;
        let ghost db = other@.den;
        let ghost g = gcd(da, db);
        let common = big_lcm(&self.denominator, &other.denominator);
        proof {
            lemma_gcd_divides(da, db);
            lemma_fundamental_div_mod(da as int, g as int);
            lemma_fundamental_div_mod(db as int, g as int);
            let (u, v) = (da / g, db / g);
            assert(big_value(common) == da * v && big_value(common) == db * u && big_value(
                common,
            ) > 0 && big_value(common) * g == da * db) by (nonlinear_arith)
                requires
                    big_value(common) == u * db,
                    da == g * u,
                    db == g * v,
                    g > 0,
                    da > 0,
                    db > 0,
            ;
            lemma_div_multiples_vanish(v as int, da as int);
            lemma_div_multiples_vanish(u as int, db as int);
        }
        let self_scale = big_div(&common, &self.denominator);
        let other_scale = big_div(&common, &other.denominator);
        let p = big_mul(&self.numerator, &self_scale);
        let q = big_mul(&other.numerator, &other_scale);
        let ghost pv = big_value(p);
        let ghost qv = big_value(q);
        proof {
            assert(pv * g == self@.num * db && qv * g == other@.num * da) by (nonlinear_arith)
                requires
                    pv == self@.num * (db / g),
                    qv == other@.num * (da / g),
                    da == g * (da / g),
                    db == g * (db / g),
            ;
            lemma_signed_mul(self.sign, pv, g);
            lemma_signed_mul(other_sign, qv, g);
            lemma_signed_mul(self.sign, self@.num, db);
            lemma_signed_mul(other_sign, other@.num, da);
        }
        let (sign, m) = if self.sign == other_sign {
            (self.sign, big_add(&p, &q))
        } else {
            match big_cmp(&p, &q) {
                Ordering::Less => (other_sign, big_sub(&q, &p)),
                _ => (self.sign, big_sub(&p, &q)),
            }
        };
        // a zero sum or difference is the integer zero, which is positive
        let sign = if big_is_zero(&m) {
            Sign::Positive
        } else {
            sign
        };
        proof {
            let n = signed(sign, big_value(m));
            assert(n == signed(self.sign, pv) + signed(other_sign, qv));
            assert(n * g == self@.int_num() * db + signed(other_sign, other@.num) * da)
                by (nonlinear_arith)
                requires
                    n == signed(self.sign, pv) + signed(other_sign, qv),
                    signed(self.sign, pv) * g == signed(self.sign, pv * g),
                    signed(other_sign, qv) * g == signed(other_sign, qv * g),
                    pv * g == self@.num * db,
                    qv * g == other@.num * da,
                    signed(self.sign, self@.num) * db == signed(self.sign, self@.num * db),
                    signed(other_sign, other@.num) * da == signed(other_sign, other@.num * da),
                    self@.int_num() == signed(self.sign, self@.num),
            ;
            lemma_canon_signed(sign, big_value(m), big_value(common));
            lemma_canon_int_scale(n, big_value(common), g);
        }
        RationalValue::canonical(sign, m, common)
    }

    /// The canonical sum.
    pub fn add(&self, other: &Self) -> (r: Self)
        ensures
            r@ == add_rat(self@, other@),
    {
        self.combine(other, other.sign)
    }

    /// The canonical difference.
    pub fn sub(&self, other: &Self) -> (r: Self)
        ensures
            r@ == sub_rat(self@, other@),
    {
        let r = self.combine(other, other.sign.opposite());
        assert(signed(opposite_sign(other@.sign), other@.num) * self@.den == -(other@.int_num()
            * self@.den)) by (nonlinear_arith)
            requires
                signed(opposite_sign(other@.sign), other@.num) == -other@.int_num(),
        ;
        r
    }

    /// The canonical product; its sign is the exclusive or of the signs.
    pub fn mul(&self, other: &Self) -> (r: Self)
        ensures
            r@ == mul_rat(self@, other@),
    {
        proof {
            use_type_invariant(self);
            use_type_invariant(other);
        }
        let m = big_mul(&self.numerator, &other.numerator);
        let d = big_mul(&self.denominator, &other.denominator);
        assert(big_value(d) > 0) by (nonlinear_arith)
            requires
                big_value(d) == self@.den * other@.den,
                self@.den > 0,
                other@.den > 0,
        ;
        RationalValue::canonical(self.sign.xor(other.sign), m, d)
    }

    /// The canonical quotient, as the product with the reciprocal of `other`;
    /// `None` when `other` is zero.
    pub fn div(&self, other: &Self) -> (r: Option<Self>)
        ensures
            r is None <==> other@.num == 0,
            r is Some ==> r->Some_0@ == div_rat(self@, other@),
    {
        match other.get_reciprocal() {
            None => None,
            Some(reciprocal) => Some(self.mul(&reciprocal)),
        }
    }

    /// The canonical negation.
    pub fn neg(&self) -> (r: Self)
        ensures
            r@ == neg_rat(self@),
    {
        proof {
            use_type_invariant(self);
        }
        RationalValue::canonical(self.sign.opposite(), self.numerator.clone(), self.denominator.clone())
    }

    /// The order of the two numbers, signs included.
    pub fn cmp(&self, other: &Self) -> (r: Ordering)
        ensures
            r == cmp_rat(self@, other@),
    {
        let p = big_mul(&self.numerator, &other.denominator);
        let q = big_mul(&other.numerator, &self.denominator);
        proof {
            lemma_signed_mul(self.sign, self@.num, other@.den);
            lemma_signed_mul(other.sign, other@.num, self@.den);
        }
        match (self.sign, other.sign) {
            (Sign::Positive, Sign::Positive) => big_cmp(&p, &q),
            (Sign::Negative, Sign::Negative) => big_cmp(&q, &p),
            (Sign::Positive, Sign::Negative) => {
                if big_is_zero(&p) && big_is_zero(&q) {
                    Ordering::Equal
                } else {
                    Ordering::Greater
                }
            },
            (Sign::Negative, Sign::Positive) => {
                if big_is_zero(&p) && big_is_zero(&q) {
                    Ordering::Equal
                } else {
                    Ordering::Less
                }
            },
        }
    }

    /// The text of this value, as `render_rat` gives it.
    pub fn to_string(&self) -> (r: String)
        ensures
            r@ == render_rat(self@),
    {
        let mut text = String::new();
        if self.sign.is_negative() {
            proof {
                reveal_strlit("-");
            }
            text.append("-");
        }
        let num = big_to_decimal(&self.numerator);
        text.append(num.as_str());
        let one = big_from_u64(1);
        match big_cmp(&self.denominator, &one) {
            Ordering::Equal => {},
            _ => {
                proof {
                    reveal_strlit("/");
                }
                text.append("/");
                let den = big_to_decimal(&self.denominator);
                text.append(den.as_str());
            },
        }
        proof {
            assert(text@ =~= render_rat(self@));
        }
        text
    }

    /// Parses a decimal literal: an optional '-', digits, and optionally a
    /// '.' followed by digits. The result is canonical.
    pub fn from_str(s: &str) -> (r: Result<Self, ValueParseError>)
        ensures
            decimal_literal(s@) is None ==> r is Err,
            decimal_literal(s@) is Some ==> r is Ok && r->Ok_0@ == decimal_literal(s@)->Some_0,
    {
        let len = s.unicode_len();
        let negative = len > 0 && s.get_char(0) == '-';
        let start: usize = if negative { 1 } else { 0 };
        let body = s.substring_char(start, len);
        proof {
            assert(body@ =~= unsigned_part(s@));
            lemma_last_dot(body@);
        }
        let blen = body.unicode_len();
        let dot = find_last_dot(body);
        let (int_end, frac_start) = match dot {
            None => (blen, blen),
            Some(k) => (k, k + 1),
        };
        let int_part = body.substring_char(0, int_end);
        let frac_part = body.substring_char(frac_start, blen);
        proof {
            assert(int_part@ =~= integer_digits(body@));
            assert(frac_part@ =~= fraction_digits(body@));
        }
        if int_end == 0 || (dot.is_some() && frac_start == blen) || !digits_only(int_part)
            || !digits_only(frac_part) {
            return Err(ValueParseError { text: s.to_owned() });
        }
        let mut digits = int_part.to_owned();
        digits.append(frac_part);
        proof {
            let all = integer_digits(body@) + fraction_digits(body@);
            assert(digits@ =~= all);
            assert(all_digits(all)) by {
                assert forall|t: int| 0 <= t < all.len() implies '0' <= #[trigger] all[t] <= '9' by {
                    if t < integer_digits(body@).len() {
                        assert(all[t] == integer_digits(body@)[t]);
                    } else {
                        assert(all[t] == fraction_digits(body@)[t - integer_digits(body@).len()]);
                    }
                }
            }
        }
        let numerator = big_from_digits(digits.as_str());
        let ten = big_from_u64(10);
        let mut denominator = big_from_u64(1);
        let flen = frac_part.unicode_len();
        let mut k: usize = 0;
        while k < flen
            invariant
                k <= flen,
                big_value(denominator) == pow10(k as nat),
                big_value(ten) == 10,
            decreases flen - k,
        {
            denominator = big_mul(&ten, &denominator);
            k = k + 1;
        }
        proof {
            lemma_pow10_positive(flen as nat);
        }
        let sign = if negative {
            Sign::Negative
        } else {
            Sign::Positive
        };
        Ok(RationalValue::canonical(sign, numerator, denominator))
    }
}

} // verus!
