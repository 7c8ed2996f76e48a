//! The numbers of the language.
//!
//! A number is a fraction `num / den` with `0 < den`, both parts at most
//! `LIMIT` in magnitude, or one of three special values written with
//! `den == 0`: `(1, 0)` is positive infinity, `(-1, 0)` negative infinity and
//! `(0, 0)` "not a number". Arithmetic never fails. A result is first brought
//! to lowest terms; when its parts are still too large, both are halved
//! (rounding down) until they fit, and a denominator that reaches zero makes
//! the result an infinity. The specials follow IEEE 754 rules.
//!
//! Results can therefore differ from 64-bit floating point: small decimal
//! fractions are exact (`0.1 + 0.2 == 0.3` holds here, and not with floats),
//! while very large or very finely divided values are rounded differently:
//! a whole number beyond `LIMIT` is already infinite.
use vstd::prelude::*;

verus! {

/// Largest magnitude of a numerator or a denominator.
pub const LIMIT: i64 = 0x7fff_ffff_ffff_ffff;

pub open spec fn abs(x: int) -> nat {
    if x < 0 {
        (-x) as nat
    } else {
        x as nat
    }
}

pub open spec fn sign(x: int) -> int {
    if x < 0 {
        -1
    } else if x > 0 {
        1
    } else {
        0
    }
}

pub open spec fn gcd(a: nat, b: nat) -> nat
    decreases b,
{
    if b == 0 {
        a
    } else {
        gcd(b, a % b)
    }
}

/// A pair that a `Number` can hold.
pub open spec fn valid(v: (int, int)) -> bool {
    &&& abs(v.0) <= LIMIT
    &&& 0 <= v.1 <= LIMIT
    &&& v.1 == 0 ==> -1 <= v.0 <= 1
}

pub open spec fn is_nan(v: (int, int)) -> bool {
    v.1 == 0 && v.0 == 0
}

pub open spec fn is_infinite(v: (int, int)) -> bool {
    v.1 == 0 && v.0 != 0
}

pub open spec fn is_finite(v: (int, int)) -> bool {
    v.1 != 0
}

pub open spec fn nan() -> (int, int) {
    (0, 0)
}

/// Both parts halved, rounding down, until each is at most `LIMIT`.
pub open spec fn shrink(m: nat, q: nat) -> (nat, nat)
    decreases m + q,
{
    if m <= LIMIT && q <= LIMIT {
        (m, q)
    } else {
        shrink(m / 2, q / 2)
    }
}

/// The number nearest, in the sense above, to `n / d` (for `d > 0`).
pub open spec fn round(n: int, d: int) -> (int, int) {
    let g = gcd(abs(n), d as nat);
    let (m, q) = shrink(abs(n) / g, (d / g as int) as nat);
    if q == 0 {
        (if n < 0 { -1int } else { 1int }, 0int)
    } else if m == 0 {
        (0, 1)
    } else {
        (if n < 0 { -(m as int) } else { m as int }, q as int)
    }
}

pub open spec fn num_neg(a: (int, int)) -> (int, int) {
    (-a.0, a.1)
}

pub open spec fn num_add(a: (int, int), b: (int, int)) -> (int, int) {
    if is_nan(a) || is_nan(b) {
        nan()
    } else if is_infinite(a) && is_infinite(b) {
        if a.0 == b.0 {
            a
        } else {
            nan()
        }
    } else if is_infinite(a) {
        a
    } else if is_infinite(b) {
        b
    } else {
        round(a.0 * b.1 + b.0 * a.1, a.1 * b.1)
    }
}

pub open spec fn num_sub(a: (int, int), b: (int, int)) -> (int, int) {
    num_add(a, num_neg(b))
}

pub open spec fn num_mul(a: (int, int), b: (int, int)) -> (int, int) {
    if is_nan(a) || is_nan(b) {
        nan()
    } else if is_infinite(a) || is_infinite(b) {
        if a.0 == 0 || b.0 == 0 {
            nan()
        } else {
            (sign(a.0) * sign(b.0), 0)
        }
    } else {
        round(a.0 * b.0, a.1 * b.1)
    }
}

pub open spec fn num_div(a: (int, int), b: (int, int)) -> (int, int) {
    if is_nan(a) || is_nan(b) {
        nan()
    } else if is_infinite(a) {
        if is_infinite(b) {
            nan()
        } else {
            (if b.0 < 0 { -a.0 } else { a.0 }, 0)
        }
    } else if is_infinite(b) {
        (0, 1)
    } else if b.0 == 0 {
        if a.0 == 0 {
            nan()
        } else {
            (sign(a.0), 0)
        }
    } else if b.0 < 0 {
        round(-(a.0 * b.1), a.1 * (-b.0))
    } else {
        round(a.0 * b.1, a.1 * b.0)
    }
}

/// `a < b`; false where either is not a number.
pub open spec fn num_lt(a: (int, int), b: (int, int)) -> bool {
    if is_nan(a) || is_nan(b) {
        false
    } else if is_finite(a) && is_finite(b) {
        a.0 * b.1 < b.0 * a.1
    } else {
        (a == (-1int, 0int) && b != (-1int, 0int)) || (b == (1int, 0int) && a != (1int, 0int))
    }
}

/// `a <= b`; false where either is not a number.
pub open spec fn num_le(a: (int, int), b: (int, int)) -> bool {
    !is_nan(a) && !is_nan(b) && !num_lt(b, a)
}

/// Numeric equality; "not a number" equals nothing.
pub open spec fn num_eq(a: (int, int), b: (int, int)) -> bool {
    if is_nan(a) || is_nan(b) {
        false
    } else if is_finite(a) && is_finite(b) {
        a.0 * b.1 == b.0 * a.1
    } else {
        a == b
    }
}

proof fn lemma_gcd_bounds(a: nat, b: nat)
    requires
        b > 0,
    ensures
        0 < gcd(a, b) <= b,
    decreases b,
{
    let r = a % b;
    if r == 0 {
        assert(gcd(b, 0) == b);
    } else {
        lemma_gcd_bounds(b, r);
    }
}

proof fn lemma_mul_bound(x: int, y: int)
    requires
        abs(x) <= LIMIT,
        abs(y) <= LIMIT,
    ensures
        -(LIMIT * LIMIT) <= x * y <= LIMIT * LIMIT,
{
    let l = LIMIT as int;
    assert(-(l * l) <= x * y <= l * l) by (nonlinear_arith)
        requires
            -l <= x <= l,
            -l <= y <= l,
            0 <= l,
    ;
}

proof fn lemma_mul_pos(x: int, y: int)
    requires
        x > 0,
        y > 0,
    ensures
        x * y > 0,
{
    assert(x * y > 0) by (nonlinear_arith)
        requires
            x > 0,
            y > 0,
    ;
}

fn gcd_u128(a: u128, b: u128) -> (r: u128)
    ensures
        r == gcd(a as nat, b as nat),
{
    let mut x: u128 = a;
    let mut y: u128 = b;
    while y != 0
        invariant
            gcd(x as nat, y as nat) == gcd(a as nat, b as nat),
        decreases y,
    {
        let t = x % y;
        x = y;
        y = t;
    }
    x
}

/// A number of the language.
#[derive(Clone, Copy, Debug)]
pub struct Number {
    num: i64,
    den: i64,
}

impl View for Number {
    type V = (int, int);

    /// The pair (numerator, denominator).
    closed spec fn view(&self) -> (int, int) {
        (self.num as int, self.den as int)
    }
}

/// The number whose parts are the pair `v`, for a pair that is `valid`.
pub closed spec fn number_of(v: (int, int)) -> Number {
    Number { num: v.0 as i64, den: v.1 as i64 }
}

pub broadcast proof fn lemma_view_number_of(n: Number)
    ensures
        #[trigger] number_of(n@) == n,
{
}

pub broadcast proof fn lemma_number_of_view(v: (int, int))
    requires
        valid(v),
    ensures
        #[trigger] number_of(v)@ == v,
{
}

proof fn lemma_shrink(m: nat, q: nat)
    ensures
        shrink(m, q).0 <= LIMIT,
        shrink(m, q).1 <= LIMIT,
    decreases m + q,
{
    if !(m <= LIMIT && q <= LIMIT) {
        lemma_shrink(m / 2, q / 2);
    }
}

impl Number {
    #[verifier::type_invariant]
    spec fn wf(self) -> bool {
        valid((self.num as int, self.den as int))
    }

    /// The number `round(n, d)`.
    fn reduce(n: i128, d: i128) -> (r: Number)
        requires
            d > 0,
            n > i128::MIN,
        ensures
            r@ == round(n as int, d as int),
    {
        let mu: u128 = if n < 0 { (-n) as u128 } else { n as u128 };
        let du: u128 = d as u128;
        proof {
            lemma_gcd_bounds(mu as nat, du as nat);
        }
        let g = gcd_u128(mu, du);
        let mut m = mu / g;
        let mut q = du / g;
        let ghost start = (m as nat, q as nat);
        while m > LIMIT as u128 || q > LIMIT as u128
            invariant
                shrink(m as nat, q as nat) == shrink(start.0, start.1),
            decreases m + q,
        {
            m = m / 2;
            q = q / 2;
        }
        if q == 0 {
            Number { num: if n < 0 { -1 } else { 1 }, den: 0 }
        } else if m == 0 {
            Number { num: 0, den: 1 }
        } else {
            Number { num: if n < 0 { -(m as i64) } else { m as i64 }, den: q as i64 }
        }
    }

    /// The fraction `numerator / denominator` in the number range, or `None`
    /// when the denominator is zero or a part is `i64::MIN`.
    pub fn new(numerator: i64, denominator: i64) -> (r: Option<Number>)
        ensures
            r matches Some(x) ==> x@ == (if denominator < 0 {
                round(-numerator, -denominator)
            } else {
                round(numerator as int, denominator as int)
            }),
            r is None <==> (denominator == 0 || numerator == i64::MIN || denominator == i64::MIN),
    {
        if denominator == 0 || numerator == i64::MIN || denominator == i64::MIN {
            None
        } else if denominator < 0 {
            Some(Number::reduce(-(numerator as i128), -(denominator as i128)))
        } else {
            Some(Number::reduce(numerator as i128, denominator as i128))
        }
    }

    /// The whole number `n`.
    pub fn from_integer(n: i64) -> (r: Number)
        requires
            n != i64::MIN,
        ensures
            r@ == (n as int, 1int),
    {
        Number { num: n, den: 1 }
    }

    pub fn numerator(&self) -> (r: i64)
        ensures
            r == self@.0,
            valid(self@),
    {
        proof {
            use_type_invariant(self);
        }
        self.num
    }

    pub fn denominator(&self) -> (r: i64)
        ensures
            r == self@.1,
            valid(self@),
    {
        proof {
            use_type_invariant(self);
        }
        self.den
    }

    pub fn add(&self, other: &Number) -> (r: Number)
        ensures
            r@ == num_add(self@, other@),
    {
        proof {
            use_type_invariant(self);
            use_type_invariant(other);
        }
        if self.den == 0 && self.num == 0 || other.den == 0 && other.num == 0 {
            Number { num: 0, den: 0 }
        } else if self.den == 0 && other.den == 0 {
            if self.num == other.num {
                *self
            } else {
                Number { num: 0, den: 0 }
            }
        } else if self.den == 0 {
            *self
        } else if other.den == 0 {
            *other
        } else {
            proof {
                lemma_mul_bound(self.num as int, other.den as int);
                lemma_mul_bound(other.num as int, self.den as int);
                lemma_mul_bound(self.den as int, other.den as int);
                lemma_mul_pos(self.den as int, other.den as int);
            }
            let n = (self.num as i128) * (other.den as i128) + (other.num as i128) * (
            self.den as i128);
            let d = (self.den as i128) * (other.den as i128);
            Number::reduce(n, d)
        }
    }

    pub fn neg(&self) -> (r: Number)
        ensures
            r@ == num_neg(self@),
    {
        proof {
            use_type_invariant(self);
        }
        Number { num: -self.num, den: self.den }
    }

    pub fn sub(&self, other: &Number) -> (r: Number)
        ensures
            r@ == num_sub(self@, other@),
    {
        self.add(&other.neg())
    }

    pub fn mul(&self, other: &Number) -> (r: Number)
        ensures
            r@ == num_mul(self@, other@),
    {
        proof {
            use_type_invariant(self);
            use_type_invariant(other);
        }
        if self.den == 0 && self.num == 0 || other.den == 0 && other.num == 0 {
            Number { num: 0, den: 0 }
        } else if self.den == 0 || other.den == 0 {
            if self.num == 0 || other.num == 0 {
                Number { num: 0, den: 0 }
            } else {
                let s: i64 = if (self.num < 0) == (other.num < 0) { 1 } else { -1 };
                proof {
                    let x = sign(self.num as int);
                    let y = sign(other.num as int);
                    if x == 1 && y == 1 {
                        assert(x * y == 1);
                    } else if x == 1 {
                        assert(x * y == -1);
                    } else if y == 1 {
                        assert(x * y == -1);
                    } else {
                        assert(x == -1 && y == -1);
                        assert(x * y == 1) by (nonlinear_arith)
                            requires
                                x == -1,
                                y == -1,
                        ;
                    }
                }
                Number { num: s, den: 0 }
            }
        } else {
            proof {
                lemma_mul_bound(self.num as int, other.num as int);
                lemma_mul_bound(self.den as int, other.den as int);
                lemma_mul_pos(self.den as int, other.den as int);
            }
            let n = (self.num as i128) * (other.num as i128);
            let d = (self.den as i128) * (other.den as i128);
            Number::reduce(n, d)
        }
    }

    pub fn div(&self, other: &Number) -> (r: Number)
        ensures
            r@ == num_div(self@, other@),
    {
        proof {
            use_type_invariant(self);
            use_type_invariant(other);
        }
        if self.den == 0 && self.num == 0 || other.den == 0 && other.num == 0 {
            Number { num: 0, den: 0 }
        } else if self.den == 0 {
            if other.den == 0 {
                Number { num: 0, den: 0 }
            } else {
                Number { num: if other.num < 0 { -self.num } else { self.num }, den: 0 }
            }
        } else if other.den == 0 {
            Number { num: 0, den: 1 }
        } else if other.num == 0 {
            if self.num == 0 {
                Number { num: 0, den: 0 }
            } else {
                Number { num: if self.num < 0 { -1 } else { 1 }, den: 0 }
            }
        } else {
            proof {
                lemma_mul_bound(self.num as int, other.den as int);
                lemma_mul_bound(self.den as int, other.num as int);
                lemma_mul_bound(self.den as int, -other.num);
                if other.num < 0 {
                    lemma_mul_pos(self.den as int, -other.num);
                } else {
                    lemma_mul_pos(self.den as int, other.num as int);
                }
            }
            if other.num < 0 {
                let n = -((self.num as i128) * (other.den as i128));
                let d = (self.den as i128) * (-(other.num as i128));
                Number::reduce(n, d)
            } else {
                let n = (self.num as i128) * (other.den as i128);
                let d = (self.den as i128) * (other.num as i128);
                Number::reduce(n, d)
            }
        }
    }

    pub fn less_than(&self, other: &Number) -> (r: bool)
        ensures
            r == num_lt(self@, other@),
    {
        proof {
            use_type_invariant(self);
            use_type_invariant(other);
        }
        if self.den == 0 && self.num == 0 || other.den == 0 && other.num == 0 {
            false
        } else if self.den != 0 && other.den != 0 {
            proof {
                lemma_mul_bound(self.num as int, other.den as int);
                lemma_mul_bound(other.num as int, self.den as int);
            }
            (self.num as i128) * (other.den as i128) < (other.num as i128) * (self.den as i128)
        } else {
            (self.den == 0 && self.num == -1 && !(other.den == 0 && other.num == -1)) || (other.den
                == 0 && other.num == 1 && !(self.den == 0 && self.num == 1))
        }
    }

    pub fn less_equal(&self, other: &Number) -> (r: bool)
        ensures
            r == num_le(self@, other@),
    {
        proof {
            use_type_invariant(self);
            use_type_invariant(other);
        }
        if self.den == 0 && self.num == 0 || other.den == 0 && other.num == 0 {
            false
        } else {
            !other.less_than(self)
        }
    }

    pub fn num_equals(&self, other: &Number) -> (r: bool)
        ensures
            r == num_eq(self@, other@),
    {
        proof {
            use_type_invariant(self);
            use_type_invariant(other);
        }
        if self.den == 0 && self.num == 0 || other.den == 0 && other.num == 0 {
            false
        } else if self.den != 0 && other.den != 0 {
            proof {
                lemma_mul_bound(self.num as int, other.den as int);
                lemma_mul_bound(other.num as int, self.den as int);
            }
            (self.num as i128) * (other.den as i128) == (other.num as i128) * (self.den as i128)
        } else {
            self.num == other.num && self.den == other.den
        }
    }
}

} // verus!
