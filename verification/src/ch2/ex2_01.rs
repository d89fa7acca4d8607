//! Rational numbers, kept in lowest terms with a positive
//! denominator.

use vstd::prelude::*;

use crate::arith::spec_gcd;

verus! {

/// A rational: a signed numerator over a positive denominator.
#[derive(Debug, Clone, Copy)]
pub struct Rat {
    pub numer: i64,
    pub denom: u64,
}

/// Magnitude of an integer.
pub open spec fn abs_i(x: int) -> int {
    if x >= 0 {
        x
    } else {
        -x
    }
}

/// The greatest common divisor of the magnitudes, larger first.
pub open spec fn gcd_pos(a: int, b: int) -> int {
    if abs_i(a) >= abs_i(b) {
        spec_gcd(abs_i(a) as nat, abs_i(b) as nat) as int
    } else {
        spec_gcd(abs_i(b) as nat, abs_i(a) as nat) as int
    }
}

/// The canonical reduced form of `num / den`: magnitudes divided by
/// their greatest common divisor, the sign carried by the numerator.
pub open spec fn spec_rat_new(num: int, den: int) -> (int, int) {
    let g = gcd_pos(num, den);
    let q = abs_i(num) / g;
    let d = abs_i(den) / g;
    if (num < 0) != (den < 0) {
        (-q, d)
    } else {
        (q, d)
    }
}

/// A positive pair has a divisor between one and the larger member.
pub proof fn lemma_gcd_bounds(a: nat, b: nat)
    requires
        b <= a,
        1 <= a,
    ensures
        1 <= spec_gcd(a, b) <= a,
    decreases b,
{
    if b == 0 {
    } else {
        vstd::arithmetic::div_mod::lemma_mod_bound(a as int, b as int);
        lemma_gcd_bounds(b, (a % b) as nat);
    }
}

/// The divisor splits both members exactly.
pub proof fn lemma_gcd_divides(a: nat, b: nat)
    requires
        b <= a,
        1 <= a,
    ensures
        a as int % spec_gcd(a, b) as int == 0,
        b as int % spec_gcd(a, b) as int == 0,
    decreases b,
{
    let g = spec_gcd(a, b) as int;
    if b == 0 {
        vstd::arithmetic::div_mod::lemma_mod_self_0(a as int);
        assert(b as int % g == 0);
    } else {
        vstd::arithmetic::div_mod::lemma_mod_bound(a as int, b as int);
        lemma_gcd_bounds(b, (a % b) as nat);
        lemma_gcd_divides(b, (a % b) as nat);
        vstd::arithmetic::div_mod::lemma_fundamental_div_mod(a as int, b as int);
        let q = a as int / b as int;
        let r = a as int % b as int;
        vstd::arithmetic::div_mod::lemma_fundamental_div_mod(b as int, g);
        vstd::arithmetic::div_mod::lemma_fundamental_div_mod(r, g);
        let qb = b as int / g;
        let qr = r / g;
        assert(a as int == g * (q * qb + qr)) by (nonlinear_arith)
            requires
                a as int == b as int * q + r,
                b as int == g * qb,
                r == g * qr,
        ;
        assert((q * qb + qr) * g == g * (q * qb + qr)) by (nonlinear_arith);
        vstd::arithmetic::div_mod::lemma_mod_multiples_basic(q * qb + qr, g);
    }
}

/// Reduction preserves the value: the canonical pair cross-multiplies
/// back to the pair it was reduced from. With the contract of
/// `Rat::new`, every constructed rational stands for the fraction it
/// was built from.
pub proof fn lemma_rat_new_value(num: int, den: int)
    requires
        den != 0,
    ensures
        ({
            let (n2, d2) = spec_rat_new(num, den);
            n2 * den == num * d2
        }),
{
    let g = gcd_pos(num, den);
    let a = abs_i(num);
    let d = abs_i(den);
    if a >= d {
        lemma_gcd_bounds(a as nat, d as nat);
        lemma_gcd_divides(a as nat, d as nat);
    } else {
        lemma_gcd_bounds(d as nat, a as nat);
        lemma_gcd_divides(d as nat, a as nat);
    }
    vstd::arithmetic::div_mod::lemma_fundamental_div_mod(a, g);
    vstd::arithmetic::div_mod::lemma_fundamental_div_mod(d, g);
    let qa = a / g;
    let qd = d / g;
    assert(qa * d == a * qd) by (nonlinear_arith)
        requires
            a == g * qa,
            d == g * qd,
    ;
    let (n2, d2) = spec_rat_new(num, den);
    assert(d2 == qd);
    if (num < 0) != (den < 0) {
        assert(n2 == -qa);
        if num < 0 {
            assert(n2 * den == num * d2) by (nonlinear_arith)
                requires
                    n2 == -qa,
                    den == d,
                    num == -a,
                    d2 == qd,
                    qa * d == a * qd,
            ;
        } else {
            assert(n2 * den == num * d2) by (nonlinear_arith)
                requires
                    n2 == -qa,
                    den == -d,
                    num == a,
                    d2 == qd,
                    qa * d == a * qd,
            ;
        }
    } else {
        assert(n2 == qa);
        if num < 0 {
            assert(n2 * den == num * d2) by (nonlinear_arith)
                requires
                    n2 == qa,
                    den == -d,
                    num == -a,
                    d2 == qd,
                    qa * d == a * qd,
            ;
        } else {
            assert(n2 * den == num * d2) by (nonlinear_arith)
                requires
                    n2 == qa,
                    den == d,
                    num == a,
                    d2 == qd,
                    qa * d == a * qd,
            ;
        }
    }
}

impl Rat {
    /// The reduced rational with the value `num / den`.
    pub fn new(num: i64, den: i64) -> (r: Rat)
        requires
            den != 0,
            num != i64::MIN,
            den != i64::MIN,
        ensures
            (r.numer as int, r.denom as int) == spec_rat_new(num as int, den as int),
            r.denom >= 1,
    {
        let a = if num < 0 {
            -num
        } else {
            num
        };
        let d = if den < 0 {
            -den
        } else {
            den
        };
        let g = crate::arith::gcd(a, d);
        proof {
            if a >= d {
                lemma_gcd_bounds(a as nat, d as nat);
            } else {
                lemma_gcd_bounds(d as nat, a as nat);
            }
            vstd::arithmetic::div_mod::lemma_div_pos_is_pos(a as int, g as int);
            vstd::arithmetic::div_mod::lemma_div_pos_is_pos(d as int, g as int);
            vstd::arithmetic::div_mod::lemma_div_is_ordered_by_denominator(d as int, 1, g as int);
            vstd::arithmetic::div_mod::lemma_div_is_ordered_by_denominator(a as int, 1, g as int);
            if a >= d {
                lemma_gcd_divides(a as nat, d as nat);
            } else {
                lemma_gcd_divides(d as nat, a as nat);
            }
            vstd::arithmetic::div_mod::lemma_fundamental_div_mod(d as int, g as int);
            assert(d as int / g as int >= 1) by (nonlinear_arith)
                requires
                    d as int == g as int * (d as int / g as int),
                    d >= 1,
                    g >= 1,
            ;
        }
        let q = a / g;
        let dq = d / g;
        let neg = (num < 0) != (den < 0);
        let numer = if neg {
            -q
        } else {
            q
        };
        Rat { numer, denom: dq as u64 }
    }

    /// The sum: cross-multiplied numerators over the product of the
    /// denominators, reduced.
    pub fn add(self, other: Rat) -> (r: Rat)
        requires
            1 <= self.denom <= 0x4000_0000,
            1 <= other.denom <= 0x4000_0000,
            -0x4000_0000 <= self.numer <= 0x4000_0000,
            -0x4000_0000 <= other.numer <= 0x4000_0000,
        ensures
            (r.numer as int, r.denom as int) == spec_rat_new(
                self.numer * other.denom + other.numer * self.denom,
                self.denom * other.denom,
            ),
    {
        proof {
            lemma_rat_products(self.numer as int, other.numer as int, self.denom as int, other.denom as int);
        }
        Rat::new(
            self.numer * (other.denom as i64) + other.numer * (self.denom as i64),
            (self.denom * other.denom) as i64,
        )
    }

    /// The difference, as the sum with the negated second operand.
    pub fn sub(self, other: Rat) -> (r: Rat)
        requires
            1 <= self.denom <= 0x4000_0000,
            1 <= other.denom <= 0x4000_0000,
            -0x4000_0000 <= self.numer <= 0x4000_0000,
            -0x4000_0000 <= other.numer <= 0x4000_0000,
        ensures
            (r.numer as int, r.denom as int) == spec_rat_new(
                self.numer * other.denom - other.numer * self.denom,
                self.denom * other.denom,
            ),
    {
        proof {
            lemma_rat_products(self.numer as int, other.numer as int, self.denom as int, other.denom as int);
        }
        Rat::new(
            self.numer * (other.denom as i64) - other.numer * (self.denom as i64),
            (self.denom * other.denom) as i64,
        )
    }

    /// The product of numerators over the product of denominators,
    /// reduced.
    pub fn mul(self, other: Rat) -> (r: Rat)
        requires
            1 <= self.denom <= 0x4000_0000,
            1 <= other.denom <= 0x4000_0000,
            -0x4000_0000 <= self.numer <= 0x4000_0000,
            -0x4000_0000 <= other.numer <= 0x4000_0000,
        ensures
            (r.numer as int, r.denom as int) == spec_rat_new(
                self.numer * other.numer,
                self.denom * other.denom,
            ),
    {
        proof {
            lemma_rat_products(self.numer as int, other.numer as int, self.denom as int, other.denom as int);
        }
        Rat::new(self.numer * other.numer, (self.denom * other.denom) as i64)
    }

    /// The quotient: multiplication by the flipped second operand.
    pub fn div(self, other: Rat) -> (r: Rat)
        requires
            1 <= self.denom <= 0x4000_0000,
            1 <= other.denom <= 0x4000_0000,
            -0x4000_0000 <= self.numer <= 0x4000_0000,
            -0x4000_0000 <= other.numer <= 0x4000_0000,
            other.numer != 0,
        ensures
            (r.numer as int, r.denom as int) == spec_rat_new(
                self.numer * other.denom,
                self.denom * other.numer,
            ),
    {
        proof {
            lemma_rat_products(self.numer as int, other.numer as int, self.denom as int, other.denom as int);
            assert((self.denom as int) * (other.numer as int) != 0) by (nonlinear_arith)
                requires
                    self.denom >= 1,
                    other.numer != 0,
            ;
        }
        Rat::new(self.numer * (other.denom as i64), (self.denom as i64) * other.numer)
    }

    /// Equality of values: cross products agree.
    pub fn eq(self, other: Rat) -> (r: bool)
        requires
            1 <= self.denom <= 0x4000_0000,
            1 <= other.denom <= 0x4000_0000,
            -0x4000_0000 <= self.numer <= 0x4000_0000,
            -0x4000_0000 <= other.numer <= 0x4000_0000,
        ensures
            r == (self.numer * other.denom == other.numer * self.denom),
    {
        proof {
            lemma_rat_products(self.numer as int, other.numer as int, self.denom as int, other.denom as int);
        }
        self.numer * (other.denom as i64) == other.numer * (self.denom as i64)
    }
}

/// Products of word-bounded parts stay inside the machine word.
proof fn lemma_rat_products(n1: int, n2: int, d1: int, d2: int)
    requires
        1 <= d1 <= 0x4000_0000,
        1 <= d2 <= 0x4000_0000,
        -0x4000_0000 <= n1 <= 0x4000_0000,
        -0x4000_0000 <= n2 <= 0x4000_0000,
    ensures
        -0x1000_0000_0000_0000 <= n1 * d2 <= 0x1000_0000_0000_0000,
        -0x1000_0000_0000_0000 <= n2 * d1 <= 0x1000_0000_0000_0000,
        -0x1000_0000_0000_0000 <= n1 * n2 <= 0x1000_0000_0000_0000,
        -0x1000_0000_0000_0000 <= d1 * n2 <= 0x1000_0000_0000_0000,
        1 <= d1 * d2 <= 0x1000_0000_0000_0000,
{
    assert(-0x1000_0000_0000_0000 <= n1 * d2 <= 0x1000_0000_0000_0000 && -0x1000_0000_0000_0000
        <= n2 * d1 <= 0x1000_0000_0000_0000 && -0x1000_0000_0000_0000 <= n1 * n2
        <= 0x1000_0000_0000_0000 && -0x1000_0000_0000_0000 <= d1 * n2 <= 0x1000_0000_0000_0000 && 1
        <= d1 * d2 <= 0x1000_0000_0000_0000) by (nonlinear_arith)
        requires
            1 <= d1 <= 0x4000_0000,
            1 <= d2 <= 0x4000_0000,
            -0x4000_0000 <= n1 <= 0x4000_0000,
            -0x4000_0000 <= n2 <= 0x4000_0000,
    ;
}

} // verus!
