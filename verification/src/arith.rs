//! Small arithmetic helpers shared by the exercise modules.

use vstd::prelude::*;

verus! {

/// Mathematical exponentiation, the reference model for the fast
/// exponentiation routines.
pub open spec fn spec_pow(b: int, n: nat) -> int
    decreases n,
{
    if n == 0 {
        1
    } else {
        b * spec_pow(b, (n - 1) as nat)
    }
}

/// A power of a positive base is positive.
pub proof fn lemma_pow_pos(b: int, n: nat)
    requires
        1 <= b,
    ensures
        1 <= spec_pow(b, n),
    decreases n,
{
    if n > 0 {
        lemma_pow_pos(b, (n - 1) as nat);
        assert(b * spec_pow(b, (n - 1) as nat) >= 1) by (nonlinear_arith)
            requires
                1 <= b,
                1 <= spec_pow(b, (n - 1) as nat),
        ;
    }
}

/// A power of a nonnegative base is nonnegative.
pub proof fn lemma_pow_nonneg(b: int, n: nat)
    requires
        0 <= b,
    ensures
        0 <= spec_pow(b, n),
    decreases n,
{
    if n > 0 {
        lemma_pow_nonneg(b, (n - 1) as nat);
        assert(b * spec_pow(b, (n - 1) as nat) >= 0) by (nonlinear_arith)
            requires
                0 <= b,
                0 <= spec_pow(b, (n - 1) as nat),
        ;
    }
}

/// Exponents add: b^(m+n) == b^m * b^n.
pub proof fn lemma_pow_adds(b: int, m: nat, n: nat)
    ensures
        spec_pow(b, m + n) == spec_pow(b, m) * spec_pow(b, n),
    decreases m,
{
    if m == 0 {
    } else {
        lemma_pow_adds(b, (m - 1) as nat, n);
        assert(b * spec_pow(b, (m + n - 1) as nat) == (b * spec_pow(b, (m - 1) as nat))
            * spec_pow(b, n)) by (nonlinear_arith)
            requires
                spec_pow(b, (m + n - 1) as nat) == spec_pow(b, (m - 1) as nat) * spec_pow(b, n),
        ;
    }
}

/// Squaring the base halves the exponent: (b*b)^k == b^(2k).
pub proof fn lemma_pow_sq(b: int, k: nat)
    ensures
        spec_pow(b * b, k) == spec_pow(b, 2 * k),
    decreases k,
{
    if k > 0 {
        lemma_pow_sq(b, (k - 1) as nat);
        lemma_pow_adds(b, 2, (2 * k - 2) as nat);
        assert(spec_pow(b, 1) == b * spec_pow(b, 0));
        assert(spec_pow(b, 2) == b * spec_pow(b, 1));
        assert(b * (b * 1) == b * b) by (nonlinear_arith);
        assert((b * b) * spec_pow(b * b, (k - 1) as nat) == spec_pow(b, 2) * spec_pow(
            b,
            (2 * k - 2) as nat,
        )) by (nonlinear_arith)
            requires
                spec_pow(b * b, (k - 1) as nat) == spec_pow(b, (2 * k - 2) as nat),
                spec_pow(b, 2) == b * b,
        ;
    }
}

/// For a base of at least one, powers grow with the exponent.
pub proof fn lemma_pow_increases(b: int, m: nat, n: nat)
    requires
        1 <= b,
        m <= n,
    ensures
        spec_pow(b, m) <= spec_pow(b, n),
{
    lemma_pow_adds(b, m, (n - m) as nat);
    lemma_pow_pos(b, m);
    lemma_pow_pos(b, (n - m) as nat);
    assert(spec_pow(b, m) * 1 <= spec_pow(b, m) * spec_pow(b, (n - m) as nat))
        by (nonlinear_arith)
        requires
            1 <= spec_pow(b, m),
            1 <= spec_pow(b, (n - m) as nat),
    ;
}

pub fn square(a: i64) -> (r: i64)
    requires
        -0x8000_0000 <= a <= 0x8000_0000,
    ensures
        r == a * a,
{
    proof {
        assert(a * a <= 0x8000_0000 * 0x8000_0000 && a * a >= 0) by (nonlinear_arith)
            requires
                -0x8000_0000 <= a <= 0x8000_0000,
        ;
    }
    a * a
}

pub fn cube(x: i64) -> (r: i64)
    requires
        -0x10_0000 <= x <= 0x10_0000,
    ensures
        r == x * x * x,
{
    proof {
        assert(0 <= x * x <= 0x10_0000 * 0x10_0000) by (nonlinear_arith)
            requires
                -0x10_0000 <= x <= 0x10_0000,
        ;
        assert(-0x10_0000 * (0x10_0000 * 0x10_0000) <= (x * x) * x <= 0x10_0000 * (0x10_0000
            * 0x10_0000)) by (nonlinear_arith)
            requires
                -0x10_0000 <= x <= 0x10_0000,
                0 <= x * x <= 0x10_0000 * 0x10_0000,
        ;
    }
    x * x * x
}

pub fn power(x: i64, n: u32) -> (r: i64)
    requires
        0 <= x,
        spec_pow(x as int, n as nat) <= i64::MAX,
    ensures
        r == spec_pow(x as int, n as nat),
{
    let mut res: i64 = x;
    if n == 0 {
        return 1;
    }

    proof {
        assert(spec_pow(x as int, 1) == x * spec_pow(x as int, 0));
    }

    let mut m: u32 = n;
    while m > 1
        invariant
            1 <= m <= n,
            0 <= x,
            spec_pow(x as int, n as nat) <= i64::MAX,
            res == spec_pow(x as int, (n + 1 - m) as nat),
        decreases m,
    {
        proof {
            let k = (n + 1 - m) as nat;
            lemma_pow_nonneg(x as int, k);
            assert(spec_pow(x as int, (k + 1) as nat) == spec_pow(x as int, k) * x) by {
                lemma_pow_adds(x as int, k, 1);
                assert(spec_pow(x as int, 1) == x * spec_pow(x as int, 0));
            }
            lemma_pow_nonneg(x as int, (k + 1) as nat);
            if x >= 1 {
                lemma_pow_increases(x as int, (k + 1) as nat, n as nat);
            } else {
                assert(x == 0);
                assert(spec_pow(0, (k + 1) as nat) == 0);
            }
        }
        res = res * x;
        m = m - 1;
    }
    res
}

pub fn abs(x: i64) -> (r: i64)
    requires
        x != i64::MIN,
    ensures
        r == if x >= 0 { x as int } else { -(x as int) },
{
    if x > 0 {
        return x;
    }
    -x
}

pub fn is_even(n: i64) -> (r: bool)
    requires
        n >= 0,
    ensures
        r == (n % 2 == 0),
{
    proof {
        assert((n & 1) == n % 2) by (bit_vector)
            requires
                n >= 0,
        ;
    }
    n & 1 != 1
}

pub fn average(a: i64, b: i64) -> (r: i64)
    requires
        0 <= a + b <= i64::MAX,
    ensures
        r == (a + b) / 2,
{
    (a + b) / 2
}

/// The greatest common divisor, as a specification: Euclid's recursion on
/// nonnegative arguments.
pub open spec fn spec_gcd(a: nat, b: nat) -> nat
    decreases b,
{
    if b == 0 {
        a
    } else {
        spec_gcd(b, a % b)
    }
}

pub fn gcd(a: i64, b: i64) -> (r: i64)
    requires
        a >= 0,
        b >= 0,
    ensures
        if a >= b {
            r == spec_gcd(a as nat, b as nat)
        } else {
            r == spec_gcd(b as nat, a as nat)
        },
{
    let mut x = a;
    let mut y = b;
    if x < y {
        let t = x;
        x = y;
        y = t;
    }
    while y != 0
        invariant
            0 <= y,
            0 <= x,
            spec_gcd(x as nat, y as nat) == if a >= b {
                spec_gcd(a as nat, b as nat)
            } else {
                spec_gcd(b as nat, a as nat)
            },
        decreases y,
    {
        let t = y;
        y = x % y;
        x = t;
    }
    x
}

pub fn min(a: i64, b: i64) -> (r: i64)
    ensures
        r == if a > b { b as int } else { a as int },
{
    if a > b {
        return b;
    }
    a
}

pub fn max(a: i64, b: i64) -> (r: i64)
    ensures
        r == if a > b { a as int } else { b as int },
{
    if a > b {
        return a;
    }
    b
}

} // verus!
