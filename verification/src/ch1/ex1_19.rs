//! Doubling-and-halving multiplication and exponentiation over the
//! bits of the second operand, and Fibonacci numbers in logarithmic
//! time through the pair transformation.

use vstd::prelude::*;

use crate::arith::spec_pow;
use crate::arith::lemma_pow_adds;
use crate::arith::lemma_pow_nonneg;
use crate::arith::lemma_pow_increases;

verus! {

/// `a * b` by shifting: add `a` wherever `b` has a one bit.
pub fn russian_peasant_mul(a: i64, b: i64) -> (r: i64)
    requires
        0 <= a,
        0 <= b,
        a * b <= i64::MAX,
    ensures
        r == a * b,
{
    let mut ua: u64 = a as u64;
    let mut ub: u64 = b as u64;
    let mut mul: u64 = 0;
    proof {
        assert(a * b >= 0) by (nonlinear_arith)
            requires
                0 <= a,
                0 <= b,
        ;
    }
    loop
        invariant
            mul + ua * ub == a * b,
            0 <= a * b <= i64::MAX,
            mul <= a * b,
        decreases ub,
    {
        if ub == 0 {
            proof {
                assert(ua * 0 == 0) by (nonlinear_arith);
            }
            return mul as i64;
        }

        proof {
            assert(ub & 1 == ub % 2) by (bit_vector);
            assert(ub >> 1u64 == ub / 2) by (bit_vector);
            assert(ua * ub == 2 * ua * (ub / 2) + ua * (ub % 2)) by (nonlinear_arith)
                requires
                    ub >= 1,
            ;
            assert(ua * (ub % 2) <= ua * ub) by (nonlinear_arith)
                requires
                    ub >= 1,
            ;
            assert(2 * ua * (ub / 2) <= ua * ub) by (nonlinear_arith)
                requires
                    ub >= 1,
            ;
            assert(ua <= ua * ub) by (nonlinear_arith)
                requires
                    ub >= 1,
            ;
            assert(ua << 1u64 == ua * 2) by (bit_vector)
                requires
                    ua <= 0x7fff_ffff_ffff_ffff,
            ;
        }
        mul = mul + ua * (ub & 1);
        ua = ua << 1u64;
        ub = ub >> 1u64;
    }
}

/// `a` to the power `b` by shifting: square for every bit of `b`,
/// multiply in the square wherever `b` has a one bit.
pub fn russian_peasant_exp(a: i64, b: i64) -> (r: i64)
    requires
        0 <= a,
        0 <= b,
        spec_pow(a as int, b as nat) * spec_pow(a as int, b as nat) <= i64::MAX,
    ensures
        r == spec_pow(a as int, b as nat),
{
    let mut ua: u64 = a as u64;
    let mut ub: u64 = b as u64;
    let mut exp: u64 = 1;
    let ghost target: int = spec_pow(a as int, b as nat);
    proof {
        lemma_pow_nonneg(a as int, b as nat);
        assert(1 * spec_pow(a as int, b as nat) == spec_pow(a as int, b as nat));
        if target > i64::MAX {
            assert(target <= target * target) by (nonlinear_arith)
                requires
                    1 <= target,
            ;
        }
    }
    loop
        invariant
            0 <= a,
            0 <= b,
            target == spec_pow(a as int, b as nat),
            exp * spec_pow(ua as int, ub as nat) == target,
            0 <= target <= i64::MAX,
            target * target <= i64::MAX,
            a == 0 ==> ua == 0 && exp <= 1,
            a >= 1 ==> 1 <= exp && 1 <= ua,
        decreases ub,
    {
        if ub == 0 {
            proof {
                assert(exp * spec_pow(ua as int, 0) == exp) by (nonlinear_arith)
                    requires
                        spec_pow(ua as int, 0) == 1,
                ;
            }
            return exp as i64;
        }

        proof {
            assert(ub & 1 == ub % 2) by (bit_vector);
            assert(ub >> 1u64 == ub / 2) by (bit_vector);
            lemma_pow_nonneg(ua as int, ub as nat);
            lemma_pow_nonneg(ua as int, (ub - 1) as nat);
            if a == 0 {
                assert(ua == 0);
                assert(spec_pow(0, ub as nat) == 0);
                assert(exp * 0 == 0) by (nonlinear_arith);
            } else {
                lemma_pow_increases(ua as int, 1, ub as nat);
                assert(spec_pow(ua as int, 1) == ua as int * spec_pow(ua as int, 0));
                assert(exp * ua as int <= exp * spec_pow(ua as int, ub as nat) && ua as int <= 1
                    * spec_pow(ua as int, ub as nat) && 1 * spec_pow(ua as int, ub as nat) <= exp
                    * spec_pow(ua as int, ub as nat)) by (nonlinear_arith)
                    requires
                        1 <= exp,
                        1 <= ua as int <= spec_pow(ua as int, ub as nat),
                        0 <= spec_pow(ua as int, ub as nat),
                ;
                assert(ua as int * ua as int <= target * target) by (nonlinear_arith)
                    requires
                        0 <= ua as int <= target,
                ;
            }
        }
        let ghost exp0: int = exp as int;
        if (ub & 1) > 0 {
            proof {
                lemma_pow_adds(ua as int, 1, (ub - 1) as nat);
                assert(spec_pow(ua as int, 1) == ua as int * spec_pow(ua as int, 0));
                assert((exp * ua) as int * spec_pow(ua as int, (ub - 1) as nat) == exp as int * (
                ua as int * spec_pow(ua as int, (ub - 1) as nat))) by (nonlinear_arith)
                    requires
                        (exp * ua) as int == exp as int * ua as int,
                ;
                if a >= 1 {
                    assert(exp as int * ua as int >= 1) by (nonlinear_arith)
                        requires
                            1 <= exp,
                            1 <= ua,
                    ;
                }
            }
            exp = exp * ua;
        } else {
            proof {
                lemma_pow_adds(ua as int, 1, (ub - 1) as nat);
                assert(spec_pow(ua as int, 1) == ua as int * spec_pow(ua as int, 0));
            }
        }
        proof {
            // after the conditional update the exponent left to apply is even
            assert(exp * spec_pow(ua as int, (ub - (ub % 2)) as nat) == target) by {
                if ub % 2 == 1 {
                    assert(spec_pow(ua as int, ub as nat) == ua as int * spec_pow(
                        ua as int,
                        (ub - 1) as nat,
                    ));
                    assert(exp0 * (ua as int * spec_pow(ua as int, (ub - 1) as nat)) == (exp0
                        * ua as int) * spec_pow(ua as int, (ub - 1) as nat)) by (nonlinear_arith);
                }
            }
            crate::arith::lemma_pow_sq(ua as int, (ub / 2) as nat);
            assert(2 * ((ub / 2) as nat) == (ub - (ub % 2)) as nat);
            if a == 0 {
                assert((ua * ua) as int == 0) by (nonlinear_arith)
                    requires
                        ua == 0,
                ;
            } else {
                assert(1 <= ua as int * ua as int) by (nonlinear_arith)
                    requires
                        1 <= ua as int,
                ;
            }
        }
        ua = ua * ua;
        ub = ub >> 1u64;
    }
}

/// The Fibonacci numbers.
pub open spec fn spec_fib(n: nat) -> nat
    decreases n,
{
    if n == 0 {
        0
    } else if n == 1 {
        1
    } else {
        spec_fib((n - 1) as nat) + spec_fib((n - 2) as nat)
    }
}

/// Fibonacci numbers never decrease.
pub proof fn lemma_fib_mono(m: nat, n: nat)
    requires
        m <= n,
    ensures
        spec_fib(m) <= spec_fib(n),
    decreases n - m,
{
    if m < n {
        if n >= 2 {
            lemma_fib_mono(m, (n - 1) as nat);
        } else {
            assert(n == 1 && m == 0);
        }
    }
}

/// The addition formula: `F(m+n) = F(m) F(n+1) + F(m-1) F(n)` for
/// `m` at least one.
pub proof fn lemma_fib_add(m: nat, n: nat)
    requires
        m >= 1,
    ensures
        spec_fib(m + n) == spec_fib(m) * spec_fib(n + 1) + spec_fib((m - 1) as nat) * spec_fib(n),
    decreases n,
{
    let fm = spec_fib(m);
    let fm1 = spec_fib((m - 1) as nat);
    if n == 0 {
        assert(spec_fib(1) == 1);
        assert(fm * 1 + fm1 * 0 == fm) by (nonlinear_arith);
    } else if n == 1 {
        assert(spec_fib(2) == spec_fib(1) + spec_fib(0));
        assert(spec_fib(m + 1) == fm + fm1);
        assert(fm * spec_fib(2) + fm1 * spec_fib(1) == fm + fm1) by (nonlinear_arith)
            requires
                spec_fib(2) == 1,
                spec_fib(1) == 1,
        ;
    } else {
        lemma_fib_add(m, (n - 1) as nat);
        lemma_fib_add(m, (n - 2) as nat);
        assert(spec_fib(m + n) == spec_fib((m + n - 1) as nat) + spec_fib((m + n - 2) as nat));
        assert(spec_fib(n + 1) == spec_fib(n) + spec_fib((n - 1) as nat));
        assert(fm * spec_fib(n) + fm1 * spec_fib((n - 1) as nat) + (fm * spec_fib((n - 1) as nat)
            + fm1 * spec_fib((n - 2) as nat)) == fm * (spec_fib(n) + spec_fib((n - 1) as nat))
            + fm1 * (spec_fib((n - 1) as nat) + spec_fib((n - 2) as nat))) by (nonlinear_arith);
        assert(spec_fib(n) + spec_fib((n - 1) as nat) == spec_fib(n + 1));
        assert(spec_fib((n - 1) as nat) + spec_fib((n - 2) as nat) == spec_fib(n));
    }
}

/// The `n`-th Fibonacci number, in logarithmically many steps.
pub fn fib(n: i64) -> (r: i64)
    requires
        0 <= n,
        spec_fib((n + 1) as nat) <= i64::MAX,
    ensures
        r == spec_fib(n as nat),
{
    proof {
        assert(spec_fib(0) == 0 && spec_fib(1) == 1);
        assert(0 + n * 1 == n) by (nonlinear_arith);
        lemma_fib_mono(n as nat, (n + 1) as nat);
    }
    fib_iter(1, 0, 0, 1, n, Ghost(0), Ghost(1))
}

/// The pair-transformation engine behind `fib`: starting from the pair
/// `(F(r+1), F(r))` and the transform `(F(k-1), F(k))`, applying the
/// transform `n` times lands on `F(r + n k)`.
pub fn fib_iter(a: i64, b: i64, p: i64, q: i64, n: i64, Ghost(r): Ghost<nat>, Ghost(k): Ghost<
    nat,
>) -> (res: i64)
    requires
        k >= 1,
        0 <= n,
        a == spec_fib((r + 1) as nat),
        b == spec_fib(r),
        p == spec_fib((k - 1) as nat),
        q == spec_fib(k),
        spec_fib((r + n * k + 1) as nat) <= i64::MAX,
    ensures
        res == spec_fib((r + n * k) as nat),
    decreases n,
{
    if n == 0 {
        proof {
            assert(r + 0 * k == r) by (nonlinear_arith);
        }
        return b;
    }

    proof {
        assert(n * k >= k && n * k >= 0) by (nonlinear_arith)
            requires
                n >= 1,
                k >= 1,
        ;
    }
    if crate::arith::is_even(n) {
        proof {
            lemma_fib_add(k, (k - 1) as nat);
            lemma_fib_add(k, k);
            assert(spec_fib(k + 1) == spec_fib(k) + spec_fib((k - 1) as nat));
            // F(2k-1) = q*q + p*p and F(2k) = q*(q + p) + p*q = q*q + 2*p*q
            assert(spec_fib((2 * k - 1) as nat) == q * q + p * p) by (nonlinear_arith)
                requires
                    spec_fib((k + (k - 1)) as nat) == spec_fib(k) * spec_fib(((k - 1) + 1) as nat)
                        + spec_fib((k - 1) as nat) * spec_fib((k - 1) as nat),
                    q == spec_fib(k),
                    p == spec_fib((k - 1) as nat),
                    k >= 1,
            ;
            assert(spec_fib((2 * k) as nat) == q * q + 2 * p * q) by (nonlinear_arith)
                requires
                    spec_fib((k + k) as nat) == spec_fib(k) * spec_fib(k + 1) + spec_fib(
                        (k - 1) as nat,
                    ) * spec_fib(k),
                    spec_fib(k + 1) == spec_fib(k) + spec_fib((k - 1) as nat),
                    q == spec_fib(k),
                    p == spec_fib((k - 1) as nat),
                    k >= 1,
            ;
            // every piece is bounded by the target Fibonacci number
            assert(2 * k <= r + n * k + 1) by (nonlinear_arith)
                requires
                    n >= 2,
                    k >= 1,
                    r >= 0,
            ;
            lemma_fib_mono((2 * k - 1) as nat, (r + n * k + 1) as nat);
            lemma_fib_mono((2 * k) as nat, (r + n * k + 1) as nat);
            assert(0 <= p * p && 0 <= q * q && 0 <= p * q) by (nonlinear_arith)
                requires
                    0 <= p,
                    0 <= q,
            ;
            lemma_fib_mono(1, k);
            assert(2 * p <= 2 * p * q) by (nonlinear_arith)
                requires
                    0 <= p,
                    1 <= q,
            ;
            assert((n / 2) * (2 * k) == n * k) by (nonlinear_arith)
                requires
                    n % 2 == 0,
                    n >= 0,
            ;
        }
        let p2 = p * p + q * q;
        let q2 = q * q + 2 * p * q;
        return fib_iter(a, b, p2, q2, n / 2, Ghost(r), Ghost(2 * k));
    }

    proof {
        lemma_fib_add(k, r);
        lemma_fib_add(k, (r + 1) as nat);
        assert(spec_fib(k + 1) == spec_fib(k) + spec_fib((k - 1) as nat));
        assert(spec_fib((r + 2) as nat) == spec_fib((r + 1) as nat) + spec_fib(r));
        // F(r+k) = q*a + p*b
        assert(spec_fib((r + k) as nat) == q * a + p * b) by (nonlinear_arith)
            requires
                spec_fib((k + r) as nat) == spec_fib(k) * spec_fib((r + 1) as nat) + spec_fib(
                    (k - 1) as nat,
                ) * spec_fib(r),
                q == spec_fib(k),
                p == spec_fib((k - 1) as nat),
                a == spec_fib((r + 1) as nat),
                b == spec_fib(r),
        ;
        // F(r+k+1) = (p+q)*a + q*b
        assert(spec_fib((r + k + 1) as nat) == (p + q) * a + q * b) by (nonlinear_arith)
            requires
                spec_fib((k + (r + 1)) as nat) == spec_fib(k) * spec_fib(((r + 1) + 1) as nat) + spec_fib(
                    (k - 1) as nat,
                ) * spec_fib((r + 1) as nat),
                spec_fib((r + 2) as nat) == spec_fib((r + 1) as nat) + spec_fib(r),
                q == spec_fib(k),
                p == spec_fib((k - 1) as nat),
                a == spec_fib((r + 1) as nat),
                b == spec_fib(r),
        ;
        lemma_fib_mono((r + k + 1) as nat, (r + n * k + 1) as nat);
        lemma_fib_mono((r + k) as nat, (r + n * k + 1) as nat);
        assert(0 <= q * a && 0 <= p * b && 0 <= (p + q) * a && 0 <= q * b) by (nonlinear_arith)
            requires
                0 <= p,
                0 <= q,
                0 <= a,
                0 <= b,
        ;
        assert((r + k) + (n - 1) * k == r + n * k) by (nonlinear_arith);
        assert(spec_fib((k + 1) as nat) == p + q);
        assert(k + 1 <= r + n * k + 1) by (nonlinear_arith)
            requires
                n >= 1,
                k >= 1,
                r >= 0,
        ;
        lemma_fib_mono((k + 1) as nat, (r + n * k + 1) as nat);
    }
    let a2 = (p + q) * a + q * b;
    let b2 = q * a + p * b;
    fib_iter(a2, b2, p, q, n - 1, Ghost(r + k), Ghost(k))
}

} // verus!
