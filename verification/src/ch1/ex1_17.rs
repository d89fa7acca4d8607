//! Multiplication by doubling and halving, with an accumulator.

use vstd::prelude::*;

verus! {

/// `x` times `n`, by repeated doubling.
pub fn mul(x: i64, n: i64) -> (r: i64)
    requires
        0 <= x,
        0 <= n,
        x * n <= i64::MAX,
    ensures
        r == x * n,
{
    proof {
        assert(0 + x * n == x * n);
    }
    mul_rec(0, x, n)
}

/// The accumulator-carrying recursion. For a positive count and a
/// non-zero multiplicand it returns `a + x * n`; the two degenerate
/// entries answer zero.
pub fn mul_rec(a: i64, x: i64, n: i64) -> (r: i64)
    requires
        0 <= a,
        0 <= x,
        0 <= n,
        a + x * n <= i64::MAX,
    ensures
        r == if n == 0 || x == 0 {
            0
        } else {
            a + x * n
        },
    decreases n,
{
    if n == 0 || x == 0 {
        return 0;
    }

    if n == 1 {
        proof {
            assert(x * 1 == x) by (nonlinear_arith);
        }
        return a + x;
    }

    proof {
        assert(x * n >= 0 && (n >= 2 ==> x + x <= x * n)) by (nonlinear_arith)
            requires
                0 <= x,
                0 <= n,
        ;
    }
    if crate::arith::is_even(n) {
        proof {
            assert((x + x) * (n / 2) == x * n) by (nonlinear_arith)
                requires
                    n % 2 == 0,
                    n >= 0,
            ;
        }
        return mul_rec(a, x + x, n / 2);
    }

    proof {
        assert(x * (n - 1) == x * n - x) by (nonlinear_arith);
        assert(x * (n - 1) >= 0) by (nonlinear_arith)
            requires
                0 <= x,
                1 <= n,
        ;
    }
    mul_rec(a + x, x, n - 1)
}

} // verus!
