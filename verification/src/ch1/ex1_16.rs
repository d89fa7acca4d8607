//! Fast exponentiation: logarithmically many squarings, carried by an
//! accumulator.

use vstd::prelude::*;

use crate::arith::spec_pow;
use crate::arith::lemma_pow_adds;
use crate::arith::lemma_pow_sq;
use crate::arith::lemma_pow_pos;
use crate::arith::lemma_pow_nonneg;
use crate::arith::lemma_pow_increases;

verus! {

/// `b` to the power `n` by repeated squaring.
pub fn exp(b: i64, n: i64) -> (r: i64)
    requires
        0 <= b,
        0 <= n,
        spec_pow(b as int, n as nat) <= i64::MAX,
    ensures
        r == spec_pow(b as int, n as nat),
{
    exp_rec(1, b, n)
}

/// The accumulator-carrying recursion: returns `a * b^n`.
pub fn exp_rec(a: i64, b: i64, n: i64) -> (r: i64)
    requires
        0 <= a,
        0 <= b,
        0 <= n,
        a == 0 ==> b == 0,
        a * spec_pow(b as int, n as nat) <= i64::MAX,
    ensures
        r == a * spec_pow(b as int, n as nat),
    decreases n,
{
    if n == 0 {
        proof {
            assert(a * spec_pow(b as int, 0) == a) by (nonlinear_arith)
                requires
                    spec_pow(b as int, 0) == 1,
            ;
        }
        return a;
    }

    proof {
        lemma_pow_nonneg(b as int, n as nat);
        lemma_pow_nonneg(b as int, (n - 1) as nat);
    }
    if crate::arith::is_even(n) {
        proof {
            lemma_pow_sq(b as int, (n / 2) as nat);
            assert(2 * ((n as int) / 2) == n as int);
            if b >= 1 {
                lemma_pow_increases(b as int, 2, n as nat);
                lemma_pow_adds(b as int, 1, 1);
                assert(spec_pow(b as int, 1) == b * spec_pow(b as int, 0));
                lemma_pow_pos(b as int, n as nat);
                assert(b * b <= 1 * spec_pow(b as int, n as nat) && 1 * spec_pow(
                    b as int,
                    n as nat,
                ) <= a * spec_pow(b as int, n as nat)) by (nonlinear_arith)
                    requires
                        1 <= a,
                        b * b == spec_pow(b as int, 2),
                        spec_pow(b as int, 2) <= spec_pow(b as int, n as nat),
                        1 <= spec_pow(b as int, n as nat),
                ;
            }
        }
        let bb = b * b;
        return exp_rec(a, bb, n / 2);
    }

    proof {
        assert(a * b == 0 ==> a == 0 || b == 0) by (nonlinear_arith);
        lemma_pow_adds(b as int, 1, (n - 1) as nat);
        assert(spec_pow(b as int, 1) == b * spec_pow(b as int, 0));
        assert((a * b) * spec_pow(b as int, (n - 1) as nat) == a * (b * spec_pow(
            b as int,
            (n - 1) as nat,
        ))) by (nonlinear_arith);
        if b >= 1 {
            lemma_pow_pos(b as int, (n - 1) as nat);
            assert(a * b <= a * (b * spec_pow(b as int, (n - 1) as nat))) by (nonlinear_arith)
                requires
                    0 <= a,
                    1 <= b,
                    1 <= spec_pow(b as int, (n - 1) as nat),
            ;
        }
    }
    exp_rec(a * b, b, n - 1)
}

} // verus!
