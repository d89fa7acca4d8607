//! Primality testing: the exhaustive trial division, and the
//! probabilistic Fermat test over modular exponentiation.

use vstd::prelude::*;

use rand::Rng;

use crate::arith::spec_pow;
use crate::arith::lemma_pow_adds;
use crate::arith::lemma_pow_sq;

verus! {

/// Primality: at least two, with no divisor strictly between one and
/// itself.
pub open spec fn is_prime(n: int) -> bool {
    2 <= n && forall|d: int| 2 <= d < n ==> #[trigger] (n % d) != 0
}

/// Trial division by every candidate below `n`.
pub fn exhaustive_prime_test(n: i64) -> (r: bool)
    ensures
        r == is_prime(n as int),
{
    if n < 2 {
        return false;
    }

    let mut i: i64 = 2;
    while i < n
        invariant
            2 <= i <= n,
            forall|d: int| 2 <= d < i ==> #[trigger] (n as int % d) != 0,
        decreases n - i,
    {
        if n % i == 0 {
            return false;
        }
        i = i + 1;
    }
    true
}

/// Exponentiation of `base` to `exp`, reduced modulo `m`.
/// Squarings halve the exponent; odd steps fold a factor into the
/// accumulator.
pub fn fast_expmod(base: i64, exp: i64, m: i64) -> (r: i64)
    requires
        0 <= base,
        0 <= exp,
        1 <= m <= 0xb504_f333,
    ensures
        r == spec_pow(base as int, exp as nat) % (m as int),
{
    if exp == 0 {
        proof {
            vstd::arithmetic::div_mod::lemma_mod_bound(1, m as int);
        }
        return 1 % m;
    }

    let mut re: i64 = 1 % m;
    let mut b: i64 = base % m;
    let mut e: i64 = exp;
    proof {
        vstd::arithmetic::div_mod::lemma_mod_bound(base as int, m as int);
        vstd::arithmetic::div_mod::lemma_mod_bound(1, m as int);
        lemma_pow_mod_noop(base as int, exp as nat, m as int);
        vstd::arithmetic::div_mod::lemma_mul_mod_noop_left(
            1,
            spec_pow((base % m) as int, exp as nat),
            m as int,
        );
        assert(1 * spec_pow((base % m) as int, exp as nat) == spec_pow(
            (base % m) as int,
            exp as nat,
        ));
    }
    while e != 0
        invariant
            0 <= base,
            0 <= exp,
            0 <= e,
            0 <= b < m,
            0 <= re < m,
            1 <= m <= 0xb504_f333,
            (re * spec_pow(b as int, e as nat)) % (m as int) == spec_pow(
                base as int,
                exp as nat,
            ) % (m as int),
        decreases e,
    {
        if crate::arith::is_even(e) {
            proof {
                lemma_sq_step(re as int, b as int, e as int, m as int);
                assert(0 <= b * b && b * b <= 0xb504_f332 * 0xb504_f332) by (nonlinear_arith)
                    requires
                        0 <= b < m <= 0xb504_f333,
                ;
                vstd::arithmetic::div_mod::lemma_mod_bound(b as int * b as int, m as int);
            }
            b = (b * b) % m;
            e = e / 2;
        } else {
            proof {
                lemma_odd_step(re as int, b as int, e as int, m as int);
                assert(0 <= b * re && b * re <= 0xb504_f332 * 0xb504_f332) by (nonlinear_arith)
                    requires
                        0 <= b < m <= 0xb504_f333,
                        0 <= re < m,
                ;
                vstd::arithmetic::div_mod::lemma_mod_bound(b as int * re as int, m as int);
            }
            re = b * re % m;
            e = e - 1;
        }
    }
    proof {
        assert(spec_pow(b as int, 0) == 1);
        assert(re * 1 == re);
        vstd::arithmetic::div_mod::lemma_small_mod(re as nat, m as nat);
    }
    return re % m;
}

/// Reducing the base first does not change a power taken modulo `m`.
proof fn lemma_pow_mod_noop(b: int, n: nat, m: int)
    requires
        1 <= m,
    ensures
        spec_pow(b % m, n) % m == spec_pow(b, n) % m,
    decreases n,
{
    if n > 0 {
        lemma_pow_mod_noop(b, (n - 1) as nat, m);
        vstd::arithmetic::div_mod::lemma_mul_mod_noop_general(b, spec_pow(b, (n - 1) as nat), m);
        vstd::arithmetic::div_mod::lemma_mul_mod_noop_general(
            b % m,
            spec_pow(b % m, (n - 1) as nat),
            m,
        );
        vstd::arithmetic::div_mod::lemma_mod_twice(b, m);
    }
}

/// One even step: replacing the base by its square reduced modulo `m`
/// and halving the exponent preserves the running congruence.
proof fn lemma_sq_step(re: int, b: int, e: int, m: int)
    requires
        1 <= m,
        0 <= b < m,
        0 <= re < m,
        2 <= e || e % 2 == 0,
        e >= 1,
        e % 2 == 0,
    ensures
        (re * spec_pow(((b * b) % m) as int, (e / 2) as nat)) % m == (re * spec_pow(
            b as int,
            e as nat,
        )) % m,
{
    lemma_pow_sq(b, (e / 2) as nat);
    assert(2 * (e / 2) == e);
    lemma_pow_mod_noop(b * b, (e / 2) as nat, m);
    vstd::arithmetic::div_mod::lemma_mul_mod_noop_right(re, spec_pow((b * b) % m, (e / 2) as nat), m);
    vstd::arithmetic::div_mod::lemma_mul_mod_noop_right(re, spec_pow(b * b, (e / 2) as nat), m);
}

/// One odd step: folding the base into the accumulator modulo `m` and
/// decrementing the exponent preserves the running congruence.
proof fn lemma_odd_step(re: int, b: int, e: int, m: int)
    requires
        1 <= m,
        0 <= b < m,
        0 <= re < m,
        e >= 1,
    ensures
        (((b * re) % m) * spec_pow(b as int, (e - 1) as nat)) % m == (re * spec_pow(
            b as int,
            e as nat,
        )) % m,
{
    lemma_pow_adds(b, 1, (e - 1) as nat);
    assert(spec_pow(b, 1) == b * spec_pow(b, 0));
    vstd::arithmetic::div_mod::lemma_mul_mod_noop_left(b * re, spec_pow(b, (e - 1) as nat), m);
    assert((b * re) * spec_pow(b, (e - 1) as nat) == re * (b * spec_pow(b, (e - 1) as nat)))
        by (nonlinear_arith);
}

/// The Fermat congruence at a given witness: whether the witness
/// raised to `p - 1` is congruent to one modulo `p`.
pub fn fermat_check(p: i64, a: i64) -> (r: bool)
    requires
        2 <= a < p,
        p <= 0xb504_f333,
    ensures
        r == (spec_pow(a as int, (p - 1) as nat) % (p as int) == 1),
{
    fast_expmod(a, p - 1, p) == 1
}

/// Relies on rand's `gen_range`: a sample drawn from a non-empty
/// half-open range lies within that range.
#[verifier::external_body]
fn random_below(p: i64) -> (r: i64)
    requires
        p > 2,
    ensures
        2 <= r < p,
{
    let mut rng = rand::thread_rng();
    rng.gen_range(2..p)
}

/// One round of the Fermat test at a random witness. Small arguments
/// pass outright; otherwise the verdict is the Fermat congruence at
/// some witness between two and `p`.
pub fn fermat_random_test(p: i64) -> (r: bool)
    requires
        p <= 0xb504_f333,
    ensures
        p <= 2 ==> r == true,
        p > 2 ==> exists|a: int|
            2 <= a < p && r == ((#[trigger] spec_pow(a, (p - 1) as nat)) % (p as int) == 1),
{
    if p <= 2 {
        return true;
    }
    let a = random_below(p);
    let ok = fermat_check(p, a);
    proof {
        assert(2 <= (a as int) && (a as int) < p && ok == (spec_pow(a as int, (p - 1) as nat) % (p as int) == 1));
    }
    if !ok {
        return false;
    }
    true
}

/// Repeated rounds of the Fermat test. A refusal names a witness to
/// the failed congruence; acceptance means every round passed at its
/// random witness.
pub fn fast_prime_test(p: i64, n: i64) -> (r: bool)
    requires
        0 <= n < i64::MAX,
        p <= 0xb504_f333,
    ensures
        p <= 2 ==> r == true,
        r == false ==> p > 2 && exists|a: int|
            2 <= a < p && (#[trigger] spec_pow(a, (p - 1) as nat)) % (p as int) != 1,
{
    let mut i: i64 = 0;
    while i < n + 1
        invariant
            0 <= n < i64::MAX,
            p <= 0xb504_f333,
            0 <= i,
        decreases n + 1 - i,
    {
        if !fermat_random_test(p) {
            return false;
        }
        i = i + 1;
    }
    true
}

} // verus!
