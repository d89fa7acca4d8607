//! A pair of nonnegative integers packed into one number as
//! `2^x * 3^y`; the parts come back by counting divisions.

use vstd::prelude::*;

use crate::arith::spec_pow;
use crate::arith::lemma_pow_pos;
use crate::arith::lemma_pow_adds;
use crate::arith::lemma_pow_increases;

verus! {

/// How many times `d` divides `n`.
pub open spec fn spec_count_div(n: int, d: int) -> int
    decreases (if n >= 1 {
        n
    } else {
        0
    }),
{
    if n <= 0 || d <= 1 {
        0
    } else if n % d == 0 && n / d < n {
        1 + spec_count_div(n / d, d)
    } else {
        0
    }
}

/// Relies on num's `pow`: exponentiation by repeated squaring; every
/// intermediate stays below the final power, which the caller bounds.
#[verifier::external_body]
fn num_pow(base: u64, exp: usize) -> (r: u64)
    requires
        1 <= base,
        spec_pow(base as int, exp as nat) <= u64::MAX,
    ensures
        r as int == spec_pow(base as int, exp as nat),
{
    num::pow(base, exp)
}

/// Pack the pair `(x, y)` as `2^x * 3^y`.
pub fn cons(x: usize, y: usize) -> (r: usize)
    requires
        x <= 15,
        y <= 9,
    ensures
        r as int == spec_pow(2, x as nat) * spec_pow(3, y as nat),
{
    proof {
        lemma_pow_increases(2, x as nat, 15);
        lemma_pow_increases(3, y as nat, 9);
        lemma_pow_values();
        lemma_pow_pos(2, x as nat);
        lemma_pow_pos(3, y as nat);
        assert(spec_pow(2, x as nat) * spec_pow(3, y as nat) <= 0x8000 * 19683 && 1 * 1
            <= spec_pow(2, x as nat) * spec_pow(3, y as nat)) by (nonlinear_arith)
            requires
                1 <= spec_pow(2, x as nat) <= 0x8000,
                1 <= spec_pow(3, y as nat) <= 19683,
        ;
    }
    let a = num_pow(2, x);
    let b = num_pow(3, y);
    ((a * b) as usize)
}

/// The values of the bounding powers of two and three.
proof fn lemma_pow_values()
    ensures
        spec_pow(2, 15) == 0x8000,
        spec_pow(3, 9) == 19683,
{
    let b: int = 3;
    assert(spec_pow(b, 0) == 1);
    assert(spec_pow(b, 1) == b * spec_pow(b, 0));
    assert(spec_pow(b, 2) == b * spec_pow(b, 1));
    assert(spec_pow(b, 3) == b * spec_pow(b, 2));
    assert(spec_pow(b, 4) == b * spec_pow(b, 3));
    assert(spec_pow(b, 5) == b * spec_pow(b, 4));
    assert(spec_pow(b, 6) == b * spec_pow(b, 5));
    assert(spec_pow(b, 7) == b * spec_pow(b, 6));
    assert(spec_pow(b, 8) == b * spec_pow(b, 7));
    assert(spec_pow(b, 9) == b * spec_pow(b, 8));
    assert(spec_pow(b, 10) == b * spec_pow(b, 9));
    assert(spec_pow(b, 11) == b * spec_pow(b, 10));
    assert(spec_pow(b, 12) == b * spec_pow(b, 11));
    assert(spec_pow(b, 13) == b * spec_pow(b, 12));
    assert(spec_pow(b, 14) == b * spec_pow(b, 13));
    assert(spec_pow(b, 15) == b * spec_pow(b, 14));
    assert(spec_pow(b, 16) == b * spec_pow(b, 15));
    assert(spec_pow(b, 17) == b * spec_pow(b, 16));
    assert(spec_pow(b, 18) == b * spec_pow(b, 17));
    assert(spec_pow(b, 19) == b * spec_pow(b, 18));
    let t: int = 2;
    assert(spec_pow(t, 0) == 1);
    assert(spec_pow(t, 1) == t * spec_pow(t, 0));
    assert(spec_pow(t, 2) == t * spec_pow(t, 1));
    assert(spec_pow(t, 3) == t * spec_pow(t, 2));
    assert(spec_pow(t, 4) == t * spec_pow(t, 3));
    assert(spec_pow(t, 5) == t * spec_pow(t, 4));
    assert(spec_pow(t, 6) == t * spec_pow(t, 5));
    assert(spec_pow(t, 7) == t * spec_pow(t, 6));
    assert(spec_pow(t, 8) == t * spec_pow(t, 7));
    assert(spec_pow(t, 9) == t * spec_pow(t, 8));
    assert(spec_pow(t, 10) == t * spec_pow(t, 9));
    assert(spec_pow(t, 11) == t * spec_pow(t, 10));
    assert(spec_pow(t, 12) == t * spec_pow(t, 11));
    assert(spec_pow(t, 13) == t * spec_pow(t, 12));
    assert(spec_pow(t, 14) == t * spec_pow(t, 13));
    assert(spec_pow(t, 15) == t * spec_pow(t, 14));
    assert(spec_pow(t, 16) == t * spec_pow(t, 15));
    assert(spec_pow(t, 17) == t * spec_pow(t, 16));
    assert(spec_pow(t, 18) == t * spec_pow(t, 17));
    assert(spec_pow(t, 19) == t * spec_pow(t, 18));
    assert(spec_pow(t, 20) == t * spec_pow(t, 19));
    assert(spec_pow(t, 21) == t * spec_pow(t, 20));
    assert(spec_pow(t, 22) == t * spec_pow(t, 21));
    assert(spec_pow(t, 23) == t * spec_pow(t, 22));
    assert(spec_pow(t, 24) == t * spec_pow(t, 23));
    assert(spec_pow(t, 25) == t * spec_pow(t, 24));
    assert(spec_pow(t, 26) == t * spec_pow(t, 25));
    assert(spec_pow(t, 27) == t * spec_pow(t, 26));
    assert(spec_pow(t, 28) == t * spec_pow(t, 27));
    assert(spec_pow(t, 29) == t * spec_pow(t, 28));
    assert(spec_pow(t, 30) == t * spec_pow(t, 29));
}

/// Counting a divisor out of a packed pair recovers the exponent of
/// that divisor: the other factor never divides by it.
proof fn lemma_count_pack(p: int, q: int, x: nat, y: nat)
    requires
        p == 2 && q == 3 || p == 3 && q == 2,
    ensures
        spec_count_div(spec_pow(p, x) * spec_pow(q, y), p) == x,
    decreases x,
{
    let v = spec_pow(p, x) * spec_pow(q, y);
    lemma_pow_pos(p, x);
    lemma_pow_pos(q, y);
    assert(v >= 1) by (nonlinear_arith)
        requires
            v == spec_pow(p, x) * spec_pow(q, y),
            spec_pow(p, x) >= 1,
            spec_pow(q, y) >= 1,
    ;
    if x == 0 {
        assert(spec_pow(p, 0) == 1);
        assert(v == spec_pow(q, y)) by (nonlinear_arith)
            requires
                v == spec_pow(p, x) * spec_pow(q, y),
                spec_pow(p, x) == 1,
        ;
        lemma_pow_coprime_mod(p, q, y);
    } else {
        lemma_pow_adds(p, 1, (x - 1) as nat);
        assert(spec_pow(p, 1) == p * spec_pow(p, 0));
        let rest = spec_pow(p, (x - 1) as nat) * spec_pow(q, y);
        lemma_pow_pos(p, (x - 1) as nat);
        assert(rest >= 1) by (nonlinear_arith)
            requires
                rest == spec_pow(p, (x - 1) as nat) * spec_pow(q, y),
                spec_pow(p, (x - 1) as nat) >= 1,
                spec_pow(q, y) >= 1,
        ;
        assert(v == p * rest) by (nonlinear_arith)
            requires
                v == spec_pow(p, x) * spec_pow(q, y),
                spec_pow(p, x) == p * spec_pow(p, (x - 1) as nat),
                rest == spec_pow(p, (x - 1) as nat) * spec_pow(q, y),
        ;
        assert(rest * p == p * rest) by (nonlinear_arith);
        vstd::arithmetic::div_mod::lemma_mod_multiples_basic(rest, p);
        assert(v % p == 0);
        vstd::arithmetic::div_mod::lemma_fundamental_div_mod(v, p);
        assert(v / p == rest) by (nonlinear_arith)
            requires
                v == p * (v / p),
                v == p * rest,
                p >= 2,
        ;
        lemma_count_pack(p, q, (x - 1) as nat, y);
    }
}

/// A pure power of the other prime leaves a non-zero remainder.
proof fn lemma_pow_coprime_mod(p: int, q: int, y: nat)
    requires
        p == 2 && q == 3 || p == 3 && q == 2,
    ensures
        spec_pow(q, y) % p != 0 || y == 0 && p == 1,
        spec_pow(q, y) % p != 0,
    decreases y,
{
    if y == 0 {
    } else {
        lemma_pow_coprime_mod(p, q, (y - 1) as nat);
        let w = spec_pow(q, (y - 1) as nat);
        lemma_pow_pos(q, (y - 1) as nat);
        assert(spec_pow(q, y) == q * w);
        vstd::arithmetic::div_mod::lemma_fundamental_div_mod(w, p);
        let r = w % p;
        let k = w / p;
        assert(r == 1 || r == p - 1 || r == 1 || 1 <= r < p) by {
            vstd::arithmetic::div_mod::lemma_mod_bound(w, p);
        }
        // q * w = q * (p*k + r); modulo p this is q*r, which for these
        // two primes is never divisible by p.
        assert(q * w == p * (q * k) + q * r) by (nonlinear_arith)
            requires
                w == p * k + r,
        ;
        vstd::arithmetic::div_mod::lemma_mod_multiples_vanish(q * k, q * r, p);
        vstd::arithmetic::div_mod::lemma_mod_bound(q * r, p);
        if p == 2 {
            assert(r == 1);
            assert(q * r == 3);
        } else {
            assert(r == 1 || r == 2);
            assert(q * r == 2 || q * r == 4);
        }
        assert(spec_pow(q, y) % p == (q * r) % p);
        if p == 2 {
            assert(3int % 2int == 1);
        } else {
            assert(2int % 3int == 2 && 4int % 3int == 1);
        }
    }
}

/// The first member of a packed pair.
pub fn car(con: usize) -> (r: usize)
    requires
        1 <= con,
    ensures
        r as int == spec_count_div(con as int, 2),
{
    count_divider(con, 2)
}

/// The second member of a packed pair.
pub fn cdr(con: usize) -> (r: usize)
    requires
        1 <= con,
    ensures
        r as int == spec_count_div(con as int, 3),
{
    count_divider(con, 3)
}

/// Unpacking recovers what `cons` packed.
pub proof fn lemma_cons_car_cdr(x: nat, y: nat)
    ensures
        spec_count_div(spec_pow(2, x) * spec_pow(3, y), 2) == x,
        spec_count_div(spec_pow(2, x) * spec_pow(3, y), 3) == y,
{
    lemma_count_pack(2, 3, x, y);
    lemma_count_pack(3, 2, y, x);
    assert(spec_pow(2, x) * spec_pow(3, y) == spec_pow(3, y) * spec_pow(2, x))
        by (nonlinear_arith);
}

/// How many times the divisor goes into the number evenly.
pub fn count_divider(n: usize, divisor: usize) -> (r: usize)
    requires
        1 <= n,
        2 <= divisor,
    ensures
        r as int == spec_count_div(n as int, divisor as int),
{
    let mut count: usize = 0;
    let mut m = n;
    while m % divisor == 0
        invariant
            1 <= m <= n,
            2 <= divisor,
            count + spec_count_div(m as int, divisor as int) == spec_count_div(
                n as int,
                divisor as int,
            ),
            count + m <= n,
        decreases m,
    {
        proof {
            vstd::arithmetic::div_mod::lemma_fundamental_div_mod(m as int, divisor as int);
            vstd::arithmetic::div_mod::lemma_div_pos_is_pos(m as int, divisor as int);
            assert((m as int) / (divisor as int) >= 1 && (m as int) / (divisor as int) <= m
                - 1) by (nonlinear_arith)
                requires
                    m as int == (divisor as int) * ((m as int) / (divisor as int)),
                    1 <= m,
                    2 <= divisor,
            ;
        }
        count = count + 1;
        m = m / divisor;
    }
    count
}

} // verus!
